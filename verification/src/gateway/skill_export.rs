//! Skill export/import types for fleet sharing via Naseyma Studio.
//!
//! Exposes types and helpers for Studio to pull auto-generated skills
//! from individual ZeroClaw instances and distribute them across the fleet.

use crate::skills::Skill;
use crate::text;
use vstd::prelude::*;

verus! {

/// Payload for exporting a skill to Studio.
#[derive(Debug, Clone)]
pub struct SkillExportPayload {
    pub name: String,
    pub description: String,
    pub version: String,
    pub tags: Vec<String>,
    pub content: String,
    pub industry: Option<String>,
    pub source_instance: String,
}

/// Summary of a skill for listing.
#[derive(Debug, Clone)]
pub struct SkillSummary {
    pub name: String,
    pub tags: Vec<String>,
    pub description: String,
}

/// What a summary says.
#[verifier::ext_equal]
pub struct SummaryView {
    pub name: Seq<char>,
    pub tags: Seq<Seq<char>>,
    pub description: Seq<char>,
}

impl View for SkillSummary {
    type V = SummaryView;

    open spec fn view(&self) -> SummaryView {
        SummaryView {
            name: self.name@,
            tags: text::views(self.tags@),
            description: self.description@,
        }
    }
}

/// The summary of a skill.
pub open spec fn summary_of(s: Skill) -> SummaryView {
    SummaryView { name: s.name@, tags: text::views(s.tags@), description: s.description@ }
}

/// Build skill summaries from loaded skills.
pub fn build_skill_summaries(skills: &[Skill]) -> (r: Vec<SkillSummary>)
    ensures
        r@.map_values(|s: SkillSummary| s@) == skills@.map_values(|s: Skill| summary_of(s)),
{
    let mut r: Vec<SkillSummary> = Vec::new();
    for i in 0..skills.len()
        invariant
            r@.len() == i,
            forall|k: int| 0 <= k < i ==> (#[trigger] r@[k])@ == summary_of(skills@[k]),
    {
        let s = &skills[i];
        r.push(
            SkillSummary {
                name: s.name.clone(),
                tags: text::copied_strings(&s.tags),
                description: s.description.clone(),
            },
        );
    }
    proof {
        assert(r@.map_values(|s: SkillSummary| s@) =~= skills@.map_values(
            |s: Skill| summary_of(s),
        ));
    }
    r
}

/// Build an export payload for a specific skill.
pub fn build_export_payload(skill: &Skill, content: &str, source_instance: &str) -> (r:
    SkillExportPayload)
    ensures
        r.name@ == skill.name@,
        r.description@ == skill.description@,
        r.version@ == skill.version@,
        text::views(r.tags@) == text::views(skill.tags@),
        r.content@ == content@,
        r.industry is None,
        r.source_instance@ == source_instance@,
{
    SkillExportPayload {
        name: skill.name.clone(),
        description: skill.description.clone(),
        version: skill.version.clone(),
        tags: text::copied_strings(&skill.tags),
        content: content.to_string(),
        industry: None,
        source_instance: source_instance.to_string(),
    }
}

/// The tag of a skill that an agent wrote itself.
pub const AUTO_GENERATED: &'static str = "auto-generated";

/// The summary has the tag of a skill that an agent wrote itself.
pub open spec fn is_exportable(s: SummaryView) -> bool {
    s.tags.contains(AUTO_GENERATED@)
}

/// Those of the summaries that may be exported, in order.
pub open spec fn exportable(all: Seq<SummaryView>) -> Seq<SummaryView> {
    all.filter(|s: SummaryView| is_exportable(s))
}

/// Filter skills to only those that are auto-generated (tagged).
pub fn filter_exportable(summaries: &[SkillSummary]) -> (r: Vec<&SkillSummary>)
    ensures
        r@.map_values(|s: &SkillSummary| s@) == exportable(
            summaries@.map_values(|s: SkillSummary| s@),
        ),
{
    let ghost all = summaries@.map_values(|s: SkillSummary| s@);
    let ghost wanted = |s: SummaryView| is_exportable(s);
    let mut r: Vec<&SkillSummary> = Vec::new();
    proof {
        reveal(Seq::filter);
        assert(r@.map_values(|s: &SkillSummary| s@) =~= all.take(0).filter(wanted));
    }
    for i in 0..summaries.len()
        invariant
            all == summaries@.map_values(|s: SkillSummary| s@),
            wanted == |s: SummaryView| is_exportable(s),
            r@.map_values(|s: &SkillSummary| s@) == all.take(i as int).filter(wanted),
    {
        let ghost before = r@.map_values(|s: &SkillSummary| s@);
        proof {
            reveal(Seq::filter);
            assert(all.take(i + 1).drop_last() =~= all.take(i as int));
            assert(all.take(i + 1).last() == summaries@[i as int]@);
        }
        if text::has_text(&summaries[i].tags, AUTO_GENERATED) {
            r.push(&summaries[i]);
            proof {
                assert(r@.map_values(|s: &SkillSummary| s@) =~= before.push(
                    summaries@[i as int]@,
                ));
            }
        }
    }
    proof {
        assert(all.take(all.len() as int) =~= all);
    }
    r
}

/// Only tagged skills are exported, and every tagged one is.
pub proof fn law_only_tagged_skills_are_exported(all: Seq<SummaryView>, s: SummaryView)
    ensures
        exportable(all).contains(s) <==> all.contains(s) && is_exportable(s),
    decreases all.len(),
{
    reveal(Seq::filter);
    let found = exportable(all);
    if all.len() > 0 {
        let rest = all.drop_last();
        let before = exportable(rest);
        law_only_tagged_skills_are_exported(rest, s);
        if found.contains(s) {
            let i = choose|i: int| 0 <= i < found.len() && found[i] == s;
            if i < before.len() {
                assert(before[i] == s);
                assert(before.contains(s));
                let k = choose|k: int| 0 <= k < rest.len() && rest[k] == s;
                assert(all[k] == s);
            } else {
                assert(all[all.len() - 1] == s);
            }
        }
        if all.contains(s) && is_exportable(s) {
            let k = choose|k: int| 0 <= k < all.len() && all[k] == s;
            if k < rest.len() {
                assert(rest[k] == s);
                assert(rest.contains(s));
                let i = choose|i: int| 0 <= i < before.len() && before[i] == s;
                assert(found[i] == s);
            } else {
                assert(found[found.len() - 1] == s);
            }
        }
    }
}

/// A summary says of a skill its name, its description and its tags.
pub proof fn law_summaries_tell_the_skill(s: Skill)
    ensures
        summary_of(s).name == s.name@,
        summary_of(s).description == s.description@,
        summary_of(s).tags == text::views(s.tags@),
{
}

/// A summary with the tag of what an agent wrote is exported, another is not, and
/// the order of the list is kept.
pub proof fn law_tagged_skills_are_exported_in_order(
    a: Seq<SummaryView>,
    b: Seq<SummaryView>,
    s: SummaryView,
)
    ensures
        exportable(a + b) == exportable(a) + exportable(b),
        s.tags.contains("auto-generated"@) ==> exportable(seq![s]) == seq![s],
        !s.tags.contains("auto-generated"@) ==> exportable(seq![s]).len() == 0,
{
    reveal(Seq::filter);
    let picks = |s: SummaryView| is_exportable(s);
    Seq::filter_distributes_over_add(a, b, picks);
    assert(seq![s].drop_last() =~= Seq::<SummaryView>::empty());
    assert(seq![s].drop_last().filter(picks) =~= Seq::<SummaryView>::empty());
    assert(seq![s].last() == s);
    if is_exportable(s) {
        assert(exportable(seq![s]) =~= seq![s]);
    }
}

} // verus!
