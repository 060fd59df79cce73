//! Config validation and migration helpers exposed as library API.
//!
//! # `zeroclaw config validate`
//!
//! Checks a TOML config for:
//! - Structural errors (fails to parse or deserialize).
//! - Unknown top-level keys (warns, or errors in `--strict` mode).
//! - Semantic errors found by the validators of the config schema.
//!
//! # `zeroclaw config migrate`
//!
//! Rewrites legacy `[tools.X]` TOML sections to top-level `[X]` sections
//! (e.g. `[tools.http_request]` → `[http_request]`).

use crate::config::toml_table;
use crate::text;
use vstd::prelude::*;

verus! {

/// Outcome of `validate_config_toml`.
#[derive(Debug, Clone, PartialEq, Eq)]
pub enum ValidationOutcome {
    /// Config is valid. `warnings` may still contain advisory messages.
    Valid { warnings: Vec<String> },
    /// Config has errors (always fatal). Warnings are also included.
    Errors { errors: Vec<String>, warnings: Vec<String> },
}

impl ValidationOutcome {
    /// Returns `true` if there are no errors (warnings are allowed).
    pub fn is_ok(&self) -> (r: bool)
        ensures
            r == (self is Valid),
    {
        match self {
            ValidationOutcome::Valid { .. } => true,
            ValidationOutcome::Errors { .. } => false,
        }
    }
}

/// What a validation found.
#[verifier::ext_equal]
pub struct Findings {
    pub errors: Seq<Seq<char>>,
    pub warnings: Seq<Seq<char>>,
}

/// An outcome tells findings: it is `Valid` where there are no errors.
pub open spec fn tells(outcome: ValidationOutcome, found: Findings) -> bool {
    match outcome {
        ValidationOutcome::Valid { warnings } => found.errors.len() == 0 && text::views(warnings@)
            == found.warnings,
        ValidationOutcome::Errors { errors, warnings } => found.errors.len() > 0 && text::views(
            errors@,
        ) == found.errors && text::views(warnings@) == found.warnings,
    }
}

/// What the config schema makes of a text.
#[derive(Debug, Clone)]
pub struct SchemaCheck {
    /// Why the text does not deserialize, where it does not.
    pub deserialize_error: Option<String>,
    /// The top-level keys that the schema knows.
    pub known_keys: Vec<String>,
    /// What the validators of the schema object to.
    pub semantic_error: Option<String>,
}

// ---------------------------------------------------------------------------
// Validate
// ---------------------------------------------------------------------------

/// The note on a key that the schema does not know.
pub open spec fn unknown_note(key: Seq<char>) -> Seq<char> {
    "Unknown config key: \""@ + key + "\". Check for typos or deprecated options."@
}

/// The note on a section that belongs to the top level.
pub open spec fn legacy_note(key: Seq<char>) -> Seq<char> {
    "Legacy config section [tools."@ + key
        + "] detected. Run `zeroclaw config migrate` to rewrite it as ["@ + key
        + "] at the top level."@
}

/// The notes on those of the keys that the schema does not know.
pub open spec fn unknown_notes(keys: Seq<Seq<char>>, known: Seq<Seq<char>>) -> Seq<Seq<char>>
    decreases keys.len(),
{
    if keys.len() == 0 {
        Seq::<Seq<char>>::empty()
    } else {
        let before = unknown_notes(keys.drop_last(), known);
        if known.contains(keys.last()) {
            before
        } else {
            before.push(unknown_note(keys.last()))
        }
    }
}

/// The sections under `tools`; none where that is not a table.
pub open spec fn legacy_sections(content: Map<Seq<char>, toml::Value>) -> Option<
    Map<Seq<char>, toml::Value>,
> {
    if content.contains_key("tools"@) {
        toml_table::value_table(content["tools"@])
    } else {
        None
    }
}

/// The names of the sections under `tools`.
pub open spec fn legacy_names(content: Map<Seq<char>, toml::Value>) -> Seq<Seq<char>> {
    match legacy_sections(content) {
        Some(tools) => toml_table::key_list(tools),
        None => Seq::<Seq<char>>::empty(),
    }
}

/// The error of the validators of the schema.
pub open spec fn semantic_errors(error: Option<Seq<char>>) -> Seq<Seq<char>> {
    match error {
        Some(e) => seq!["Semantic validation error: "@ + e],
        None => Seq::<Seq<char>>::empty(),
    }
}

/// What is found in a config with the given top-level keys and sections under
/// `tools`. In strict mode notes are errors.
pub open spec fn key_findings(
    keys: Seq<Seq<char>>,
    sections: Seq<Seq<char>>,
    strict: bool,
    known: Seq<Seq<char>>,
    semantic: Option<Seq<char>>,
) -> Findings {
    let notes = unknown_notes(keys, known) + sections.map_values(|k: Seq<char>| legacy_note(k));
    if strict {
        Findings { errors: notes + semantic_errors(semantic), warnings: Seq::empty() }
    } else {
        Findings { errors: semantic_errors(semantic), warnings: notes }
    }
}

/// What is found in a config that parses and deserializes.
pub open spec fn content_findings(
    content: Map<Seq<char>, toml::Value>,
    strict: bool,
    known: Seq<Seq<char>>,
    semantic: Option<Seq<char>>,
) -> Findings {
    key_findings(
        toml_table::key_list(content),
        legacy_names(content),
        strict,
        known,
        semantic,
    )
}

/// What is found in a config.
pub open spec fn findings(
    parsed: Result<Map<Seq<char>, toml::Value>, Seq<char>>,
    strict: bool,
    check: SchemaCheck,
) -> Findings {
    match parsed {
        Err(e) => Findings { errors: seq!["TOML parse error: "@ + e], warnings: Seq::empty() },
        Ok(content) => match check.deserialize_error {
            Some(e) => Findings {
                errors: seq!["Config deserialization error: "@ + e@],
                warnings: Seq::empty(),
            },
            None => content_findings(
                content,
                strict,
                text::views(check.known_keys@),
                text::view_opt_string(check.semantic_error),
            ),
        },
    }
}

fn one_error(message: String) -> (r: ValidationOutcome)
    ensures
        tells(r, Findings { errors: seq![message@], warnings: Seq::empty() }),
{
    let ghost said = message@;
    let mut errors: Vec<String> = Vec::new();
    errors.push(message);
    let warnings: Vec<String> = Vec::new();
    proof {
        assert(text::views(errors@) =~= seq![said]);
        assert(text::views(warnings@) =~= Seq::<Seq<char>>::empty());
    }
    ValidationOutcome::Errors { errors, warnings }
}

/// The notes on the keys that the schema does not know and on the sections that
/// belong to the top level.
fn notes_on(keys: &Vec<String>, sections: &Vec<String>, known: &Vec<String>) -> (r: Vec<String>)
    ensures
        text::views(r@) == unknown_notes(text::views(keys@), text::views(known@)) + text::views(
            sections@,
        ).map_values(|k: Seq<char>| legacy_note(k)),
{
    let ghost all = text::views(keys@);
    let ghost knows = text::views(known@);
    let mut r: Vec<String> = Vec::new();
    proof {
        assert(all.take(0) =~= Seq::<Seq<char>>::empty());
        assert(text::views(r@) =~= Seq::<Seq<char>>::empty());
    }
    for i in 0..keys.len()
        invariant
            all == text::views(keys@),
            knows == text::views(known@),
            text::views(r@) == unknown_notes(all.take(i as int), knows),
    {
        let ghost before = text::views(r@);
        proof {
            assert(all.take(i + 1).drop_last() =~= all.take(i as int));
            assert(all.take(i + 1).last() == keys@[i as int]@);
        }
        if !text::has_text(known, keys[i].as_str()) {
            r.push(
                text::cat3(
                    "Unknown config key: \"",
                    keys[i].as_str(),
                    "\". Check for typos or deprecated options.",
                ),
            );
            proof {
                assert(text::views(r@) =~= before.push(unknown_note(keys@[i as int]@)));
            }
        }
    }
    let ghost unknown = text::views(r@);
    let ghost wanted = text::views(sections@).map_values(|k: Seq<char>| legacy_note(k));
    proof {
        assert(all.take(all.len() as int) =~= all);
        assert(unknown + wanted.take(0) =~= unknown);
    }
    for i in 0..sections.len()
        invariant
            wanted == text::views(sections@).map_values(|k: Seq<char>| legacy_note(k)),
            text::views(r@) == unknown + wanted.take(i as int),
    {
        let ghost before = text::views(r@);
        let key = sections[i].as_str();
        r.push(
            text::cat5(
                "Legacy config section [tools.",
                key,
                "] detected. Run `zeroclaw config migrate` to rewrite it as [",
                key,
                "] at the top level.",
            ),
        );
        proof {
            assert(wanted[i as int] == legacy_note(key@));
            assert(text::views(r@) =~= before.push(legacy_note(key@)));
            assert(unknown + wanted.take(i + 1) =~= before.push(legacy_note(key@)));
        }
    }
    proof {
        assert(wanted.take(wanted.len() as int) =~= wanted);
    }
    r
}

/// The names of the sections under `tools`.
fn section_names(t: &toml::map::Map<String, toml::Value>) -> (r: Vec<String>)
    ensures
        text::views(r@) == legacy_names(toml_table::table_content(*t)),
{
    if let Some(v) = toml_table::table_get(t, "tools") {
        if let Some(tools) = toml_table::as_table(v) {
            let names = toml_table::table_keys(tools);
            proof {
                toml_table::lemma_key_list(
                    text::views(names@),
                    toml_table::table_content(*tools),
                );
            }
            return names;
        }
    }
    let names: Vec<String> = Vec::new();
    proof {
        assert(text::views(names@) =~= Seq::<Seq<char>>::empty());
    }
    names
}

/// Validates a config that parses and deserializes, given its top-level keys and
/// the names of the sections under `tools`.
pub fn judge_keys(
    keys: &Vec<String>,
    sections: &Vec<String>,
    strict: bool,
    known: &Vec<String>,
    semantic: &Option<String>,
) -> (r: ValidationOutcome)
    ensures
        tells(
            r,
            key_findings(
                text::views(keys@),
                text::views(sections@),
                strict,
                text::views(known@),
                text::view_opt_string(*semantic),
            ),
        ),
{
    let notes = notes_on(keys, sections, known);
    let mut errors: Vec<String> = Vec::new();
    let mut warnings: Vec<String> = Vec::new();
    proof {
        assert(text::views(errors@) =~= Seq::<Seq<char>>::empty());
        assert(text::views(warnings@) =~= Seq::<Seq<char>>::empty());
    }
    if strict {
        errors = notes;
    } else {
        warnings = notes;
    }
    let ghost before = text::views(errors@);
    if let Some(e) = semantic {
        errors.push(text::cat2("Semantic validation error: ", e.as_str()));
        proof {
            assert(text::views(errors@) =~= before + semantic_errors(Some(e@)));
        }
    } else {
        proof {
            assert(text::views(errors@) =~= before + semantic_errors(None));
        }
    }
    proof {
        assert(Seq::<Seq<char>>::empty() + semantic_errors(text::view_opt_string(*semantic))
            =~= semantic_errors(text::view_opt_string(*semantic)));
        assert(text::views(errors@).len() == errors@.len());
    }
    if errors.len() == 0 {
        ValidationOutcome::Valid { warnings }
    } else {
        ValidationOutcome::Errors { errors, warnings }
    }
}

/// Validate TOML content without touching the filesystem.
///
/// * `strict` — when `true`, unknown top-level keys are promoted to errors
///   instead of warnings. Use this for CI or `--strict` mode.
/// * `check` — what the config schema makes of the same text.
pub fn validate_config_toml(toml: &str, strict: bool, check: &SchemaCheck) -> (r: ValidationOutcome)
    ensures
        tells(r, findings(toml_table::toml_parse(toml@), strict, *check)),
{
    let table = match toml_table::parse_table(toml) {
        Ok(t) => t,
        Err(e) => {
            let said = toml_table::error_text(&e);
            return one_error(text::cat2("TOML parse error: ", said.as_str()));
        },
    };
    if let Some(e) = &check.deserialize_error {
        return one_error(text::cat2("Config deserialization error: ", e.as_str()));
    }
    let keys = toml_table::table_keys(&table);
    let sections = section_names(&table);
    proof {
        toml_table::lemma_key_list(text::views(keys@), toml_table::table_content(table));
    }
    judge_keys(&keys, &sections, strict, &check.known_keys, &check.semantic_error)
}

// ---------------------------------------------------------------------------
// Migrate
// ---------------------------------------------------------------------------

/// Why a migration failed.
#[derive(Debug, Clone, Copy, PartialEq, Eq, Structural)]
pub enum MigrateError {
    /// The text is not TOML.
    Parse,
    /// The migrated table cannot be written.
    Write,
}

impl MigrateError {
    /// The error in words.
    pub fn message(&self) -> (r: &'static str)
        ensures
            r@ == match self {
                MigrateError::Parse => "Failed to parse TOML before migration"@,
                MigrateError::Write => "Failed to re-serialize migrated TOML"@,
            },
    {
        match self {
            MigrateError::Parse => "Failed to parse TOML before migration",
            MigrateError::Write => "Failed to re-serialize migrated TOML",
        }
    }
}

/// The table with the sections under `tools` at the top level. Where a section
/// is there already, that one stays.
pub open spec fn lifted(
    content: Map<Seq<char>, toml::Value>,
    tools: Map<Seq<char>, toml::Value>,
) -> Map<Seq<char>, toml::Value> {
    tools.union_prefer_right(content.remove("tools"@))
}

/// Those of the keys that `top` does not hold.
pub open spec fn not_among(keys: Seq<Seq<char>>, top: Map<Seq<char>, toml::Value>) -> Seq<Seq<char>>
    decreases keys.len(),
{
    if keys.len() == 0 {
        keys
    } else {
        let before = not_among(keys.drop_last(), top);
        if top.contains_key(keys.last()) {
            before
        } else {
            before.push(keys.last())
        }
    }
}

/// The names of the sections that move to the top level: those that no section
/// there has already.
pub open spec fn moved(
    content: Map<Seq<char>, toml::Value>,
    tools: Map<Seq<char>, toml::Value>,
) -> Seq<Seq<char>> {
    not_among(toml_table::key_list(tools), content.remove("tools"@))
}

/// The migrated text and the sections that moved to the top level. A text
/// without sections under `tools` stays as it is.
pub open spec fn migration(toml: Seq<char>) -> Result<
    (Seq<char>, Seq<Seq<char>>),
    MigrateError,
> {
    match toml_table::toml_parse(toml) {
        Err(_) => Err(MigrateError::Parse),
        Ok(content) => match legacy_sections(content) {
            None => Ok((toml, Seq::<Seq<char>>::empty())),
            Some(tools) => match toml_table::toml_text(lifted(content, tools)) {
                Some(s) => Ok((s, moved(content, tools))),
                None => Err(MigrateError::Write),
            },
        },
    }
}

/// The view of a migration.
pub open spec fn migration_view(r: Result<(String, Vec<String>), MigrateError>) -> Result<
    (Seq<char>, Seq<Seq<char>>),
    MigrateError,
> {
    match r {
        Ok((s, keys)) => Ok((s@, text::views(keys@))),
        Err(e) => Err(e),
    }
}

fn unchanged(toml: &str) -> (r: Result<(String, Vec<String>), MigrateError>)
    ensures
        migration_view(r) == Ok::<(Seq<char>, Seq<Seq<char>>), MigrateError>(
            (toml@, Seq::<Seq<char>>::empty()),
        ),
{
    let none: Vec<String> = Vec::new();
    proof {
        assert(text::views(none@) =~= Seq::<Seq<char>>::empty());
    }
    Ok((toml.to_string(), none))
}

/// Lifts the sections under `tools` to the top level: the new table and the names
/// of the sections that moved; none where there are no such sections.
pub fn lift_sections(table: toml::map::Map<String, toml::Value>) -> (r: Option<
    (toml::map::Map<String, toml::Value>, Vec<String>),
>)
    ensures
        ({
            let content = toml_table::table_content(table);
            match legacy_sections(content) {
                None => r is None,
                Some(tools) => r matches Some((t, keys)) && toml_table::table_content(t) == lifted(
                    content,
                    tools,
                ) && text::views(keys@) == moved(content, tools),
            }
        }),
{
    let mut table = table;
    let ghost content = toml_table::table_content(table);
    let value = match toml_table::table_remove(&mut table, "tools") {
        Some(v) => v,
        None => {
            return None;
        },
    };
    let mut sections = match toml_table::into_table(value) {
        Some(t) => t,
        None => {
            return None;
        },
    };
    let keys = toml_table::table_keys(&sections);
    let mut gone: Vec<String> = Vec::new();
    let ghost top = content.remove("tools"@);
    let ghost tools = toml_table::table_content(sections);
    let ghost names = text::views(keys@);
    proof {
        toml_table::lemma_key_list(names, tools);
        assert(names.take(0) =~= Seq::<Seq<char>>::empty());
        assert(text::views(gone@) =~= Seq::<Seq<char>>::empty());
    }
    for i in 0..keys.len()
        invariant
            names == text::views(keys@),
            toml_table::is_key_list(names, tools),
            text::views(gone@) == not_among(names.take(i as int), top),
            forall|k: int|
                i <= k < names.len() ==> toml_table::table_content(sections).contains_key(
                    #[trigger] names[k],
                ) && toml_table::table_content(sections)[names[k]] == tools[names[k]],
            forall|key: Seq<char>| #[trigger]
                toml_table::table_content(table).contains_key(key) <==> top.contains_key(key)
                    || names.take(i as int).contains(key),
            forall|key: Seq<char>| #[trigger]
                toml_table::table_content(table).contains_key(key) ==> toml_table::table_content(
                    table,
                )[key] == if top.contains_key(key) {
                    top[key]
                } else {
                    tools[key]
                },
    {
        let ghost before = toml_table::table_content(table);
        let ghost listed = text::views(gone@);
        let key = keys[i].as_str();
        proof {
            assert(names[i as int] == key@);
            assert(names.take(i + 1) =~= names.take(i as int).push(key@));
            assert(names.take(i + 1).drop_last() =~= names.take(i as int));
            assert forall|k: int| i < k < names.len() implies #[trigger] names[k] != key@ by {
                text::lemma_precedes_total(names[i as int], names[k]);
            }
            assert forall|k: Seq<char>| #[trigger] names.take(i + 1).contains(k) <==> names.take(
                i as int,
            ).contains(k) || k == key@ by {
                if names.take(i as int).contains(k) {
                    let j = choose|j: int|
                        0 <= j < names.take(i as int).len() && names.take(i as int)[j] == k;
                    assert(names.take(i + 1)[j] == k);
                }
                if k == key@ {
                    assert(names.take(i + 1)[i as int] == k);
                }
            }
            assert(!names.take(i as int).contains(key@)) by {
                if names.take(i as int).contains(key@) {
                    let j = choose|j: int|
                        0 <= j < names.take(i as int).len() && names.take(i as int)[j] == key@;
                    text::lemma_precedes_total(names[j], names[i as int]);
                }
            }
        }
        if let Some(v) = toml_table::table_remove(&mut sections, key) {
            // Top-level key collision: prefer the existing top-level entry.
            if !toml_table::table_contains(&table, key) {
                toml_table::table_insert(&mut table, keys[i].clone(), v);
                gone.push(keys[i].clone());
                proof {
                    assert(text::views(gone@) =~= listed.push(key@));
                }
            }
        }
        proof {
            assert(before.contains_key(key@) <==> top.contains_key(key@) || names.take(
                i as int,
            ).contains(key@));
            assert forall|k: Seq<char>| #[trigger]
                toml_table::table_content(table).contains_key(k) <==> top.contains_key(k)
                    || names.take(i + 1).contains(k) by {
                assert(before.contains_key(k) <==> top.contains_key(k) || names.take(
                    i as int,
                ).contains(k));
            }
        }
    }
    proof {
        assert(names.take(names.len() as int) =~= names);
        assert(toml_table::table_content(table) =~= lifted(content, tools));
    }
    Some((table, gone))
}

/// Rewrite `[tools.X]` TOML sections to top-level `[X]` sections.
///
/// Returns the migrated TOML string and a list of keys that were migrated.
/// If no `[tools]` table is present, returns the original string unchanged
/// with an empty migration list. A section that conflicts with an existing
/// top-level one is dropped and not listed.
///
/// The caller is responsible for any file I/O and backup creation.
pub fn migrate_tools_prefix(toml: &str) -> (r: Result<(String, Vec<String>), MigrateError>)
    ensures
        migration_view(r) == migration(toml@),
{
    let table = match toml_table::parse_table(toml) {
        Ok(t) => t,
        Err(_) => {
            return Err(MigrateError::Parse);
        },
    };
    match lift_sections(table) {
        None => unchanged(toml),
        Some((t, keys)) => match toml_table::table_text(&t) {
            Ok(s) => Ok((s, keys)),
            Err(_) => Err(MigrateError::Write),
        },
    }
}

// ---------------------------------------------------------------------------
// Laws
// ---------------------------------------------------------------------------

/// Strict mode makes errors of the warnings and changes nothing else.
pub proof fn law_strict_mode_promotes_warnings(
    content: Map<Seq<char>, toml::Value>,
    known: Seq<Seq<char>>,
    semantic: Option<Seq<char>>,
)
    ensures
        ({
            let lax = content_findings(content, false, known, semantic);
            let strict = content_findings(content, true, known, semantic);
            strict.errors == lax.warnings + lax.errors && strict.warnings.len() == 0
        }),
{
}

/// Migration keeps every other top-level section as it is, and a section that
/// stood at the top level wins over one of the same name under `tools`.
pub proof fn law_top_level_sections_are_kept(
    content: Map<Seq<char>, toml::Value>,
    tools: Map<Seq<char>, toml::Value>,
    key: Seq<char>,
)
    requires
        content.contains_key(key),
        key != "tools"@,
    ensures
        lifted(content, tools).contains_key(key),
        lifted(content, tools)[key] == content[key],
{
}

/// Every section under `tools` is at the top level after migration, with its
/// own value where none stood there before.
pub proof fn law_every_section_is_lifted(
    content: Map<Seq<char>, toml::Value>,
    tools: Map<Seq<char>, toml::Value>,
    key: Seq<char>,
)
    requires
        tools.contains_key(key),
    ensures
        lifted(content, tools).contains_key(key),
        !content.contains_key(key) ==> lifted(content, tools)[key] == tools[key],
{
}

/// The sections that are listed as migrated are exactly those under `tools` that
/// no section at the top level stands in the way of; each has the value that it
/// had under `tools`.
pub proof fn law_listed_sections_are_those_that_moved(
    content: Map<Seq<char>, toml::Value>,
    tools: Map<Seq<char>, toml::Value>,
    keys: Seq<Seq<char>>,
    key: Seq<char>,
)
    requires
        toml_table::is_key_list(keys, tools),
    ensures
        moved(content, tools).contains(key) <==> tools.contains_key(key) && !content.remove(
            "tools"@,
        ).contains_key(key),
        moved(content, tools).contains(key) ==> lifted(content, tools)[key] == tools[key],
{
    toml_table::lemma_key_list(keys, tools);
    lemma_not_among(keys, content.remove("tools"@), key);
}

proof fn lemma_not_among(
    keys: Seq<Seq<char>>,
    top: Map<Seq<char>, toml::Value>,
    key: Seq<char>,
)
    ensures
        not_among(keys, top).contains(key) <==> keys.contains(key) && !top.contains_key(key),
    decreases keys.len(),
{
    if keys.len() > 0 {
        let rest = keys.drop_last();
        let last = keys.last();
        let before = not_among(rest, top);
        lemma_not_among(rest, top, key);
        assert(keys =~= rest.push(last));
        if rest.contains(key) {
            let i = choose|i: int| 0 <= i < rest.len() && rest[i] == key;
            assert(keys[i] == key);
        }
        if before.contains(key) {
            let i = choose|i: int| 0 <= i < before.len() && before[i] == key;
            assert(before.push(last)[i] == key);
        }
        if last == key {
            assert(keys[keys.len() - 1] == key);
            assert(before.push(last)[before.len() as int] == key);
        }
        if keys.contains(key) && last != key {
            let i = choose|i: int| 0 <= i < keys.len() && keys[i] == key;
            assert(rest[i] == key);
        }
        if before.push(last).contains(key) && last != key {
            let i = choose|i: int| 0 <= i < before.push(last).len() && before.push(last)[i] == key;
            assert(before[i] == key);
        }
    }
}

/// After migration no section is legacy any more, unless one is itself called
/// `tools`; migrating such a table again would change nothing.
pub proof fn law_migration_leaves_no_legacy_sections(
    content: Map<Seq<char>, toml::Value>,
    tools: Map<Seq<char>, toml::Value>,
)
    requires
        !tools.contains_key("tools"@),
    ensures
        !lifted(content, tools).contains_key("tools"@),
        legacy_sections(lifted(content, tools)) is None,
        legacy_names(lifted(content, tools)).len() == 0,
{
}

/// A text that reads as a migrated table is left as it is by a second migration,
/// unless a section is itself called `tools`.
pub proof fn law_second_migration_changes_nothing(
    content: Map<Seq<char>, toml::Value>,
    tools: Map<Seq<char>, toml::Value>,
    written: Seq<char>,
)
    requires
        !tools.contains_key("tools"@),
        toml_table::toml_parse(written) == Ok::<_, Seq<char>>(lifted(content, tools)),
    ensures
        migration(written) == Ok::<(Seq<char>, Seq<Seq<char>>), MigrateError>(
            (written, Seq::<Seq<char>>::empty()),
        ),
{
    law_migration_leaves_no_legacy_sections(content, tools);
}

/// An outcome is `Valid` exactly where nothing was found that is an error; it
/// tells the errors and the warnings as they were found.
pub proof fn law_outcomes_tell_what_was_found(outcome: ValidationOutcome, found: Findings)
    requires
        tells(outcome, found),
    ensures
        outcome is Valid <==> found.errors.len() == 0,
        outcome is Valid ==> text::views(outcome->Valid_warnings@) == found.warnings,
        outcome is Errors ==> text::views(outcome->errors@) == found.errors && text::views(
            outcome->Errors_warnings@,
        ) == found.warnings,
{
}

/// The note on an unknown key quotes it; the note on a section under `tools` names
/// the section, and the one that is to be in its place.
pub proof fn law_notes_name_the_key(key: Seq<char>)
    ensures
        text::has_prefix(unknown_note(key), "Unknown config key: \""@ + key + "\""@),
        text::has_prefix(legacy_note(key), "Legacy config section [tools."@ + key + "]"@),
        text::has_suffix(legacy_note(key), " ["@ + key + "] at the top level."@),
{
    let end = "\". Check for typos or deprecated options."@;
    reveal_strlit("\". Check for typos or deprecated options.");
    reveal_strlit("\"");
    assert(end =~= "\""@ + end.skip(1));
    let a = "Unknown config key: \""@ + key + "\""@;
    assert(unknown_note(key) =~= a + end.skip(1));
    text::lemma_prefix(a, end.skip(1));
    let middle = "] detected. Run `zeroclaw config migrate` to rewrite it as ["@;
    let last = "] at the top level."@;
    reveal_strlit("] detected. Run `zeroclaw config migrate` to rewrite it as [");
    reveal_strlit("]");
    reveal_strlit(" [");
    assert(middle =~= "]"@ + middle.skip(1));
    let n = middle.len() - 2;
    assert(middle =~= middle.take(n) + " ["@);
    let b = "Legacy config section [tools."@ + key;
    assert(legacy_note(key) =~= (b + "]"@) + (middle.skip(1) + key + last));
    text::lemma_prefix(b + "]"@, middle.skip(1) + key + last);
    assert(legacy_note(key) =~= (b + middle.take(n)) + (" ["@ + key + last));
    text::lemma_suffix(b + middle.take(n), " ["@ + key + last);
}

/// There is a note on every key that the schema does not know and on no other, in
/// the order of the keys.
pub proof fn law_unknown_keys_are_noted(
    a: Seq<Seq<char>>,
    b: Seq<Seq<char>>,
    key: Seq<char>,
    known: Seq<Seq<char>>,
)
    ensures
        unknown_notes(a + b, known) == unknown_notes(a, known) + unknown_notes(b, known),
        known.contains(key) ==> unknown_notes(seq![key], known).len() == 0,
        !known.contains(key) ==> unknown_notes(seq![key], known) == seq![unknown_note(key)],
        unknown_notes(Seq::<Seq<char>>::empty(), known).len() == 0,
    decreases b.len(),
{
    assert(seq![key].drop_last() =~= Seq::<Seq<char>>::empty());
    assert(unknown_notes(seq![key].drop_last(), known) =~= Seq::<Seq<char>>::empty());
    if b.len() == 0 {
        assert(a + b =~= a);
    } else {
        law_unknown_keys_are_noted(a, b.drop_last(), key, known);
        assert((a + b).drop_last() =~= a + b.drop_last());
        assert((a + b).last() == b.last());
    }
}

/// Without strict mode the only error is that of the validators. In strict mode a
/// config is in order exactly where the schema knows every key, nothing stands
/// under `tools`, and the validators do not object. The notes on keys come before
/// those on sections.
pub proof fn law_configs_in_order(
    keys: Seq<Seq<char>>,
    sections: Seq<Seq<char>>,
    known: Seq<Seq<char>>,
    semantic: Option<Seq<char>>,
)
    ensures
        ({
            let lax = key_findings(keys, sections, false, known, semantic);
            let strict = key_findings(keys, sections, true, known, semantic);
            &&& lax.errors.len() == if semantic is Some {
                1nat
            } else {
                0nat
            }
            &&& semantic is Some ==> text::has_suffix(lax.errors[0], semantic->0)
                && text::has_prefix(lax.errors[0], "Semantic validation error: "@)
            &&& lax.warnings.len() == unknown_notes(keys, known).len() + sections.len()
            &&& lax.warnings.take(unknown_notes(keys, known).len() as int) == unknown_notes(
                keys,
                known,
            )
            &&& forall|i: int|
                0 <= i < sections.len() ==> lax.warnings[unknown_notes(keys, known).len() + i]
                    == legacy_note(#[trigger] sections[i])
            &&& strict.errors.len() == 0 <==> (forall|i: int|
                0 <= i < keys.len() ==> known.contains(#[trigger] keys[i])) && sections.len() == 0
                && semantic is None
            &&& strict.warnings.len() == 0
            &&& strict.errors == lax.warnings + lax.errors
        }),
{
    let notes = unknown_notes(keys, known);
    if semantic is Some {
        text::lemma_suffix("Semantic validation error: "@, semantic->0);
        text::lemma_prefix("Semantic validation error: "@, semantic->0);
    }
    lemma_no_notes(keys, known);
    let lax = key_findings(keys, sections, false, known, semantic);
    assert(lax.warnings.take(notes.len() as int) =~= notes);
}

proof fn lemma_no_notes(keys: Seq<Seq<char>>, known: Seq<Seq<char>>)
    ensures
        unknown_notes(keys, known).len() == 0 <==> forall|i: int|
            0 <= i < keys.len() ==> known.contains(#[trigger] keys[i]),
    decreases keys.len(),
{
    if keys.len() > 0 {
        let rest = keys.drop_last();
        lemma_no_notes(rest, known);
        assert(keys[keys.len() - 1] == keys.last());
        if forall|i: int| 0 <= i < keys.len() ==> known.contains(#[trigger] keys[i]) {
            assert forall|i: int| 0 <= i < rest.len() implies known.contains(#[trigger] rest[i]) by {
                assert(rest[i] == keys[i]);
            }
        }
        if (forall|i: int| 0 <= i < rest.len() ==> known.contains(#[trigger] rest[i]))
            && known.contains(keys.last()) {
            assert forall|i: int| 0 <= i < keys.len() implies known.contains(#[trigger] keys[i]) by {
                if i < rest.len() {
                    assert(rest[i] == keys[i]);
                }
            }
        }
    }
}

/// A text that is not TOML, and one that does not deserialize, has one error,
/// which ends with why.
pub proof fn law_unreadable_configs_say_why(
    why: Seq<char>,
    content: Map<Seq<char>, toml::Value>,
    strict: bool,
    check: SchemaCheck,
)
    ensures
        ({
            let f = findings(Err(why), strict, check);
            &&& f.errors.len() == 1 && f.warnings.len() == 0
            &&& text::has_prefix(f.errors[0], "TOML parse error: "@)
            &&& text::has_suffix(f.errors[0], why)
        }),
        check.deserialize_error is Some ==> {
            let f = findings(Ok(content), strict, check);
            &&& f.errors.len() == 1 && f.warnings.len() == 0
            &&& text::has_prefix(f.errors[0], "Config deserialization error: "@)
            &&& text::has_suffix(f.errors[0], (check.deserialize_error->0)@)
        },
{
    text::lemma_prefix("TOML parse error: "@, why);
    text::lemma_suffix("TOML parse error: "@, why);
    if check.deserialize_error is Some {
        text::lemma_prefix("Config deserialization error: "@, (check.deserialize_error->0)@);
        text::lemma_suffix("Config deserialization error: "@, (check.deserialize_error->0)@);
    }
}

/// The legacy sections are those of the table under `tools`, where there is one.
/// A migrated table holds what stood beside it and under it, and nothing else.
pub proof fn law_migrated_tables_hold_nothing_new(
    content: Map<Seq<char>, toml::Value>,
    tools: Map<Seq<char>, toml::Value>,
    key: Seq<char>,
)
    ensures
        !content.contains_key("tools"@) ==> legacy_sections(content) is None,
        content.contains_key("tools"@) ==> legacy_sections(content) == toml_table::value_table(
            content["tools"@],
        ),
        lifted(content, tools).contains_key(key) <==> tools.contains_key(key) || (
        content.contains_key(key) && key != "tools"@),
        lifted(content, tools).contains_key(key) ==> lifted(content, tools)[key] == if key
            != "tools"@ && content.contains_key(key) {
            content[key]
        } else {
            tools[key]
        },
{
}

/// A text that is not TOML cannot be migrated; one without a table under `tools`
/// stays as it is, with nothing listed; any other is written anew, with its
/// sections lifted, unless that cannot be written.
pub proof fn law_texts_are_migrated(toml: Seq<char>)
    ensures
        toml_table::toml_parse(toml) is Err <==> migration(toml) == Err::<
            (Seq<char>, Seq<Seq<char>>),
            MigrateError,
        >(MigrateError::Parse),
        toml_table::toml_parse(toml) is Ok && legacy_sections(toml_table::toml_parse(toml)->Ok_0)
            is None ==> migration(toml) is Ok && migration(toml)->Ok_0.0 == toml && migration(
            toml,
        )->Ok_0.1.len() == 0,
        toml_table::toml_parse(toml) is Ok && legacy_sections(toml_table::toml_parse(toml)->Ok_0)
            is Some ==> {
            let content = toml_table::toml_parse(toml)->Ok_0;
            let tools = legacy_sections(content)->0;
            let written = toml_table::toml_text(lifted(content, tools));
            &&& written is None <==> migration(toml) is Err
            &&& written is None ==> migration(toml)->Err_0 == MigrateError::Write
            &&& written is Some ==> migration(toml)->Ok_0.0 == written->0 && migration(toml)->Ok_0.1
                == moved(content, tools)
        },
{
}

/// The note on an unknown key ends with what to look for.
pub proof fn law_notes_on_unknown_keys_give_advice(key: Seq<char>)
    ensures
        text::has_suffix(unknown_note(key), "Check for typos or deprecated options."@),
        unknown_note(key).len() == key.len() + 62,
{
    let end = "\". Check for typos or deprecated options."@;
    reveal_strlit("Unknown config key: \"");
    reveal_strlit("\". Check for typos or deprecated options.");
    reveal_strlit("Check for typos or deprecated options.");
    assert(end =~= end.take(3) + "Check for typos or deprecated options."@);
    let front = "Unknown config key: \""@ + key + end.take(3);
    assert(unknown_note(key) =~= front + "Check for typos or deprecated options."@);
    text::lemma_suffix(front, "Check for typos or deprecated options."@);
}

} // verus!
