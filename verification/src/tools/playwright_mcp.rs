//! Playwright-MCP sidecar client.
//!
//! Speaks JSON-RPC 2.0 with an `@playwright/mcp` HTTP server. This module
//! decides what is sent and what an answer means; sending is left to the
//! caller.

use crate::json;
use crate::json::{Json, JsonView};
use crate::text;
use crate::tools::browser::BrowserAction;
use crate::tools::page_scripts;
use vstd::prelude::*;

verus! {

// ── TabIdAllocator ─────────────────────────────────────────────────────────

/// Tab-ID allocator with ID recycling.
///
/// Provides monotonically increasing IDs. Released IDs are recycled
/// (smallest-first) to keep IDs compact during long sessions.
pub struct TabIdAllocator {
    counter: u64,
    released: Vec<u64>,
}

/// The allocator in the state `(counter, released)` hands out `id`: the
/// smallest released one, or the next new one where none is released.
pub open spec fn hands_out(
    counter: int,
    released: Set<u64>,
    id: u64,
    next_counter: int,
    next_released: Set<u64>,
) -> bool {
    if released.is_empty() {
        &&& id == counter + 1
        &&& next_counter == counter + 1
        &&& next_released == released
    } else {
        &&& released.contains(id)
        &&& forall|x: u64| #[trigger] released.contains(x) ==> id <= x
        &&& next_counter == counter
        &&& next_released == released.remove(id)
    }
}

impl TabIdAllocator {
    /// The largest ID handed out so far.
    pub closed spec fn counter(&self) -> int {
        self.counter as int
    }

    /// The IDs that wait to be handed out again.
    pub closed spec fn released(&self) -> Set<u64> {
        self.released@.to_set()
    }

    #[verifier::type_invariant]
    spec fn released_once(self) -> bool {
        self.released@.no_duplicates()
    }

    pub fn new() -> (r: Self)
        ensures
            r.counter() == 0,
            r.released() == Set::<u64>::empty(),
    {
        let r = TabIdAllocator { counter: 0, released: Vec::new() };
        proof {
            assert(r.released() =~= Set::<u64>::empty());
        }
        r
    }

    /// Acquire a new tab ID. Reuses the smallest released ID if available.
    pub fn acquire(&mut self) -> (id: u64)
        requires
            old(self).released().is_empty() ==> old(self).counter() < u64::MAX,
        ensures
            hands_out(
                old(self).counter(),
                old(self).released(),
                id,
                final(self).counter(),
                final(self).released(),
            ),
    {
        proof {
            use_type_invariant(&*self);
        }
        let ghost before = self.released@;
        let n: usize = self.released.len();
        if n == 0 {
            proof {
                assert(before.to_set() =~= Set::<u64>::empty());
            }
            self.counter = self.counter + 1;
            return self.counter;
        }
        proof {
            assert(before.to_set().contains(before[0]));
        }
        let mut at: usize = 0;
        for k in 0..n
            invariant
                n == self.released@.len(),
                self.released@ == before,
                n > 0,
                at < n,
                forall|m: int| 0 <= m < k ==> before[at as int] <= #[trigger] before[m],
        {
            if self.released[k] < self.released[at] {
                at = k;
            }
        }
        let mut rest: Vec<u64> = Vec::new();
        std::mem::swap(&mut rest, &mut self.released);
        let id: u64 = rest.remove(at);
        proof {
            assert(rest@ =~= before.remove(at as int));
            lemma_remove_from_set(before, at as int);
        }
        self.released = rest;
        id
    }

    /// Release a tab ID back to the pool.
    pub fn release(&mut self, id: u64)
        ensures
            final(self).counter() == old(self).counter(),
            final(self).released() == old(self).released().insert(id),
    {
        proof {
            use_type_invariant(&*self);
        }
        let ghost before = self.released@;
        for k in 0..self.released.len()
            invariant
                self.released@ == before,
                self.counter == old(self).counter,
                forall|m: int| 0 <= m < k ==> #[trigger] before[m] != id,
        {
            if self.released[k] == id {
                proof {
                    assert(before.to_set().contains(before[k as int]));
                    assert(before.to_set().insert(id) =~= before.to_set());
                }
                return;
            }
        }
        let mut all: Vec<u64> = Vec::new();
        std::mem::swap(&mut all, &mut self.released);
        all.push(id);
        proof {
            assert(all@ =~= before.push(id));
            assert(all@.no_duplicates());
            assert forall|x: u64| #[trigger] all@.to_set().contains(x) <==> before.to_set().insert(
                id,
            ).contains(x) by {
                if before.contains(x) {
                    let m = choose|m: int| 0 <= m < before.len() && before[m] == x;
                    assert(all@[m] == x);
                }
                if x == id {
                    assert(all@[before.len() as int] == x);
                }
                if all@.contains(x) {
                    let m = choose|m: int| 0 <= m < all@.len() && all@[m] == x;
                    if m < before.len() {
                        assert(before[m] == x);
                    }
                }
            }
            assert(all@.to_set() =~= before.to_set().insert(id));
        }
        self.released = all;
    }
}

proof fn lemma_remove_from_set(s: Seq<u64>, at: int)
    requires
        s.no_duplicates(),
        0 <= at < s.len(),
    ensures
        s.remove(at).no_duplicates(),
        s.remove(at).to_set() == s.to_set().remove(s[at]),
{
    let t = s.remove(at);
    assert forall|x: u64| #[trigger] t.to_set().contains(x) <==> s.to_set().remove(s[at]).contains(
        x,
    ) by {
        if t.contains(x) {
            let m = choose|m: int| 0 <= m < t.len() && t[m] == x;
            let k = if m < at { m } else { m + 1 };
            assert(s[k] == x);
        }
        if s.contains(x) && x != s[at] {
            let m = choose|m: int| 0 <= m < s.len() && s[m] == x;
            let k = if m < at { m } else { m - 1 };
            assert(t[k] == x);
        }
    }
    assert(t.to_set() =~= s.to_set().remove(s[at]));
}

impl Default for TabIdAllocator {
    fn default() -> (r: Self)
        ensures
            r.counter() == 0,
            r.released() == Set::<u64>::empty(),
    {
        Self::new()
    }
}

/// An ID that is in use is not handed out again, as long as only IDs that were
/// handed out are released and each of them once.
pub proof fn law_acquired_id_is_not_in_use(
    counter: int,
    released: Set<u64>,
    in_use: Set<u64>,
    id: u64,
    next_counter: int,
    next_released: Set<u64>,
)
    requires
        hands_out(counter, released, id, next_counter, next_released),
        forall|x: u64| #[trigger] in_use.contains(x) ==> x <= counter,
        forall|x: u64| #[trigger] released.contains(x) ==> x <= counter && !in_use.contains(x),
    ensures
        !in_use.contains(id),
        forall|x: u64| #[trigger] in_use.insert(id).contains(x) ==> x <= next_counter,
        forall|x: u64| #[trigger]
            next_released.contains(x) ==> x <= next_counter && !in_use.insert(id).contains(x),
{
}

/// A released ID is the next one to be acquired where no smaller one waits.
pub proof fn law_released_id_is_reused(
    counter: int,
    released: Set<u64>,
    back: u64,
    id: u64,
    next_counter: int,
    next_released: Set<u64>,
)
    requires
        forall|x: u64| #[trigger] released.contains(x) ==> back <= x,
        hands_out(counter, released.insert(back), id, next_counter, next_released),
    ensures
        id == back,
        next_counter == counter,
{
    assert(released.insert(back).contains(back));
}

// ── BrowserAction → playwright-mcp tool mapping ────────────────────────────

/// A tool of the sidecar and the arguments it is called with.
pub type ToolUse = (Seq<char>, JsonView);

/// An element reference: `e` and digits.
pub open spec fn is_reference(s: Seq<char>) -> bool {
    s.len() > 0 && s[0] == 'e' && forall|i: int| 1 <= i < s.len() ==> '0' <= #[trigger] s[i] <= '9'
}

fn reads_as_reference(s: &str) -> (r: bool)
    ensures
        r == is_reference(s@),
{
    let cs = text::chars_of(s);
    if cs.len() == 0 || cs[0] != 'e' {
        return false;
    }
    for i in 1..cs.len()
        invariant
            cs@ == s@,
            forall|j: int| 1 <= j < i ==> '0' <= #[trigger] cs@[j] <= '9',
    {
        if !('0' <= cs[i] && cs[i] <= '9') {
            proof {
                assert(!('0' <= s@[i as int] <= '9'));
            }
            return false;
        }
    }
    true
}

/// The element reference that a selector is, with or without an `@` before it.
pub open spec fn reference_of(selector: Seq<char>) -> Option<Seq<char>> {
    let trimmed = text::trim(selector);
    let candidate = match text::without_prefix(trimmed, seq!['@']) {
        Some(rest) => rest,
        None => trimmed,
    };
    if is_reference(candidate) {
        Some(candidate)
    } else {
        None
    }
}

/// The element reference that a selector is.
pub fn snapshot_ref(selector: &str) -> (r: Option<&str>)
    ensures
        text::view_opt(r) == reference_of(selector@),
{
    let trimmed = text::trimmed(selector);
    proof {
        reveal_strlit("@");
        assert("@"@ =~= seq!['@']);
    }
    let candidate = match text::strip_prefix(trimmed, "@") {
        Some(rest) => rest,
        None => trimmed,
    };
    if reads_as_reference(candidate) {
        Some(candidate)
    } else {
        None
    }
}

/// Whether a selector is an element reference.
pub fn is_snapshot_ref(selector: &str) -> (r: bool)
    ensures
        r == reference_of(selector@) is Some,
{
    snapshot_ref(selector).is_some()
}

/// The text that a `text=` selector looks for.
pub open spec fn label_of(selector: Seq<char>) -> Option<Seq<char>> {
    match text::without_prefix(selector, "text="@) {
        Some(rest) => if text::trim(rest).len() > 0 {
            Some(text::trim(rest))
        } else {
            None
        },
        None => None,
    }
}

/// The text that a `text=` selector looks for.
pub fn text_selector(selector: &str) -> (r: Option<&str>)
    ensures
        text::view_opt(r) == label_of(selector@),
{
    match text::strip_prefix(selector, "text=") {
        Some(rest) => {
            let label = text::trimmed(rest);
            if label.unicode_len() > 0 {
                Some(label)
            } else {
                None
            }
        },
        None => None,
    }
}

/// A text as a JavaScript string literal.
pub fn js_string(value: &str) -> (r: String)
    ensures
        r@ == json::quoted(value@),
{
    json::quote(value)
}

/// The script that fills the field near an element with `value`.
pub open spec fn fill_script(value: Seq<char>) -> Seq<char> {
    page_scripts::FILL_HEAD@ + json::quoted(value) + page_scripts::FILL_MIDDLE@ + json::quoted(
        value,
    ) + page_scripts::FILL_TAIL@
}

/// The script that fills the field near an element with `value`.
pub fn fill_nearby_field_function(value: &str) -> (r: String)
    ensures
        r@ == fill_script(value@),
{
    let literal = js_string(value);
    text::cat5(
        page_scripts::FILL_HEAD,
        literal.as_str(),
        page_scripts::FILL_MIDDLE,
        literal.as_str(),
        page_scripts::FILL_TAIL,
    )
}

/// The script that finds a field by its label and fills it with `value`.
pub open spec fn label_script(label: Seq<char>, value: Seq<char>) -> Seq<char> {
    page_scripts::LABEL_HEAD@ + json::quoted(label) + page_scripts::LABEL_MIDDLE@ + fill_script(
        value,
    ) + page_scripts::LABEL_TAIL@
}

/// Arguments with one text.
pub open spec fn one(key: Seq<char>, value: Seq<char>) -> JsonView {
    JsonView::Object(seq![(key, JsonView::Text(value))])
}

/// Arguments with two texts.
pub open spec fn two(k1: Seq<char>, v1: Seq<char>, k2: Seq<char>, v2: Seq<char>) -> JsonView {
    JsonView::Object(seq![(k1, JsonView::Text(v1)), (k2, JsonView::Text(v2))])
}

/// Arguments without members.
pub open spec fn nothing() -> JsonView {
    JsonView::Object(Seq::<(Seq<char>, JsonView)>::empty())
}

/// How an element is clicked.
pub open spec fn click_use(selector: Seq<char>) -> ToolUse {
    match reference_of(selector) {
        Some(reference) => ("browser_click"@, one("ref"@, reference)),
        None => (
            "browser_run_code"@,
            one(
                "code"@,
                "async (page) => { await page.locator("@ + json::quoted(selector)
                    + ").first().click(); return page.url(); }"@,
            ),
        ),
    }
}

/// How a field is filled.
pub open spec fn fill_use(selector: Seq<char>, value: Seq<char>) -> ToolUse {
    match (reference_of(selector), label_of(selector)) {
        (Some(reference), _) => (
            "browser_evaluate"@,
            two("ref"@, reference, "function"@, fill_script(value)),
        ),
        (None, Some(label)) => (
            "browser_evaluate"@,
            one("function"@, label_script(label, value)),
        ),
        (None, None) => (
            "browser_run_code"@,
            one(
                "code"@,
                "async (page) => { await page.locator("@ + json::quoted(selector)
                    + ").first().fill("@ + json::quoted(value) + "); return true; }"@,
            ),
        ),
    }
}

/// How text is typed into an element.
pub open spec fn type_use(selector: Seq<char>, typed: Seq<char>) -> ToolUse {
    match reference_of(selector) {
        Some(reference) => ("browser_type"@, two("ref"@, reference, "text"@, typed)),
        None => (
            "browser_run_code"@,
            one(
                "code"@,
                "async (page) => { await page.locator("@ + json::quoted(selector)
                    + ").first().type("@ + json::quoted(typed) + "); return true; }"@,
            ),
        ),
    }
}

/// How the text of an element is read.
pub open spec fn text_use(selector: Seq<char>) -> ToolUse {
    match reference_of(selector) {
        Some(reference) => (
            "browser_evaluate"@,
            two("ref"@, reference, "function"@, "(element) => element?.textContent ?? ''"@),
        ),
        None => (
            "browser_run_code"@,
            one(
                "code"@,
                "async (page) => await page.locator("@ + json::quoted(selector)
                    + ").first().textContent()"@,
            ),
        ),
    }
}

/// How the pointer is moved over an element.
pub open spec fn hover_use(selector: Seq<char>) -> ToolUse {
    match reference_of(selector) {
        Some(reference) => ("browser_hover"@, one("ref"@, reference)),
        None => (
            "browser_run_code"@,
            one(
                "code"@,
                "async (page) => { await page.locator("@ + json::quoted(selector)
                    + ").first().hover(); return true; }"@,
            ),
        ),
    }
}

/// How it is found out whether an element can be seen.
pub open spec fn visible_use(selector: Seq<char>) -> ToolUse {
    match reference_of(selector) {
        Some(reference) => (
            "browser_evaluate"@,
            two("ref"@, reference, "function"@, "(element) => !!element"@),
        ),
        None => (
            "browser_run_code"@,
            one(
                "code"@,
                "async (page) => await page.locator("@ + json::quoted(selector)
                    + ").first().isVisible().catch(() => false)"@,
            ),
        ),
    }
}

/// The last part of a path that names something; none where that is `..`.
pub open spec fn last_name(parts: Seq<Seq<char>>) -> Option<Seq<char>>
    decreases parts.len(),
{
    if parts.len() == 0 {
        None
    } else if parts.last().len() == 0 || parts.last() == "."@ {
        last_name(parts.drop_last())
    } else if parts.last() == ".."@ {
        None
    } else {
        Some(parts.last())
    }
}

/// The file name at the end of a path.
pub fn file_name(path: &str) -> (r: Option<String>)
    ensures
        text::view_opt_string(r) == last_name(text::split(path@, '/')),
{
    let parts = text::split_char(path, '/');
    let ghost all = text::views(parts@);
    let mut n: usize = parts.len();
    proof {
        assert(all.take(n as int) =~= all);
    }
    while n > 0
        invariant
            n <= parts@.len(),
            all == text::views(parts@),
            all == text::split(path@, '/'),
            last_name(all) == last_name(all.take(n as int)),
        decreases n,
    {
        let part = parts[n - 1].as_str();
        proof {
            assert(all.take(n as int).drop_last() =~= all.take(n - 1));
            assert(all.take(n as int).last() == part@);
        }
        if part.unicode_len() > 0 && !text::same_text(part, ".") {
            if text::same_text(part, "..") {
                return None;
            }
            return Some(part.to_string());
        }
        n = n - 1;
    }
    None
}

/// How a picture is taken.
pub open spec fn screenshot_args(path: Option<Seq<char>>, full_page: bool) -> JsonView {
    let kind = seq![("type"@, JsonView::Text("png"@))];
    let full = if full_page {
        kind.push(("fullPage"@, JsonView::Bool(true)))
    } else {
        kind
    };
    JsonView::Object(
        match path {
            Some(p) => match last_name(text::split(p, '/')) {
                Some(name) => full.push(("filename"@, JsonView::Text(name))),
                None => full,
            },
            None => full,
        },
    )
}

/// A number of thousandths below one, in decimals without needless zeros.
pub open spec fn fraction(r: nat) -> Seq<char> {
    if r % 100 == 0 {
        seq![text::digit(r / 100)]
    } else if r % 10 == 0 {
        seq![text::digit(r / 100), text::digit(r / 10 % 10)]
    } else {
        seq![text::digit(r / 100), text::digit(r / 10 % 10), text::digit(r % 10)]
    }
}

/// Milliseconds as seconds in decimals.
pub open spec fn seconds(ms: nat) -> Seq<char> {
    text::decimal(ms / 1000) + "."@ + fraction(ms % 1000)
}

fn seconds_of(ms: u64) -> (r: String)
    ensures
        r@ == seconds(ms as nat),
{
    let rest: u64 = ms % 1000;
    let mut digits = String::new();
    digits.push((48 + (rest / 100) as u8) as char);
    if rest % 100 != 0 {
        digits.push((48 + (rest / 10 % 10) as u8) as char);
        if rest % 10 != 0 {
            digits.push((48 + (rest % 10) as u8) as char);
        }
    }
    proof {
        assert(digits@ =~= fraction(rest as nat));
    }
    let whole = text::decimal_of(ms / 1000);
    text::cat3(whole.as_str(), ".", digits.as_str())
}

/// How the browser waits.
pub open spec fn wait_use(
    selector: Option<Seq<char>>,
    ms: Option<u64>,
    awaited: Option<Seq<char>>,
) -> ToolUse {
    let time = match ms {
        Some(t) => seq![("time"@, JsonView::Real(seconds(t as nat)))],
        None => Seq::<(Seq<char>, JsonView)>::empty(),
    };
    let args = match awaited {
        Some(t) => time.push(("text"@, JsonView::Text(t))),
        None => time,
    };
    if args.len() > 0 {
        ("browser_wait_for"@, JsonView::Object(args))
    } else {
        match selector {
            Some(s) => text_use(s),
            None => (
                "browser_wait_for"@,
                JsonView::Object(seq![("time"@, JsonView::UInt(1))]),
            ),
        }
    }
}

/// The script that scrolls the page.
pub open spec fn scroll_script(direction: Seq<char>, pixels: Option<u32>) -> Seq<char> {
    let distance = text::decimal(
        match pixels {
            Some(p) => p as nat,
            None => 400,
        },
    );
    let delta = if direction == "up"@ || direction == "left"@ {
        "-"@ + distance
    } else {
        distance
    };
    let sideways = direction == "left"@ || direction == "right"@;
    let x = if sideways {
        delta
    } else {
        "0"@
    };
    let y = if sideways {
        "0"@
    } else {
        delta
    };
    "() => { window.scrollBy({ left: "@ + x + ", top: "@ + y
        + ", behavior: 'instant' }); return { x: window.scrollX, y: window.scrollY }; }"@
}

/// The selector that finds elements by what they mean.
pub open spec fn find_selector(by: Seq<char>, value: Seq<char>) -> Option<Seq<char>> {
    if by == "role"@ {
        Some("[role=\""@ + value + "\"]"@)
    } else if by == "text"@ || by == "label"@ {
        Some("text="@ + value)
    } else if by == "placeholder"@ {
        Some("[placeholder=\""@ + value + "\"]"@)
    } else if by == "testid"@ {
        Some("[data-testid=\""@ + value + "\"]"@)
    } else {
        None
    }
}

/// How an element is found and acted on.
pub open spec fn find_use(
    by: Seq<char>,
    value: Seq<char>,
    action: Seq<char>,
    fill_value: Option<Seq<char>>,
) -> Result<ToolUse, Seq<char>> {
    match find_selector(by, value) {
        None => Err("Unknown Find locator type: "@ + by),
        Some(selector) => if action == "click"@ {
            Ok(click_use(selector))
        } else if action == "fill"@ {
            Ok(
                fill_use(
                    selector,
                    match fill_value {
                        Some(v) => v,
                        None => Seq::<char>::empty(),
                    },
                ),
            )
        } else if action == "hover"@ {
            Ok(hover_use(selector))
        } else if action == "text"@ {
            Ok(text_use(selector))
        } else {
            Err("Unknown Find action: "@ + action)
        },
    }
}

/// The tool and the arguments that an action is mapped to.
pub open spec fn action_use(action: BrowserAction) -> Result<ToolUse, Seq<char>> {
    match action {
        BrowserAction::Open { url } => Ok(("browser_navigate"@, one("url"@, url@))),
        BrowserAction::Snapshot { .. } => Ok(("browser_snapshot"@, nothing())),
        BrowserAction::Click { selector } => Ok(click_use(selector@)),
        BrowserAction::Fill { selector, value } => Ok(fill_use(selector@, value@)),
        BrowserAction::Type { selector, text } => Ok(type_use(selector@, text@)),
        BrowserAction::GetText { selector } => Ok(text_use(selector@)),
        BrowserAction::GetTitle => Ok(
            ("browser_evaluate"@, one("function"@, "() => document.title"@)),
        ),
        BrowserAction::GetUrl => Ok(
            ("browser_evaluate"@, one("function"@, "() => window.location.href"@)),
        ),
        BrowserAction::Screenshot { path, full_page } => Ok(
            (
                "browser_take_screenshot"@,
                screenshot_args(text::view_opt_string(path), full_page),
            ),
        ),
        BrowserAction::Wait { selector, ms, text } => Ok(
            wait_use(text::view_opt_string(selector), ms, text::view_opt_string(text)),
        ),
        BrowserAction::Press { key } => Ok(("browser_press_key"@, one("key"@, key@))),
        BrowserAction::Hover { selector } => Ok(hover_use(selector@)),
        BrowserAction::Scroll { direction, pixels } => Ok(
            ("browser_evaluate"@, one("function"@, scroll_script(direction@, pixels))),
        ),
        BrowserAction::IsVisible { selector } => Ok(visible_use(selector@)),
        BrowserAction::Close => Ok(("browser_close"@, nothing())),
        BrowserAction::Find { by, value, action, fill_value } => find_use(
            by@,
            value@,
            action@,
            text::view_opt_string(fill_value),
        ),
    }
}

/// What a tool use says.
pub open spec fn use_view(u: (&str, Json)) -> ToolUse {
    (u.0@, u.1@)
}

fn one_arg(key: &str, value: &str) -> (r: Json)
    ensures
        r@ == one(key@, value@),
{
    json::object1(key, json::string(value))
}

fn two_args(k1: &str, v1: &str, k2: &str, v2: &str) -> (r: Json)
    ensures
        r@ == two(k1@, v1@, k2@, v2@),
{
    json::object2(k1, json::string(v1), k2, json::string(v2))
}

fn click_args(selector: &str) -> (r: (&'static str, Json))
    ensures
        use_view(r) == click_use(selector@),
{
    if let Some(reference) = snapshot_ref(selector) {
        return ("browser_click", one_arg("ref", reference));
    }
    let code = text::cat3(
        "async (page) => { await page.locator(",
        js_string(selector).as_str(),
        ").first().click(); return page.url(); }",
    );
    ("browser_run_code", one_arg("code", code.as_str()))
}

fn fill_args(selector: &str, value: &str) -> (r: (&'static str, Json))
    ensures
        use_view(r) == fill_use(selector@, value@),
{
    if let Some(reference) = snapshot_ref(selector) {
        let function = fill_nearby_field_function(value);
        return ("browser_evaluate", two_args("ref", reference, "function", function.as_str()));
    }
    if let Some(label) = text_selector(selector) {
        let function = text::cat5(
            page_scripts::LABEL_HEAD,
            js_string(label).as_str(),
            page_scripts::LABEL_MIDDLE,
            fill_nearby_field_function(value).as_str(),
            page_scripts::LABEL_TAIL,
        );
        return ("browser_evaluate", one_arg("function", function.as_str()));
    }
    let code = text::cat5(
        "async (page) => { await page.locator(",
        js_string(selector).as_str(),
        ").first().fill(",
        js_string(value).as_str(),
        "); return true; }",
    );
    ("browser_run_code", one_arg("code", code.as_str()))
}

fn type_args(selector: &str, typed: &str) -> (r: (&'static str, Json))
    ensures
        use_view(r) == type_use(selector@, typed@),
{
    if let Some(reference) = snapshot_ref(selector) {
        return ("browser_type", two_args("ref", reference, "text", typed));
    }
    let code = text::cat5(
        "async (page) => { await page.locator(",
        js_string(selector).as_str(),
        ").first().type(",
        js_string(typed).as_str(),
        "); return true; }",
    );
    ("browser_run_code", one_arg("code", code.as_str()))
}

fn text_args(selector: &str) -> (r: (&'static str, Json))
    ensures
        use_view(r) == text_use(selector@),
{
    if let Some(reference) = snapshot_ref(selector) {
        return (
            "browser_evaluate",
            two_args("ref", reference, "function", "(element) => element?.textContent ?? ''"),
        );
    }
    let code = text::cat3(
        "async (page) => await page.locator(",
        js_string(selector).as_str(),
        ").first().textContent()",
    );
    ("browser_run_code", one_arg("code", code.as_str()))
}

fn hover_args(selector: &str) -> (r: (&'static str, Json))
    ensures
        use_view(r) == hover_use(selector@),
{
    if let Some(reference) = snapshot_ref(selector) {
        return ("browser_hover", one_arg("ref", reference));
    }
    let code = text::cat3(
        "async (page) => { await page.locator(",
        js_string(selector).as_str(),
        ").first().hover(); return true; }",
    );
    ("browser_run_code", one_arg("code", code.as_str()))
}

fn visible_args(selector: &str) -> (r: (&'static str, Json))
    ensures
        use_view(r) == visible_use(selector@),
{
    if let Some(reference) = snapshot_ref(selector) {
        return (
            "browser_evaluate",
            two_args("ref", reference, "function", "(element) => !!element"),
        );
    }
    let code = text::cat3(
        "async (page) => await page.locator(",
        js_string(selector).as_str(),
        ").first().isVisible().catch(() => false)",
    );
    ("browser_run_code", one_arg("code", code.as_str()))
}

fn screenshot_json(path: &Option<String>, full_page: bool) -> (r: Json)
    ensures
        r@ == screenshot_args(text::view_opt_string(*path), full_page),
{
    let mut members: Vec<(String, Json)> = Vec::new();
    json::put(&mut members, "type", json::string("png"));
    proof {
        assert(json::member_views(members@) =~= seq![("type"@, JsonView::Text("png"@))]);
    }
    if full_page {
        json::put(&mut members, "fullPage", Json::Bool(true));
    }
    if let Some(path) = path {
        if let Some(name) = file_name(path.as_str()) {
            json::put(&mut members, "filename", Json::Text(name));
        }
    }
    json::object(members)
}

fn wait_args(selector: &Option<String>, ms: Option<u64>, awaited: &Option<String>) -> (r: (
    &'static str,
    Json,
))
    ensures
        use_view(r) == wait_use(
            text::view_opt_string(*selector),
            ms,
            text::view_opt_string(*awaited),
        ),
{
    let mut members: Vec<(String, Json)> = Vec::new();
    proof {
        assert(json::member_views(members@) =~= Seq::<(Seq<char>, JsonView)>::empty());
    }
    if let Some(t) = ms {
        let shown = seconds_of(t);
        json::put(&mut members, "time", Json::Real(shown));
        proof {
            assert(json::member_views(members@) =~= seq![
                ("time"@, JsonView::Real(seconds(t as nat))),
            ]);
        }
    }
    if let Some(t) = awaited {
        json::put(&mut members, "text", json::string(t.as_str()));
    }
    proof {
        assert(json::member_views(members@).len() == members@.len());
    }
    if members.len() > 0 {
        ("browser_wait_for", json::object(members))
    } else {
        match selector {
            Some(s) => text_args(s.as_str()),
            None => ("browser_wait_for", json::object1("time", Json::UInt(1))),
        }
    }
}

fn scroll_function(direction: &str, pixels: Option<u32>) -> (r: String)
    ensures
        r@ == scroll_script(direction@, pixels),
{
    let distance = text::decimal_of(
        match pixels {
            Some(p) => p as u64,
            None => 400,
        },
    );
    let left = text::same_text(direction, "left");
    let delta = if text::same_text(direction, "up") || left {
        text::cat2("-", distance.as_str())
    } else {
        distance
    };
    let sideways = left || text::same_text(direction, "right");
    let x = if sideways {
        delta.as_str()
    } else {
        "0"
    };
    let y = if sideways {
        "0"
    } else {
        delta.as_str()
    };
    text::cat5(
        "() => { window.scrollBy({ left: ",
        x,
        ", top: ",
        y,
        ", behavior: 'instant' }); return { x: window.scrollX, y: window.scrollY }; }",
    )
}

fn find_args(by: &str, value: &str, action: &str, fill_value: &Option<String>) -> (r: Result<
    (&'static str, Json),
    String,
>)
    ensures
        match r {
            Ok(u) => find_use(by@, value@, action@, text::view_opt_string(*fill_value)) == Result::<
                ToolUse,
                Seq<char>,
            >::Ok(use_view(u)),
            Err(e) => find_use(by@, value@, action@, text::view_opt_string(*fill_value))
                == Result::<ToolUse, Seq<char>>::Err(e@),
        },
{
    let selector = if text::same_text(by, "role") {
        text::cat3("[role=\"", value, "\"]")
    } else if text::same_text(by, "text") || text::same_text(by, "label") {
        text::cat2("text=", value)
    } else if text::same_text(by, "placeholder") {
        text::cat3("[placeholder=\"", value, "\"]")
    } else if text::same_text(by, "testid") {
        text::cat3("[data-testid=\"", value, "\"]")
    } else {
        return Err(text::cat2("Unknown Find locator type: ", by));
    };
    if text::same_text(action, "click") {
        Ok(click_args(selector.as_str()))
    } else if text::same_text(action, "fill") {
        let empty = String::new();
        proof {
            assert(empty@ =~= Seq::<char>::empty());
        }
        let filled = match fill_value {
            Some(v) => v.as_str(),
            None => empty.as_str(),
        };
        Ok(fill_args(selector.as_str(), filled))
    } else if text::same_text(action, "hover") {
        Ok(hover_args(selector.as_str()))
    } else if text::same_text(action, "text") {
        Ok(text_args(selector.as_str()))
    } else {
        Err(text::cat2("Unknown Find action: ", action))
    }
}

/// Map a `BrowserAction` to a `(playwright_mcp_tool_name, arguments_json)` pair.
///
/// Returns `Err` only for a `Find` with an unknown locator type or action.
pub fn action_to_mcp_tool(action: BrowserAction) -> (r: Result<(&'static str, Json), String>)
    ensures
        match r {
            Ok(u) => action_use(action) == Result::<ToolUse, Seq<char>>::Ok(use_view(u)),
            Err(e) => action_use(action) == Result::<ToolUse, Seq<char>>::Err(e@),
        },
{
    match &action {
        BrowserAction::Open { url } => Ok(("browser_navigate", one_arg("url", url.as_str()))),
        BrowserAction::Snapshot { .. } => Ok(("browser_snapshot", json::object0())),
        BrowserAction::Click { selector } => Ok(click_args(selector.as_str())),
        BrowserAction::Fill { selector, value } => Ok(
            fill_args(selector.as_str(), value.as_str()),
        ),
        BrowserAction::Type { selector, text } => Ok(
            type_args(selector.as_str(), text.as_str()),
        ),
        BrowserAction::GetText { selector } => Ok(text_args(selector.as_str())),
        BrowserAction::GetTitle => Ok(
            ("browser_evaluate", one_arg("function", "() => document.title")),
        ),
        BrowserAction::GetUrl => Ok(
            ("browser_evaluate", one_arg("function", "() => window.location.href")),
        ),
        BrowserAction::Screenshot { path, full_page } => Ok(
            ("browser_take_screenshot", screenshot_json(path, *full_page)),
        ),
        BrowserAction::Wait { selector, ms, text } => Ok(wait_args(selector, *ms, text)),
        BrowserAction::Press { key } => Ok(("browser_press_key", one_arg("key", key.as_str()))),
        BrowserAction::Hover { selector } => Ok(hover_args(selector.as_str())),
        BrowserAction::Scroll { direction, pixels } => {
            let function = scroll_function(direction.as_str(), *pixels);
            Ok(("browser_evaluate", one_arg("function", function.as_str())))
        },
        BrowserAction::IsVisible { selector } => Ok(visible_args(selector.as_str())),
        BrowserAction::Close => Ok(("browser_close", json::object0())),
        BrowserAction::Find { by, value, action, fill_value } => find_args(
            by.as_str(),
            value.as_str(),
            action.as_str(),
            fill_value,
        ),
    }
}

// ── Reading answers ────────────────────────────────────────────────────────

/// The payload of the first `data:` line that has one.
pub open spec fn first_data(lines: Seq<Seq<char>>) -> Option<Seq<char>>
    decreases lines.len(),
{
    if lines.len() == 0 {
        None
    } else {
        match text::without_prefix(text::trim(lines[0]), "data:"@) {
            Some(rest) => if text::trim(rest).len() > 0 {
                Some(text::trim(rest))
            } else {
                first_data(lines.skip(1))
            },
            None => first_data(lines.skip(1)),
        }
    }
}

/// The payload of the first `data:` line of an event stream.
pub fn sse_payload(body: &str) -> (r: Option<String>)
    ensures
        text::view_opt_string(r) == first_data(text::lines(body@)),
{
    let lines = text::split_lines(body);
    let ghost all = text::views(lines@);
    proof {
        assert(all.skip(0) =~= all);
    }
    for i in 0..lines.len()
        invariant
            all == text::views(lines@),
            all == text::lines(body@),
            first_data(all) == first_data(all.skip(i as int)),
    {
        proof {
            assert(all.skip(i as int)[0] == lines@[i as int]@);
            assert(all.skip(i as int).skip(1) =~= all.skip(i + 1));
        }
        if let Some(rest) = text::strip_prefix(text::trimmed(lines[i].as_str()), "data:") {
            let payload = text::trimmed(rest);
            if payload.unicode_len() > 0 {
                return Some(payload.to_string());
            }
        }
    }
    None
}

/// The JSON value that an answer carries, in an event stream or plain.
pub open spec fn sse_json(body: Seq<char>) -> Result<JsonView, Seq<char>> {
    match first_data(text::lines(body)) {
        Some(payload) => match json::json_parse(payload) {
            Some(j) => Ok(j),
            None => Err("playwright-mcp: failed to parse SSE data as JSON"@),
        },
        None => match json::json_parse(text::trim(body)) {
            Some(j) => Ok(j),
            None => Err("playwright-mcp: response body is not SSE or valid JSON"@),
        },
    }
}

/// Parse a JSON value from an MCP SSE response body.
///
/// MCP HTTP transport returns `text/event-stream` with:
///   event: message\ndata: <json>\n\n
///
/// Extracts the first `data:` line and parses it as JSON.
/// Falls back to direct JSON parse if no SSE framing is present.
pub fn parse_sse_json(body: &str) -> (r: Result<Json, String>)
    ensures
        match r {
            Ok(j) => sse_json(body@) == Result::<JsonView, Seq<char>>::Ok(j@),
            Err(e) => sse_json(body@) == Result::<JsonView, Seq<char>>::Err(e@),
        },
{
    match sse_payload(body) {
        Some(payload) => match json::parse(payload.as_str()) {
            Some(j) => Ok(j),
            None => Err("playwright-mcp: failed to parse SSE data as JSON".to_string()),
        },
        None => match json::parse(text::trimmed(body)) {
            Some(j) => Ok(j),
            None => Err("playwright-mcp: response body is not SSE or valid JSON".to_string()),
        },
    }
}

/// A tool call that sets form state and can be repeated safely.
pub open spec fn replayable(tool_name: Seq<char>, arguments: JsonView) -> bool {
    if tool_name == "browser_fill_form"@ || tool_name == "browser_type"@ || tool_name
        == "browser_select_option"@ {
        true
    } else if tool_name == "browser_evaluate"@ {
        match arguments.text_at("function"@) {
            Some(f) => {
                ||| text::contains(f, "dispatchEvent(new Event('input'"@)
                ||| text::contains(f, "dispatchEvent(new InputEvent('input'"@)
                ||| text::contains(f, "field.value ="@)
                ||| text::contains(f, "textContent ="@)
            },
            None => false,
        }
    } else if tool_name == "browser_run_code"@ {
        match arguments.text_at("code"@) {
            Some(c) => {
                ||| text::contains(c, ".fill("@)
                ||| text::contains(c, ".type("@)
                ||| text::contains(c, ".selectOption("@)
            },
            None => false,
        }
    } else {
        false
    }
}

/// Whether a tool call sets form state and can be repeated safely.
pub fn is_replayable_tool_call(tool_name: &str, arguments: &Json) -> (r: bool)
    ensures
        r == replayable(tool_name@, arguments@),
{
    if text::same_text(tool_name, "browser_fill_form") || text::same_text(tool_name, "browser_type")
        || text::same_text(tool_name, "browser_select_option") {
        true
    } else if text::same_text(tool_name, "browser_evaluate") {
        match arguments.text_at("function") {
            Some(f) => text::contains_text(f, "dispatchEvent(new Event('input'")
                || text::contains_text(f, "dispatchEvent(new InputEvent('input'")
                || text::contains_text(f, "field.value =") || text::contains_text(
                f,
                "textContent =",
            ),
            None => false,
        }
    } else if text::same_text(tool_name, "browser_run_code") {
        match arguments.text_at("code") {
            Some(c) => text::contains_text(c, ".fill(") || text::contains_text(c, ".type(")
                || text::contains_text(c, ".selectOption("),
            None => false,
        }
    } else {
        false
    }
}

/// The texts among the content items of a tool result.
pub open spec fn item_texts(items: Seq<JsonView>) -> Seq<Seq<char>>
    decreases items.len(),
{
    if items.len() == 0 {
        Seq::<Seq<char>>::empty()
    } else {
        let before = item_texts(items.drop_last());
        match items.last().text_at("text"@) {
            Some(t) => before.push(t),
            None => before,
        }
    }
}

/// The texts that a tool result carries.
pub open spec fn content_texts(result: JsonView) -> Seq<Seq<char>> {
    match result.get("content"@) {
        Some(content) => match content.items() {
            Some(items) => item_texts(items),
            None => Seq::<Seq<char>>::empty(),
        },
        None => Seq::<Seq<char>>::empty(),
    }
}

fn texts_of(result: &Json) -> (r: Vec<String>)
    ensures
        text::views(r@) == content_texts(result@),
{
    let mut r: Vec<String> = Vec::new();
    proof {
        assert(text::views(r@) =~= Seq::<Seq<char>>::empty());
    }
    if let Some(content) = result.get("content") {
        if let Some(items) = content.as_array() {
            let ghost all = json::views(items@);
            proof {
                assert(item_texts(all.take(0)) =~= text::views(r@));
            }
            for i in 0..items.len()
                invariant
                    all == json::views(items@),
                    text::views(r@) == item_texts(all.take(i as int)),
            {
                let ghost before = text::views(r@);
                proof {
                    assert(all.take(i + 1).drop_last() =~= all.take(i as int));
                    assert(all.take(i + 1).last() == items@[i as int]@);
                }
                if let Some(t) = items[i].text_at("text") {
                    r.push(t.to_string());
                    proof {
                        assert(text::views(r@) =~= before.push(t@));
                    }
                }
            }
            proof {
                assert(all.take(all.len() as int) =~= all);
            }
        }
    }
    r
}

/// The URL on the first line that names the page.
pub open spec fn page_line(lines: Seq<Seq<char>>) -> Option<Seq<char>>
    decreases lines.len(),
{
    if lines.len() == 0 {
        None
    } else {
        match text::without_prefix(text::trim(lines[0]), "- Page URL: "@) {
            Some(rest) => Some(text::trim(rest)),
            None => page_line(lines.skip(1)),
        }
    }
}

/// The first URL in the section of results; `inside` says whether the lines
/// are in it already.
pub open spec fn result_url(lines: Seq<Seq<char>>, inside: bool) -> Option<Seq<char>>
    decreases lines.len(),
{
    if lines.len() == 0 {
        None
    } else {
        let line = text::trim(lines[0]);
        let candidate = text::trim_end_of(text::trim_start_of(line, seq!['"']), seq!['"']);
        if line == "### Result"@ {
            result_url(lines.skip(1), true)
        } else if !inside {
            result_url(lines.skip(1), false)
        } else if text::has_prefix(line, "### "@) {
            None
        } else if text::has_prefix(candidate, "http://"@) || text::has_prefix(
            candidate,
            "https://"@,
        ) {
            Some(candidate)
        } else {
            result_url(lines.skip(1), true)
        }
    }
}

/// The URL of the page that one text of a result names.
pub open spec fn page_url(t: Seq<char>) -> Option<Seq<char>> {
    match page_line(text::lines(t)) {
        Some(url) => if url.len() > 0 {
            Some(url)
        } else {
            result_url(text::lines(t), false)
        },
        None => result_url(text::lines(t), false),
    }
}

/// The first URL that one of the texts names.
pub open spec fn first_page_url(texts: Seq<Seq<char>>) -> Option<Seq<char>>
    decreases texts.len(),
{
    if texts.len() == 0 {
        None
    } else {
        match page_url(texts[0]) {
            Some(url) => Some(url),
            None => first_page_url(texts.skip(1)),
        }
    }
}

fn find_page_line(lines: &Vec<String>) -> (r: Option<String>)
    ensures
        text::view_opt_string(r) == page_line(text::views(lines@)),
{
    let ghost all = text::views(lines@);
    proof {
        assert(all.skip(0) =~= all);
    }
    for i in 0..lines.len()
        invariant
            all == text::views(lines@),
            page_line(all) == page_line(all.skip(i as int)),
    {
        proof {
            assert(all.skip(i as int)[0] == lines@[i as int]@);
            assert(all.skip(i as int).skip(1) =~= all.skip(i + 1));
        }
        if let Some(rest) = text::strip_prefix(text::trimmed(lines[i].as_str()), "- Page URL: ") {
            return Some(text::trimmed(rest).to_string());
        }
    }
    None
}

fn find_result_url(lines: &Vec<String>) -> (r: Option<String>)
    ensures
        text::view_opt_string(r) == result_url(text::views(lines@), false),
{
    let ghost all = text::views(lines@);
    let mut inside = false;
    proof {
        assert(all.skip(0) =~= all);
        reveal_strlit("\"");
        assert("\""@ =~= seq!['"']);
    }
    for i in 0..lines.len()
        invariant
            all == text::views(lines@),
            "\""@ == seq!['"'],
            result_url(all, false) == result_url(all.skip(i as int), inside),
    {
        proof {
            assert(all.skip(i as int)[0] == lines@[i as int]@);
            assert(all.skip(i as int).skip(1) =~= all.skip(i + 1));
        }
        let line = text::trimmed(lines[i].as_str());
        if text::same_text(line, "### Result") {
            inside = true;
        } else if inside {
            if text::starts_with(line, "### ") {
                return None;
            }
            let candidate = text::trimmed_end_of(text::trimmed_start_of(line, "\""), "\"");
            if text::starts_with(candidate, "http://") || text::starts_with(candidate, "https://") {
                return Some(candidate.to_string());
            }
        }
    }
    None
}

fn page_url_of(t: &str) -> (r: Option<String>)
    ensures
        text::view_opt_string(r) == page_url(t@),
{
    let lines = text::split_lines(t);
    if let Some(url) = find_page_line(&lines) {
        if url.as_str().unicode_len() > 0 {
            return Some(url);
        }
    }
    find_result_url(&lines)
}

/// The URL of the page that a tool result names.
pub fn extract_page_url_from_result(result: &Json) -> (r: Option<String>)
    ensures
        text::view_opt_string(r) == first_page_url(content_texts(result@)),
{
    let texts = texts_of(result);
    let ghost all = text::views(texts@);
    proof {
        assert(all.skip(0) =~= all);
    }
    for i in 0..texts.len()
        invariant
            all == text::views(texts@),
            all == content_texts(result@),
            first_page_url(all) == first_page_url(all.skip(i as int)),
    {
        proof {
            assert(all.skip(i as int)[0] == texts@[i as int]@);
            assert(all.skip(i as int).skip(1) =~= all.skip(i + 1));
        }
        if let Some(url) = page_url_of(texts[i].as_str()) {
            return Some(url);
        }
    }
    None
}

/// The lines of the section of results that hold something, trimmed; `inside`
/// says whether the lines are in it already.
pub open spec fn result_lines(lines: Seq<Seq<char>>, inside: bool) -> Seq<Seq<char>>
    decreases lines.len(),
{
    if lines.len() == 0 {
        Seq::<Seq<char>>::empty()
    } else {
        let line = text::trim(lines[0]);
        if line == "### Result"@ {
            result_lines(lines.skip(1), true)
        } else if !inside {
            result_lines(lines.skip(1), false)
        } else if text::has_prefix(line, "### "@) {
            Seq::<Seq<char>>::empty()
        } else if line.len() == 0 {
            result_lines(lines.skip(1), true)
        } else {
            seq![line] + result_lines(lines.skip(1), true)
        }
    }
}

/// The result that one text carries, as JSON text.
pub open spec fn result_payload(t: Seq<char>) -> Seq<char> {
    text::join(result_lines(text::lines(t), false), "\n"@)
}

/// The result that one text carries, as JSON text.
pub fn payload_of(t: &str) -> (r: String)
    ensures
        r@ == result_payload(t@),
{
    let lines = text::split_lines(t);
    let ghost all = text::views(lines@);
    let mut kept: Vec<String> = Vec::new();
    let mut inside = false;
    proof {
        assert(all.skip(0) =~= all);
        assert(text::views(kept@) + result_lines(all, false) =~= result_lines(all, false));
    }
    for i in 0..lines.len()
        invariant
            all == text::views(lines@),
            all == text::lines(t@),
            result_lines(all, false) == text::views(kept@) + result_lines(
                all.skip(i as int),
                inside,
            ),
    {
        proof {
            assert(all.skip(i as int)[0] == lines@[i as int]@);
            assert(all.skip(i as int).skip(1) =~= all.skip(i + 1));
        }
        let line = text::trimmed(lines[i].as_str());
        if text::same_text(line, "### Result") {
            inside = true;
        } else if inside {
            if text::starts_with(line, "### ") {
                proof {
                    assert(text::views(kept@) + Seq::<Seq<char>>::empty() =~= text::views(kept@));
                }
                return text::joined(&kept, "\n");
            }
            if line.unicode_len() > 0 {
                let ghost before = text::views(kept@);
                kept.push(line.to_string());
                proof {
                    assert(text::views(kept@) =~= before.push(line@));
                    let rest = result_lines(all.skip(i + 1), true);
                    assert(before + (seq![line@] + rest) =~= before.push(line@) + rest);
                }
            }
        }
    }
    proof {
        assert(text::views(kept@) + Seq::<Seq<char>>::empty() =~= text::views(kept@));
    }
    text::joined(&kept, "\n")
}

/// The text that a tool result carries as a JSON string.
pub open spec fn string_result(result: JsonView) -> Option<Seq<char>> {
    let texts = content_texts(result);
    if texts.len() == 0 {
        None
    } else {
        match json::json_parse(result_payload(texts[0])) {
            Some(j) => j.text(),
            None => None,
        }
    }
}

/// The text that a tool result carries as a JSON string.
pub fn extract_string_result(result: &Json) -> (r: Option<String>)
    ensures
        text::view_opt_string(r) == string_result(result@),
{
    let texts = texts_of(result);
    proof {
        assert(text::views(texts@).len() == texts@.len());
    }
    if texts.len() == 0 {
        return None;
    }
    proof {
        assert(text::views(texts@)[0] == texts@[0]@);
    }
    let payload = payload_of(texts[0].as_str());
    match json::parse(payload.as_str()) {
        Some(Json::Text(s)) => Some(s),
        _ => None,
    }
}

// ── PlaywrightMcpClient ────────────────────────────────────────────────────

/// Client for the `@playwright/mcp` JSON-RPC sidecar.
///
/// Uses the MCP StreamableHTTP transport (`POST {endpoint}/mcp`).
///
/// The session outlives a call, so that successive browser tool calls reuse the
/// same Playwright browser session, preserving navigation history, cookies, and
/// form state.
pub struct PlaywrightMcpClient {
    pub endpoint: String,
    pub api_key: Option<String>,
    pub timeout_ms: u64,
    /// The last request ID used.
    pub req_id: u64,
    /// Session ID — None means no active session yet.
    pub session_id: Option<String>,
    /// Last successfully navigated page URL, used to restore page context after session resets.
    pub last_url: Option<String>,
    /// Safe state-setting actions to replay after session resets so forms and selections survive.
    pub replayable_actions: Vec<(String, Json)>,
    /// Serialized browser cookies captured from the active session for restoring auth state.
    pub cookies_json: Option<String>,
}

/// A tool call on its way.
pub struct PendingCall {
    pub tool_name: String,
    pub arguments: Json,
    /// The URL that the call asks the browser to open.
    pub requested_url: Option<String>,
}

/// What the sidecar answered to one request.
pub struct Answer {
    pub status: u16,
    /// The status as it is shown, with its reason.
    pub shown_status: String,
    /// The `mcp-session-id` header.
    pub session_header: Option<String>,
    /// The body; none where it could not be read.
    pub body: Option<String>,
}

/// One tool call that restores the page after a session reset.
pub struct Restoring {
    pub tool_name: String,
    pub arguments: Json,
    /// What is said where it fails.
    pub failure: String,
}

/// What is to be sent next, and to which session; or how the call ended.
pub enum Step {
    /// Send `body` without a session; hand the answer to `opened`.
    Open { body: Json, again: bool },
    /// Send `body`; then call `announced`, whatever came back.
    Announce { session: String, body: Json, again: bool },
    /// Send `body`; hand the answer to `called`.
    Call { session: String, body: Json },
    /// Send `body`; hand the answer to `restored`.
    Restore { session: String, body: Json, plan: Vec<Restoring>, at: usize },
    /// Send `body`; hand the answer to `retried`.
    Retry { session: String, body: Json },
    /// Send `body`; hand the answer to `captured`.
    Capture { session: String, body: Json, result: Json },
    /// The call is over.
    Done(Result<Json, String>),
}

/// The JSON-RPC request that opens a session.
pub open spec fn initialize_body(id: u64) -> JsonView {
    JsonView::Object(
        seq![
            ("jsonrpc"@, JsonView::Text("2.0"@)),
            ("id"@, JsonView::UInt(id)),
            ("method"@, JsonView::Text("initialize"@)),
            (
                "params"@,
                JsonView::Object(
                    seq![
                        ("protocolVersion"@, JsonView::Text("2024-11-05"@)),
                        ("capabilities"@, nothing()),
                        ("clientInfo"@, two("name"@, "zeroclaw"@, "version"@, "0.7.0"@)),
                    ],
                ),
            ),
        ],
    )
}

/// The JSON-RPC notification that a session is open.
pub open spec fn initialized_body() -> JsonView {
    JsonView::Object(
        seq![
            ("jsonrpc"@, JsonView::Text("2.0"@)),
            ("method"@, JsonView::Text("notifications/initialized"@)),
            ("params"@, nothing()),
        ],
    )
}

/// The JSON-RPC request that calls a tool.
pub open spec fn call_body(id: u64, tool_name: Seq<char>, arguments: JsonView) -> JsonView {
    JsonView::Object(
        seq![
            ("jsonrpc"@, JsonView::Text("2.0"@)),
            ("id"@, JsonView::UInt(id)),
            ("method"@, JsonView::Text("tools/call"@)),
            (
                "params"@,
                JsonView::Object(
                    seq![("name"@, JsonView::Text(tool_name)), ("arguments"@, arguments)],
                ),
            ),
        ],
    )
}

fn initialize_json(id: u64) -> (r: Json)
    ensures
        r@ == initialize_body(id),
{
    json::object4(
        "jsonrpc",
        json::string("2.0"),
        "id",
        Json::UInt(id),
        "method",
        json::string("initialize"),
        "params",
        json::object3(
            "protocolVersion",
            json::string("2024-11-05"),
            "capabilities",
            json::object0(),
            "clientInfo",
            two_args("name", "zeroclaw", "version", "0.7.0"),
        ),
    )
}

fn initialized_json() -> (r: Json)
    ensures
        r@ == initialized_body(),
{
    json::object3(
        "jsonrpc",
        json::string("2.0"),
        "method",
        json::string("notifications/initialized"),
        "params",
        json::object0(),
    )
}

fn call_json(id: u64, tool_name: &str, arguments: &Json) -> (r: Json)
    ensures
        r@ == call_body(id, tool_name@, arguments@),
{
    json::object4(
        "jsonrpc",
        json::string("2.0"),
        "id",
        Json::UInt(id),
        "method",
        json::string("tools/call"),
        "params",
        json::object2("name", json::string(tool_name), "arguments", arguments.copied()),
    )
}

/// A status of a successful answer.
pub open spec fn is_success(status: u16) -> bool {
    200 <= status <= 299
}

/// The session that an answer to `initialize` opens, or why it opens none.
/// `json` is what its body was parsed to.
pub open spec fn opened_session(
    answer: Option<Answer>,
    json: Result<JsonView, Seq<char>>,
) -> Result<Seq<char>, Seq<char>> {
    match answer {
        None => Err("playwright-mcp: initialize request failed"@),
        Some(a) => match (a.session_header, a.body) {
            (None, _) => Err("playwright-mcp: initialize response missing mcp-session-id header"@),
            (Some(_), None) => Err("playwright-mcp: failed to read initialize response"@),
            (Some(session), Some(body)) => if !is_success(a.status) {
                Err(
                    "playwright-mcp: initialize returned HTTP "@ + a.shown_status@ + ": "@ + body@,
                )
            } else {
                match json {
                    Err(e) => Err(e),
                    Ok(j) => match j.get("error"@) {
                        Some(err) => Err(
                            "playwright-mcp: initialize error: "@ + json::json_text(err),
                        ),
                        None => Ok(session@),
                    },
                }
            },
        },
    }
}

/// What an answer's body was parsed to.
pub open spec fn answer_json(answer: Option<Answer>) -> Result<JsonView, Seq<char>> {
    match answer {
        Some(a) => match a.body {
            Some(body) => sse_json(body@),
            None => Err(Seq::<char>::empty()),
        },
        None => Err(Seq::<char>::empty()),
    }
}

/// The result that an answer to a tool call carries, or why it carries none.
/// `json` is what its body was parsed to, `after` is empty on a first attempt.
pub open spec fn call_result(
    tool_name: Seq<char>,
    answer: Option<Answer>,
    json: Result<JsonView, Seq<char>>,
    lost: Seq<char>,
    unread: Seq<char>,
    after: Seq<char>,
) -> Result<JsonView, Seq<char>> {
    match answer {
        None => Err("playwright-mcp: tools/call "@ + lost + " for '"@ + tool_name + "'"@),
        Some(a) => match a.body {
            None => Err("playwright-mcp: failed to read "@ + unread + " response"@),
            Some(_) => if !is_success(a.status) {
                Err(
                    "playwright-mcp: sidecar returned HTTP "@ + a.shown_status@ + " for tool '"@
                        + tool_name + "'"@ + after,
                )
            } else {
                match json {
                    Err(e) => Err(e),
                    Ok(j) => match j.get("error"@) {
                        Some(err) => Err(
                            "playwright-mcp: tool '"@ + tool_name + "' error"@ + after + ": "@
                                + json::json_text(err),
                        ),
                        None => Ok(
                            match j.get("result"@) {
                                Some(result) => result,
                                None => JsonView::Null,
                            },
                        ),
                    },
                }
            },
        },
    }
}

/// The view of a result of a call.
pub open spec fn outcome_view(r: Result<Json, String>) -> Result<JsonView, Seq<char>> {
    match r {
        Ok(j) => Ok(j@),
        Err(e) => Err(e@),
    }
}

/// The session that an answer to `initialize` opens, given what its body was
/// parsed to.
pub fn judge_initialize(answer: &Option<Answer>, parsed: &Result<Json, String>) -> (r: Result<
    String,
    String,
>)
    ensures
        text::view_result(r) == opened_session(*answer, outcome_view(*parsed)),
{
    match answer {
        None => Err("playwright-mcp: initialize request failed".to_string()),
        Some(a) => match (&a.session_header, &a.body) {
            (None, _) => Err(
                "playwright-mcp: initialize response missing mcp-session-id header".to_string(),
            ),
            (Some(_), None) => Err("playwright-mcp: failed to read initialize response".to_string()),
            (Some(session), Some(body)) => {
                if !(200 <= a.status && a.status <= 299) {
                    return Err(
                        text::cat4(
                            "playwright-mcp: initialize returned HTTP ",
                            a.shown_status.as_str(),
                            ": ",
                            body.as_str(),
                        ),
                    );
                }
                match parsed {
                    Err(e) => Err(e.clone()),
                    Ok(j) => match j.get("error") {
                        Some(err) => Err(
                            text::cat2(
                                "playwright-mcp: initialize error: ",
                                json::to_text(err).as_str(),
                            ),
                        ),
                        None => Ok(session.clone()),
                    },
                }
            },
        },
    }
}

/// The result that an answer to a tool call carries, given what its body was
/// parsed to.
pub fn judge_call(
    tool_name: &str,
    answer: &Option<Answer>,
    parsed: &Result<Json, String>,
    lost: &str,
    unread: &str,
    after: &str,
) -> (r: Result<Json, String>)
    ensures
        outcome_view(r) == call_result(
            tool_name@,
            *answer,
            outcome_view(*parsed),
            lost@,
            unread@,
            after@,
        ),
{
    match answer {
        None => Err(text::cat5("playwright-mcp: tools/call ", lost, " for '", tool_name, "'")),
        Some(a) => match &a.body {
            None => Err(text::cat3("playwright-mcp: failed to read ", unread, " response")),
            Some(_) => {
                if !(200 <= a.status && a.status <= 299) {
                    let mut message = text::cat5(
                        "playwright-mcp: sidecar returned HTTP ",
                        a.shown_status.as_str(),
                        " for tool '",
                        tool_name,
                        "'",
                    );
                    message.append(after);
                    return Err(message);
                }
                match parsed {
                    Err(e) => Err(e.clone()),
                    Ok(j) => match j.get("error") {
                        Some(err) => {
                            let mut message = text::cat5(
                                "playwright-mcp: tool '",
                                tool_name,
                                "' error",
                                after,
                                ": ",
                            );
                            message.append(json::to_text(err).as_str());
                            Err(message)
                        },
                        None => Ok(
                            match j.get("result") {
                                Some(result) => result.copied(),
                                None => Json::Null,
                            },
                        ),
                    },
                }
            },
        },
    }
}

fn parse_answer(answer: &Option<Answer>) -> (r: Result<Json, String>)
    ensures
        outcome_view(r) == answer_json(*answer),
{
    match answer {
        Some(a) => match &a.body {
            Some(body) => parse_sse_json(body.as_str()),
            None => {
                let none = String::new();
                proof {
                    assert(none@ =~= Seq::<char>::empty());
                }
                Err(none)
            },
        },
        None => {
            let none = String::new();
            proof {
                assert(none@ =~= Seq::<char>::empty());
            }
            Err(none)
        },
    }
}

/// What a list of replayable actions says.
pub open spec fn action_views(actions: Seq<(String, Json)>) -> Seq<ToolUse> {
    actions.map_values(|a: (String, Json)| (a.0@, a.1@))
}

/// What is remembered of a page for the time after a session reset.
#[verifier::ext_equal]
pub struct PageMemory {
    pub last_url: Option<Seq<char>>,
    pub replayable_actions: Seq<ToolUse>,
    pub cookies_json: Option<Seq<char>>,
}

/// What is remembered after a tool call succeeded with the page at
/// `current_url`.
pub open spec fn remembered(
    memory: PageMemory,
    tool_name: Seq<char>,
    arguments: JsonView,
    current_url: Option<Seq<char>>,
) -> PageMemory {
    let at_url = match current_url {
        Some(url) => PageMemory { last_url: Some(url), ..memory },
        None => memory,
    };
    if tool_name == "browser_close"@ {
        PageMemory {
            last_url: None,
            replayable_actions: Seq::<ToolUse>::empty(),
            cookies_json: None,
        }
    } else if current_url is Some && tool_name == "browser_navigate"@ {
        PageMemory { replayable_actions: Seq::<ToolUse>::empty(), ..at_url }
    } else if replayable(tool_name, arguments) {
        PageMemory {
            replayable_actions: memory.replayable_actions.push((tool_name, arguments)),
            ..at_url
        }
    } else {
        at_url
    }
}

/// One call that restores the page: the tool, its arguments and what is said
/// where it fails.
pub type RestoringView = (Seq<char>, JsonView, Seq<char>);

/// The calls that restore the cookies.
pub open spec fn cookie_calls(cookies_json: Option<Seq<char>>) -> Seq<RestoringView> {
    match cookies_json {
        Some(cookies) => seq![
            (
                "browser_run_code"@,
                one(
                    "code"@,
                    "async (page) => { await page.context().addCookies(JSON.parse("@ + json::quoted(
                        cookies,
                    ) + ")); return true; }"@,
                ),
                "playwright-mcp: failed to restore cookies after session reset"@,
            ),
        ],
        None => Seq::<RestoringView>::empty(),
    }
}

/// The calls that open the last page.
pub open spec fn page_calls(last_url: Option<Seq<char>>) -> Seq<RestoringView> {
    match last_url {
        Some(url) => seq![
            (
                "browser_navigate"@,
                one("url"@, url),
                "playwright-mcp: failed to restore browser page after session reset"@,
            ),
        ],
        None => Seq::<RestoringView>::empty(),
    }
}

/// The calls that repeat what set the state of forms.
pub open spec fn replay_calls(actions: Seq<ToolUse>) -> Seq<RestoringView> {
    actions.map_values(
        |a: ToolUse|
            (
                a.0,
                a.1,
                "playwright-mcp: failed to replay '"@ + a.0 + "' after session reset"@,
            ),
    )
}

/// The calls that restore a page after a session reset: its cookies, its URL,
/// then what set the state of its forms.
pub open spec fn restore_calls(memory: PageMemory) -> Seq<RestoringView> {
    cookie_calls(memory.cookies_json) + page_calls(memory.last_url) + replay_calls(
        memory.replayable_actions,
    )
}

/// What a plan of restoring calls says.
pub open spec fn plan_views(plan: Seq<Restoring>) -> Seq<RestoringView> {
    plan.map_values(|p: Restoring| (p.tool_name@, p.arguments@, p.failure@))
}

/// The call that reads the cookies of the page.
pub open spec fn cookies_use() -> ToolUse {
    (
        "browser_run_code"@,
        one("code"@, "async (page) => JSON.stringify(await page.context().cookies())"@),
    )
}

/// The page that a successful call left the browser at.
pub open spec fn current_url(requested: Option<Seq<char>>, result: JsonView) -> Option<Seq<char>> {
    match requested {
        Some(url) => Some(url),
        None => first_page_url(content_texts(result)),
    }
}

/// The step is a tool call to `session`.
pub open spec fn calls(session: Seq<char>, body: Json, s: Seq<char>, id: int, u: ToolUse) -> bool {
    session == s && body@ == call_body(id as u64, u.0, u.1)
}

/// The headers of a request.
pub open spec fn headers_for(
    api_key: Option<Seq<char>>,
    session_id: Option<Seq<char>>,
) -> Seq<(Seq<char>, Seq<char>)> {
    let base = seq![
        ("Accept"@, "application/json, text/event-stream"@),
        ("Connection"@, "close"@),
    ];
    let authorized = match api_key {
        Some(key) => base.push(("Authorization"@, "Bearer "@ + key)),
        None => base,
    };
    match session_id {
        Some(session) => authorized.push(("mcp-session-id"@, session)),
        None => authorized,
    }
}

impl PendingCall {
    /// What the call asks for.
    pub open spec fn tool_use(&self) -> ToolUse {
        (self.tool_name@, self.arguments@)
    }
}

impl PlaywrightMcpClient {
    /// What is remembered of the page.
    pub open spec fn memory(&self) -> PageMemory {
        PageMemory {
            last_url: text::view_opt_string(self.last_url),
            replayable_actions: action_views(self.replayable_actions@),
            cookies_json: text::view_opt_string(self.cookies_json),
        }
    }

    /// Where and how the sidecar is reached is the same as in `other`.
    pub open spec fn same_target(&self, other: &Self) -> bool {
        self.endpoint == other.endpoint && self.api_key == other.api_key && self.timeout_ms
            == other.timeout_ms
    }

    pub fn new(
        endpoint: String,
        api_key: Option<String>,
        timeout_ms: u64,
        session_id: Option<String>,
        last_url: Option<String>,
        replayable_actions: Vec<(String, Json)>,
        cookies_json: Option<String>,
    ) -> (r: Self)
        ensures
            r.endpoint@ == text::trim_end_of(endpoint@, "/"@),
            r.api_key == api_key,
            r.timeout_ms == timeout_ms,
            r.req_id == 0,
            r.session_id == session_id,
            r.last_url == last_url,
            r.replayable_actions == replayable_actions,
            r.cookies_json == cookies_json,
    {
        PlaywrightMcpClient {
            endpoint: text::trimmed_end_of(endpoint.as_str(), "/").to_string(),
            api_key,
            timeout_ms,
            req_id: 0,
            session_id,
            last_url,
            replayable_actions,
            cookies_json,
        }
    }

    /// Where requests are posted.
    pub fn mcp_url(&self) -> (r: String)
        ensures
            r@ == self.endpoint@ + "/mcp"@,
    {
        text::cat2(self.endpoint.as_str(), "/mcp")
    }

    /// The headers of a request, besides those of its JSON body. Each request
    /// closes its connection: the sidecar loses sessions on connections that
    /// are reused.
    pub fn request_headers(&self, session_id: Option<&str>) -> (r: Vec<(String, String)>)
        ensures
            r@.map_values(|h: (String, String)| (h.0@, h.1@)) == headers_for(
                text::view_opt_string(self.api_key),
                text::view_opt(session_id),
            ),
    {
        let mut r: Vec<(String, String)> = Vec::new();
        r.push(("Accept".to_string(), "application/json, text/event-stream".to_string()));
        r.push(("Connection".to_string(), "close".to_string()));
        if let Some(key) = &self.api_key {
            r.push(("Authorization".to_string(), text::cat2("Bearer ", key.as_str())));
        }
        if let Some(session) = session_id {
            r.push(("mcp-session-id".to_string(), session.to_string()));
        }
        proof {
            assert(r@.map_values(|h: (String, String)| (h.0@, h.1@)) =~= headers_for(
                text::view_opt_string(self.api_key),
                text::view_opt(session_id),
            ));
        }
        r
    }

    /// The time that a whole exchange may take, a little over that of a single
    /// request.
    pub fn client_timeout_ms(&self) -> (r: u64)
        requires
            self.timeout_ms <= u64::MAX - 5_000,
        ensures
            r == self.timeout_ms + 5_000,
    {
        self.timeout_ms + 5_000
    }

    /// Remembers what a successful tool call did to the page.
    pub fn record_successful_tool_call(
        &mut self,
        tool_name: &str,
        arguments: &Json,
        current_url: Option<String>,
    )
        ensures
            final(self).same_target(old(self)),
            final(self).req_id == old(self).req_id,
            final(self).session_id == old(self).session_id,
            final(self).memory() == remembered(
                old(self).memory(),
                tool_name@,
                arguments@,
                text::view_opt_string(current_url),
            ),
    {
        if text::same_text(tool_name, "browser_close") {
            self.last_url = None;
            self.cookies_json = None;
            self.replayable_actions = Vec::new();
            proof {
                assert(action_views(self.replayable_actions@) =~= Seq::<ToolUse>::empty());
            }
            return;
        }
        if let Some(url) = current_url {
            self.last_url = Some(url);
            if text::same_text(tool_name, "browser_navigate") {
                self.replayable_actions = Vec::new();
                proof {
                    assert(action_views(self.replayable_actions@) =~= Seq::<ToolUse>::empty());
                }
                return;
            }
        }
        if is_replayable_tool_call(tool_name, arguments) {
            let ghost before = self.replayable_actions@;
            self.replayable_actions.push((tool_name.to_string(), arguments.copied()));
            proof {
                assert(action_views(self.replayable_actions@) =~= action_views(before).push(
                    (tool_name@, arguments@),
                ));
            }
        }
    }

    /// The calls that restore the page after a session reset.
    pub fn restore_plan(&self) -> (r: Vec<Restoring>)
        ensures
            plan_views(r@) == restore_calls(self.memory()),
    {
        let mut plan: Vec<Restoring> = Vec::new();
        if let Some(cookies) = &self.cookies_json {
            let code = text::cat3(
                "async (page) => { await page.context().addCookies(JSON.parse(",
                js_string(cookies.as_str()).as_str(),
                ")); return true; }",
            );
            plan.push(
                Restoring {
                    tool_name: "browser_run_code".to_string(),
                    arguments: one_arg("code", code.as_str()),
                    failure: "playwright-mcp: failed to restore cookies after session reset".to_string(),
                },
            );
        }
        let ghost cookies = cookie_calls(self.memory().cookies_json);
        proof {
            assert(plan_views(plan@) =~= cookies);
        }
        if let Some(url) = &self.last_url {
            plan.push(
                Restoring {
                    tool_name: "browser_navigate".to_string(),
                    arguments: one_arg("url", url.as_str()),
                    failure: "playwright-mcp: failed to restore browser page after session reset".to_string(),
                },
            );
        }
        let ghost head = cookies + page_calls(self.memory().last_url);
        let ghost all = self.memory().replayable_actions;
        proof {
            assert(plan_views(plan@) =~= head);
            assert(plan_views(plan@) =~= head + replay_calls(all.take(0)));
        }
        for k in 0..self.replayable_actions.len()
            invariant
                all == action_views(self.replayable_actions@),
                plan_views(plan@) == head + replay_calls(all.take(k as int)),
        {
            let ghost before = plan_views(plan@);
            let action = &self.replayable_actions[k];
            let entry = Restoring {
                tool_name: action.0.clone(),
                arguments: action.1.copied(),
                failure: text::cat3(
                    "playwright-mcp: failed to replay '",
                    action.0.as_str(),
                    "' after session reset",
                ),
            };
            let ghost said = (entry.tool_name@, entry.arguments@, entry.failure@);
            plan.push(entry);
            proof {
                assert(plan_views(plan@) =~= before.push(said));
                assert(all[k as int] == (action.0@, action.1@));
                assert(replay_calls(all.take(k + 1)) =~= replay_calls(all.take(k as int)).push(said));
                assert(plan_views(plan@) =~= head + replay_calls(all.take(k + 1)));
            }
        }
        proof {
            assert(all.take(all.len() as int) =~= all);
        }
        plan
    }

    /// Takes the next request ID.
    fn next_id(&mut self) -> (id: u64)
        requires
            old(self).req_id < u64::MAX,
        ensures
            id == old(self).req_id + 1,
            final(self).req_id == id,
            final(self).same_target(old(self)),
            final(self).session_id == old(self).session_id,
            final(self).memory() == old(self).memory(),
    {
        self.req_id = self.req_id + 1;
        self.req_id
    }

    /// Starts a tool call: in the session that is open, or by opening one.
    pub fn begin(&mut self, call: &PendingCall) -> (r: Step)
        requires
            old(self).req_id < u64::MAX,
        ensures
            final(self).same_target(old(self)),
            final(self).req_id == old(self).req_id + 1,
            final(self).session_id == old(self).session_id,
            final(self).memory() == old(self).memory(),
            match old(self).session_id {
                Some(s) => r matches Step::Call { session, body } && calls(
                    session@,
                    body,
                    s@,
                    final(self).req_id as int,
                    call.tool_use(),
                ),
                None => r matches Step::Open { body, again } && !again && body@ == initialize_body(
                    final(self).req_id,
                ),
            },
    {
        let session = match &self.session_id {
            Some(s) => Some(s.clone()),
            None => None,
        };
        let id: u64 = self.next_id();
        match session {
            Some(session) => Step::Call {
                session,
                body: call_json(id, call.tool_name.as_str(), &call.arguments),
            },
            None => Step::Open { body: initialize_json(id), again: false },
        }
    }

    /// Takes the answer to `initialize`.
    pub fn opened(&mut self, answer: &Option<Answer>, again: bool) -> (r: Step)
        ensures
            *final(self) == *old(self),
            match opened_session(*answer, answer_json(*answer)) {
                Ok(s) => r matches Step::Announce { session, body, again: a } && session@ == s && body@
                    == initialized_body() && a == again,
                Err(e) => r matches Step::Done(Err(message)) && message@ == e,
            },
    {
        let parsed = parse_answer(answer);
        match judge_initialize(answer, &parsed) {
            Ok(session) => Step::Announce { session, body: initialized_json(), again },
            Err(e) => Step::Done(Err(e)),
        }
    }

    /// Goes on once the session has been announced. On a first attempt the
    /// tool is called. After a reset the page is restored first, unless the
    /// call opens a page itself.
    pub fn announced(&mut self, session: String, again: bool, call: &PendingCall) -> (r: Step)
        requires
            old(self).req_id < u64::MAX,
        ensures
            final(self).same_target(old(self)),
            final(self).req_id == old(self).req_id + 1,
            final(self).session_id == Some(session),
            final(self).memory() == old(self).memory(),
            ({
                let plan = restore_calls(old(self).memory());
                let id = final(self).req_id as int;
                if !again {
                    r matches Step::Call { session: s, body } && calls(
                        s@,
                        body,
                        session@,
                        id,
                        call.tool_use(),
                    )
                } else if call.tool_name@ != "browser_navigate"@ && plan.len() > 0 {
                    r matches Step::Restore { session: s, body, plan: p, at } && at == 0
                        && plan_views(p@) == plan && calls(
                        s@,
                        body,
                        session@,
                        id,
                        (plan[0].0, plan[0].1),
                    )
                } else {
                    r matches Step::Retry { session: s, body } && calls(
                        s@,
                        body,
                        session@,
                        id,
                        call.tool_use(),
                    )
                }
            }),
    {
        self.session_id = Some(session.clone());
        let id: u64 = self.next_id();
        if !again {
            return Step::Call {
                session,
                body: call_json(id, call.tool_name.as_str(), &call.arguments),
            };
        }
        if !text::same_text(call.tool_name.as_str(), "browser_navigate") {
            let plan = self.restore_plan();
            proof {
                assert(plan_views(plan@).len() == plan@.len());
            }
            if plan.len() > 0 {
                proof {
                    assert(plan_views(plan@)[0] == (
                        plan@[0].tool_name@,
                        plan@[0].arguments@,
                        plan@[0].failure@,
                    ));
                }
                let body = call_json(id, plan[0].tool_name.as_str(), &plan[0].arguments);
                return Step::Restore { session, body, plan, at: 0 };
            }
        }
        Step::Retry { session, body: call_json(id, call.tool_name.as_str(), &call.arguments) }
    }

    /// Takes the answer to a first attempt. A session that is not found is
    /// given up, and a new one is opened.
    pub fn called(&mut self, session: String, answer: &Option<Answer>, call: &PendingCall) -> (r:
        Step)
        requires
            old(self).req_id < u64::MAX,
        ensures
            final(self).same_target(old(self)),
            match answer {
                Some(a) if a.status == 404 => {
                    &&& final(self).session_id is None
                    &&& final(self).req_id == old(self).req_id + 1
                    &&& final(self).memory() == old(self).memory()
                    &&& r matches Step::Open { body, again } && again && body@ == initialize_body(
                        final(self).req_id,
                    )
                },
                _ => final(self).session_id == old(self).session_id && old(self).after_attempt(
                    final(self),
                    session@,
                    call,
                    call_result(
                        call.tool_name@,
                        *answer,
                        answer_json(*answer),
                        "request failed"@,
                        "tools/call"@,
                        Seq::<char>::empty(),
                    ),
                    r,
                ),
            },
    {
        if let Some(a) = answer {
            if a.status == 404 {
                self.session_id = None;
                let id: u64 = self.next_id();
                return Step::Open { body: initialize_json(id), again: true };
            }
        }
        let parsed = parse_answer(answer);
        let after = String::new();
        proof {
            assert(after@ =~= Seq::<char>::empty());
        }
        let outcome = judge_call(
            call.tool_name.as_str(),
            answer,
            &parsed,
            "request failed",
            "tools/call",
            after.as_str(),
        );
        self.conclude(session, outcome, call)
    }

    /// Takes the answer to a call that restores the page, and goes on with the
    /// next one, or with the second attempt after the last one.
    pub fn restored(
        &mut self,
        session: String,
        plan: Vec<Restoring>,
        at: usize,
        answer: &Option<Answer>,
        call: &PendingCall,
    ) -> (r: Step)
        requires
            old(self).req_id < u64::MAX,
            at < plan@.len(),
        ensures
            final(self).same_target(old(self)),
            final(self).session_id == old(self).session_id,
            final(self).memory() == old(self).memory(),
            ({
                let said = plan_views(plan@);
                let id = final(self).req_id as int;
                let outcome = call_result(
                    said[at as int].0,
                    *answer,
                    answer_json(*answer),
                    "request failed"@,
                    "tools/call"@,
                    Seq::<char>::empty(),
                );
                if outcome is Err {
                    &&& r matches Step::Done(Err(message)) && message@ == said[at as int].2
                    &&& final(self).req_id == old(self).req_id
                } else if at + 1 < plan@.len() {
                    &&& r matches Step::Restore { session: s, body, plan: p, at: a } && a == at + 1
                        && p == plan && calls(
                        s@,
                        body,
                        session@,
                        id,
                        (said[at + 1].0, said[at + 1].1),
                    )
                    &&& final(self).req_id == old(self).req_id + 1
                } else {
                    &&& r matches Step::Retry { session: s, body } && calls(
                        s@,
                        body,
                        session@,
                        id,
                        call.tool_use(),
                    )
                    &&& final(self).req_id == old(self).req_id + 1
                }
            }),
    {
        let ghost said = plan_views(plan@);
        proof {
            assert(said[at as int] == (
                plan@[at as int].tool_name@,
                plan@[at as int].arguments@,
                plan@[at as int].failure@,
            ));
        }
        let parsed = parse_answer(answer);
        let after = String::new();
        proof {
            assert(after@ =~= Seq::<char>::empty());
        }
        let outcome = judge_call(
            plan[at].tool_name.as_str(),
            answer,
            &parsed,
            "request failed",
            "tools/call",
            after.as_str(),
        );
        if outcome.is_err() {
            return Step::Done(Err(plan[at].failure.clone()));
        }
        let id: u64 = self.next_id();
        if plan.len() - at > 1 {
            proof {
                assert(said[at + 1] == (
                    plan@[at + 1].tool_name@,
                    plan@[at + 1].arguments@,
                    plan@[at + 1].failure@,
                ));
            }
            let body = call_json(id, plan[at + 1].tool_name.as_str(), &plan[at + 1].arguments);
            return Step::Restore { session, body, plan, at: at + 1 };
        }
        Step::Retry { session, body: call_json(id, call.tool_name.as_str(), &call.arguments) }
    }

    /// Takes the answer to the second attempt.
    pub fn retried(&mut self, session: String, answer: &Option<Answer>, call: &PendingCall) -> (r:
        Step)
        requires
            old(self).req_id < u64::MAX,
        ensures
            final(self).same_target(old(self)),
            final(self).session_id == old(self).session_id,
            old(self).after_attempt(
                final(self),
                session@,
                call,
                call_result(
                    call.tool_name@,
                    *answer,
                    answer_json(*answer),
                    "retry failed"@,
                    "retry"@,
                    " (after session reset)"@,
                ),
                r,
            ),
    {
        let parsed = parse_answer(answer);
        let outcome = judge_call(
            call.tool_name.as_str(),
            answer,
            &parsed,
            "retry failed",
            "retry",
            " (after session reset)",
        );
        self.conclude(session, outcome, call)
    }

    /// What follows an attempt with the given outcome: a failure ends the
    /// call. A success is remembered, and where the page is known its cookies
    /// are read before the call ends.
    pub open spec fn after_attempt(
        &self,
        next: &Self,
        session: Seq<char>,
        call: &PendingCall,
        outcome: Result<JsonView, Seq<char>>,
        r: Step,
    ) -> bool {
        match outcome {
            Err(e) => {
                &&& r matches Step::Done(Err(message)) && message@ == e
                &&& next.memory() == self.memory()
                &&& next.req_id == self.req_id
            },
            Ok(result) => {
                let url = current_url(text::view_opt_string(call.requested_url), result);
                &&& next.memory() == remembered(
                    self.memory(),
                    call.tool_name@,
                    call.arguments@,
                    url,
                )
                &&& if url is Some {
                    &&& next.req_id == self.req_id + 1
                    &&& r matches Step::Capture { session: s, body, result: held } && held@ == result
                        && calls(s@, body, session, next.req_id as int, cookies_use())
                } else {
                    &&& next.req_id == self.req_id
                    &&& r matches Step::Done(Ok(given)) && given@ == result
                }
            },
        }
    }

    fn conclude(&mut self, session: String, outcome: Result<Json, String>, call: &PendingCall) -> (r:
        Step)
        requires
            old(self).req_id < u64::MAX,
        ensures
            final(self).same_target(old(self)),
            final(self).session_id == old(self).session_id,
            old(self).after_attempt(final(self), session@, call, outcome_view(outcome), r),
    {
        let result = match outcome {
            Ok(result) => result,
            Err(e) => {
                return Step::Done(Err(e));
            },
        };
        let url = match &call.requested_url {
            Some(url) => Some(url.clone()),
            None => extract_page_url_from_result(&result),
        };
        let known = url.is_some();
        self.record_successful_tool_call(call.tool_name.as_str(), &call.arguments, url);
        if known {
            let id: u64 = self.next_id();
            let arguments = one_arg(
                "code",
                "async (page) => JSON.stringify(await page.context().cookies())",
            );
            let body = call_json(id, "browser_run_code", &arguments);
            Step::Capture { session, body, result }
        } else {
            Step::Done(Ok(result))
        }
    }

    /// Takes the answer to the reading of the cookies, and ends the call.
    /// Cookies that could not be read are left as they were remembered.
    pub fn captured(&mut self, answer: &Option<Answer>, result: Json) -> (r: Step)
        ensures
            final(self).same_target(old(self)),
            final(self).req_id == old(self).req_id,
            final(self).session_id == old(self).session_id,
            r matches Step::Done(Ok(given)) && given@ == result@,
            ({
                let outcome = call_result(
                    "browser_run_code"@,
                    *answer,
                    answer_json(*answer),
                    "request failed"@,
                    "tools/call"@,
                    Seq::<char>::empty(),
                );
                let read = match outcome {
                    Ok(j) => string_result(j),
                    Err(_) => None,
                };
                final(self).memory() == match read {
                    Some(cookies) => PageMemory { cookies_json: Some(cookies), ..old(self).memory() },
                    None => old(self).memory(),
                }
            }),
    {
        let parsed = parse_answer(answer);
        let after = String::new();
        proof {
            assert(after@ =~= Seq::<char>::empty());
        }
        let outcome = judge_call(
            "browser_run_code",
            answer,
            &parsed,
            "request failed",
            "tools/call",
            after.as_str(),
        );
        if let Ok(read) = &outcome {
            if let Some(cookies) = extract_string_result(read) {
                self.cookies_json = Some(cookies);
            }
        }
        Step::Done(Ok(result))
    }
}

/// The call of a tool, with the URL that it asks the browser to open.
pub fn pending_call(tool_name: &str, arguments: Json) -> (r: PendingCall)
    ensures
        r.tool_name@ == tool_name@,
        r.arguments@ == arguments@,
        text::view_opt_string(r.requested_url) == if tool_name@ == "browser_navigate"@ {
            arguments@.text_at("url"@)
        } else {
            None
        },
{
    let requested_url = if text::same_text(tool_name, "browser_navigate") {
        match arguments.text_at("url") {
            Some(url) => Some(url.to_string()),
            None => None,
        }
    } else {
        None
    };
    PendingCall { tool_name: tool_name.to_string(), arguments, requested_url }
}

/// The pause before the next attempt, in milliseconds, where `attempt` is the
/// number of the one that failed; none after the last one.
pub fn retry_delay_ms(attempt: u32) -> (r: Option<u64>)
    ensures
        r == if attempt == 1 {
            Some(100u64)
        } else if attempt == 2 {
            Some(200u64)
        } else {
            None
        },
{
    if attempt == 1 {
        Some(100)
    } else if attempt == 2 {
        Some(200)
    } else {
        None
    }
}

/// What is said after the last attempt.
pub fn exhausted(error: &str) -> (r: String)
    ensures
        r@ == "playwright-mcp: all 3 attempts failed. Last error: "@ + error@,
{
    text::cat2("playwright-mcp: all 3 attempts failed. Last error: ", error)
}

// ── Laws ───────────────────────────────────────────────────────────────────

/// A call resets its session at most once: after the second attempt it is over
/// but for the reading of cookies, whatever the sidecar answered.
pub proof fn law_session_is_reset_at_most_once(
    client: PlaywrightMcpClient,
    next: PlaywrightMcpClient,
    session: Seq<char>,
    call: PendingCall,
    outcome: Result<JsonView, Seq<char>>,
    step: Step,
)
    requires
        client.after_attempt(&next, session, &call, outcome, step),
    ensures
        step is Done || step is Capture,
        outcome is Err ==> step is Done,
{
}

/// After the browser was closed nothing is restored.
pub proof fn law_close_forgets_the_page(
    memory: PageMemory,
    arguments: JsonView,
    url: Option<Seq<char>>,
)
    ensures
        restore_calls(remembered(memory, "browser_close"@, arguments, url))
            == Seq::<RestoringView>::empty(),
{
    let after = remembered(memory, "browser_close"@, arguments, url);
    assert(restore_calls(after) =~= Seq::<RestoringView>::empty());
}

/// Opening a page drops the form state of the page before, and keeps its
/// cookies.
pub proof fn law_navigation_drops_form_state(
    memory: PageMemory,
    arguments: JsonView,
    url: Seq<char>,
)
    ensures
        restore_calls(remembered(memory, "browser_navigate"@, arguments, Some(url)))
            == cookie_calls(memory.cookies_json) + page_calls(Some(url)),
{
    reveal_strlit("browser_navigate");
    reveal_strlit("browser_close");
    assert("browser_navigate"@.len() != "browser_close"@.len());
    let after = remembered(memory, "browser_navigate"@, arguments, Some(url));
    assert(restore_calls(after) =~= cookie_calls(memory.cookies_json) + page_calls(Some(url)));
}

/// A call that sets form state is the last one to be repeated after a reset,
/// with the same arguments.
pub proof fn law_form_state_is_replayed(
    memory: PageMemory,
    tool_name: Seq<char>,
    arguments: JsonView,
    url: Option<Seq<char>>,
)
    requires
        replayable(tool_name, arguments),
    ensures
        ({
            let plan = restore_calls(remembered(memory, tool_name, arguments, url));
            plan.len() > 0 && plan.last().0 == tool_name && plan.last().1 == arguments
        }),
{
    reveal_strlit("browser_navigate");
    reveal_strlit("browser_close");
    reveal_strlit("browser_fill_form");
    reveal_strlit("browser_type");
    reveal_strlit("browser_select_option");
    reveal_strlit("browser_evaluate");
    reveal_strlit("browser_run_code");
    assert("browser_navigate"@.len() == 16 && "browser_close"@.len() == 13);
    assert("browser_type"@.len() == 12 && "browser_fill_form"@.len() == 17);
    assert("browser_select_option"@.len() == 21);
    assert("browser_navigate"@[8] == 'n');
    assert("browser_evaluate"@[8] == 'e' && "browser_run_code"@[8] == 'r');
    assert(tool_name != "browser_close"@ && tool_name != "browser_navigate"@);
    let after = remembered(memory, tool_name, arguments, url);
    let actions = after.replayable_actions;
    assert(actions.last() == (tool_name, arguments));
    let plan = restore_calls(after);
    assert(plan.last() == replay_calls(actions).last());
}

/// The cookies that were read last are restored before anything else, and
/// change nothing of what is restored besides.
pub proof fn law_cookies_are_restored_first(memory: PageMemory, cookies: Seq<char>)
    ensures
        restore_calls(PageMemory { cookies_json: Some(cookies), ..memory }) == cookie_calls(
            Some(cookies),
        ) + restore_calls(PageMemory { cookies_json: None, ..memory }),
{
    let rest = page_calls(memory.last_url) + replay_calls(memory.replayable_actions);
    assert(restore_calls(PageMemory { cookies_json: None, ..memory }) =~= rest);
    assert(restore_calls(PageMemory { cookies_json: Some(cookies), ..memory }) =~= cookie_calls(
        Some(cookies),
    ) + rest);
}

// ---------------------------------------------------------------------------
// Actions
// ---------------------------------------------------------------------------

proof fn lemma_one(key: Seq<char>, value: Seq<char>)
    ensures
        one(key, value).has(key, JsonView::Text(value)),
{
    assert(one(key, value)->Object_0[0] == (key, JsonView::Text(value)));
}

proof fn lemma_two(k1: Seq<char>, v1: Seq<char>, k2: Seq<char>, v2: Seq<char>)
    requires
        k1 != k2,
    ensures
        two(k1, v1, k2, v2).has(k1, JsonView::Text(v1)),
        two(k1, v1, k2, v2).has(k2, JsonView::Text(v2)),
{
    assert(two(k1, v1, k2, v2)->Object_0[0] == (k1, JsonView::Text(v1)));
    assert(two(k1, v1, k2, v2)->Object_0[1] == (k2, JsonView::Text(v2)));
}

proof fn lemma_keys()
    ensures
        "ref"@ != "function"@,
        "ref"@ != "text"@,
{
    reveal_strlit("ref");
    reveal_strlit("function");
    reveal_strlit("text");
    assert("ref"@.len() == 3);
    assert("function"@.len() == 8);
    assert("text"@.len() == 4);
}

/// Actions on the page as a whole go to the tool of that name, with what they
/// were given.
pub proof fn law_page_actions_reach_their_tools(action: BrowserAction)
    ensures
        match action {
            BrowserAction::Open { url } => action_use(action) matches Ok(u) && u.0
                == "browser_navigate"@ && u.1.has("url"@, JsonView::Text(url@)),
            BrowserAction::Snapshot { .. } => action_use(action) matches Ok(u) && u.0
                == "browser_snapshot"@,
            BrowserAction::GetTitle => action_use(action) matches Ok(u) && u.0
                == "browser_evaluate"@ && u.1.has(
                "function"@,
                JsonView::Text("() => document.title"@),
            ),
            BrowserAction::GetUrl => action_use(action) matches Ok(u) && u.0 == "browser_evaluate"@
                && u.1.has("function"@, JsonView::Text("() => window.location.href"@)),
            BrowserAction::Press { key } => action_use(action) matches Ok(u) && u.0
                == "browser_press_key"@ && u.1.has("key"@, JsonView::Text(key@)),
            BrowserAction::Close => action_use(action) matches Ok(u) && u.0 == "browser_close"@,
            BrowserAction::Screenshot { .. } => action_use(action) matches Ok(u) && u.0
                == "browser_take_screenshot"@,
            _ => true,
        },
{
    match action {
        BrowserAction::Open { url } => lemma_one("url"@, url@),
        BrowserAction::GetTitle => lemma_one("function"@, "() => document.title"@),
        BrowserAction::GetUrl => lemma_one("function"@, "() => window.location.href"@),
        BrowserAction::Press { key } => lemma_one("key"@, key@),
        _ => {},
    }
}

/// Actions on an element do that action to that element, with what they were
/// given: the same as the rule for the action says, and no other.
pub proof fn law_element_actions_keep_their_kind(action: BrowserAction)
    ensures
        match action {
            BrowserAction::Click { selector } => action_use(action) == Result::<
                ToolUse,
                Seq<char>,
            >::Ok(click_use(selector@)),
            BrowserAction::Fill { selector, value } => action_use(action) == Result::<
                ToolUse,
                Seq<char>,
            >::Ok(fill_use(selector@, value@)),
            BrowserAction::Type { selector, text } => action_use(action) == Result::<
                ToolUse,
                Seq<char>,
            >::Ok(type_use(selector@, text@)),
            BrowserAction::GetText { selector } => action_use(action) == Result::<
                ToolUse,
                Seq<char>,
            >::Ok(text_use(selector@)),
            BrowserAction::Hover { selector } => action_use(action) == Result::<
                ToolUse,
                Seq<char>,
            >::Ok(hover_use(selector@)),
            BrowserAction::IsVisible { selector } => action_use(action) == Result::<
                ToolUse,
                Seq<char>,
            >::Ok(visible_use(selector@)),
            BrowserAction::Scroll { direction, pixels } => action_use(action) matches Ok(u) && u.0
                == "browser_evaluate"@ && u.1.has(
                "function"@,
                JsonView::Text(scroll_script(direction@, pixels)),
            ),
            BrowserAction::Wait { selector, ms, text } => action_use(action) == Result::<
                ToolUse,
                Seq<char>,
            >::Ok(wait_use(text::view_opt_string(selector), ms, text::view_opt_string(text))),
            BrowserAction::Find { by, value, action: what, fill_value } => action_use(action)
                == find_use(by@, value@, what@, text::view_opt_string(fill_value)),
            _ => true,
        },
{
    if let BrowserAction::Scroll { direction, pixels } = action {
        lemma_one("function"@, scroll_script(direction@, pixels));
    }
}

/// `r` is the reference of an element: the letter `e` and digits.
pub open spec fn is_element(r: Seq<char>) -> bool {
    &&& r.len() > 0
    &&& r[0] == 'e'
    &&& forall|i: int| 1 <= i < r.len() ==> '0' <= #[trigger] r[i] <= '9'
}

/// A selector is taken for a reference exactly where it is one, with or without
/// an `@` before it and with or without white space around it.
pub proof fn law_references_are_recognized(selector: Seq<char>, r: Seq<char>)
    ensures
        reference_of(selector) == Some(r) <==> is_element(r) && (text::trim(selector) == r
            || text::trim(selector) == seq!['@'] + r),
{
    let t = text::trim(selector);
    if is_element(r) && t == r {
        assert(!text::has_prefix(t, seq!['@'])) by {
            if text::has_prefix(t, seq!['@']) {
                assert(t.take(1)[0] == t[0]);
            }
        }
    }
    if is_element(r) && t == seq!['@'] + r {
        text::lemma_prefix(seq!['@'], r);
        assert(t.skip(1) =~= r);
    }
    if reference_of(selector) == Some(r) && text::has_prefix(t, seq!['@']) {
        assert(t.take(1)[0] == t[0]);
        assert(t =~= seq!['@'] + t.skip(1));
    }
}

/// An element that is known by its reference is addressed by it, each action
/// with a tool of its own: clicking, hovering and typing have one, the others
/// run a script on the element.
pub proof fn law_referenced_elements_are_addressed_by_reference(
    selector: Seq<char>,
    r: Seq<char>,
    value: Seq<char>,
)
    requires
        is_element(r),
        text::trim(selector) == r || text::trim(selector) == seq!['@'] + r,
    ensures
        click_use(selector).0 == "browser_click"@ && click_use(selector).1.has(
            "ref"@,
            JsonView::Text(r),
        ),
        hover_use(selector).0 == "browser_hover"@ && hover_use(selector).1.has(
            "ref"@,
            JsonView::Text(r),
        ),
        type_use(selector, value).0 == "browser_type"@ && type_use(selector, value).1.has(
            "ref"@,
            JsonView::Text(r),
        ) && type_use(selector, value).1.has("text"@, JsonView::Text(value)),
        text_use(selector).0 == "browser_evaluate"@ && text_use(selector).1.has(
            "ref"@,
            JsonView::Text(r),
        ) && text_use(selector).1.has(
            "function"@,
            JsonView::Text("(element) => element?.textContent ?? ''"@),
        ),
        visible_use(selector).0 == "browser_evaluate"@ && visible_use(selector).1.has(
            "ref"@,
            JsonView::Text(r),
        ) && visible_use(selector).1.has("function"@, JsonView::Text("(element) => !!element"@)),
        fill_use(selector, value).0 == "browser_evaluate"@ && fill_use(selector, value).1.has(
            "ref"@,
            JsonView::Text(r),
        ) && fill_use(selector, value).1.has("function"@, JsonView::Text(fill_script(value))),
{
    law_references_are_recognized(selector, r);
    lemma_keys();
    lemma_one("ref"@, r);
    lemma_two("ref"@, r, "text"@, value);
    lemma_two("ref"@, r, "function"@, "(element) => element?.textContent ?? ''"@);
    lemma_two("ref"@, r, "function"@, "(element) => !!element"@);
    lemma_two("ref"@, r, "function"@, fill_script(value));
}

/// The use runs code that picks the first element of the selector and then goes
/// on as `deed` says.
pub open spec fn does(u: ToolUse, selector: Seq<char>, deed: Seq<char>) -> bool {
    u.0 == "browser_run_code"@ && exists|a: Seq<char>, b: Seq<char>| #[trigger]
        u.1.has(
            "code"@,
            JsonView::Text(
                a + ("page.locator("@ + json::quoted(selector) + ").first()"@ + deed) + b,
            ),
        )
}

/// An element that is known by another selector is looked for in the page, the
/// first one that fits is taken, and the action that was asked for is done to it,
/// with the value that was given.
pub proof fn law_other_elements_are_looked_for(selector: Seq<char>, value: Seq<char>)
    requires
        reference_of(selector) is None,
    ensures
        does(click_use(selector), selector, ".click()"@),
        does(hover_use(selector), selector, ".hover()"@),
        does(type_use(selector, value), selector, ".type("@ + json::quoted(value) + ")"@),
        does(text_use(selector), selector, ".textContent()"@),
        does(visible_use(selector), selector, ".isVisible()"@),
        label_of(selector) is None ==> does(
            fill_use(selector, value),
            selector,
            ".fill("@ + json::quoted(value) + ")"@,
        ),
{
    let q = json::quoted(selector);
    let v = json::quoted(value);
    let start = "async (page) => { await "@;
    let read = "async (page) => await "@;
    reveal_strlit("async (page) => { await page.locator(");
    reveal_strlit("async (page) => { await ");
    reveal_strlit("async (page) => await page.locator(");
    reveal_strlit("async (page) => await ");
    reveal_strlit("page.locator(");
    reveal_strlit(").first()");
    assert("async (page) => { await page.locator("@ =~= start + "page.locator("@);
    assert("async (page) => await page.locator("@ =~= read + "page.locator("@);
    let none = Seq::<char>::empty();
    {
        reveal_strlit(").first().click(); return page.url(); }");
        reveal_strlit(".click()");
        reveal_strlit("; return page.url(); }");
        let end = "; return page.url(); }"@;
        assert(").first().click(); return page.url(); }"@ =~= ").first()"@ + ".click()"@ + end);
        let code = click_use(selector).1->Object_0[0].1->Text_0;
        assert(code =~= start + ("page.locator("@ + q + ").first()"@ + ".click()"@) + end);
        lemma_one("code"@, code);
        assert(does(click_use(selector), selector, ".click()"@));
    }
    reveal_strlit("; return true; }");
    let end = "; return true; }"@;
    {
        reveal_strlit(").first().hover(); return true; }");
        reveal_strlit(".hover()");
        assert(").first().hover(); return true; }"@ =~= ").first()"@ + ".hover()"@ + end);
        let code = hover_use(selector).1->Object_0[0].1->Text_0;
        assert(code =~= start + ("page.locator("@ + q + ").first()"@ + ".hover()"@) + end);
        lemma_one("code"@, code);
        assert(does(hover_use(selector), selector, ".hover()"@));
    }
    reveal_strlit("); return true; }");
    reveal_strlit(")");
    assert("); return true; }"@ =~= ")"@ + end);
    {
        reveal_strlit(").first().type(");
        reveal_strlit(".type(");
        assert(").first().type("@ =~= ").first()"@ + ".type("@);
        let deed = ".type("@ + v + ")"@;
        let code = type_use(selector, value).1->Object_0[0].1->Text_0;
        assert(code =~= start + ("page.locator("@ + q + ").first()"@ + deed) + end);
        lemma_one("code"@, code);
        assert(does(type_use(selector, value), selector, deed));
    }
    if label_of(selector) is None {
        reveal_strlit(").first().fill(");
        reveal_strlit(".fill(");
        assert(").first().fill("@ =~= ").first()"@ + ".fill("@);
        let deed = ".fill("@ + v + ")"@;
        let code = fill_use(selector, value).1->Object_0[0].1->Text_0;
        assert(code =~= start + ("page.locator("@ + q + ").first()"@ + deed) + end);
        lemma_one("code"@, code);
        assert(does(fill_use(selector, value), selector, deed));
    }
    {
        reveal_strlit(").first().textContent()");
        reveal_strlit(".textContent()");
        assert(").first().textContent()"@ =~= ").first()"@ + ".textContent()"@);
        let code = text_use(selector).1->Object_0[0].1->Text_0;
        assert(code =~= read + ("page.locator("@ + q + ").first()"@ + ".textContent()"@) + none);
        lemma_one("code"@, code);
        assert(does(text_use(selector), selector, ".textContent()"@));
    }
    {
        reveal_strlit(").first().isVisible().catch(() => false)");
        reveal_strlit(".isVisible()");
        reveal_strlit(".catch(() => false)");
        let tail = ".catch(() => false)"@;
        assert(").first().isVisible().catch(() => false)"@ =~= ").first()"@ + ".isVisible()"@
            + tail);
        let code = visible_use(selector).1->Object_0[0].1->Text_0;
        assert(code =~= read + ("page.locator("@ + q + ").first()"@ + ".isVisible()"@) + tail);
        lemma_one("code"@, code);
        assert(does(visible_use(selector), selector, ".isVisible()"@));
    }
}

/// A field that is named by the text of its label is filled by a script that
/// holds both, the label as what to look for and the value as what to fill in.
pub proof fn law_labelled_fields_are_filled_by_label(
    selector: Seq<char>,
    label: Seq<char>,
    value: Seq<char>,
)
    requires
        selector == "text="@ + label,
        text::trim(label).len() > 0,
        reference_of(selector) is None,
    ensures
        fill_use(selector, value).0 == "browser_evaluate"@,
        fill_use(selector, value).1.has(
            "function"@,
            JsonView::Text(label_script(text::trim(label), value)),
        ),
        text::has_prefix(
            label_script(text::trim(label), value),
            "() => { const target = "@ + json::quoted(text::trim(label)),
        ),
        text::contains(label_script(text::trim(label), value), fill_script(value)),
        text::contains(fill_script(value), "field.textContent = "@ + json::quoted(value)),
{
    text::lemma_prefix("text="@, label);
    assert(selector.skip("text="@.len() as int) =~= label);
    let target = text::trim(label);
    lemma_one("function"@, label_script(target, value));
    let front = "() => { const target = "@ + json::quoted(target);
    let back = page_scripts::LABEL_MIDDLE@ + fill_script(value) + page_scripts::LABEL_TAIL@;
    assert(label_script(target, value) =~= front + back);
    text::lemma_prefix(front, back);
    text::lemma_contains_self(fill_script(value));
    text::lemma_contains_within(
        front + page_scripts::LABEL_MIDDLE@,
        fill_script(value),
        page_scripts::LABEL_TAIL@,
        fill_script(value),
    );
    assert(label_script(target, value) =~= front + page_scripts::LABEL_MIDDLE@ + fill_script(value)
        + page_scripts::LABEL_TAIL@);
    reveal_strlit("; } else { field.textContent = ");
    reveal_strlit("; } else { ");
    reveal_strlit("field.textContent = ");
    let set = "field.textContent = "@ + json::quoted(value);
    assert(page_scripts::FILL_MIDDLE@ =~= "; } else { "@ + "field.textContent = "@);
    let before = page_scripts::FILL_HEAD@ + json::quoted(value) + "; } else { "@;
    assert(fill_script(value) =~= before + set + page_scripts::FILL_TAIL@);
    text::lemma_contains_self(set);
    text::lemma_contains_within(before, set, page_scripts::FILL_TAIL@, set);
}

/// What fills a field or types into one is repeated after a session was lost,
/// whatever the selector and the value are.
pub proof fn law_fills_and_typing_are_replayable(selector: Seq<char>, value: Seq<char>)
    ensures
        replayable(fill_use(selector, value).0, fill_use(selector, value).1),
        replayable(type_use(selector, value).0, type_use(selector, value).1),
{
    lemma_keys();
    lemma_tool_names();
    let fill = fill_use(selector, value);
    let typed = type_use(selector, value);
    match (reference_of(selector), label_of(selector)) {
        (Some(r), _) => {
            lemma_fill_marks(Seq::<char>::empty(), value, Seq::<char>::empty());
            assert(Seq::<char>::empty() + fill_script(value) + Seq::<char>::empty() =~= fill_script(
                value,
            ));
            let m = fill.1->Object_0;
            assert(m[0].0 == "ref"@);
            assert(m.skip(1)[0] == ("function"@, JsonView::Text(fill_script(value))));
            json::law_first_member_of_a_key_counts(
                seq![m[0]],
                "function"@,
                JsonView::Text(fill_script(value)),
                seq![],
            );
            assert(m =~= seq![m[0]] + seq![("function"@, JsonView::Text(fill_script(value)))]
                + seq![]);
            assert(fill.1.text_at("function"@) == Some(fill_script(value)));
        },
        (None, Some(label)) => {
            let front = page_scripts::LABEL_HEAD@ + json::quoted(label)
                + page_scripts::LABEL_MIDDLE@;
            lemma_fill_marks(front, value, page_scripts::LABEL_TAIL@);
            assert(label_script(label, value) =~= front + fill_script(value)
                + page_scripts::LABEL_TAIL@);
            assert(fill.1->Object_0[0] == (
                "function"@,
                JsonView::Text(label_script(label, value)),
            ));
            assert(fill.1.text_at("function"@) == Some(label_script(label, value)));
        },
        (None, None) => {
            let code = fill.1->Object_0[0].1->Text_0;
            assert(fill.1->Object_0[0] == ("code"@, JsonView::Text(code)));
            assert(fill.1.text_at("code"@) == Some(code));
            reveal_strlit(").first().fill(");
            reveal_strlit(").first()");
            reveal_strlit(".fill(");
            assert(").first().fill("@ =~= ").first()"@ + ".fill("@);
            let a = "async (page) => { await page.locator("@ + json::quoted(selector)
                + ").first()"@;
            let b = json::quoted(value) + "); return true; }"@;
            assert(code =~= a + ".fill("@ + b);
            text::law_found_texts_stand_within(code, ".fill("@);
        },
    }
    if reference_of(selector) is None {
        let code = typed.1->Object_0[0].1->Text_0;
        assert(typed.1->Object_0[0] == ("code"@, JsonView::Text(code)));
        assert(typed.1.text_at("code"@) == Some(code));
        reveal_strlit(").first().type(");
        reveal_strlit(").first()");
        reveal_strlit(".type(");
        assert(").first().type("@ =~= ").first()"@ + ".type("@);
        let a = "async (page) => { await page.locator("@ + json::quoted(selector) + ").first()"@;
        let b = json::quoted(value) + "); return true; }"@;
        assert(code =~= a + ".type("@ + b);
        text::law_found_texts_stand_within(code, ".type("@);
    }
}

proof fn lemma_fill_marks(front: Seq<char>, value: Seq<char>, back: Seq<char>)
    ensures
        text::contains(front + fill_script(value) + back, "textContent ="@),
{
    reveal_strlit("; } else { field.textContent = ");
    reveal_strlit("; } else { field.");
    reveal_strlit("textContent =");
    reveal_strlit(" ");
    assert(page_scripts::FILL_MIDDLE@ =~= "; } else { field."@ + "textContent ="@ + " "@);
    let a = front + page_scripts::FILL_HEAD@ + json::quoted(value) + "; } else { field."@;
    let b = " "@ + json::quoted(value) + page_scripts::FILL_TAIL@ + back;
    let all = front + fill_script(value) + back;
    assert(all =~= a + "textContent ="@ + b);
    text::law_found_texts_stand_within(all, "textContent ="@);
}

proof fn lemma_tool_names()
    ensures
        "browser_evaluate"@ != "browser_run_code"@,
        "browser_evaluate"@ != "browser_fill_form"@,
        "browser_evaluate"@ != "browser_type"@,
        "browser_evaluate"@ != "browser_select_option"@,
        "browser_run_code"@ != "browser_fill_form"@,
        "browser_run_code"@ != "browser_type"@,
        "browser_run_code"@ != "browser_select_option"@,
{
    reveal_strlit("browser_evaluate");
    reveal_strlit("browser_run_code");
    reveal_strlit("browser_fill_form");
    reveal_strlit("browser_type");
    reveal_strlit("browser_select_option");
    assert("browser_evaluate"@.len() == 16 && "browser_evaluate"@[8] == 'e');
    assert("browser_run_code"@.len() == 16 && "browser_run_code"@[8] == 'r');
    assert("browser_fill_form"@.len() == 17);
    assert("browser_type"@.len() == 12);
    assert("browser_select_option"@.len() == 21);
}

/// Filling forms, typing and choosing options are repeated after a session was
/// lost; a script or code is where it holds one of the marks of setting a field;
/// nothing else is, so no click, no key and no page is.
pub proof fn law_only_form_state_is_replayable(
    tool_name: Seq<char>,
    arguments: JsonView,
    script: Seq<char>,
    a: Seq<char>,
    b: Seq<char>,
)
    ensures
        replayable("browser_fill_form"@, arguments),
        replayable("browser_type"@, arguments),
        replayable("browser_select_option"@, arguments),
        tool_name != "browser_fill_form"@ && tool_name != "browser_type"@ && tool_name
            != "browser_select_option"@ && tool_name != "browser_evaluate"@ && tool_name
            != "browser_run_code"@ ==> !replayable(tool_name, arguments),
        arguments.text_at("function"@) == Some(a + "field.value ="@ + b) ==> replayable(
            "browser_evaluate"@,
            arguments,
        ),
        arguments.text_at("function"@) == Some(a + "textContent ="@ + b) ==> replayable(
            "browser_evaluate"@,
            arguments,
        ),
        arguments.text_at("function"@) == Some(a + "dispatchEvent(new Event('input'"@ + b)
            ==> replayable("browser_evaluate"@, arguments),
        arguments.text_at("function"@) == Some(a + "dispatchEvent(new InputEvent('input'"@ + b)
            ==> replayable("browser_evaluate"@, arguments),
        arguments.text_at("code"@) == Some(a + ".fill("@ + b) ==> replayable(
            "browser_run_code"@,
            arguments,
        ),
        arguments.text_at("code"@) == Some(a + ".type("@ + b) ==> replayable(
            "browser_run_code"@,
            arguments,
        ),
        arguments.text_at("code"@) == Some(a + ".selectOption("@ + b) ==> replayable(
            "browser_run_code"@,
            arguments,
        ),
        arguments.text_at("function"@) is None ==> !replayable("browser_evaluate"@, arguments),
        arguments.text_at("code"@) is None ==> !replayable("browser_run_code"@, arguments),
        arguments.text_at("function"@) == Some(script) && replayable("browser_evaluate"@, arguments)
            ==> text::contains(script, "field.value ="@) || text::contains(script, "textContent ="@)
            || text::contains(script, "('input'"@),
        arguments.text_at("code"@) == Some(script) && replayable("browser_run_code"@, arguments)
            ==> text::contains(script, ".fill("@) || text::contains(script, ".type("@)
            || text::contains(script, ".selectOption("@),
{
    lemma_tool_names();
    text::law_found_texts_stand_within(a + "field.value ="@ + b, "field.value ="@);
    text::law_found_texts_stand_within(a + "textContent ="@ + b, "textContent ="@);
    text::law_found_texts_stand_within(
        a + "dispatchEvent(new Event('input'"@ + b,
        "dispatchEvent(new Event('input'"@,
    );
    text::law_found_texts_stand_within(
        a + "dispatchEvent(new InputEvent('input'"@ + b,
        "dispatchEvent(new InputEvent('input'"@,
    );
    text::law_found_texts_stand_within(a + ".fill("@ + b, ".fill("@);
    text::law_found_texts_stand_within(a + ".type("@ + b, ".type("@);
    text::law_found_texts_stand_within(a + ".selectOption("@ + b, ".selectOption("@);
    reveal_strlit("('input'");
    reveal_strlit("dispatchEvent(new Event('input'");
    reveal_strlit("dispatchEvent(new InputEvent('input'");
    reveal_strlit("dispatchEvent(new Event");
    reveal_strlit("dispatchEvent(new InputEvent");
    let mark = "('input'"@;
    let none = Seq::<char>::empty();
    let x = "dispatchEvent(new Event('input'"@;
    let y = "dispatchEvent(new InputEvent('input'"@;
    assert(x =~= "dispatchEvent(new Event"@ + mark + none);
    assert(y =~= "dispatchEvent(new InputEvent"@ + mark + none);
    if text::contains(script, x) {
        lemma_contains_part(script, "dispatchEvent(new Event"@, mark, none);
    }
    if text::contains(script, y) {
        lemma_contains_part(script, "dispatchEvent(new InputEvent"@, mark, none);
    }
}

proof fn lemma_contains_part(hay: Seq<char>, a: Seq<char>, part: Seq<char>, b: Seq<char>)
    requires
        text::contains(hay, a + part + b),
    ensures
        text::contains(hay, part),
{
    let whole = a + part + b;
    text::law_found_texts_stand_within(hay, whole);
    let (x, y) = choose|x: Seq<char>, y: Seq<char>| #[trigger] (x + whole + y) == hay;
    assert(x + whole + y =~= (x + a) + part + (b + y));
    text::law_found_texts_stand_within(hay, part);
    let (p, q) = (x + a, b + y);
    assert(p + part + q == hay);
}

/// The script that moves the page by so much to the right and so much down.
pub open spec fn moves_by(right: Seq<char>, down: Seq<char>) -> Seq<char> {
    "() => { window.scrollBy({ left: "@ + right + ", top: "@ + down
        + ", behavior: 'instant' }); return { x: window.scrollX, y: window.scrollY }; }"@
}

/// Scrolling up and scrolling down by the same distance move the page by
/// opposite amounts, and not sideways; scrolling left and right likewise, and
/// neither up nor down. Without a distance it is 400. Any other direction is
/// down.
pub proof fn law_scrolling_moves_the_way_it_says(direction: Seq<char>, p: u32)
    ensures
        scroll_script("down"@, Some(p)) == moves_by("0"@, text::decimal(p as nat)),
        scroll_script("up"@, Some(p)) == moves_by("0"@, "-"@ + text::decimal(p as nat)),
        scroll_script("right"@, Some(p)) == moves_by(text::decimal(p as nat), "0"@),
        scroll_script("left"@, Some(p)) == moves_by("-"@ + text::decimal(p as nat), "0"@),
        scroll_script(direction, None) == scroll_script(direction, Some(400)),
        direction != "up"@ && direction != "left"@ && direction != "right"@ ==> scroll_script(
            direction,
            Some(p),
        ) == scroll_script("down"@, Some(p)),
{
    reveal_strlit("down");
    reveal_strlit("up");
    reveal_strlit("right");
    reveal_strlit("left");
    assert("down"@.len() == 4 && "down"@[0] == 'd');
    assert("left"@.len() == 4 && "left"@[0] == 'l');
    assert("up"@.len() == 2);
    assert("right"@.len() == 5);
}

/// Finding an element by what it means is the same as acting on the selector
/// that says so: by its role, its placeholder and its test ID as attributes, by
/// its text and its label as text. An unknown way to look, or an unknown deed, is
/// refused by name.
pub proof fn law_finding_acts_on_the_selector(
    by: Seq<char>,
    value: Seq<char>,
    deed: Seq<char>,
    fill: Option<Seq<char>>,
)
    ensures
        find_selector("role"@, value) == Some("[role=\""@ + value + "\"]"@),
        find_selector("placeholder"@, value) == Some("[placeholder=\""@ + value + "\"]"@),
        find_selector("testid"@, value) == Some("[data-testid=\""@ + value + "\"]"@),
        find_selector("text"@, value) == Some("text="@ + value),
        find_selector("label"@, value) == Some("text="@ + value),
        by != "role"@ && by != "placeholder"@ && by != "testid"@ && by != "text"@ && by != "label"@
            ==> (find_use(by, value, deed, fill) matches Err(e) && text::has_suffix(e, by)),
        find_selector(by, value) matches Some(s) ==> {
            &&& find_use(by, value, "click"@, fill) == Result::<ToolUse, Seq<char>>::Ok(
                click_use(s),
            )
            &&& find_use(by, value, "hover"@, fill) == Result::<ToolUse, Seq<char>>::Ok(
                hover_use(s),
            )
            &&& find_use(by, value, "text"@, fill) == Result::<ToolUse, Seq<char>>::Ok(text_use(s))
            &&& fill matches Some(v) ==> find_use(by, value, "fill"@, fill) == Result::<
                ToolUse,
                Seq<char>,
            >::Ok(fill_use(s, v))
            &&& fill is None ==> find_use(by, value, "fill"@, fill) == Result::<
                ToolUse,
                Seq<char>,
            >::Ok(fill_use(s, Seq::<char>::empty()))
            &&& deed != "click"@ && deed != "hover"@ && deed != "text"@ && deed != "fill"@ ==> (
            find_use(by, value, deed, fill) matches Err(e) && text::has_suffix(e, deed))
        },
{
    reveal_strlit("role");
    reveal_strlit("placeholder");
    reveal_strlit("testid");
    reveal_strlit("text");
    reveal_strlit("label");
    reveal_strlit("click");
    reveal_strlit("hover");
    reveal_strlit("fill");
    assert("role"@.len() == 4 && "role"@[0] == 'r');
    assert("text"@.len() == 4 && "text"@[0] == 't');
    assert("fill"@.len() == 4 && "fill"@[0] == 'f');
    assert("label"@.len() == 5);
    assert("click"@.len() == 5 && "click"@[0] == 'c');
    assert("hover"@.len() == 5 && "hover"@[0] == 'h');
    assert("testid"@.len() == 6);
    assert("placeholder"@.len() == 11);
    text::lemma_suffix("Unknown Find locator type: "@, by);
    text::lemma_suffix("Unknown Find action: "@, deed);
}

/// A picture is a PNG. It shows the whole page exactly where that was asked for,
/// and it has the name of the file that was asked for: what stands behind the
/// last slash of the path.
pub proof fn law_pictures_are_taken_as_asked(
    dir: Seq<char>,
    name: Seq<char>,
    full_page: bool,
)
    requires
        name.len() > 0,
        !name.contains('/'),
        name != "."@,
        name != ".."@,
    ensures
        ({
            let args = screenshot_args(Some(dir + seq!['/'] + name), full_page);
            &&& args.has("type"@, JsonView::Text("png"@))
            &&& args.has("filename"@, JsonView::Text(name))
            &&& args.has("fullPage"@, JsonView::Bool(true)) <==> full_page
        }),
        screenshot_args(Some(name), full_page) == screenshot_args(
            Some(dir + seq!['/'] + name),
            full_page,
        ),
        ({
            let args = screenshot_args(None, full_page);
            &&& args.has("type"@, JsonView::Text("png"@))
            &&& args.has("fullPage"@, JsonView::Bool(true)) <==> full_page
        }),
{
    reveal_strlit("type");
    reveal_strlit("fullPage");
    reveal_strlit("filename");
    assert("type"@.len() == 4);
    assert("fullPage"@.len() == 8 && "fullPage"@[1] == 'u');
    assert("filename"@.len() == 8 && "filename"@[1] == 'i');
    text::law_text_without_a_break_is_one_piece(name, '/');
    text::law_pieces_of_two_texts(dir, name, '/');
    assert((text::split(dir, '/') + seq![name]).last() == name);
    assert(last_name(text::split(dir + seq!['/'] + name, '/')) == Some(name));
    assert(last_name(text::split(name, '/')) == Some(name)) by {
        assert(seq![name].last() == name);
    }
    let args = screenshot_args(Some(dir + seq!['/'] + name), full_page);
    let m = args->Object_0;
    assert(m[0] == ("type"@, JsonView::Text("png"@)));
    if full_page {
        assert(m[1] == ("fullPage"@, JsonView::Bool(true)));
        assert(m[2] == ("filename"@, JsonView::Text(name)));
        assert(m.len() == 3);
    } else {
        assert(m[1] == ("filename"@, JsonView::Text(name)));
        assert(m.len() == 2);
    }
    let bare = screenshot_args(None, full_page)->Object_0;
    assert(bare[0] == ("type"@, JsonView::Text("png"@)));
    if full_page {
        assert(bare[1] == ("fullPage"@, JsonView::Bool(true)));
    }
}

/// Milliseconds are shown as seconds exactly: the whole seconds, a dot, and one
/// to three digits that write the rest.
pub proof fn law_seconds_are_exact(ms: nat)
    ensures
        exists|places: Seq<char>|
            {
                &&& seconds(ms) == #[trigger] (text::decimal(ms / 1000) + "."@ + places)
                &&& 1 <= places.len() <= 3
                &&& places.len() == 1 ==> text::number_of(places) * 100 == ms % 1000
                &&& places.len() == 2 ==> text::number_of(places) * 10 == ms % 1000
                &&& places.len() == 3 ==> text::number_of(places) == ms % 1000
            },
{
    let r = ms % 1000;
    let places = fraction(r);
    let none = Seq::<char>::empty();
    assert(text::number_of(none) == 0);
    let a = text::digit(r / 100);
    let b = text::digit(r / 10 % 10);
    let c = text::digit(r % 10);
    assert(seq![a].drop_last() =~= none);
    assert(text::number_of(seq![a]) == r / 100);
    assert(seq![a, b].drop_last() =~= seq![a]);
    assert(text::number_of(seq![a, b]) == r / 100 * 10 + r / 10 % 10);
    assert(seq![a, b, c].drop_last() =~= seq![a, b]);
    assert(text::number_of(seq![a, b, c]) == (r / 100 * 10 + r / 10 % 10) * 10 + r % 10);
    assert(seconds(ms) == text::decimal(ms / 1000) + "."@ + places);
}

/// The browser waits for the time and for the text that were asked for. With
/// neither it reads the element that was asked for, and with nothing at all it
/// waits a second.
pub proof fn law_waits_are_as_asked(
    selector: Option<Seq<char>>,
    ms: Option<u64>,
    awaited: Option<Seq<char>>,
)
    ensures
        ({
            let u = wait_use(selector, ms, awaited);
            &&& ms is Some || awaited is Some ==> u.0 == "browser_wait_for"@
            &&& ms matches Some(t) ==> u.1.has("time"@, JsonView::Real(seconds(t as nat)))
            &&& awaited matches Some(t) ==> u.1.has("text"@, JsonView::Text(t))
            &&& ms is None && awaited is None ==> match selector {
                Some(s) => u == text_use(s),
                None => u.0 == "browser_wait_for"@ && u.1.has("time"@, JsonView::UInt(1)),
            }
        }),
{
    reveal_strlit("time");
    reveal_strlit("text");
    assert("time"@.len() == 4 && "time"@[1] == 'i');
    assert("text"@.len() == 4 && "text"@[1] == 'e');
    let u = wait_use(selector, ms, awaited);
    if let Some(t) = ms {
        assert(u.1->Object_0[0] == ("time"@, JsonView::Real(seconds(t as nat))));
        if let Some(a) = awaited {
            assert(u.1->Object_0[1] == ("text"@, JsonView::Text(a)));
        }
    } else if let Some(a) = awaited {
        assert(u.1->Object_0[0] == ("text"@, JsonView::Text(a)));
    } else if selector is None {
        assert(u.1->Object_0[0] == ("time"@, JsonView::UInt(1)));
    }
}

// ---------------------------------------------------------------------------
// Answers
// ---------------------------------------------------------------------------

/// The payload of an event stream is what the first `data:` line carries that
/// carries anything, whatever stands before and after it.
pub proof fn law_first_data_line_counts(
    before: Seq<Seq<char>>,
    payload: Seq<char>,
    after: Seq<Seq<char>>,
)
    requires
        forall|k: int|
            0 <= k < before.len() ==> !text::has_prefix(
                text::trim(#[trigger] before[k]),
                "data:"@,
            ),
        payload.len() > 0,
        !text::is_space(payload[0]),
        !text::is_space(payload.last()),
    ensures
        first_data(before + seq!["data:"@ + payload] + after) == Some(payload),
        first_data(before) is None,
    decreases before.len(),
{
    let all = before + seq!["data:"@ + payload] + after;
    if before.len() > 0 {
        let rest = before.skip(1);
        assert(!text::has_prefix(text::trim(before[0]), "data:"@));
        assert forall|k: int| 0 <= k < rest.len() implies !text::has_prefix(
            text::trim(#[trigger] rest[k]),
            "data:"@,
        ) by {
            assert(!text::has_prefix(text::trim(before[k + 1]), "data:"@));
        }
        law_first_data_line_counts(rest, payload, after);
        assert(all[0] == before[0]);
        assert(all.skip(1) =~= rest + seq!["data:"@ + payload] + after);
    } else {
        let line = "data:"@ + payload;
        assert(all[0] == line);
        reveal_strlit("data:");
        assert(line[0] == 'd');
        assert(line.last() == payload.last());
        text::lemma_nothing_to_trim(line);
        text::lemma_prefix("data:"@, payload);
        assert(line.skip(5) =~= payload);
        text::lemma_nothing_to_trim(payload);
    }
}

/// The texts of a result are those of its items that have one, in order: two
/// lists of items have the texts of the one and then those of the other.
pub proof fn law_texts_come_in_order(a: Seq<JsonView>, b: Seq<JsonView>, t: Seq<char>)
    ensures
        item_texts(a + b) == item_texts(a) + item_texts(b),
        item_texts(seq![one("text"@, t)]) == seq![t],
        content_texts(JsonView::Object(seq![("content"@, JsonView::Array(a))])) == item_texts(a),
    decreases b.len(),
{
    let item = one("text"@, t);
    assert(item->Object_0[0] == ("text"@, JsonView::Text(t)));
    assert(item.text_at("text"@) == Some(t));
    assert(seq![item].drop_last() =~= seq![]);
    assert(item_texts(seq![]) =~= seq![]);
    assert(item_texts(seq![item]) =~= seq![t]);
    let whole = JsonView::Object(seq![("content"@, JsonView::Array(a))]);
    assert(whole->Object_0[0] == ("content"@, JsonView::Array(a)));
    assert(whole.get("content"@) == Some(JsonView::Array(a)));
    if b.len() == 0 {
        assert(a + b =~= a);
        assert(item_texts(a) + item_texts(b) =~= item_texts(a));
    } else {
        law_texts_come_in_order(a, b.drop_last(), t);
        assert((a + b).drop_last() =~= a + b.drop_last());
        assert(item_texts(a + b) =~= item_texts(a) + item_texts(b));
    }
}

/// The page that a result names is on its first line that says so, whatever
/// stands before and after it.
pub proof fn law_page_line_names_the_page(
    before: Seq<Seq<char>>,
    url: Seq<char>,
    after: Seq<Seq<char>>,
)
    requires
        forall|k: int|
            0 <= k < before.len() ==> !text::has_prefix(
                text::trim(#[trigger] before[k]),
                "- Page URL: "@,
            ),
        url.len() > 0,
        !text::is_space(url[0]),
        !text::is_space(url.last()),
    ensures
        page_line(before + seq!["- Page URL: "@ + url] + after) == Some(url),
        page_line(before) is None,
    decreases before.len(),
{
    let line = "- Page URL: "@ + url;
    let all = before + seq![line] + after;
    if before.len() > 0 {
        let rest = before.skip(1);
        assert(!text::has_prefix(text::trim(before[0]), "- Page URL: "@));
        assert forall|k: int| 0 <= k < rest.len() implies !text::has_prefix(
            text::trim(#[trigger] rest[k]),
            "- Page URL: "@,
        ) by {
            assert(!text::has_prefix(text::trim(before[k + 1]), "- Page URL: "@));
        }
        law_page_line_names_the_page(rest, url, after);
        assert(all[0] == before[0]);
        assert(all.skip(1) =~= rest + seq![line] + after);
    } else {
        assert(all[0] == line);
        reveal_strlit("- Page URL: ");
        assert(line[0] == '-');
        assert(line.last() == url.last());
        text::lemma_nothing_to_trim(line);
        text::lemma_prefix("- Page URL: "@, url);
        assert(line.skip(12) =~= url);
        text::lemma_nothing_to_trim(url);
    }
}

/// The call of a tool is a request with an ID that names the tool and carries its
/// arguments.
pub proof fn law_calls_name_their_tool(id: u64, tool: Seq<char>, arguments: JsonView)
    ensures
        call_body(id, tool, arguments).has("jsonrpc"@, JsonView::Text("2.0"@)),
        call_body(id, tool, arguments).has("id"@, JsonView::UInt(id)),
        call_body(id, tool, arguments).has("method"@, JsonView::Text("tools/call"@)),
        exists|params: JsonView|
            {
                &&& #[trigger] call_body(id, tool, arguments).has("params"@, params)
                &&& params.has("name"@, JsonView::Text(tool))
                &&& params.has("arguments"@, arguments)
            },
{
    lemma_rpc_keys();
    let body = call_body(id, tool, arguments);
    let m = body->Object_0;
    let params = m[3].1;
    assert(m[0] == ("jsonrpc"@, JsonView::Text("2.0"@)));
    assert(m[1] == ("id"@, JsonView::UInt(id)));
    assert(m[2] == ("method"@, JsonView::Text("tools/call"@)));
    assert(m[3] == ("params"@, params));
    assert(m.len() == 4);
    assert(params->Object_0[0] == ("name"@, JsonView::Text(tool)));
    assert(params->Object_0[1] == ("arguments"@, arguments));
    reveal_strlit("name");
    reveal_strlit("arguments");
    assert("name"@.len() == 4);
    assert("arguments"@.len() == 9);
    assert(body.has("params"@, params));
}

proof fn lemma_rpc_keys()
    ensures
        "jsonrpc"@ != "id"@,
        "jsonrpc"@ != "method"@,
        "jsonrpc"@ != "params"@,
        "id"@ != "method"@,
        "id"@ != "params"@,
        "method"@ != "params"@,
{
    reveal_strlit("jsonrpc");
    reveal_strlit("id");
    reveal_strlit("method");
    reveal_strlit("params");
    assert("jsonrpc"@.len() == 7);
    assert("id"@.len() == 2);
    assert("method"@.len() == 6 && "method"@[0] == 'm');
    assert("params"@.len() == 6 && "params"@[0] == 'p');
}

/// A session is opened by a request with an ID and announced by a notification,
/// which has none.
pub proof fn law_sessions_are_opened_and_announced(id: u64, other: JsonView)
    ensures
        initialize_body(id).has("id"@, JsonView::UInt(id)),
        initialize_body(id).has("method"@, JsonView::Text("initialize"@)),
        initialized_body().has("method"@, JsonView::Text("notifications/initialized"@)),
        !initialized_body().has("id"@, other),
{
    lemma_rpc_keys();
    let m = initialize_body(id)->Object_0;
    assert(m[0].0 == "jsonrpc"@);
    assert(m[1] == ("id"@, JsonView::UInt(id)));
    assert(m[2] == ("method"@, JsonView::Text("initialize"@)));
    assert(m[3].0 == "params"@);
    let n = initialized_body()->Object_0;
    assert(n[0].0 == "jsonrpc"@);
    assert(n[1] == ("method"@, JsonView::Text("notifications/initialized"@)));
    assert(n[2].0 == "params"@);
    assert(n.len() == 3);
}

/// A tool call has a result exactly where an answer came with a status in the
/// two hundreds and a body that is read as JSON without an error. The result is
/// that of the answer, or nothing where it has none. Whatever else came is an
/// error.
pub proof fn law_results_come_from_good_answers(
    tool: Seq<char>,
    answer: Option<Answer>,
    json: Result<JsonView, Seq<char>>,
    lost: Seq<char>,
    unread: Seq<char>,
    after: Seq<char>,
)
    ensures
        call_result(tool, answer, json, lost, unread, after) is Ok <==> (answer is Some
            && answer->0.body is Some && answer->0.status / 100 == 2 && json is Ok
            && json->Ok_0.get("error"@) is None),
        call_result(tool, answer, json, lost, unread, after) matches Ok(r) ==> match json->Ok_0.get(
            "result"@,
        ) {
            Some(result) => r == result,
            None => r is Null,
        },
{
}

/// A session is open exactly where the answer names it in its header, has a
/// status in the two hundreds and a body that is read as JSON without an error;
/// the session is the one that the header names.
pub proof fn law_sessions_come_from_the_header(
    answer: Option<Answer>,
    json: Result<JsonView, Seq<char>>,
)
    ensures
        opened_session(answer, json) is Ok <==> (answer is Some && answer->0.session_header is Some
            && answer->0.body is Some && answer->0.status / 100 == 2 && json is Ok
            && json->Ok_0.get("error"@) is None),
        opened_session(answer, json) matches Ok(s) ==> s == answer->0.session_header->0@,
{
}

/// Every request asks for JSON or an event stream and closes its connection. It
/// carries the key as a bearer exactly where there is one, and the session
/// exactly where one is open.
pub proof fn law_headers_carry_key_and_session(
    api_key: Option<Seq<char>>,
    session: Option<Seq<char>>,
    value: Seq<char>,
)
    ensures
        ({
            let headers = headers_for(api_key, session);
            &&& headers.contains(("Accept"@, "application/json, text/event-stream"@))
            &&& headers.contains(("Connection"@, "close"@))
            &&& headers.contains(("Authorization"@, "Bearer "@ + value)) <==> api_key == Some(value)
            &&& headers.contains(("mcp-session-id"@, value)) <==> session == Some(value)
            &&& headers.len() == 2 + (if api_key is Some {
                1int
            } else {
                0
            }) + (if session is Some {
                1int
            } else {
                0
            })
        }),
{
    let headers = headers_for(api_key, session);
    reveal_strlit("Accept");
    reveal_strlit("Connection");
    reveal_strlit("Authorization");
    reveal_strlit("mcp-session-id");
    assert("Accept"@.len() == 6);
    assert("Connection"@.len() == 10);
    assert("Authorization"@.len() == 13);
    assert("mcp-session-id"@.len() == 14);
    assert(headers[0] == ("Accept"@, "application/json, text/event-stream"@));
    assert(headers[1] == ("Connection"@, "close"@));
    if let Some(key) = api_key {
        assert(headers[2] == ("Authorization"@, "Bearer "@ + key));
        if "Bearer "@ + key == "Bearer "@ + value {
            assert(("Bearer "@ + key).skip("Bearer "@.len() as int) =~= key);
            assert(("Bearer "@ + value).skip("Bearer "@.len() as int) =~= value);
        }
        if let Some(s) = session {
            assert(headers[3] == ("mcp-session-id"@, s));
        }
    } else if let Some(s) = session {
        assert(headers[2] == ("mcp-session-id"@, s));
    }
}

// ---------------------------------------------------------------------------
// What is remembered and restored
// ---------------------------------------------------------------------------

/// A call other than closing the browser keeps the cookies, and the page is the
/// one that the call left the browser at, or the one before where that is not
/// known. What sets form state is kept too, unless another page was opened, and
/// nothing else is added to it.
pub proof fn law_calls_keep_what_they_do_not_change(
    memory: PageMemory,
    tool: Seq<char>,
    arguments: JsonView,
    url: Option<Seq<char>>,
)
    requires
        tool != "browser_close"@,
    ensures
        ({
            let after = remembered(memory, tool, arguments, url);
            &&& after.cookies_json == memory.cookies_json
            &&& url is Some ==> after.last_url == url
            &&& url is None ==> after.last_url == memory.last_url
            &&& !replayable(tool, arguments) && tool != "browser_navigate"@
                ==> after.replayable_actions == memory.replayable_actions
            &&& replayable(tool, arguments) ==> after.replayable_actions
                == memory.replayable_actions.push((tool, arguments))
            &&& tool == "browser_navigate"@ && url is None ==> after.replayable_actions
                == memory.replayable_actions
        }),
{
    reveal_strlit("browser_navigate");
    reveal_strlit("browser_fill_form");
    reveal_strlit("browser_type");
    reveal_strlit("browser_select_option");
    reveal_strlit("browser_evaluate");
    reveal_strlit("browser_run_code");
    assert("browser_navigate"@.len() == 16 && "browser_navigate"@[8] == 'n');
    assert("browser_evaluate"@.len() == 16 && "browser_evaluate"@[8] == 'e');
    assert("browser_run_code"@.len() == 16 && "browser_run_code"@[8] == 'r');
    assert("browser_fill_form"@.len() == 17);
    assert("browser_type"@.len() == 12);
    assert("browser_select_option"@.len() == 21);
}

/// After a session was lost, the cookies that are remembered are set first, then
/// the last page is opened, then every remembered action is repeated in its
/// order; and nothing else is done.
pub proof fn law_everything_remembered_is_restored_in_order(memory: PageMemory)
    ensures
        ({
            let plan = restore_calls(memory);
            let cookies = if memory.cookies_json is Some {
                1int
            } else {
                0
            };
            let page = if memory.last_url is Some {
                1int
            } else {
                0
            };
            &&& plan.len() == cookies + page + memory.replayable_actions.len()
            &&& memory.cookies_json matches Some(c) ==> plan[0].0 == "browser_run_code"@
                && exists|code: Seq<char>| #[trigger]
                plan[0].1.has("code"@, JsonView::Text(code)) && text::contains(
                    code,
                    "addCookies(JSON.parse("@ + json::quoted(c) + "))"@,
                )
            &&& memory.last_url matches Some(url) ==> plan[cookies].0 == "browser_navigate"@
                && plan[cookies].1.has("url"@, JsonView::Text(url))
            &&& forall|k: int|
                0 <= k < memory.replayable_actions.len() ==> (#[trigger] plan[cookies + page
                    + k]).0 == memory.replayable_actions[k].0 && plan[cookies + page + k].1
                    == memory.replayable_actions[k].1
        }),
{
    let plan = restore_calls(memory);
    let cookies = if memory.cookies_json is Some {
        1int
    } else {
        0
    };
    let page = if memory.last_url is Some {
        1int
    } else {
        0
    };
    if let Some(c) = memory.cookies_json {
        let code = plan[0].1->Object_0[0].1->Text_0;
        lemma_one("code"@, code);
        reveal_strlit("async (page) => { await page.context().addCookies(JSON.parse(");
        reveal_strlit("async (page) => { await page.context().");
        reveal_strlit("addCookies(JSON.parse(");
        reveal_strlit(")); return true; }");
        reveal_strlit("))");
        reveal_strlit("; return true; }");
        let front = "async (page) => { await page.context()."@;
        let mark = "addCookies(JSON.parse("@ + json::quoted(c) + "))"@;
        assert("async (page) => { await page.context().addCookies(JSON.parse("@ =~= front
            + "addCookies(JSON.parse("@);
        assert(")); return true; }"@ =~= "))"@ + "; return true; }"@);
        assert(code =~= front + mark + "; return true; }"@);
        text::law_found_texts_stand_within(code, mark);
        assert(plan[0].1.has("code"@, JsonView::Text(code)));
    }
    if let Some(url) = memory.last_url {
        lemma_one("url"@, url);
        assert(plan[cookies] == page_calls(memory.last_url)[0]);
    }
    assert forall|k: int| 0 <= k < memory.replayable_actions.len() implies (#[trigger] plan[cookies
        + page + k]).0 == memory.replayable_actions[k].0 && plan[cookies + page + k].1
        == memory.replayable_actions[k].1 by {
        assert(plan[cookies + page + k] == replay_calls(memory.replayable_actions)[k]);
    }
}

/// A call that asks for a page leaves the browser there; of any other call the
/// result tells.
pub proof fn law_requested_pages_are_current(url: Seq<char>, result: JsonView)
    ensures
        current_url(Some(url), result) == Some(url),
{
}

/// The cookies are read as the JSON text of those of the page's context.
pub proof fn law_cookies_are_read_as_json(code: Seq<char>)
    requires
        cookies_use().1.has("code"@, JsonView::Text(code)),
    ensures
        cookies_use().0 == "browser_run_code"@,
        text::contains(code, "JSON.stringify(await page.context().cookies())"@),
{
    let said = "async (page) => JSON.stringify(await page.context().cookies())"@;
    assert(cookies_use().1->Object_0[0] == ("code"@, JsonView::Text(said)));
    reveal_strlit("async (page) => JSON.stringify(await page.context().cookies())");
    reveal_strlit("async (page) => ");
    reveal_strlit("JSON.stringify(await page.context().cookies())");
    let none = Seq::<char>::empty();
    assert(said =~= "async (page) => "@ + "JSON.stringify(await page.context().cookies())"@
        + none);
    text::law_found_texts_stand_within(said, "JSON.stringify(await page.context().cookies())"@);
}

/// Where IDs wait to be reused, the smallest of them is handed out and waits no
/// longer, and no other is touched. Where none waits, the ID is one above all
/// that were ever handed out.
pub proof fn law_ids_are_reused_smallest_first(
    counter: int,
    released: Set<u64>,
    id: u64,
    next_counter: int,
    next_released: Set<u64>,
    x: u64,
)
    requires
        hands_out(counter, released, id, next_counter, next_released),
    ensures
        released.contains(x) ==> released.contains(id) && id <= x && next_counter == counter,
        next_released.contains(x) <==> released.contains(x) && x != id,
        released.is_empty() ==> id == counter + 1 && next_counter == id,
{
    if released.is_empty() && released.contains(x) {
        assert(released =~= Set::<u64>::empty());
    }
}

/// A line that opens no section and holds something.
pub open spec fn is_result_line(line: Seq<char>) -> bool {
    &&& text::trim(line).len() > 0
    &&& !text::has_prefix(text::trim(line), "### "@)
}

/// What a text carries stands behind its line `### Result`, up to the next
/// heading: the lines that hold something, without the space around them.
pub proof fn law_results_stand_under_their_heading(
    before: Seq<Seq<char>>,
    body: Seq<Seq<char>>,
    heading: Seq<char>,
    after: Seq<Seq<char>>,
)
    requires
        forall|k: int| 0 <= k < before.len() ==> text::trim(#[trigger] before[k]) != "### Result"@,
        forall|k: int| 0 <= k < body.len() ==> is_result_line(#[trigger] body[k]),
        text::has_prefix(text::trim(heading), "### "@),
        text::trim(heading) != "### Result"@,
    ensures
        result_lines(before + seq!["### Result"@] + body + seq![heading] + after, false)
            == body.map_values(|l: Seq<char>| text::trim(l)),
        result_lines(before + seq!["### Result"@] + body, false) == body.map_values(
            |l: Seq<char>| text::trim(l),
        ),
        result_lines(before, false).len() == 0,
    decreases before.len(),
{
    let none = Seq::<Seq<char>>::empty();
    let whole = before + seq!["### Result"@] + body + seq![heading] + after;
    let open = before + seq!["### Result"@] + body;
    if before.len() > 0 {
        let rest = before.skip(1);
        assert(text::trim(before[0]) != "### Result"@);
        assert forall|k: int| 0 <= k < rest.len() implies text::trim(#[trigger] rest[k])
            != "### Result"@ by {
            assert(text::trim(before[k + 1]) != "### Result"@);
        }
        law_results_stand_under_their_heading(rest, body, heading, after);
        assert(whole[0] == before[0] && open[0] == before[0]);
        assert(whole.skip(1) =~= rest + seq!["### Result"@] + body + seq![heading] + after);
        assert(open.skip(1) =~= rest + seq!["### Result"@] + body);
    } else {
        reveal_strlit("### Result");
        assert("### Result"@[0] == '#' && "### Result"@.last() == 't');
        assert(!text::is_space('#') && !text::is_space('t'));
        text::lemma_nothing_to_trim("### Result"@);
        assert(whole[0] == "### Result"@ && open[0] == "### Result"@);
        assert(whole.skip(1) =~= body + (seq![heading] + after));
        assert(open.skip(1) =~= body);
        lemma_inside_result(body, heading, after);
    }
}

proof fn lemma_inside_result(body: Seq<Seq<char>>, heading: Seq<char>, after: Seq<Seq<char>>)
    requires
        forall|k: int| 0 <= k < body.len() ==> is_result_line(#[trigger] body[k]),
        text::has_prefix(text::trim(heading), "### "@),
        text::trim(heading) != "### Result"@,
    ensures
        result_lines(body + (seq![heading] + after), true) == body.map_values(
            |l: Seq<char>| text::trim(l),
        ),
        result_lines(body, true) == body.map_values(|l: Seq<char>| text::trim(l)),
    decreases body.len(),
{
    let cut = |l: Seq<char>| text::trim(l);
    let whole = body + (seq![heading] + after);
    if body.len() == 0 {
        assert(whole[0] == heading);
        assert(body.map_values(cut) =~= Seq::<Seq<char>>::empty());
    } else {
        let rest = body.skip(1);
        assert(is_result_line(body[0]));
        assert forall|k: int| 0 <= k < rest.len() implies is_result_line(#[trigger] rest[k]) by {
            assert(is_result_line(body[k + 1]));
        }
        lemma_inside_result(rest, heading, after);
        assert(whole[0] == body[0]);
        assert(whole.skip(1) =~= rest + (seq![heading] + after));
        let line = text::trim(body[0]);
        assert(line != "### Result"@) by {
            reveal_strlit("### Result");
            reveal_strlit("### ");
            if line == "### Result"@ {
                assert(line.take(4) =~= "### "@);
            }
        }
        assert(body.map_values(cut) =~= seq![line] + rest.map_values(cut));
    }
}

/// The lines of a result are read as one JSON text; where it is a string, that is
/// the result.
pub proof fn law_string_results_are_json_strings(t: Seq<char>, result: JsonView)
    ensures
        result_payload(t) == text::join(result_lines(text::lines(t), false), "\n"@),
        content_texts(result).len() == 0 ==> string_result(result) is None,
        content_texts(result).len() > 0 && json::json_parse(
            result_payload(content_texts(result)[0]),
        ) is None ==> string_result(result) is None,
        content_texts(result).len() > 0 && json::json_parse(
            result_payload(content_texts(result)[0]),
        ) is Some ==> string_result(result) == json::json_parse(
            result_payload(content_texts(result)[0]),
        )->0.text(),
{
}

/// A body is read as the JSON of its first data line, or, where it has none, as
/// JSON itself; an answer as its body is. What is not JSON is an error.
pub proof fn law_bodies_are_read_as_json(body: Seq<char>, answer: Option<Answer>, j: JsonView)
    ensures
        sse_json(body) == Ok::<JsonView, Seq<char>>(j) <==> match first_data(text::lines(body)) {
            Some(payload) => json::json_parse(payload) == Some(j),
            None => json::json_parse(text::trim(body)) == Some(j),
        },
        sse_json(body) is Err ==> text::has_prefix(sse_json(body)->Err_0, "playwright-mcp: "@),
        answer is Some && answer->0.body is Some ==> answer_json(answer) == sse_json(
            (answer->0.body->0)@,
        ),
        answer is None || answer->0.body is None ==> answer_json(answer) is Err,
{
    reveal_strlit("playwright-mcp: ");
    reveal_strlit("playwright-mcp: failed to parse SSE data as JSON");
    reveal_strlit("playwright-mcp: response body is not SSE or valid JSON");
    assert("playwright-mcp: failed to parse SSE data as JSON"@.take(16) =~= "playwright-mcp: "@);
    assert("playwright-mcp: response body is not SSE or valid JSON"@.take(16)
        =~= "playwright-mcp: "@);
}

} // verus!
