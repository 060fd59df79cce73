//! Text as sequences of characters.
//!
//! Every string operation that the other modules need, each with the
//! sequence function that says what it computes.

use vstd::prelude::*;

verus! {

/// `String::push` appends the character and leaves the rest as it is.
pub assume_specification[ String::push ](s: &mut String, ch: char)
    ensures
        final(s)@ == old(s)@.push(ch),
;

/// The characters with the Unicode property `White_Space`.
pub open spec fn is_space(c: char) -> bool {
    ||| '\u{9}' <= c <= '\u{d}'
    ||| c == ' '
    ||| c == '\u{85}'
    ||| c == '\u{a0}'
    ||| c == '\u{1680}'
    ||| '\u{2000}' <= c <= '\u{200a}'
    ||| c == '\u{2028}'
    ||| c == '\u{2029}'
    ||| c == '\u{202f}'
    ||| c == '\u{205f}'
    ||| c == '\u{3000}'
}

/// Whether `c` is white space.
pub fn is_whitespace(c: char) -> (r: bool)
    ensures
        r == is_space(c),
{
    ('\u{9}' <= c && c <= '\u{d}') || c == ' ' || c == '\u{85}' || c == '\u{a0}' || c == '\u{1680}'
        || ('\u{2000}' <= c && c <= '\u{200a}') || c == '\u{2028}' || c == '\u{2029}'
        || c == '\u{202f}' || c == '\u{205f}' || c == '\u{3000}'
}

/// The characters of `s`, in order.
pub fn chars_of(s: &str) -> (r: Vec<char>)
    ensures
        r@ == s@,
{
    let mut out: Vec<char> = Vec::new();
    for c in it: s.chars()
        invariant
            out@ == it.seq().take(it.index() as int),
            it.seq() == s@,
    {
        out.push(c);
    }
    out
}

/// Whether the two texts hold the same characters.
pub fn same_text(a: &str, b: &str) -> (r: bool)
    ensures
        r == (a@ == b@),
{
    let x = a.as_bytes();
    let y = b.as_bytes();
    proof {
        vstd::utf8::encode_utf8_decode_utf8(a@);
        vstd::utf8::encode_utf8_decode_utf8(b@);
    }
    if x.len() != y.len() {
        return false;
    }
    for i in 0..x.len()
        invariant
            x@ == vstd::utf8::encode_utf8(a@),
            y@ == vstd::utf8::encode_utf8(b@),
            x@.len() == y@.len(),
            forall|j: int| 0 <= j < i ==> x@[j] == y@[j],
    {
        if x[i] != y[i] {
            return false;
        }
    }
    proof { assert(x@ =~= y@); }
    true
}

// ---------------------------------------------------------------------------
// Searching
// ---------------------------------------------------------------------------

/// `needle` stands in `hay` with its first character at `i`.
pub open spec fn occurs_at(hay: Seq<char>, needle: Seq<char>, i: int) -> bool {
    &&& 0 <= i
    &&& i + needle.len() <= hay.len()
    &&& hay.subrange(i, i + needle.len()) == needle
}

/// `needle` stands somewhere in `hay`.
pub open spec fn contains(hay: Seq<char>, needle: Seq<char>) -> bool {
    exists|i: int| occurs_at(hay, needle, i)
}

fn matches_at(hay: &Vec<char>, needle: &Vec<char>, i: usize) -> (r: bool)
    requires
        i <= hay@.len(),
    ensures
        r == occurs_at(hay@, needle@, i as int),
{
    if needle.len() > hay.len() - i {
        return false;
    }
    for j in 0..needle.len()
        invariant
            i + needle.len() <= hay.len(),
            forall|k: int| 0 <= k < j ==> hay@[i + k] == needle@[k],
    {
        if hay[i + j] != needle[j] {
            proof {
                assert(hay@.subrange(i as int, i + needle@.len())[j as int] == hay@[i + j]);
            }
            return false;
        }
    }
    proof {
        assert(hay@.subrange(i as int, i + needle@.len()) =~= needle@);
    }
    true
}

/// Whether `needle` stands somewhere in `hay`.
pub fn contains_chars(hay: &Vec<char>, needle: &str) -> (r: bool)
    ensures
        r == contains(hay@, needle@),
{
    let pattern = chars_of(needle);
    if pattern.len() > hay.len() {
        return false;
    }
    let last: usize = hay.len() - pattern.len();
    for i in 0..last
        invariant
            pattern@ == needle@,
            last <= hay@.len(),
            forall|k: int| 0 <= k < i ==> !occurs_at(hay@, needle@, k),
    {
        if matches_at(hay, &pattern, i) {
            return true;
        }
    }
    matches_at(hay, &pattern, last)
}

/// Whether `needle` stands somewhere in `hay`.
pub fn contains_text(hay: &str, needle: &str) -> (r: bool)
    ensures
        r == contains(hay@, needle@),
{
    contains_chars(&chars_of(hay), needle)
}

/// `s` begins with `p`.
pub open spec fn has_prefix(s: Seq<char>, p: Seq<char>) -> bool {
    p.len() <= s.len() && s.take(p.len() as int) == p
}

/// `s` ends with `p`.
pub open spec fn has_suffix(s: Seq<char>, p: Seq<char>) -> bool {
    p.len() <= s.len() && s.skip(s.len() - p.len()) == p
}

/// What is put behind a text is its end.
pub proof fn lemma_suffix(a: Seq<char>, b: Seq<char>)
    ensures
        has_suffix(a + b, b),
{
    assert((a + b).skip(a.len() as int) =~= b);
}

/// What is put in front of a text is its beginning.
pub proof fn lemma_prefix(a: Seq<char>, b: Seq<char>)
    ensures
        has_prefix(a + b, a),
{
    assert((a + b).take(a.len() as int) =~= a);
}

/// Whether `s` begins with `p`.
pub fn starts_with(s: &str, p: &str) -> (r: bool)
    ensures
        r == has_prefix(s@, p@),
{
    let hay = chars_of(s);
    let needle = chars_of(p);
    proof {
        if p@.len() <= s@.len() {
            assert(s@.subrange(0, p@.len() as int) =~= s@.take(p@.len() as int));
        }
    }
    matches_at(&hay, &needle, 0)
}

/// Whether `s` ends with `p`.
pub fn ends_with(s: &str, p: &str) -> (r: bool)
    ensures
        r == has_suffix(s@, p@),
{
    let hay = chars_of(s);
    let needle = chars_of(p);
    if needle.len() > hay.len() {
        return false;
    }
    let at: usize = hay.len() - needle.len();
    proof {
        assert(s@.subrange(at as int, at + p@.len()) =~= s@.skip(at as int));
    }
    matches_at(&hay, &needle, at)
}

/// What follows `p` at the start of `s`.
pub open spec fn without_prefix(s: Seq<char>, p: Seq<char>) -> Option<Seq<char>> {
    if has_prefix(s, p) {
        Some(s.skip(p.len() as int))
    } else {
        None
    }
}

/// What stands before `p` at the end of `s`.
pub open spec fn without_suffix(s: Seq<char>, p: Seq<char>) -> Option<Seq<char>> {
    if has_suffix(s, p) {
        Some(s.take(s.len() - p.len()))
    } else {
        None
    }
}

/// The view of an optional text.
pub open spec fn view_opt(s: Option<&str>) -> Option<Seq<char>> {
    match s {
        Some(t) => Some(t@),
        None => None,
    }
}

/// The view of an optional string.
pub open spec fn view_opt_string(s: Option<String>) -> Option<Seq<char>> {
    match s {
        Some(t) => Some(t@),
        None => None,
    }
}

/// What follows `p` at the start of `s`, if `s` begins with `p`.
pub fn strip_prefix<'a>(s: &'a str, p: &str) -> (r: Option<&'a str>)
    ensures
        view_opt(r) == without_prefix(s@, p@),
{
    if starts_with(s, p) {
        let rest = s.substring_char(p.unicode_len(), s.unicode_len());
        proof { assert(rest@ =~= s@.skip(p@.len() as int)); }
        Some(rest)
    } else {
        None
    }
}

/// What stands before `p` at the end of `s`, if `s` ends with `p`.
pub fn strip_suffix<'a>(s: &'a str, p: &str) -> (r: Option<&'a str>)
    ensures
        view_opt(r) == without_suffix(s@, p@),
{
    if ends_with(s, p) {
        let rest = s.substring_char(0, s.unicode_len() - p.unicode_len());
        proof { assert(rest@ =~= s@.take(s@.len() - p@.len())); }
        Some(rest)
    } else {
        None
    }
}

/// The place of the first character of `s` that is one of `set`.
pub open spec fn find_any(s: Seq<char>, set: Seq<char>) -> Option<int>
    decreases s.len(),
{
    if s.len() == 0 {
        None
    } else if set.contains(s[0]) {
        Some(0int)
    } else {
        match find_any(s.skip(1), set) {
            Some(i) => Some(i + 1),
            None => None,
        }
    }
}

/// The place that `find_any` gives is the first one.
pub proof fn lemma_find_any(s: Seq<char>, set: Seq<char>)
    ensures
        match find_any(s, set) {
            Some(i) => 0 <= i < s.len() && set.contains(s[i]) && forall|j: int|
                0 <= j < i ==> !set.contains(#[trigger] s[j]),
            None => forall|j: int| 0 <= j < s.len() ==> !set.contains(#[trigger] s[j]),
        },
    decreases s.len(),
{
    if s.len() > 0 && !set.contains(s[0]) {
        lemma_find_any(s.skip(1), set);
        assert forall|j: int| 0 < j < s.len() implies s.skip(1)[j - 1] == #[trigger] s[j] by {}
        match find_any(s.skip(1), set) {
            Some(i) => {
                assert forall|j: int| 0 <= j < i + 1 implies !set.contains(#[trigger] s[j]) by {
                    if j > 0 {
                        assert(!set.contains(s.skip(1)[j - 1]));
                    }
                }
            },
            None => {
                assert forall|j: int| 0 <= j < s.len() implies !set.contains(#[trigger] s[j]) by {
                    if j > 0 {
                        assert(!set.contains(s.skip(1)[j - 1]));
                    }
                }
            },
        }
    }
}

/// The place at which a first occurrence stands is the one `find_any` gives.
pub proof fn lemma_find_any_is(s: Seq<char>, set: Seq<char>, i: int)
    requires
        0 <= i < s.len(),
        set.contains(s[i]),
        forall|j: int| 0 <= j < i ==> !set.contains(#[trigger] s[j]),
    ensures
        find_any(s, set) == Some(i),
{
    lemma_find_any(s, set);
    match find_any(s, set) {
        Some(k) => {
            if k < i {
                assert(!set.contains(s[k]));
            }
            if i < k {
                assert(!set.contains(s[i]));
            }
        },
        None => {
            assert(!set.contains(s[i]));
        },
    }
}

/// The place of the first character of `cs` that is one of `set`.
pub fn find_any_of(cs: &Vec<char>, set: &str) -> (r: Option<usize>)
    ensures
        match r {
            Some(i) => find_any(cs@, set@) == Some(i as int),
            None => find_any(cs@, set@) is None,
        },
        r matches Some(i) ==> i < cs@.len(),
{
    let wanted = chars_of(set);
    for i in 0..cs.len()
        invariant
            wanted@ == set@,
            forall|j: int| 0 <= j < i ==> !set@.contains(#[trigger] cs@[j]),
    {
        if holds(&wanted, cs[i]) {
            proof { lemma_find_any_is(cs@, set@, i as int); }
            return Some(i);
        }
    }
    proof {
        lemma_find_any(cs@, set@);
        match find_any(cs@, set@) {
            Some(k) => {
                assert(!set@.contains(cs@[k]));
            },
            None => {},
        }
    }
    None
}

/// The part of `s` before its first character that is one of `set`.
pub open spec fn until(s: Seq<char>, set: Seq<char>) -> Seq<char> {
    match find_any(s, set) {
        Some(i) => s.take(i),
        None => s,
    }
}

/// The part of `s` before its first character that is one of `set`.
pub fn until_any<'a>(s: &'a str, set: &str) -> (r: &'a str)
    ensures
        r@ == until(s@, set@),
{
    let cs = chars_of(s);
    match find_any_of(&cs, set) {
        Some(i) => {
            let front = slice(s, 0, i);
            proof { assert(front@ =~= s@.take(i as int)); }
            front
        },
        None => s,
    }
}

/// Some character of `s` is white space.
pub open spec fn has_space(s: Seq<char>) -> bool {
    exists|i: int| 0 <= i < s.len() && is_space(#[trigger] s[i])
}

/// Whether some character of `s` is white space.
pub fn contains_whitespace(s: &str) -> (r: bool)
    ensures
        r == has_space(s@),
{
    let cs = chars_of(s);
    for i in 0..cs.len()
        invariant
            cs@ == s@,
            forall|j: int| 0 <= j < i ==> !is_space(#[trigger] cs@[j]),
    {
        if is_whitespace(cs[i]) {
            return true;
        }
    }
    false
}

/// The views of a result of texts.
pub open spec fn view_result(r: Result<String, String>) -> Result<Seq<char>, Seq<char>> {
    match r {
        Ok(t) => Ok(t@),
        Err(e) => Err(e@),
    }
}

/// Whether `c` is one of `cs`.
pub fn holds(cs: &Vec<char>, c: char) -> (r: bool)
    ensures
        r == cs@.contains(c),
{
    for i in 0..cs.len()
        invariant
            forall|j: int| 0 <= j < i ==> cs@[j] != c,
    {
        if cs[i] == c {
            return true;
        }
    }
    false
}

// ---------------------------------------------------------------------------
// Trimming
// ---------------------------------------------------------------------------

/// `s` without the white space at its start.
pub open spec fn trim_start(s: Seq<char>) -> Seq<char>
    decreases s.len(),
{
    if s.len() > 0 && is_space(s[0]) {
        trim_start(s.skip(1))
    } else {
        s
    }
}

/// `s` without the white space at its end.
pub open spec fn trim_end(s: Seq<char>) -> Seq<char>
    decreases s.len(),
{
    if s.len() > 0 && is_space(s.last()) {
        trim_end(s.drop_last())
    } else {
        s
    }
}

/// `s` without the white space around it.
pub open spec fn trim(s: Seq<char>) -> Seq<char> {
    trim_end(trim_start(s))
}

/// The text of `s` from the character `from` up to, not including, `to`.
pub fn slice(s: &str, from: usize, to: usize) -> (r: &str)
    requires
        from <= to <= s@.len(),
    ensures
        r@ == s@.subrange(from as int, to as int),
{
    s.substring_char(from, to)
}

/// `s` without the white space at its start.
pub fn trimmed_start(s: &str) -> (r: &str)
    ensures
        r@ == trim_start(s@),
{
    let cs = chars_of(s);
    let n: usize = cs.len();
    let mut i: usize = 0;
    proof { assert(s@.skip(0) =~= s@); }
    while i < n && is_whitespace(cs[i])
        invariant
            cs@ == s@,
            n == cs@.len(),
            i <= n,
            trim_start(s@) == trim_start(s@.skip(i as int)),
        decreases n - i,
    {
        proof { assert(s@.skip(i as int).skip(1) =~= s@.skip(i + 1)); }
        i = i + 1;
    }
    proof { assert(s@.subrange(i as int, n as int) =~= s@.skip(i as int)); }
    slice(s, i, n)
}

/// `s` without the white space at its end.
pub fn trimmed_end(s: &str) -> (r: &str)
    ensures
        r@ == trim_end(s@),
{
    let cs = chars_of(s);
    let mut n: usize = cs.len();
    proof { assert(s@.take(n as int) =~= s@); }
    while n > 0 && is_whitespace(cs[n - 1])
        invariant
            cs@ == s@,
            n <= cs@.len(),
            trim_end(s@) == trim_end(s@.take(n as int)),
        decreases n,
    {
        proof { assert(s@.take(n as int).drop_last() =~= s@.take(n - 1)); }
        n = n - 1;
    }
    proof { assert(s@.subrange(0, n as int) =~= s@.take(n as int)); }
    slice(s, 0, n)
}

/// `s` without the white space around it.
pub fn trimmed(s: &str) -> (r: &str)
    ensures
        r@ == trim(s@),
{
    trimmed_end(trimmed_start(s))
}

/// `s` without the characters of `set` at its start.
pub open spec fn trim_start_of(s: Seq<char>, set: Seq<char>) -> Seq<char>
    decreases s.len(),
{
    if s.len() > 0 && set.contains(s[0]) {
        trim_start_of(s.skip(1), set)
    } else {
        s
    }
}

/// `s` without the characters of `set` at its end.
pub open spec fn trim_end_of(s: Seq<char>, set: Seq<char>) -> Seq<char>
    decreases s.len(),
{
    if s.len() > 0 && set.contains(s.last()) {
        trim_end_of(s.drop_last(), set)
    } else {
        s
    }
}

/// `s` without the characters of `set` at its start.
pub fn trimmed_start_of<'a>(s: &'a str, set: &str) -> (r: &'a str)
    ensures
        r@ == trim_start_of(s@, set@),
{
    let cs = chars_of(s);
    let wanted = chars_of(set);
    let n: usize = cs.len();
    let mut i: usize = 0;
    proof { assert(s@.skip(0) =~= s@); }
    while i < n && holds(&wanted, cs[i])
        invariant
            cs@ == s@,
            wanted@ == set@,
            n == cs@.len(),
            i <= n,
            trim_start_of(s@, set@) == trim_start_of(s@.skip(i as int), set@),
        decreases n - i,
    {
        proof { assert(s@.skip(i as int).skip(1) =~= s@.skip(i + 1)); }
        i = i + 1;
    }
    proof { assert(s@.subrange(i as int, n as int) =~= s@.skip(i as int)); }
    slice(s, i, n)
}

/// `s` without the characters of `set` at its end.
pub fn trimmed_end_of<'a>(s: &'a str, set: &str) -> (r: &'a str)
    ensures
        r@ == trim_end_of(s@, set@),
{
    let cs = chars_of(s);
    let wanted = chars_of(set);
    let mut n: usize = cs.len();
    proof { assert(s@.take(n as int) =~= s@); }
    while n > 0 && holds(&wanted, cs[n - 1])
        invariant
            cs@ == s@,
            wanted@ == set@,
            n <= cs@.len(),
            trim_end_of(s@, set@) == trim_end_of(s@.take(n as int), set@),
        decreases n,
    {
        proof { assert(s@.take(n as int).drop_last() =~= s@.take(n - 1)); }
        n = n - 1;
    }
    proof { assert(s@.subrange(0, n as int) =~= s@.take(n as int)); }
    slice(s, 0, n)
}

/// `s` without the copies of `p` at its start.
pub open spec fn without_leading(s: Seq<char>, p: Seq<char>) -> Seq<char>
    decreases s.len(),
{
    if p.len() > 0 && has_prefix(s, p) {
        without_leading(s.skip(p.len() as int), p)
    } else {
        s
    }
}

/// `s` without the copies of `p` at its end.
pub open spec fn without_trailing(s: Seq<char>, p: Seq<char>) -> Seq<char>
    decreases s.len(),
{
    if p.len() > 0 && has_suffix(s, p) {
        without_trailing(s.take(s.len() - p.len()), p)
    } else {
        s
    }
}

/// `s` without the copies of `p` at its start.
pub fn strip_leading<'a>(s: &'a str, p: &str) -> (r: &'a str)
    requires
        p@.len() > 0,
    ensures
        r@ == without_leading(s@, p@),
    decreases s@.len(),
{
    match strip_prefix(s, p) {
        Some(rest) => strip_leading(rest, p),
        None => s,
    }
}

/// `s` without the copies of `p` at its end.
pub fn strip_trailing<'a>(s: &'a str, p: &str) -> (r: &'a str)
    requires
        p@.len() > 0,
    ensures
        r@ == without_trailing(s@, p@),
    decreases s@.len(),
{
    match strip_suffix(s, p) {
        Some(rest) => strip_trailing(rest, p),
        None => s,
    }
}

// ---------------------------------------------------------------------------
// Splitting and joining
// ---------------------------------------------------------------------------

/// The views of a vector of strings.
pub open spec fn views(v: Seq<String>) -> Seq<Seq<char>> {
    v.map_values(|s: String| s@)
}

/// The pieces of `s` between the occurrences of `c`.
pub open spec fn split(s: Seq<char>, c: char) -> Seq<Seq<char>>
    decreases s.len(),
{
    if s.len() == 0 {
        seq![Seq::<char>::empty()]
    } else {
        let before = split(s.drop_last(), c);
        if s.last() == c {
            before.push(Seq::<char>::empty())
        } else {
            before.drop_last().push(before.last().push(s.last()))
        }
    }
}

/// There is at least one piece.
pub proof fn lemma_split_len(s: Seq<char>, c: char)
    ensures
        split(s, c).len() >= 1,
    decreases s.len(),
{
    if s.len() > 0 {
        lemma_split_len(s.drop_last(), c);
    }
}

/// The pieces of `s` between the occurrences of `c`.
pub fn split_char(s: &str, c: char) -> (r: Vec<String>)
    ensures
        views(r@) == split(s@, c),
{
    let cs = chars_of(s);
    let mut done: Vec<String> = Vec::new();
    let mut piece = String::new();
    proof {
        assert(s@.take(0) =~= Seq::<char>::empty());
        assert(views(done@).push(piece@) =~= split(s@.take(0), c));
    }
    for i in 0..cs.len()
        invariant
            cs@ == s@,
            views(done@).push(piece@) == split(s@.take(i as int), c),
    {
        proof {
            assert(s@.take(i + 1).drop_last() =~= s@.take(i as int));
            assert(s@.take(i + 1).last() == s@[i as int]);
        }
        let ghost before = views(done@);
        let ghost last = piece@;
        if cs[i] == c {
            let ghost held = done@;
            done.push(piece);
            proof { assert(views(done@) =~= before.push(last)); }
            piece = String::new();
            proof { assert(views(done@).push(piece@) =~= split(s@.take(i + 1), c)); }
        } else {
            piece.push(cs[i]);
            proof {
                assert(before.push(last).drop_last() =~= before);
                assert(before.push(last).last() == last);
                assert(views(done@).push(piece@) =~= split(s@.take(i + 1), c));
            }
        }
    }
    let ghost before = views(done@);
    let ghost last = piece@;
    done.push(piece);
    proof {
        assert(s@.take(cs@.len() as int) =~= s@);
        assert(views(done@) =~= before.push(last));
    }
    done
}

/// The pieces of `s` between stretches of white space.
pub open spec fn words(s: Seq<char>) -> Seq<Seq<char>>
    decreases s.len(),
{
    if s.len() == 0 {
        Seq::<Seq<char>>::empty()
    } else {
        let before = words(s.drop_last());
        if is_space(s.last()) {
            before
        } else if s.len() > 1 && !is_space(s[s.len() - 2]) {
            before.drop_last().push(before.last().push(s.last()))
        } else {
            before.push(seq![s.last()])
        }
    }
}

/// The pieces of `s` between stretches of white space.
pub fn split_words(s: &str) -> (r: Vec<String>)
    ensures
        views(r@) == words(s@),
{
    let cs = chars_of(s);
    let mut done: Vec<String> = Vec::new();
    let mut piece = String::new();
    let mut open = false;
    proof {
        assert(s@.take(0) =~= Seq::<char>::empty());
        assert(views(done@) =~= words(s@.take(0)));
    }
    for i in 0..cs.len()
        invariant
            cs@ == s@,
            open == (i > 0 && !is_space(s@[i - 1])),
            words(s@.take(i as int)) == if open {
                views(done@).push(piece@)
            } else {
                views(done@)
            },
            !open ==> piece@.len() == 0,
    {
        let ghost before = views(done@);
        let ghost last = piece@;
        proof {
            assert(s@.take(i + 1).drop_last() =~= s@.take(i as int));
            assert(s@.take(i + 1).last() == s@[i as int]);
            if i > 0 {
                assert(s@.take(i + 1)[i - 1] == s@[i - 1]);
            }
        }
        if is_whitespace(cs[i]) {
            if open {
                done.push(piece);
                piece = String::new();
                open = false;
                proof {
                    assert(views(done@) =~= before.push(last));
                }
            }
        } else {
            piece.push(cs[i]);
            proof {
                if open {
                    assert(before.push(last).drop_last() =~= before);
                    assert(before.push(last).last() == last);
                } else {
                    assert(piece@ =~= seq![cs@[i as int]]);
                }
            }
            open = true;
        }
    }
    let ghost before = views(done@);
    let ghost last = piece@;
    if open {
        done.push(piece);
        proof {
            assert(views(done@) =~= before.push(last));
        }
    }
    proof {
        assert(s@.take(cs@.len() as int) =~= s@);
    }
    done
}

/// Lower-casing by ASCII rules goes character by character.
pub proof fn lemma_ascii_lowered_around(before: Seq<char>, s: Seq<char>, after: Seq<char>)
    ensures
        ascii_lowered(before + s + after) == ascii_lowered(before) + ascii_lowered(s)
            + ascii_lowered(after),
{
    assert(ascii_lowered(before + s + after) =~= ascii_lowered(before) + ascii_lowered(s)
        + ascii_lowered(after));
}

/// A copy of a vector of strings.
pub fn copied_strings(v: &Vec<String>) -> (r: Vec<String>)
    ensures
        views(r@) == views(v@),
{
    let mut r: Vec<String> = Vec::new();
    for i in 0..v.len()
        invariant
            views(r@) == views(v@).take(i as int),
    {
        let ghost before = views(r@);
        r.push(v[i].clone());
        proof {
            assert(views(r@) =~= before.push(v@[i as int]@));
            assert(views(v@).take(i + 1) =~= before.push(v@[i as int]@));
        }
    }
    proof {
        assert(views(v@).take(v@.len() as int) =~= views(v@));
    }
    r
}

/// A copy of an optional string.
pub fn copied_opt(s: &Option<String>) -> (r: Option<String>)
    ensures
        view_opt_string(r) == view_opt_string(*s),
{
    match s {
        Some(t) => Some(t.clone()),
        None => None,
    }
}

/// Whether `s` is one of `v`.
pub fn has_text(v: &Vec<String>, s: &str) -> (r: bool)
    ensures
        r == views(v@).contains(s@),
{
    let ghost all = views(v@);
    for i in 0..v.len()
        invariant
            all == views(v@),
            forall|j: int| 0 <= j < i ==> all[j] != s@,
    {
        if same_text(v[i].as_str(), s) {
            proof {
                assert(all[i as int] == s@);
            }
            return true;
        }
    }
    false
}

/// `line` without one carriage return at its end.
pub open spec fn without_cr(line: Seq<char>) -> Seq<char> {
    if line.len() > 0 && line.last() == '\r' {
        line.drop_last()
    } else {
        line
    }
}

/// The lines of `s`. A line ends at a newline, and a carriage return right
/// before that newline belongs to the line's end. A newline at the end of `s`
/// opens no further line.
pub open spec fn lines(s: Seq<char>) -> Seq<Seq<char>> {
    let pieces = split(s, '\n');
    let ended = pieces.drop_last().map_values(|l: Seq<char>| without_cr(l));
    if pieces.last().len() == 0 {
        ended
    } else {
        ended.push(pieces.last())
    }
}

fn chomp(line: &String) -> (r: String)
    ensures
        r@ == without_cr(line@),
{
    let cs = chars_of(line.as_str());
    let n: usize = cs.len();
    if n > 0 && cs[n - 1] == '\r' {
        let kept = slice(line.as_str(), 0, n - 1);
        proof { assert(kept@ =~= line@.drop_last()); }
        kept.to_string()
    } else {
        line.clone()
    }
}

/// The lines of `s`.
pub fn split_lines(s: &str) -> (r: Vec<String>)
    ensures
        views(r@) == lines(s@),
{
    let mut pieces = split_char(s, '\n');
    proof { lemma_split_len(s@, '\n'); }
    let ghost all = split(s@, '\n');
    assert(pieces@.len() == all.len());
    let mut r: Vec<String> = Vec::new();
    let n: usize = pieces.len() - 1;
    for i in 0..n
        invariant
            pieces@.len() == n + 1,
            views(pieces@) == all,
            views(r@) == all.take(i as int).map_values(|l: Seq<char>| without_cr(l)),
    {
        let line = chomp(&pieces[i]);
        let ghost before = views(r@);
        r.push(line);
        proof {
            assert(views(pieces@)[i as int] == pieces@[i as int]@);
            assert(views(r@) =~= before.push(line@));
            assert(all.take(i + 1) =~= all.take(i as int).push(all[i as int]));
            assert(views(r@) =~= all.take(i + 1).map_values(|l: Seq<char>| without_cr(l)));
        }
    }
    proof {
        assert(all.take(n as int) =~= all.drop_last());
        assert(views(pieces@)[n as int] == pieces@[n as int]@);
    }
    let ghost before = views(r@);
    if pieces[n].unicode_len() > 0 {
        let last = pieces[n].clone();
        r.push(last);
        proof { assert(views(r@) =~= before.push(last@)); }
    }
    r
}

/// `parts` with `sep` between each two of them.
pub open spec fn join(parts: Seq<Seq<char>>, sep: Seq<char>) -> Seq<char>
    decreases parts.len(),
{
    if parts.len() == 0 {
        Seq::<char>::empty()
    } else if parts.len() == 1 {
        parts[0]
    } else {
        join(parts.drop_last(), sep) + sep + parts.last()
    }
}

/// `parts` with `sep` between each two of them.
pub fn joined(parts: &Vec<String>, sep: &str) -> (r: String)
    ensures
        r@ == join(views(parts@), sep@),
{
    let mut r = String::new();
    proof { assert(views(parts@).take(0) =~= Seq::<Seq<char>>::empty()); }
    for i in 0..parts.len()
        invariant
            r@ == join(views(parts@).take(i as int), sep@),
    {
        proof {
            let upto = views(parts@).take(i + 1);
            assert(upto.drop_last() =~= views(parts@).take(i as int));
            assert(upto.last() == parts@[i as int]@);
            assert(upto[0] == views(parts@)[0]);
        }
        if i > 0 {
            r.append(sep);
        }
        r.append(parts[i].as_str());
        proof {
            if i == 0 {
                assert(r@ =~= parts@[0]@);
            }
        }
    }
    proof { assert(views(parts@).take(parts@.len() as int) =~= views(parts@)); }
    r
}

/// `a` followed by `b`.
pub fn cat2(a: &str, b: &str) -> (r: String)
    ensures
        r@ == a@ + b@,
{
    let mut r = a.to_string();
    r.append(b);
    r
}

/// `a` followed by `b` and `c`.
pub fn cat3(a: &str, b: &str, c: &str) -> (r: String)
    ensures
        r@ == a@ + b@ + c@,
{
    let mut r = cat2(a, b);
    r.append(c);
    r
}

/// `a` followed by `b`, `c` and `d`.
pub fn cat4(a: &str, b: &str, c: &str, d: &str) -> (r: String)
    ensures
        r@ == a@ + b@ + c@ + d@,
{
    let mut r = cat3(a, b, c);
    r.append(d);
    r
}

/// `a` followed by `b`, `c`, `d` and `e`.
pub fn cat5(a: &str, b: &str, c: &str, d: &str, e: &str) -> (r: String)
    ensures
        r@ == a@ + b@ + c@ + d@ + e@,
{
    let mut r = cat4(a, b, c, d);
    r.append(e);
    r
}

/// What stands in a text stands in any text around it.
pub proof fn lemma_contains_within(before: Seq<char>, s: Seq<char>, after: Seq<char>, x: Seq<char>)
    requires
        contains(s, x),
    ensures
        contains(before + s + after, x),
{
    let i = choose|i: int| occurs_at(s, x, i);
    let all = before + s + after;
    assert(all.subrange(before.len() + i, before.len() + i + x.len()) =~= s.subrange(
        i,
        i + x.len(),
    ));
    assert(occurs_at(all, x, before.len() + i));
}

/// A text stands in itself.
pub proof fn lemma_contains_self(s: Seq<char>)
    ensures
        contains(s, s),
{
    assert(s.subrange(0, s.len() as int) =~= s);
    assert(occurs_at(s, s, 0));
}

/// What stands in one of the parts stands in what they are joined to.
pub proof fn lemma_join_contains(parts: Seq<Seq<char>>, sep: Seq<char>, k: int, x: Seq<char>)
    requires
        0 <= k < parts.len(),
        contains(parts[k], x),
    ensures
        contains(join(parts, sep), x),
    decreases parts.len(),
{
    if parts.len() > 1 {
        let rest = join(parts.drop_last(), sep);
        if k == parts.len() - 1 {
            lemma_contains_within(rest + sep, parts[k], Seq::<char>::empty(), x);
            assert(rest + sep + parts[k] + Seq::<char>::empty() =~= join(parts, sep));
        } else {
            lemma_join_contains(parts.drop_last(), sep, k, x);
            lemma_contains_within(Seq::<char>::empty(), rest, sep + parts.last(), x);
            assert(Seq::<char>::empty() + rest + (sep + parts.last()) =~= join(parts, sep));
        }
    }
}

// ---------------------------------------------------------------------------
// Numbers
// ---------------------------------------------------------------------------

/// The decimal digit of value `d`.
pub open spec fn digit(d: nat) -> char {
    (48 + d) as char
}

/// The decimal notation of `n`.
pub open spec fn decimal(n: nat) -> Seq<char>
    decreases n,
{
    if n < 10 {
        seq![digit(n)]
    } else {
        decimal(n / 10).push(digit(n % 10))
    }
}

/// The decimal notation of `n`.
pub fn decimal_of(n: u64) -> (r: String)
    ensures
        r@ == decimal(n as nat),
    decreases n,
{
    if n < 10 {
        let mut r = String::new();
        r.push((48 + n as u8) as char);
        proof { assert(r@ =~= decimal(n as nat)); }
        r
    } else {
        let mut r = decimal_of(n / 10);
        r.push((48 + (n % 10) as u8) as char);
        r
    }
}

/// The decimal notation of a possibly negative number.
pub open spec fn decimal_int(n: int) -> Seq<char> {
    if n < 0 {
        seq!['-'] + decimal((-n) as nat)
    } else {
        decimal(n as nat)
    }
}

/// The decimal notation of a possibly negative number.
pub fn decimal_of_signed(n: i64) -> (r: String)
    ensures
        r@ == decimal_int(n as int),
{
    if n < 0 {
        let size: u64 = ((-(n + 1)) as u64) + 1;
        let digits = decimal_of(size);
        let mut r = String::new();
        r.push('-');
        r.append(digits.as_str());
        proof { assert(r@ =~= seq!['-'] + decimal((-n) as nat)); }
        r
    } else {
        decimal_of(n as u64)
    }
}

// ---------------------------------------------------------------------------
// Lengths in bytes
// ---------------------------------------------------------------------------

/// The length of `s` in bytes of UTF-8.
pub open spec fn byte_len(s: Seq<char>) -> nat {
    vstd::utf8::encode_utf8(s).len()
}

/// The length of one character in bytes of UTF-8.
pub open spec fn width(c: char) -> nat {
    if c as u32 <= 0x7f {
        1
    } else if c as u32 <= 0x7ff {
        2
    } else if c as u32 <= 0xffff {
        3
    } else {
        4
    }
}

/// Lengths in bytes add up.
pub proof fn lemma_byte_len_add(a: Seq<char>, b: Seq<char>)
    ensures
        byte_len(a + b) == byte_len(a) + byte_len(b),
    decreases a.len(),
{
    if a.len() == 0 {
        assert(a + b =~= b);
    } else {
        lemma_byte_len_add(a.drop_first(), b);
        assert((a + b).drop_first() =~= a.drop_first() + b);
        assert((a + b)[0] == a[0]);
    }
}

/// A single character takes its width.
pub proof fn lemma_byte_len_one(c: char)
    ensures
        byte_len(seq![c]) == width(c),
{
    reveal_with_fuel(vstd::utf8::encode_utf8, 2);
    vstd::utf8::char_is_scalar(c);
    assert(seq![c].drop_first() =~= Seq::<char>::empty());
}

/// A character pushed at the end adds its width.
pub proof fn lemma_byte_len_push(s: Seq<char>, c: char)
    ensures
        byte_len(s.push(c)) == byte_len(s) + width(c),
{
    assert(s.push(c) =~= s + seq![c]);
    lemma_byte_len_add(s, seq![c]);
    lemma_byte_len_one(c);
}

/// A longer prefix takes at least one more byte per character.
pub proof fn lemma_byte_len_mono(s: Seq<char>, i: int, j: int)
    requires
        0 <= i <= j <= s.len(),
    ensures
        byte_len(s.take(i)) + (j - i) <= byte_len(s.take(j)),
        byte_len(s.take(j)) <= byte_len(s.take(i)) + 4 * (j - i),
    decreases j - i,
{
    if i < j {
        lemma_byte_len_mono(s, i, j - 1);
        assert(s.take(j) =~= s.take(j - 1).push(s[j - 1]));
        lemma_byte_len_push(s.take(j - 1), s[j - 1]);
    }
}

/// The length of one character in bytes of UTF-8.
pub fn char_width(c: char) -> (r: usize)
    ensures
        r == width(c),
{
    let code: u32 = c as u32;
    if code <= 0x7f {
        1
    } else if code <= 0x7ff {
        2
    } else if code <= 0xffff {
        3
    } else {
        4
    }
}

/// The length of `s` in bytes of UTF-8.
pub fn byte_length(s: &str) -> (r: usize)
    ensures
        r == byte_len(s@),
{
    s.as_bytes().len()
}

/// The number of leading characters of `s` that fit in `limit` bytes.
pub open spec fn fit(s: Seq<char>, limit: int) -> nat
    decreases s.len(),
{
    if s.len() == 0 || byte_len(s) <= limit {
        s.len()
    } else {
        fit(s.drop_last(), limit)
    }
}

/// `fit` is the largest number of leading characters within the limit.
pub proof fn lemma_fit(s: Seq<char>, limit: int)
    requires
        0 <= limit,
    ensures
        fit(s, limit) <= s.len(),
        byte_len(s.take(fit(s, limit) as int)) <= limit,
        forall|k: int|
            fit(s, limit) < k <= s.len() ==> limit < byte_len(#[trigger] s.take(k)),
    decreases s.len(),
{
    assert(s.take(s.len() as int) =~= s);
    if s.len() == 0 || byte_len(s) <= limit {
    } else {
        let d = s.drop_last();
        lemma_fit(d, limit);
        assert(d.take(fit(d, limit) as int) =~= s.take(fit(s, limit) as int));
        assert forall|k: int| fit(s, limit) < k <= s.len() implies limit < byte_len(
            #[trigger] s.take(k),
        ) by {
            if k < s.len() {
                assert(d.take(k) =~= s.take(k));
            }
        }
    }
}

/// A number of leading characters that is the largest within the limit is
/// the one that `fit` gives.
pub proof fn lemma_fit_is(s: Seq<char>, limit: int, k: int)
    requires
        0 <= limit,
        0 <= k <= s.len(),
        byte_len(s.take(k)) <= limit,
        k < s.len() ==> limit < byte_len(s.take(k + 1)),
    ensures
        fit(s, limit) == k,
{
    lemma_fit(s, limit);
    let f = fit(s, limit) as int;
    if f < k {
        assert(limit < byte_len(s.take(k)));
    }
    if k < f {
        lemma_byte_len_mono(s, k + 1, f);
    }
}

/// The number of leading characters of `s` that fit in `limit` bytes.
pub fn fitting(s: &str, limit: usize) -> (r: usize)
    ensures
        r == fit(s@, limit as int),
        r <= s@.len(),
{
    let cs = chars_of(s);
    let mut used: usize = 0;
    let mut i: usize = 0;
    proof { assert(s@.take(0) =~= Seq::<char>::empty()); }
    while i < cs.len()
        invariant
            cs@ == s@,
            i <= cs@.len(),
            used == byte_len(s@.take(i as int)),
            used <= limit,
        decreases cs@.len() - i,
    {
        let w: usize = char_width(cs[i]);
        proof {
            assert(s@.take(i + 1) =~= s@.take(i as int).push(s@[i as int]));
            lemma_byte_len_push(s@.take(i as int), s@[i as int]);
        }
        if w > limit - used {
            proof { lemma_fit_is(s@, limit as int, i as int); }
            return i;
        }
        used = used + w;
        i = i + 1;
    }
    proof { lemma_fit_is(s@, limit as int, i as int); }
    i
}

/// The smallest number of leading characters of `s` that take at least
/// `wanted` bytes; all of them where `s` is shorter.
pub open spec fn reach(s: Seq<char>, wanted: int) -> nat {
    let f = fit(s, wanted);
    if f < s.len() && byte_len(s.take(f as int)) < wanted {
        f + 1
    } else {
        f
    }
}

/// As many leading characters as `reach` says take at least `wanted` bytes.
pub proof fn lemma_reach(s: Seq<char>, wanted: int)
    requires
        0 <= wanted <= byte_len(s),
    ensures
        reach(s, wanted) <= s.len(),
        byte_len(s.take(reach(s, wanted) as int)) >= wanted,
{
    lemma_fit(s, wanted);
    let f = fit(s, wanted) as int;
    if f < s.len() {
        assert(wanted < byte_len(s.take(f + 1)));
    } else {
        assert(s.take(f) =~= s);
    }
}

/// The smallest number of leading characters of `s` that take at least
/// `wanted` bytes; all of them where `s` is shorter.
pub fn reaching(s: &str, wanted: usize) -> (r: usize)
    ensures
        r == reach(s@, wanted as int),
        r <= s@.len(),
{
    let f: usize = fitting(s, wanted);
    let n: usize = s.unicode_len();
    let head = slice(s, 0, f);
    proof { assert(head@ =~= s@.take(f as int)); }
    if f < n && byte_length(head) < wanted {
        f + 1
    } else {
        f
    }
}

// ---------------------------------------------------------------------------
// Letter case
// ---------------------------------------------------------------------------

/// The lower-case form that Unicode gives for a text.
pub uninterp spec fn unicode_lower(s: Seq<char>) -> Seq<char>;

/// The upper-case form that Unicode gives for a text.
pub uninterp spec fn unicode_upper(s: Seq<char>) -> Seq<char>;

/// Every character of `s` is an ASCII character.
pub open spec fn all_ascii(s: Seq<char>) -> bool {
    forall|i: int| 0 <= i < s.len() ==> #[trigger] s[i] <= '\u{7f}'
}

/// `c` with an ASCII capital letter made small.
pub open spec fn ascii_lower(c: char) -> char {
    if 'A' <= c <= 'Z' {
        (c as u32 + 32) as char
    } else {
        c
    }
}

/// `c` with an ASCII small letter made capital.
pub open spec fn ascii_upper(c: char) -> char {
    if 'a' <= c <= 'z' {
        (c as u32 - 32) as char
    } else {
        c
    }
}

/// `s` with every ASCII capital letter made small.
pub open spec fn ascii_lowered(s: Seq<char>) -> Seq<char> {
    s.map_values(|c: char| ascii_lower(c))
}

/// `s` with every ASCII small letter made capital.
pub open spec fn ascii_uppered(s: Seq<char>) -> Seq<char> {
    s.map_values(|c: char| ascii_upper(c))
}

/// `str::to_lowercase` gives the lower-case form by Unicode's rules. On a text
/// of ASCII characters it changes the capital letters and nothing else.
pub assume_specification[ str::to_lowercase ](s: &str) -> (r: String)
    ensures
        r@ == unicode_lower(s@),
        all_ascii(s@) ==> r@ == ascii_lowered(s@),
;

/// `str::to_uppercase` gives the upper-case form by Unicode's rules. On a text
/// of ASCII characters it changes the small letters and nothing else.
pub assume_specification[ str::to_uppercase ](s: &str) -> (r: String)
    ensures
        r@ == unicode_upper(s@),
        all_ascii(s@) ==> r@ == ascii_uppered(s@),
;

/// `s` with every ASCII capital letter made small.
pub fn ascii_lower_of(s: &str) -> (r: String)
    ensures
        r@ == ascii_lowered(s@),
{
    let cs = chars_of(s);
    let mut r = String::new();
    for i in 0..cs.len()
        invariant
            cs@ == s@,
            r@ == ascii_lowered(s@.take(i as int)),
    {
        let c = cs[i];
        if 'A' <= c && c <= 'Z' {
            r.push((c as u8 + 32) as char);
        } else {
            r.push(c);
        }
        proof {
            assert(s@.take(i + 1) =~= s@.take(i as int).push(c));
            assert(r@ =~= ascii_lowered(s@.take(i + 1)));
        }
    }
    proof { assert(s@.take(cs@.len() as int) =~= s@); }
    r
}

// ---------------------------------------------------------------------------
// Debug form
// ---------------------------------------------------------------------------

/// A text in the form in which `{:?}` shows it.
pub uninterp spec fn debug_form(s: Seq<char>) -> Seq<char>;

/// A printable ASCII character that `{:?}` shows as it is.
pub open spec fn is_plain(c: char) -> bool {
    ' ' <= c <= '~' && c != '"' && c != '\\'
}

/// `format!` with `{:?}` puts the text in double quotes; plain characters
/// stay as they are.
#[verifier::external_body]
pub(crate) fn debug_text(s: &str) -> (r: String)
    ensures
        r@ == debug_form(s@),
        (forall|i: int| 0 <= i < s@.len() ==> is_plain(#[trigger] s@[i])) ==> r@ == seq!['"'] + s@
            + seq!['"'],
{
    format!("{:?}", s)
}

// ---------------------------------------------------------------------------
// Order
// ---------------------------------------------------------------------------

/// `a` comes before `b` in the order of their characters' code points.
pub open spec fn precedes(a: Seq<char>, b: Seq<char>) -> bool
    decreases a.len(),
{
    if b.len() == 0 {
        false
    } else if a.len() == 0 {
        true
    } else if a[0] != b[0] {
        a[0] < b[0]
    } else {
        precedes(a.skip(1), b.skip(1))
    }
}

/// Of two texts exactly one comes first, or they are equal.
pub proof fn lemma_precedes_total(a: Seq<char>, b: Seq<char>)
    ensures
        a == b || precedes(a, b) || precedes(b, a),
        !(precedes(a, b) && precedes(b, a)),
        a == b ==> !precedes(a, b),
    decreases a.len(),
{
    if a.len() == 0 || b.len() == 0 {
        if a.len() == 0 && b.len() == 0 {
            assert(a =~= b);
        }
    } else if a[0] == b[0] {
        lemma_precedes_total(a.skip(1), b.skip(1));
        if a.skip(1) == b.skip(1) {
            assert(a =~= seq![a[0]] + a.skip(1));
            assert(b =~= seq![b[0]] + b.skip(1));
        }
    }
}

/// The order of texts is transitive.
pub proof fn lemma_precedes_trans(a: Seq<char>, b: Seq<char>, c: Seq<char>)
    requires
        precedes(a, b),
        precedes(b, c),
    ensures
        precedes(a, c),
    decreases a.len(),
{
    if a.len() > 0 && a[0] == b[0] && b[0] == c[0] {
        lemma_precedes_trans(a.skip(1), b.skip(1), c.skip(1));
    }
}

/// Whether `a` comes before `b`.
pub fn comes_before(a: &str, b: &str) -> (r: bool)
    ensures
        r == precedes(a@, b@),
{
    let x = chars_of(a);
    let y = chars_of(b);
    let mut i: usize = 0;
    proof {
        assert(a@.skip(0) =~= a@);
        assert(b@.skip(0) =~= b@);
    }
    loop
        invariant
            x@ == a@,
            y@ == b@,
            i <= x@.len(),
            i <= y@.len(),
            precedes(a@, b@) == precedes(a@.skip(i as int), b@.skip(i as int)),
        decreases x@.len() - i,
    {
        if i == y.len() {
            return false;
        }
        if i == x.len() {
            return true;
        }
        if x[i] != y[i] {
            return x[i] < y[i];
        }
        proof {
            assert(a@.skip(i as int).skip(1) =~= a@.skip(i + 1));
            assert(b@.skip(i as int).skip(1) =~= b@.skip(i + 1));
        }
        i = i + 1;
    }
}

// ---------------------------------------------------------------------------
// Laws
// ---------------------------------------------------------------------------

/// All characters of `s` are white space.
pub open spec fn only_space(s: Seq<char>) -> bool {
    forall|i: int| 0 <= i < s.len() ==> is_space(#[trigger] s[i])
}

/// Trimming takes white space off both ends and nothing else: the text is what
/// is left with white space around it, and what is left neither begins nor ends
/// with white space.
pub proof fn law_trimming_takes_off_the_space_around(s: Seq<char>)
    ensures
        exists|a: Seq<char>, b: Seq<char>|
            only_space(a) && only_space(b) && #[trigger] (a + trim(s) + b) == s,
        trim(s).len() > 0 ==> !is_space(trim(s)[0]) && !is_space(trim(s).last()),
{
    lemma_trim_start(s);
    let t = trim_start(s);
    lemma_trim_end(t);
    let a = choose|a: Seq<char>| only_space(a) && #[trigger] (a + t) == s;
    let b = choose|b: Seq<char>| only_space(b) && #[trigger] (trim_end(t) + b) == t;
    assert(a + trim(s) + b =~= s);
    if trim(s).len() > 0 {
        assert(t[0] == trim(s)[0]);
    }
}

proof fn lemma_trim_start(s: Seq<char>)
    ensures
        exists|a: Seq<char>| only_space(a) && #[trigger] (a + trim_start(s)) == s,
        trim_start(s).len() > 0 ==> !is_space(trim_start(s)[0]),
    decreases s.len(),
{
    if s.len() > 0 && is_space(s[0]) {
        lemma_trim_start(s.skip(1));
        let a = choose|a: Seq<char>|
            only_space(a) && #[trigger] (a + trim_start(s.skip(1))) == s.skip(1);
        let longer = seq![s[0]] + a;
        assert(longer + trim_start(s) =~= seq![s[0]] + (a + trim_start(s)));
        assert(seq![s[0]] + s.skip(1) =~= s);
        assert(only_space(longer));
    } else {
        let none = Seq::<char>::empty();
        assert(none + trim_start(s) =~= s);
        assert(only_space(none));
    }
}

proof fn lemma_trim_end(s: Seq<char>)
    ensures
        exists|b: Seq<char>| only_space(b) && #[trigger] (trim_end(s) + b) == s,
        trim_end(s).len() > 0 ==> !is_space(trim_end(s).last()) && trim_end(s)[0] == s[0],
    decreases s.len(),
{
    if s.len() > 0 && is_space(s.last()) {
        let rest = s.drop_last();
        lemma_trim_end(rest);
        let b = choose|b: Seq<char>| only_space(b) && #[trigger] (trim_end(rest) + b) == rest;
        let longer = b.push(s.last());
        assert(trim_end(s) + longer =~= (trim_end(rest) + b).push(s.last()));
        assert(rest.push(s.last()) =~= s);
        assert(only_space(longer));
    } else {
        let none = Seq::<char>::empty();
        assert(trim_end(s) + none =~= s);
        assert(only_space(none));
    }
}

/// A text without white space at its ends is left as it is.
pub proof fn lemma_nothing_to_trim(s: Seq<char>)
    requires
        s.len() > 0 ==> !is_space(s[0]) && !is_space(s.last()),
    ensures
        trim(s) == s,
{
}

/// What stands before the first of some characters: a text that holds none of
/// them, where one of them or nothing follows.
pub proof fn lemma_until(s: Seq<char>, rest: Seq<char>, set: Seq<char>)
    requires
        forall|i: int| 0 <= i < s.len() ==> !set.contains(#[trigger] s[i]),
        rest.len() > 0 ==> set.contains(rest[0]),
    ensures
        until(s + rest, set) == s,
{
    let all = s + rest;
    if rest.len() > 0 {
        assert(all[s.len() as int] == rest[0]);
        assert forall|j: int| 0 <= j < s.len() implies !set.contains(#[trigger] all[j]) by {
            assert(all[j] == s[j]);
        }
        lemma_find_any_is(all, set, s.len() as int);
        assert(all.take(s.len() as int) =~= s);
    } else {
        assert(all =~= s);
        lemma_find_any(s, set);
    }
}

/// The pieces of a text are what `c` stood between: two texts with `c` between
/// them have the pieces of the one and then those of the other.
pub proof fn law_pieces_of_two_texts(a: Seq<char>, b: Seq<char>, c: char)
    ensures
        split(a + seq![c] + b, c) == split(a, c) + split(b, c),
    decreases b.len(),
{
    let all = a + seq![c] + b;
    lemma_split_len(a, c);
    lemma_split_len(b, c);
    if b.len() == 0 {
        assert(all.drop_last() =~= a);
        assert(split(a, c).push(Seq::<char>::empty()) =~= split(a, c) + split(b, c));
    } else {
        let rest = b.drop_last();
        law_pieces_of_two_texts(a, rest, c);
        lemma_split_len(rest, c);
        assert(all.drop_last() =~= a + seq![c] + rest);
        assert(all.last() == b.last());
        assert((split(a, c) + split(rest, c)).last() == split(rest, c).last());
        assert(split(all, c) =~= split(a, c) + split(b, c));
    }
}

/// A text without `c` is one piece.
pub proof fn law_text_without_a_break_is_one_piece(s: Seq<char>, c: char)
    requires
        !s.contains(c),
    ensures
        split(s, c) == seq![s],
    decreases s.len(),
{
    if s.len() > 0 {
        let rest = s.drop_last();
        assert(s[s.len() - 1] != c);
        assert(!rest.contains(c)) by {
            if rest.contains(c) {
                let i = choose|i: int| 0 <= i < rest.len() && rest[i] == c;
                assert(s[i] == c);
            }
        }
        law_text_without_a_break_is_one_piece(rest, c);
        assert(split(s, c) =~= seq![s]) by {
            assert(rest.push(s.last()) =~= s);
        }
    } else {
        assert(split(s, c)[0] =~= s);
    }
}

/// What pieces are joined to has the parts of the first, then the separator,
/// then those of the rest.
pub proof fn law_joining_puts_the_separator_between(
    a: Seq<Seq<char>>,
    b: Seq<Seq<char>>,
    sep: Seq<char>,
)
    requires
        a.len() > 0,
        b.len() > 0,
    ensures
        join(a + b, sep) == join(a, sep) + sep + join(b, sep),
    decreases b.len(),
{
    let all = a + b;
    assert(all.drop_last() =~= a + b.drop_last());
    assert(all.last() == b.last());
    if b.len() == 1 {
        assert(a + b.drop_last() =~= a);
        assert(join(all, sep) =~= join(a, sep) + sep + join(b, sep));
    } else {
        law_joining_puts_the_separator_between(a, b.drop_last(), sep);
        assert(join(all, sep) =~= join(a, sep) + sep + join(b, sep));
    }
}

/// The number that decimal digits write.
pub open spec fn number_of(s: Seq<char>) -> int
    decreases s.len(),
{
    if s.len() == 0 {
        0
    } else {
        number_of(s.drop_last()) * 10 + (s.last() as int - '0' as int)
    }
}

/// Decimal notation gives the number back: it holds digits only, begins with a
/// zero for zero alone, and its digits write the number.
pub proof fn law_decimal_notation_is_exact(n: nat)
    ensures
        decimal(n).len() > 0,
        forall|i: int| 0 <= i < decimal(n).len() ==> '0' <= #[trigger] decimal(n)[i] <= '9',
        decimal(n)[0] == '0' <==> n == 0,
        number_of(decimal(n)) == n,
        n < 10 ==> decimal(n).len() == 1,
        n < 1000 ==> decimal(n).len() <= 3,
    decreases n,
{
    if n < 10 {
        assert(decimal(n).drop_last() =~= Seq::<char>::empty());
        assert(number_of(Seq::<char>::empty()) == 0);
    } else {
        law_decimal_notation_is_exact(n / 10);
        assert(decimal(n).drop_last() =~= decimal(n / 10));
        if n < 1000 {
            if n < 100 {
                law_decimal_notation_is_exact(n / 10);
            } else {
                law_decimal_notation_is_exact(n / 10 / 10);
                assert(decimal(n / 10).len() == decimal(n / 10 / 10).len() + 1);
            }
        }
    }
}

/// Pieces of a text are words: none is empty or holds white space, and each of
/// two texts with white space between them keeps its words.
pub proof fn law_words_of_two_texts(a: Seq<char>, space: char, b: Seq<char>)
    requires
        is_space(space),
    ensures
        words(a + seq![space] + b) == words(a) + words(b),
    decreases b.len(),
{
    let all = a + seq![space] + b;
    if b.len() == 0 {
        assert(all.drop_last() =~= a);
        assert(words(a) + words(b) =~= words(a));
    } else {
        let rest = b.drop_last();
        law_words_of_two_texts(a, space, rest);
        assert(all.drop_last() =~= a + seq![space] + rest);
        assert(all.last() == b.last());
        assert(all[all.len() - 2] == if b.len() > 1 {
            b[b.len() - 2]
        } else {
            space
        });
        if !is_space(b.last()) && b.len() > 1 && !is_space(b[b.len() - 2]) {
            lemma_words_open(rest);
            assert((words(a) + words(rest)).last() == words(rest).last());
        }
        assert(words(all) =~= words(a) + words(b));
    }
}

proof fn lemma_words_open(s: Seq<char>)
    requires
        s.len() > 0,
        !is_space(s.last()),
    ensures
        words(s).len() > 0,
{
}

/// A text without white space is one word.
pub proof fn law_text_without_space_is_one_word(s: Seq<char>)
    requires
        s.len() > 0,
        !has_space(s),
    ensures
        words(s) == seq![s],
    decreases s.len(),
{
    let rest = s.drop_last();
    assert(!is_space(s[s.len() - 1]));
    if rest.len() > 0 {
        assert(!is_space(s[s.len() - 2]));
        assert forall|i: int| 0 <= i < rest.len() implies !is_space(#[trigger] rest[i]) by {
            assert(!is_space(s[i]));
        }
        law_text_without_space_is_one_word(rest);
        assert(words(s) =~= seq![s]) by {
            assert(rest.push(s.last()) =~= s);
        }
    } else {
        assert(words(rest) =~= Seq::<Seq<char>>::empty());
        assert(seq![s.last()] =~= s);
        assert(words(s) =~= seq![s]);
    }
}

/// A text is found in another exactly where the other is made of something, the
/// text, and something.
pub proof fn law_found_texts_stand_within(hay: Seq<char>, needle: Seq<char>)
    ensures
        contains(hay, needle) <==> exists|a: Seq<char>, b: Seq<char>| #[trigger]
            (a + needle + b) == hay,
{
    if contains(hay, needle) {
        let i = choose|i: int| occurs_at(hay, needle, i);
        let a = hay.take(i);
        let b = hay.skip(i + needle.len());
        assert(a + needle + b =~= hay) by {
            assert forall|k: int| 0 <= k < hay.len() implies #[trigger] (a + needle + b)[k]
                == hay[k] by {
                if i <= k < i + needle.len() {
                    assert(hay.subrange(i, i + needle.len())[k - i] == needle[k - i]);
                }
            }
        }
    }
    if exists|a: Seq<char>, b: Seq<char>| #[trigger] (a + needle + b) == hay {
        let (a, b) = choose|a: Seq<char>, b: Seq<char>| #[trigger] (a + needle + b) == hay;
        lemma_contains_self(needle);
        lemma_contains_within(a, needle, b, needle);
    }
}

/// White space around a text is taken off, and nothing of the text.
pub proof fn lemma_trim_around(a: Seq<char>, s: Seq<char>, b: Seq<char>)
    requires
        only_space(a),
        only_space(b),
        s.len() > 0,
        !is_space(s[0]),
        !is_space(s.last()),
    ensures
        trim(a + s + b) == s,
    decreases a.len() + b.len(),
{
    let all = a + s + b;
    if a.len() > 0 {
        assert(is_space(a[0]));
        assert(all[0] == a[0]);
        assert(all.skip(1) =~= a.skip(1) + s + b);
        assert forall|i: int| 0 <= i < a.skip(1).len() implies is_space(#[trigger] a.skip(1)[i]) by {
            assert(is_space(a[i + 1]));
        }
        lemma_trim_around(a.skip(1), s, b);
    } else {
        assert(all[0] == s[0]);
        assert(trim_start(all) == all);
        if b.len() > 0 {
            assert(is_space(b[b.len() - 1]));
            assert(all.last() == b.last());
            assert(all.drop_last() =~= a + s + b.drop_last());
            assert forall|i: int| 0 <= i < b.drop_last().len() implies is_space(
                #[trigger] b.drop_last()[i],
            ) by {
                assert(is_space(b[i]));
            }
            lemma_trim_around(a, s, b.drop_last());
            assert(all.drop_last()[0] == s[0]);
            assert(trim_start(all.drop_last()) == all.drop_last());
        } else {
            assert(all =~= s);
        }
    }
}

/// A text has a beginning exactly where something follows it, and an end exactly
/// where something stands before it.
pub proof fn law_beginnings_and_ends(s: Seq<char>, p: Seq<char>)
    ensures
        has_prefix(s, p) <==> exists|rest: Seq<char>| s == #[trigger] (p + rest),
        has_suffix(s, p) <==> exists|before: Seq<char>| s == #[trigger] (before + p),
{
    if has_prefix(s, p) {
        assert(s =~= p + s.skip(p.len() as int));
    }
    if exists|rest: Seq<char>| s == #[trigger] (p + rest) {
        let rest = choose|rest: Seq<char>| s == #[trigger] (p + rest);
        lemma_prefix(p, rest);
    }
    if has_suffix(s, p) {
        assert(s =~= s.take(s.len() - p.len()) + p);
    }
    if exists|before: Seq<char>| s == #[trigger] (before + p) {
        let before = choose|before: Seq<char>| s == #[trigger] (before + p);
        lemma_suffix(before, p);
    }
}

/// What stands behind a beginning is left when it is taken off, and what stands
/// before an end.
pub proof fn law_beginnings_and_ends_come_off(p: Seq<char>, s: Seq<char>)
    ensures
        without_prefix(p + s, p) == Some(s),
        without_suffix(s + p, p) == Some(s),
        !has_prefix(s, p) ==> without_prefix(s, p) is None,
        !has_suffix(s, p) ==> without_suffix(s, p) is None,
{
    lemma_prefix(p, s);
    lemma_suffix(s, p);
    assert((p + s).skip(p.len() as int) =~= s);
    assert((s + p).take(s.len() as int) =~= s);
}

/// Every copy of a beginning comes off, and every copy of an end; a text without
/// it stays as it is.
pub proof fn law_all_copies_come_off(p: Seq<char>, s: Seq<char>)
    requires
        p.len() > 0,
    ensures
        without_leading(p + s, p) == without_leading(s, p),
        without_trailing(s + p, p) == without_trailing(s, p),
        !has_prefix(s, p) ==> without_leading(s, p) == s,
        !has_suffix(s, p) ==> without_trailing(s, p) == s,
        !has_prefix(without_leading(s, p), p),
        !has_suffix(without_trailing(s, p), p),
    decreases s.len(),
{
    lemma_prefix(p, s);
    lemma_suffix(s, p);
    assert((p + s).skip(p.len() as int) =~= s);
    assert((s + p).take(s.len() as int) =~= s);
    if has_prefix(s, p) {
        law_all_copies_come_off(p, s.skip(p.len() as int));
    }
    if has_suffix(s, p) {
        law_all_copies_come_off(p, s.take(s.len() - p.len()));
    }
}

/// The lines of a text without a newline: itself, or none where it is empty.
/// With a newline at its end it is one line, less a carriage return.
pub proof fn law_text_without_a_newline_is_one_line(s: Seq<char>)
    requires
        !s.contains('\n'),
    ensures
        s.len() > 0 ==> lines(s) == seq![s],
        s.len() == 0 ==> lines(s).len() == 0,
        s.len() > 0 && s.last() == '\r' ==> lines(s.push('\n')) == seq![s.drop_last()],
        s.len() == 0 || s.last() != '\r' ==> lines(s.push('\n')) == seq![s],
{
    law_text_without_a_break_is_one_piece(s, '\n');
    let none = Seq::<char>::empty();
    law_pieces_of_two_texts(s, none, '\n');
    assert(s + seq!['\n'] + none =~= s.push('\n'));
    assert(split(none, '\n') =~= seq![none]);
    assert(split(s.push('\n'), '\n') =~= seq![s, none]);
    let chomped = |l: Seq<char>| without_cr(l);
    assert(seq![s].drop_last().map_values(chomped) =~= Seq::<Seq<char>>::empty());
    assert(Seq::<Seq<char>>::empty().push(s) =~= seq![s]);
    assert(seq![s, none].drop_last() =~= seq![s]);
    assert(seq![s].map_values(chomped) =~= seq![without_cr(s)]);
}

/// The lines before a newline and those behind it are the lines of the whole.
pub proof fn law_lines_of_two_texts(a: Seq<char>, b: Seq<char>)
    ensures
        lines(a.push('\n') + b) == lines(a.push('\n')) + lines(b),
{
    let none = Seq::<char>::empty();
    let chomped = |l: Seq<char>| without_cr(l);
    law_pieces_of_two_texts(a, b, '\n');
    law_pieces_of_two_texts(a, none, '\n');
    assert(a + seq!['\n'] + b =~= a.push('\n') + b);
    assert(a + seq!['\n'] + none =~= a.push('\n'));
    assert(split(none, '\n') =~= seq![none]);
    lemma_split_len(b, '\n');
    let x = split(a, '\n');
    let y = split(b, '\n');
    assert((x + y).drop_last() =~= x + y.drop_last());
    assert((x + y).last() == y.last());
    assert((x + seq![none]).drop_last() =~= x);
    assert((x + y.drop_last()).map_values(chomped) =~= x.map_values(chomped)
        + y.drop_last().map_values(chomped));
    assert(lines(a.push('\n')) == x.map_values(chomped));
    if y.last().len() > 0 {
        assert((x.map_values(chomped) + y.drop_last().map_values(chomped)).push(y.last())
            =~= x.map_values(chomped) + y.drop_last().map_values(chomped).push(y.last()));
    }
}

/// A text comes before every longer one that begins with it, and of two texts
/// that part somewhere the one with the smaller character there comes first.
pub proof fn law_texts_are_ordered_by_their_first_difference(
    common: Seq<char>,
    x: char,
    y: char,
    a: Seq<char>,
    b: Seq<char>,
)
    requires
        x < y,
    ensures
        precedes(common, common + seq![x] + a),
        precedes(common + seq![x] + a, common + seq![y] + b),
        !precedes(common + seq![y] + b, common + seq![x] + a),
    decreases common.len(),
{
    let p = common + seq![x] + a;
    let q = common + seq![y] + b;
    if common.len() == 0 {
        assert(p[0] == x && q[0] == y);
    } else {
        let rest = common.skip(1);
        law_texts_are_ordered_by_their_first_difference(rest, x, y, a, b);
        assert(p[0] == common[0] && q[0] == common[0]);
        assert(p.skip(1) =~= rest + seq![x] + a);
        assert(q.skip(1) =~= rest + seq![y] + b);
    }
}

/// Only the letters from A to Z change when a text is made small, and only those
/// from a to z when it is made capital: by the distance of the two alphabets.
pub proof fn law_letters_change_case(s: Seq<char>, i: int)
    requires
        0 <= i < s.len(),
    ensures
        ascii_lowered(s).len() == s.len() && ascii_uppered(s).len() == s.len(),
        'A' <= s[i] <= 'Z' ==> ascii_lowered(s)[i] as u32 == s[i] as u32 + 32 && ascii_uppered(s)[i]
            == s[i],
        'a' <= s[i] <= 'z' ==> ascii_uppered(s)[i] as u32 == s[i] as u32 - 32 && ascii_lowered(s)[i]
            == s[i],
        !('A' <= s[i] <= 'Z') && !('a' <= s[i] <= 'z') ==> ascii_lowered(s)[i] == s[i]
            && ascii_uppered(s)[i] == s[i],
{
}

/// A negative number has a minus before the notation of its size.
pub proof fn law_negative_numbers_have_a_minus(n: nat)
    ensures
        decimal_int(n as int) == decimal(n),
        n > 0 ==> decimal_int(-(n as int)).len() == decimal(n).len() + 1 && decimal_int(
            -(n as int),
        )[0] == '-' && decimal_int(-(n as int)).skip(1) == decimal(n),
{
    assert((seq!['-'] + decimal(n)).skip(1) =~= decimal(n));
}

/// Characters of a set are taken off the start of a text, and off its end, as
/// long as they stand there.
pub proof fn law_chosen_characters_come_off(s: Seq<char>, c: char, set: Seq<char>)
    ensures
        set.contains(c) ==> trim_start_of(seq![c] + s, set) == trim_start_of(s, set)
            && trim_end_of(s.push(c), set) == trim_end_of(s, set),
        !set.contains(c) ==> trim_start_of(seq![c] + s, set) == seq![c] + s && trim_end_of(
            s.push(c),
            set,
        ) == s.push(c),
        trim_start_of(Seq::<char>::empty(), set).len() == 0,
        trim_end_of(Seq::<char>::empty(), set).len() == 0,
{
    assert((seq![c] + s).skip(1) =~= s);
    assert((seq![c] + s)[0] == c);
    assert(s.push(c).drop_last() =~= s);
    assert(s.push(c).last() == c);
}

} // verus!
