//! HTTP request tool for API interactions.
//!
//! The tool decides which request may leave the machine and turns what came
//! back into a tool result; sending is left to the caller.

use crate::json;
use crate::json::Json;
use crate::sorting;
use crate::text;
use crate::tools::host;
use crate::tools::traits;
use crate::tools::traits::ToolResult;
use vstd::prelude::*;

verus! {

// ---------------------------------------------------------------------------
// Domains
// ---------------------------------------------------------------------------

/// The domain that a trimmed, lower-case configuration entry names: without
/// scheme, path, port and dots around it. None where nothing is left or it
/// holds white space.
pub open spec fn domain_from(lowered: Seq<char>) -> Option<Seq<char>> {
    let bare = match text::without_prefix(lowered, "https://"@) {
        Some(rest) => rest,
        None => match text::without_prefix(lowered, "http://"@) {
            Some(rest) => rest,
            None => lowered,
        },
    };
    let host = text::trim_end_of(text::trim_start_of(text::until(bare, "/"@), "."@), "."@);
    let name = text::until(host, ":"@);
    if lowered.len() == 0 || name.len() == 0 || text::has_space(name) {
        None
    } else {
        Some(name)
    }
}

/// The domain that a configuration entry names, given its trimmed text in
/// lower case.
pub fn domain_of_lowered(lowered: &str) -> (r: Option<String>)
    ensures
        text::view_opt_string(r) == domain_from(lowered@),
{
    if lowered.unicode_len() == 0 {
        return None;
    }
    let bare = match text::strip_prefix(lowered, "https://") {
        Some(rest) => rest,
        None => match text::strip_prefix(lowered, "http://") {
            Some(rest) => rest,
            None => lowered,
        },
    };
    let host = text::trimmed_end_of(text::trimmed_start_of(text::until_any(bare, "/"), "."), ".");
    let name = text::until_any(host, ":");
    if name.unicode_len() == 0 || text::contains_whitespace(name) {
        None
    } else {
        Some(name.to_string())
    }
}

/// The domain that a configuration entry names.
pub fn normalize_domain(raw: &str) -> (r: Option<String>)
    ensures
        text::view_opt_string(r) == domain_from(text::unicode_lower(text::trim(raw@))),
        text::all_ascii(text::trim(raw@)) ==> text::view_opt_string(r) == domain_from(
            text::ascii_lowered(text::trim(raw@)),
        ),
{
    let lowered = text::trimmed(raw).to_lowercase();
    domain_of_lowered(lowered.as_str())
}

/// One of the entries names the domain `d`.
pub open spec fn names_domain(entries: Seq<String>, d: Seq<char>) -> bool {
    exists|k: int|
        0 <= k < entries.len() && domain_from(
            text::unicode_lower(text::trim((#[trigger] entries[k])@)),
        ) == Some(d)
}

/// One of the entries, in lower case by ASCII's rules, names the domain `d`.
pub open spec fn names_ascii_domain(entries: Seq<String>, d: Seq<char>) -> bool {
    exists|k: int|
        0 <= k < entries.len() && domain_from(
            text::ascii_lowered(text::trim((#[trigger] entries[k])@)),
        ) == Some(d)
}

/// All entries are ASCII.
pub open spec fn ascii_entries(entries: Seq<String>) -> bool {
    forall|k: int| 0 <= k < entries.len() ==> text::all_ascii(text::trim((#[trigger] entries[k])@))
}

/// The texts stand in ascending order, none of them twice.
pub open spec fn ascending(s: Seq<Seq<char>>) -> bool {
    forall|i: int, j: int|
        0 <= i < j < s.len() ==> text::precedes(#[trigger] s[i], #[trigger] s[j])
}

/// The domains that the entries name, in ascending order and each once.
pub fn normalize_allowed_domains(domains: Vec<String>) -> (r: Vec<String>)
    ensures
        ascending(text::views(r@)),
        forall|d: Seq<char>| #[trigger]
            text::views(r@).contains(d) <==> names_domain(domains@, d),
        ascii_entries(domains@) ==> forall|d: Seq<char>| #[trigger]
            text::views(r@).contains(d) <==> names_ascii_domain(domains@, d),
{
    let mut named: Vec<String> = Vec::new();
    for k in 0..domains.len()
        invariant
            forall|j: int|
                0 <= j < k && text::all_ascii(text::trim((#[trigger] domains@[j])@))
                    ==> domain_from(text::unicode_lower(text::trim(domains@[j]@))) == domain_from(
                    text::ascii_lowered(text::trim(domains@[j]@)),
                ),
            forall|d: Seq<char>| #[trigger]
                text::views(named@).contains(d) <==> names_domain(domains@.take(k as int), d),
    {
        let ghost before = named@;
        let ghost found = domain_from(text::unicode_lower(text::trim(domains@[k as int]@)));
        proof {
            assert(domains@.take(k + 1) =~= domains@.take(k as int).push(domains@[k as int]));
            assert forall|d: Seq<char>| #[trigger]
                names_domain(domains@.take(k + 1), d) <==> names_domain(domains@.take(k as int), d)
                    || found == Some(d) by {
                lemma_names_push(domains@.take(k as int), domains@[k as int], d);
            }
        }
        match normalize_domain(domains[k].as_str()) {
            Some(d) => {
                named.push(d);
                proof {
                    assert forall|x: Seq<char>| #[trigger]
                        text::views(named@).contains(x) <==> text::views(before).contains(x) || x
                            == d@ by {
                        lemma_views_push(before, d, x);
                    }
                }
            },
            None => {},
        }
    }
    proof {
        assert(domains@.take(domains@.len() as int) =~= domains@);
        if ascii_entries(domains@) {
            assert forall|d: Seq<char>| names_domain(domains@, d) == #[trigger] names_ascii_domain(
                domains@,
                d,
            ) by {
                if names_domain(domains@, d) {
                    let k = choose|k: int|
                        0 <= k < domains@.len() && domain_from(
                            text::unicode_lower(text::trim((#[trigger] domains@[k])@)),
                        ) == Some(d);
                    assert(domain_from(text::ascii_lowered(text::trim(domains@[k]@))) == Some(d));
                }
                if names_ascii_domain(domains@, d) {
                    let k = choose|k: int|
                        0 <= k < domains@.len() && domain_from(
                            text::ascii_lowered(text::trim((#[trigger] domains@[k])@)),
                        ) == Some(d);
                    assert(domain_from(text::unicode_lower(text::trim(domains@[k]@))) == Some(d));
                }
            }
        }
    }
    sorted_unique(&named)
}

proof fn lemma_names_push(entries: Seq<String>, entry: String, d: Seq<char>)
    ensures
        names_domain(entries.push(entry), d) <==> names_domain(entries, d) || domain_from(
            text::unicode_lower(text::trim(entry@)),
        ) == Some(d),
{
    let all = entries.push(entry);
    if names_domain(entries, d) {
        let k = choose|k: int|
            0 <= k < entries.len() && domain_from(
                text::unicode_lower(text::trim((#[trigger] entries[k])@)),
            ) == Some(d);
        assert(all[k] == entries[k]);
    }
    if domain_from(text::unicode_lower(text::trim(entry@))) == Some(d) {
        assert(all[entries.len() as int] == entry);
    }
    if names_domain(all, d) {
        let k = choose|k: int|
            0 <= k < all.len() && domain_from(
                text::unicode_lower(text::trim((#[trigger] all[k])@)),
            ) == Some(d);
        if k < entries.len() {
            assert(all[k] == entries[k]);
        }
    }
}

proof fn lemma_views_push(s: Seq<String>, t: String, x: Seq<char>)
    ensures
        text::views(s.push(t)).contains(x) <==> text::views(s).contains(x) || x == t@,
{
    let all = text::views(s.push(t));
    assert(all =~= text::views(s).push(t@));
    if text::views(s).contains(x) {
        let k = choose|k: int| 0 <= k < s.len() && text::views(s)[k] == x;
        assert(all[k] == x);
    }
    if x == t@ {
        assert(all[s.len() as int] == x);
    }
    if all.contains(x) {
        let k = choose|k: int| 0 <= k < all.len() && all[k] == x;
        if k < s.len() {
            assert(text::views(s)[k] == x);
        }
    }
}

/// The texts in ascending order, each once.
fn sorted_unique(items: &Vec<String>) -> (r: Vec<String>)
    ensures
        ascending(text::views(r@)),
        forall|d: Seq<char>| #[trigger]
            text::views(r@).contains(d) <==> text::views(items@).contains(d),
{
    let places = sorting::order_of(items);
    let mut r: Vec<String> = Vec::new();
    for k in 0..places.len()
        invariant
            sorting::is_stable_order(items@, places@),
            ascending(text::views(r@)),
            forall|d: Seq<char>| #[trigger]
                text::views(r@).contains(d) <==> exists|m: int|
                    0 <= m < k && (#[trigger] items@[places@[m] as int])@ == d,
            k == 0 ==> r@.len() == 0,
            k > 0 ==> r@.len() > 0 && r@.last()@ == items@[places@[k - 1] as int]@,
    {
        proof {
            assert(places@[k as int] < items@.len());
        }
        let item = &items[places[k]];
        let ghost before = r@;
        let n: usize = r.len();
        if n > 0 && text::same_text(r[n - 1].as_str(), item.as_str()) {
            proof {
                assert forall|d: Seq<char>| #[trigger]
                    text::views(r@).contains(d) <==> exists|m: int|
                        0 <= m < k + 1 && (#[trigger] items@[places@[m] as int])@ == d by {
                    if exists|m: int| 0 <= m < k + 1 && (#[trigger] items@[places@[m] as int])@ == d {
                        let m = choose|m: int|
                            0 <= m < k + 1 && (#[trigger] items@[places@[m] as int])@ == d;
                        if m == k {
                            assert(text::views(r@)[n - 1] == d);
                        }
                    }
                }
            }
        } else {
            r.push(item.clone());
            proof {
                assert(text::views(r@) =~= text::views(before).push(item@));
                assert forall|i: int, j: int|
                    0 <= i < j < text::views(r@).len() implies text::precedes(
                    #[trigger] text::views(r@)[i],
                    #[trigger] text::views(r@)[j],
                ) by {
                    if j < before.len() {
                        assert(text::views(before)[i] == text::views(r@)[i]);
                        assert(text::views(before)[j] == text::views(r@)[j]);
                    } else {
                        // The new text comes after the last one, which is its
                        // predecessor in the sorted order and differs from it.
                        let last = before.last()@;
                        assert(sorting::comes_first(
                            items@,
                            places@[k - 1] as int,
                            places@[k as int] as int,
                        ));
                        text::lemma_precedes_total(last, item@);
                        assert(text::precedes(last, item@));
                        if i < before.len() - 1 {
                            assert(text::precedes(
                                text::views(before)[i],
                                text::views(before)[before.len() - 1],
                            ));
                            text::lemma_precedes_trans(text::views(before)[i], last, item@);
                        }
                    }
                }
                assert forall|d: Seq<char>| #[trigger]
                    text::views(r@).contains(d) <==> exists|m: int|
                        0 <= m < k + 1 && (#[trigger] items@[places@[m] as int])@ == d by {
                    lemma_views_push(before, r@.last(), d);
                    assert(r@ =~= before.push(r@.last()));
                    if d == item@ {
                        assert(items@[places@[k as int] as int]@ == d);
                    }
                }
            }
        }
    }
    proof {
        assert forall|d: Seq<char>| #[trigger]
            text::views(r@).contains(d) <==> text::views(items@).contains(d) by {
            if text::views(items@).contains(d) {
                let i = choose|i: int| 0 <= i < items@.len() && text::views(items@)[i] == d;
                sorting::lemma_arrangement_full(places@, items@.len() as int, i as usize);
                let m = choose|m: int| 0 <= m < places@.len() && places@[m] == i as usize;
                assert(items@[places@[m] as int]@ == d);
            }
            if exists|m: int|
                0 <= m < places@.len() && (#[trigger] items@[places@[m] as int])@ == d {
                let m = choose|m: int|
                    0 <= m < places@.len() && (#[trigger] items@[places@[m] as int])@ == d;
                assert(places@[m] < items@.len());
                assert(text::views(items@)[places@[m] as int] == d);
            }
        }
    }
    r
}

// ---------------------------------------------------------------------------
// Hosts of URLs
// ---------------------------------------------------------------------------

/// What follows `http://` or `https://`.
pub open spec fn after_scheme(url: Seq<char>) -> Option<Seq<char>> {
    match text::without_prefix(url, "http://"@) {
        Some(rest) => Some(rest),
        None => text::without_prefix(url, "https://"@),
    }
}

/// The host of a URL as it is written, without its port and without dots at
/// its end; or why it has none.
pub open spec fn written_host(url: Seq<char>) -> Result<Seq<char>, Seq<char>> {
    match after_scheme(url) {
        None => Err("Only http:// and https:// URLs are allowed"@),
        Some(rest) => {
            let authority = text::until(rest, "/?#"@);
            if authority.len() == 0 {
                Err("URL must include a host"@)
            } else if authority.contains('@') {
                Err("URL userinfo is not allowed"@)
            } else if authority[0] == '[' {
                Err("IPv6 hosts are not supported in http_request"@)
            } else {
                Ok(text::trim_end_of(text::trim(text::until(authority, ":"@)), "."@))
            }
        },
    }
}

/// The text that the host of `url` is made of, before it is put in lower case.
pub open spec fn host_text(url: Seq<char>) -> Seq<char> {
    match written_host(url) {
        Ok(h) => h,
        Err(_) => Seq::<char>::empty(),
    }
}

/// The host of a URL, where `lowered` is its text in lower case.
pub open spec fn host_of(url: Seq<char>, lowered: Seq<char>) -> Result<Seq<char>, Seq<char>> {
    match written_host(url) {
        Err(e) => Err(e),
        Ok(_) => if lowered.len() == 0 {
            Err("URL must include a valid host"@)
        } else {
            Ok(lowered)
        },
    }
}

/// The host of a URL as it is written, or why it has none.
pub fn read_host(url: &str) -> (r: Result<&str, &'static str>)
    ensures
        match r {
            Ok(h) => written_host(url@) == Result::<Seq<char>, Seq<char>>::Ok(h@),
            Err(e) => written_host(url@) == Result::<Seq<char>, Seq<char>>::Err(e@),
        },
{
    let rest = match text::strip_prefix(url, "http://") {
        Some(rest) => rest,
        None => match text::strip_prefix(url, "https://") {
            Some(rest) => rest,
            None => {
                return Err("Only http:// and https:// URLs are allowed");
            },
        },
    };
    let authority = text::until_any(rest, "/?#");
    let cs = text::chars_of(authority);
    if cs.len() == 0 {
        return Err("URL must include a host");
    }
    if text::holds(&cs, '@') {
        return Err("URL userinfo is not allowed");
    }
    if cs[0] == '[' {
        return Err("IPv6 hosts are not supported in http_request");
    }
    Ok(text::trimmed_end_of(text::trimmed(text::until_any(authority, ":")), "."))
}

/// The host of a URL in lower case, or why it has none.
pub fn extract_host(url: &str) -> (r: Result<String, String>)
    ensures
        text::view_result(r) == host_of(url@, text::unicode_lower(host_text(url@))),
        text::all_ascii(host_text(url@)) ==> text::view_result(r) == host_of(
            url@,
            text::ascii_lowered(host_text(url@)),
        ),
{
    match read_host(url) {
        Err(e) => Err(e.to_string()),
        Ok(h) => {
            let lowered = h.to_lowercase();
            if lowered.unicode_len() == 0 {
                Err("URL must include a valid host".to_string())
            } else {
                Ok(lowered)
            }
        },
    }
}

/// `host` is the domain `d` or lies below it.
pub open spec fn under_domain(host: Seq<char>, d: Seq<char>) -> bool {
    ||| host == d
    ||| text::has_suffix(host, d) && host.len() > d.len() && host[host.len() - d.len() - 1] == '.'
}

/// `host` is one of the domains or lies below one, or every host is allowed.
pub open spec fn on_allowlist(host: Seq<char>, domains: Seq<Seq<char>>) -> bool {
    ||| domains.contains("*"@)
    ||| exists|k: int| 0 <= k < domains.len() && under_domain(host, #[trigger] domains[k])
}

/// Whether `host` is on the allowlist.
pub fn host_matches_allowlist(host: &str, allowed_domains: &[String]) -> (r: bool)
    ensures
        r == on_allowlist(host@, text::views(allowed_domains@)),
{
    let cs = text::chars_of(host);
    let ghost domains = text::views(allowed_domains@);
    for k in 0..allowed_domains.len()
        invariant
            domains == text::views(allowed_domains@),
            forall|m: int| 0 <= m < k ==> #[trigger] domains[m] != "*"@,
    {
        if text::same_text(allowed_domains[k].as_str(), "*") {
            proof {
                assert(domains[k as int] == "*"@);
            }
            return true;
        }
    }
    proof {
        assert(!domains.contains("*"@));
    }
    for k in 0..allowed_domains.len()
        invariant
            cs@ == host@,
            domains == text::views(allowed_domains@),
            forall|m: int| 0 <= m < k ==> !under_domain(host@, #[trigger] domains[m]),
    {
        let domain = allowed_domains[k].as_str();
        let n: usize = domain.unicode_len();
        proof {
            assert(domains[k as int] == domain@);
        }
        if text::same_text(host, domain) || (text::ends_with(host, domain) && cs.len() > n && cs[cs.len()
            - n - 1] == '.') {
            proof {
                assert(under_domain(host@, domains[k as int]));
            }
            return true;
        }
    }
    false
}

// ---------------------------------------------------------------------------
// The tool
// ---------------------------------------------------------------------------

/// The text of a URL's host in lower case; empty where it has none.
fn lowered_host(raw_url: &str) -> (r: String)
    ensures
        r@ == text::unicode_lower(host_text(text::trim(raw_url@))),
        text::all_ascii(host_text(text::trim(raw_url@))) ==> r@ == text::ascii_lowered(
            host_text(text::trim(raw_url@)),
        ),
{
    let written = match read_host(text::trimmed(raw_url)) {
        Ok(h) => h.to_string(),
        Err(_) => String::new(),
    };
    proof {
        assert(written@ =~= host_text(text::trim(raw_url@)));
    }
    written.as_str().to_lowercase()
}

/// The methods that a request may use.
#[derive(Debug, Clone, Copy, PartialEq, Eq, Structural)]
pub enum HttpMethod {
    Get,
    Post,
    Put,
    Delete,
    Patch,
    Head,
    Options,
}

/// The method with the given name in capitals.
pub open spec fn method_named(upper: Seq<char>) -> Option<HttpMethod> {
    if upper == "GET"@ {
        Some(HttpMethod::Get)
    } else if upper == "POST"@ {
        Some(HttpMethod::Post)
    } else if upper == "PUT"@ {
        Some(HttpMethod::Put)
    } else if upper == "DELETE"@ {
        Some(HttpMethod::Delete)
    } else if upper == "PATCH"@ {
        Some(HttpMethod::Patch)
    } else if upper == "HEAD"@ {
        Some(HttpMethod::Head)
    } else if upper == "OPTIONS"@ {
        Some(HttpMethod::Options)
    } else {
        None
    }
}

/// The method with the given name in capitals.
pub fn method_from_upper(upper: &str) -> (r: Option<HttpMethod>)
    ensures
        r == method_named(upper@),
{
    if text::same_text(upper, "GET") {
        Some(HttpMethod::Get)
    } else if text::same_text(upper, "POST") {
        Some(HttpMethod::Post)
    } else if text::same_text(upper, "PUT") {
        Some(HttpMethod::Put)
    } else if text::same_text(upper, "DELETE") {
        Some(HttpMethod::Delete)
    } else if text::same_text(upper, "PATCH") {
        Some(HttpMethod::Patch)
    } else if text::same_text(upper, "HEAD") {
        Some(HttpMethod::Head)
    } else if text::same_text(upper, "OPTIONS") {
        Some(HttpMethod::Options)
    } else {
        None
    }
}

/// What is said of a method that is not supported.
pub open spec fn unsupported(method: Seq<char>) -> Seq<char> {
    "Unsupported HTTP method: "@ + method
        + ". Supported: GET, POST, PUT, DELETE, PATCH, HEAD, OPTIONS"@
}

/// The method that `method` names, where `upper` is its text in capitals.
pub open spec fn method_verdict(method: Seq<char>, upper: Seq<char>) -> Result<
    HttpMethod,
    Seq<char>,
> {
    match method_named(upper) {
        Some(m) => Ok(m),
        None => Err(unsupported(method)),
    }
}

/// The view of a method or the reason there is none.
pub open spec fn method_view(r: Result<HttpMethod, String>) -> Result<HttpMethod, Seq<char>> {
    match r {
        Ok(m) => Ok(m),
        Err(e) => Err(e@),
    }
}

/// What the tool says of a URL: the trimmed URL where the request may be sent,
/// or the first reason why it may not. `lowered` is the text of its host in
/// lower case.
pub open spec fn url_verdict(
    domains: Seq<Seq<char>>,
    allow_private: bool,
    raw: Seq<char>,
    lowered: Seq<char>,
) -> Result<Seq<char>, Seq<char>> {
    let url = text::trim(raw);
    if url.len() == 0 {
        Err("URL cannot be empty"@)
    } else if text::has_space(url) {
        Err("URL cannot contain whitespace"@)
    } else if after_scheme(url) is None {
        Err("Only http:// and https:// URLs are allowed"@)
    } else if domains.len() == 0 {
        Err(
            "HTTP request tool is enabled but no allowed_domains are configured. Add [http_request].allowed_domains in config.toml"@,
        )
    } else {
        match host_of(url, lowered) {
            Err(e) => Err(e),
            Ok(h) => if !allow_private && host::private_or_local(h) {
                Err("Blocked local/private host: "@ + h)
            } else if !on_allowlist(h, domains) {
                Err("Host '"@ + h + "' is not in http_request.allowed_domains"@)
            } else {
                Ok(url)
            },
        }
    }
}

/// HTTP request tool for API interactions.
/// Supports GET, POST, PUT, DELETE methods with configurable security.
pub struct HttpRequestTool<S> {
    security: S,
    allowed_domains: Vec<String>,
    max_response_size: usize,
    timeout_secs: u64,
    allow_private_hosts: bool,
}

/// The headers among `members`: those whose value is a text.
pub open spec fn text_members(members: Seq<(Seq<char>, json::JsonView)>) -> Seq<
    (Seq<char>, Seq<char>),
>
    decreases members.len(),
{
    if members.len() == 0 {
        Seq::<(Seq<char>, Seq<char>)>::empty()
    } else {
        let before = text_members(members.drop_last());
        match members.last().1.text() {
            Some(t) => before.push((members.last().0, t)),
            None => before,
        }
    }
}

/// The headers that a JSON value names.
pub open spec fn headers_of(j: json::JsonView) -> Seq<(Seq<char>, Seq<char>)> {
    match j {
        json::JsonView::Object(members) => text_members(members),
        _ => Seq::<(Seq<char>, Seq<char>)>::empty(),
    }
}

/// The views of a list of headers.
pub open spec fn header_views(headers: Seq<(String, String)>) -> Seq<(Seq<char>, Seq<char>)> {
    headers.map_values(|h: (String, String)| (h.0@, h.1@))
}

/// A header name, in lower case, that carries a credential.
pub open spec fn is_sensitive(lowered: Seq<char>) -> bool {
    ||| text::contains(lowered, "authorization"@)
    ||| text::contains(lowered, "api-key"@)
    ||| text::contains(lowered, "apikey"@)
    ||| text::contains(lowered, "token"@)
    ||| text::contains(lowered, "secret"@)
}

/// Whether a header name, in lower case, carries a credential.
pub fn is_sensitive_header(lowered: &str) -> (r: bool)
    ensures
        r == is_sensitive(lowered@),
{
    text::contains_text(lowered, "authorization") || text::contains_text(lowered, "api-key")
        || text::contains_text(lowered, "apikey") || text::contains_text(lowered, "token")
        || text::contains_text(lowered, "secret")
}

/// A header as it is shown: the value of a credential is left out.
/// `lowered` is its name in lower case.
pub open spec fn redacted_as(header: (Seq<char>, Seq<char>), lowered: Seq<char>) -> (
    Seq<char>,
    Seq<char>,
) {
    if is_sensitive(lowered) {
        (header.0, "***REDACTED***"@)
    } else {
        header
    }
}

/// A header as it is shown.
pub open spec fn redacted(header: (Seq<char>, Seq<char>)) -> (Seq<char>, Seq<char>) {
    redacted_as(header, text::unicode_lower(header.0))
}

/// A response body cut to the limit: where it is longer in bytes, as many
/// characters and a note. A limit of zero means no limit.
pub open spec fn truncated(limit: int, body: Seq<char>) -> Seq<char> {
    if limit == 0 || text::byte_len(body) <= limit {
        body
    } else {
        body.take(if limit < body.len() { limit } else { body.len() as int })
            + "\n\n... [Response truncated due to size limit] ..."@
    }
}

impl<S> HttpRequestTool<S> {
    /// The domains that requests may go to.
    pub closed spec fn domains(&self) -> Seq<Seq<char>> {
        text::views(self.allowed_domains@)
    }

    /// Requests may go to local and private hosts.
    pub closed spec fn private_allowed(&self) -> bool {
        self.allow_private_hosts
    }

    /// The largest response body in bytes; zero means no limit.
    pub closed spec fn size_limit(&self) -> int {
        self.max_response_size as int
    }

    /// The time that a request may take, as configured.
    pub closed spec fn time_limit(&self) -> u64 {
        self.timeout_secs
    }

    /// The security policy.
    pub closed spec fn policy(&self) -> S {
        self.security
    }

    pub fn new(
        security: S,
        allowed_domains: Vec<String>,
        max_response_size: usize,
        timeout_secs: u64,
        allow_private_hosts: bool,
    ) -> (r: Self)
        ensures
            r.policy() == security,
            ascending(r.domains()),
            forall|d: Seq<char>| #[trigger]
                r.domains().contains(d) <==> names_domain(allowed_domains@, d),
            ascii_entries(allowed_domains@) ==> forall|d: Seq<char>| #[trigger]
                r.domains().contains(d) <==> names_ascii_domain(allowed_domains@, d),
            r.size_limit() == max_response_size,
            r.time_limit() == timeout_secs,
            r.private_allowed() == allow_private_hosts,
    {
        HttpRequestTool {
            security,
            allowed_domains: normalize_allowed_domains(allowed_domains),
            max_response_size,
            timeout_secs,
            allow_private_hosts,
        }
    }

    /// The security policy.
    pub fn security(&self) -> (r: &S)
        ensures
            *r == self.policy(),
    {
        &self.security
    }

    /// Decides over a URL, given the text of its host in lower case.
    pub fn judge_url(&self, raw_url: &str, lowered: &str) -> (r: Result<String, String>)
        ensures
            text::view_result(r) == url_verdict(
                self.domains(),
                self.private_allowed(),
                raw_url@,
                lowered@,
            ),
    {
        let url = text::trimmed(raw_url);
        if url.unicode_len() == 0 {
            return Err("URL cannot be empty".to_string());
        }
        if text::contains_whitespace(url) {
            return Err("URL cannot contain whitespace".to_string());
        }
        if !text::starts_with(url, "http://") && !text::starts_with(url, "https://") {
            return Err("Only http:// and https:// URLs are allowed".to_string());
        }
        if self.allowed_domains.len() == 0 {
            return Err(
                "HTTP request tool is enabled but no allowed_domains are configured. Add [http_request].allowed_domains in config.toml".to_string(),
            );
        }
        match read_host(url) {
            Err(e) => {
                return Err(e.to_string());
            },
            Ok(_) => {},
        }
        if lowered.unicode_len() == 0 {
            return Err("URL must include a valid host".to_string());
        }
        if !self.allow_private_hosts && host::is_private_or_local_host(lowered) {
            return Err(text::cat2("Blocked local/private host: ", lowered));
        }
        if !host_matches_allowlist(lowered, self.allowed_domains.as_slice()) {
            return Err(text::cat3("Host '", lowered, "' is not in http_request.allowed_domains"));
        }
        Ok(url.to_string())
    }

    /// The trimmed URL where a request to it may be sent, or why it may not.
    pub fn validate_url(&self, raw_url: &str) -> (r: Result<String, String>)
        ensures
            text::view_result(r) == url_verdict(
                self.domains(),
                self.private_allowed(),
                raw_url@,
                text::unicode_lower(host_text(text::trim(raw_url@))),
            ),
            text::all_ascii(host_text(text::trim(raw_url@))) ==> text::view_result(r)
                == url_verdict(
                self.domains(),
                self.private_allowed(),
                raw_url@,
                text::ascii_lowered(host_text(text::trim(raw_url@))),
            ),
    {
        let lowered = lowered_host(raw_url);
        self.judge_url(raw_url, lowered.as_str())
    }

    /// The method that a name stands for, given the name in capitals.
    pub fn judge_method(&self, method: &str, upper: &str) -> (r: Result<HttpMethod, String>)
        ensures
            method_view(r) == method_verdict(method@, upper@),
    {
        match method_from_upper(upper) {
            Some(m) => Ok(m),
            None => Err(
                text::cat3(
                    "Unsupported HTTP method: ",
                    method,
                    ". Supported: GET, POST, PUT, DELETE, PATCH, HEAD, OPTIONS",
                ),
            ),
        }
    }

    /// The method that a name stands for, in any case of its letters.
    pub fn validate_method(&self, method: &str) -> (r: Result<HttpMethod, String>)
        ensures
            method_view(r) == method_verdict(method@, text::unicode_upper(method@)),
            text::all_ascii(method@) ==> method_view(r) == method_verdict(
                method@,
                text::ascii_uppered(method@),
            ),
    {
        let upper = method.to_uppercase();
        self.judge_method(method, upper.as_str())
    }

    /// The headers that a JSON value names: the members of an object whose
    /// value is a text.
    pub fn parse_headers(&self, headers: &Json) -> (r: Vec<(String, String)>)
        ensures
            header_views(r@) == headers_of(headers@),
    {
        let mut result: Vec<(String, String)> = Vec::new();
        match headers {
            Json::Object(members) => {
                let ghost all = json::member_views(members@);
                proof {
                    json::lemma_object_view(*members);
                    assert(header_views(result@) =~= text_members(all.take(0)));
                }
                for k in 0..members.len()
                    invariant
                        all == json::member_views(members@),
                        header_views(result@) == text_members(all.take(k as int)),
                {
                    let ghost before = header_views(result@);
                    proof {
                        assert(all.take(k + 1).drop_last() =~= all.take(k as int));
                        assert(all.take(k + 1).last() == all[k as int]);
                    }
                    match members[k].1.as_text() {
                        Some(t) => {
                            let entry = (members[k].0.clone(), t.to_string());
                            result.push(entry);
                            proof {
                                assert(header_views(result@) =~= before.push(
                                    (entry.0@, entry.1@),
                                ));
                            }
                        },
                        None => {},
                    }
                }
                proof {
                    assert(all.take(all.len() as int) =~= all);
                }
            },
            _ => {
                proof {
                    assert(header_views(result@) =~= headers_of(headers@));
                }
            },
        }
        result
    }

    /// The headers as they may be shown.
    pub fn redact_headers_for_display(headers: &[(String, String)]) -> (r: Vec<(String, String)>)
        ensures
            header_views(r@) == header_views(headers@).map_values(
                |h: (Seq<char>, Seq<char>)| redacted(h),
            ),
            (forall|k: int|
                0 <= k < headers@.len() ==> text::all_ascii((#[trigger] headers@[k]).0@))
                ==> header_views(r@) == header_views(headers@).map_values(
                |h: (Seq<char>, Seq<char>)| redacted_as(h, text::ascii_lowered(h.0)),
            ),
    {
        let mut r: Vec<(String, String)> = Vec::new();
        for k in 0..headers.len()
            invariant
                r@.len() == k,
                forall|m: int|
                    0 <= m < k ==> ((#[trigger] r@[m]).0@, r@[m].1@) == redacted(
                        (headers@[m].0@, headers@[m].1@),
                    ),
                forall|m: int|
                    0 <= m < k && text::all_ascii(headers@[m].0@) ==> (
                    (#[trigger] r@[m]).0@,
                    r@[m].1@,
                    ) == redacted_as(
                        (headers@[m].0@, headers@[m].1@),
                        text::ascii_lowered(headers@[m].0@),
                    ),
        {
            let lowered = headers[k].0.as_str().to_lowercase();
            let value = if is_sensitive_header(lowered.as_str()) {
                "***REDACTED***".to_string()
            } else {
                headers[k].1.clone()
            };
            r.push((headers[k].0.clone(), value));
        }
        proof {
            assert(header_views(r@) =~= header_views(headers@).map_values(
                |h: (Seq<char>, Seq<char>)| redacted(h),
            ));
            if forall|k: int|
                0 <= k < headers@.len() ==> text::all_ascii((#[trigger] headers@[k]).0@) {
                assert(header_views(r@) =~= header_views(headers@).map_values(
                    |h: (Seq<char>, Seq<char>)| redacted_as(h, text::ascii_lowered(h.0)),
                ));
            }
        }
        r
    }

    /// A response body cut to the size limit.
    pub fn truncate_response(&self, body: &str) -> (r: String)
        ensures
            r@ == truncated(self.size_limit(), body@),
    {
        // 0 means unlimited — no truncation.
        if self.max_response_size == 0 {
            return body.to_string();
        }
        if text::byte_length(body) > self.max_response_size {
            let n: usize = body.unicode_len();
            let kept: usize = if self.max_response_size < n {
                self.max_response_size
            } else {
                n
            };
            let head = text::slice(body, 0, kept);
            proof {
                assert(head@ =~= body@.take(kept as int));
            }
            text::cat2(head, "\n\n... [Response truncated due to size limit] ...")
        } else {
            body.to_string()
        }
    }
}

// ---------------------------------------------------------------------------
// One request, from its arguments to its result
// ---------------------------------------------------------------------------

/// The arguments of a request.
pub struct HttpArgs {
    pub url: String,
    pub method: String,
    pub headers: Json,
    pub body: Option<String>,
}

/// A request that may be sent. Redirects are not followed, and connecting may
/// take [`CONNECT_TIMEOUT_SECS`].
pub struct HttpRequest {
    pub url: String,
    pub method: HttpMethod,
    pub headers: Vec<(String, String)>,
    pub body: Option<String>,
    pub timeout_secs: u64,
}

/// The time that connecting may take.
pub const CONNECT_TIMEOUT_SECS: u64 = 10;

/// What is to be done with a request.
pub enum HttpStep {
    /// It is answered without being sent.
    Reply(ToolResult),
    /// It is sent.
    Send(HttpRequest),
}

/// What came of reading a response body.
pub enum BodyRead {
    Text(String),
    /// It could not be read: the error and the chain of its causes.
    Failed { error: String, chain: String },
}

/// An error and its causes, from the outermost on, in one text.
pub fn error_chain(parts: &Vec<String>) -> (r: String)
    ensures
        r@ == text::join(text::views(parts@), " | caused by: "@),
{
    text::joined(parts, " | caused by: ")
}

/// The arguments that a JSON value holds. The method is `GET` and the headers
/// are empty where none are given.
pub fn read_args(args: &Json) -> (r: Result<HttpArgs, String>)
    ensures
        match r {
            Ok(a) => {
                &&& args@.text_at("url"@) == Some(a.url@)
                &&& a.method@ == match args@.text_at("method"@) {
                    Some(m) => m,
                    None => "GET"@,
                }
                &&& a.headers@ == match args@.get("headers"@) {
                    Some(h) => h,
                    None => json::JsonView::Object(Seq::<(Seq<char>, json::JsonView)>::empty()),
                }
                &&& text::view_opt_string(a.body) == args@.text_at("body"@)
            },
            Err(e) => args@.text_at("url"@) is None && e@ == "Missing 'url' parameter"@,
        },
{
    let url = match args.text_at("url") {
        Some(u) => u.to_string(),
        None => {
            return Err("Missing 'url' parameter".to_string());
        },
    };
    let method = match args.text_at("method") {
        Some(m) => m.to_string(),
        None => "GET".to_string(),
    };
    let headers = match args.get("headers") {
        Some(h) => h.copied(),
        None => json::object0(),
    };
    let body = match args.text_at("body") {
        Some(b) => Some(b.to_string()),
        None => None,
    };
    Ok(HttpArgs { url, method, headers, body })
}

/// A status of a successful response.
pub open spec fn is_success_status(status: u16) -> bool {
    200 <= status <= 299
}

/// A status that blames the client or the server.
pub open spec fn is_error_status(status: u16) -> bool {
    400 <= status <= 599
}

/// One response header as it is shown; a cookie is left out. `lowered` is its
/// name in lower case, `shown` in debug form.
pub open spec fn header_line_as(
    name: Seq<char>,
    lowered: Seq<char>,
    shown: Seq<char>,
) -> Seq<char> {
    if text::contains(lowered, "set-cookie"@) {
        name + ": ***REDACTED***"@
    } else {
        name + ": "@ + shown
    }
}

/// One response header as it is shown.
pub open spec fn header_line(name: Seq<char>) -> Seq<char> {
    header_line_as(name, text::unicode_lower(name), text::debug_form(name))
}

/// One response header with a name of plain characters as it is shown.
pub open spec fn plain_header_line(name: Seq<char>) -> Seq<char> {
    header_line_as(name, text::ascii_lowered(name), seq!['"'] + name + seq!['"'])
}

/// A name of plain characters.
pub open spec fn is_plain_name(name: Seq<char>) -> bool {
    forall|i: int| 0 <= i < name.len() ==> text::is_plain(#[trigger] name[i])
}

/// A response body as it is shown.
pub open spec fn shown_body(limit: int, body: BodyRead) -> Seq<char> {
    match body {
        BodyRead::Text(t) => truncated(limit, t@),
        BodyRead::Failed { error, chain } => "[Failed to read response body: "@ + error@
            + " (chain: "@ + chain@ + ")]"@,
    }
}

/// The result that a response is turned into; `lines` are its headers as they
/// are shown.
pub open spec fn response_result(
    limit: int,
    status: u16,
    reason: Option<Seq<char>>,
    lines: Seq<Seq<char>>,
    body: BodyRead,
) -> traits::ToolResultView {
    let why = match reason {
        Some(w) => w,
        None => "Unknown"@,
    };
    traits::ToolResultView {
        success: is_success_status(status),
        output: "Status: "@ + text::decimal(status as nat) + " "@ + why + "\nResponse Headers: "@
            + text::join(lines, ", "@) + "\n\nResponse Body:\n"@ + shown_body(
            limit,
            body,
        ),
        error: if is_error_status(status) {
            Some("HTTP "@ + text::decimal(status as nat))
        } else {
            None
        },
    }
}

/// The result of a request that could not be sent.
pub open spec fn unsent_result(phase: Seq<char>, error: Seq<char>, chain: Seq<char>) -> Seq<char> {
    let message = phase + ": "@ + error + " (chain: "@ + chain + ")"@;
    "HTTP request failed: "@ + message + " (chain: "@ + message + ")"@
}

/// The result of a request that could not be sent: `phase` failed with `error`.
pub fn unsent(phase: &str, error: &str, chain: &str) -> (r: ToolResult)
    ensures
        r@ == traits::failure(unsent_result(phase@, error@, chain@)),
{
    let mut message = text::cat5(phase, ": ", error, " (chain: ", chain);
    message.append(")");
    ToolResult::failed(
        text::cat5(
            "HTTP request failed: ",
            message.as_str(),
            " (chain: ",
            message.as_str(),
            ")",
        ),
    )
}

/// Whether the status is that of a successful response.
pub fn succeeded(status: u16) -> (r: bool)
    ensures
        r == is_success_status(status),
{
    200 <= status && status <= 299
}

/// One response header as it is shown, given its name in lower case and in debug
/// form.
pub fn show_header(name: &str, lowered: &str, shown: &str) -> (r: String)
    ensures
        r@ == header_line_as(name@, lowered@, shown@),
{
    if text::contains_text(lowered, "set-cookie") {
        text::cat2(name, ": ***REDACTED***")
    } else {
        text::cat3(name, ": ", shown)
    }
}

fn shown_header(name: &str) -> (r: String)
    ensures
        r@ == header_line(name@),
        is_plain_name(name@) ==> r@ == plain_header_line(name@),
{
    let lowered = name.to_lowercase();
    let shown = text::debug_text(name);
    proof {
        if is_plain_name(name@) {
            assert(text::all_ascii(name@));
        }
    }
    show_header(name, lowered.as_str(), shown.as_str())
}

impl<S> HttpRequestTool<S> {
    pub fn name(&self) -> (r: &'static str)
        ensures
            r@ == "http_request"@,
    {
        "http_request"
    }

    pub fn description(&self) -> (r: &'static str)
        ensures
            r@ == "Make HTTP requests to external APIs. Supports GET, POST, PUT, DELETE, PATCH, HEAD, OPTIONS methods. Security constraints: allowlist-only domains, no local/private hosts, configurable timeout and response size limits."@,
    {
        "Make HTTP requests to external APIs. Supports GET, POST, PUT, DELETE, PATCH, HEAD, OPTIONS methods. Security constraints: allowlist-only domains, no local/private hosts, configurable timeout and response size limits."
    }

    /// The time that a request may take: the configured one, or a safe default
    /// where that is zero.
    pub fn effective_timeout_secs(&self) -> (r: u64)
        ensures
            r == if self.time_limit() == 0 {
                30
            } else {
                self.time_limit()
            },
    {
        if self.timeout_secs == 0 {
            30
        } else {
            self.timeout_secs
        }
    }

    /// What becomes of a request, where `lowered` is the text of its host in
    /// lower case and `upper` its method in capitals: the policy comes first,
    /// then the URL, then the method.
    pub open spec fn prepares(
        &self,
        args: HttpArgs,
        can_act: bool,
        recorded: bool,
        lowered: Seq<char>,
        upper: Seq<char>,
        step: HttpStep,
    ) -> bool {
        let verdict = url_verdict(self.domains(), self.private_allowed(), args.url@, lowered);
        let method = method_verdict(args.method@, upper);
        if !can_act {
            step matches HttpStep::Reply(t) && t@ == traits::failure(
                "Action blocked: autonomy is read-only"@,
            )
        } else if !recorded {
            step matches HttpStep::Reply(t) && t@ == traits::failure(
                "Action blocked: rate limit exceeded"@,
            )
        } else {
            match (verdict, method) {
                (Err(e), _) => step matches HttpStep::Reply(t) && t@ == traits::failure(e),
                (Ok(_), Err(e)) => step matches HttpStep::Reply(t) && t@ == traits::failure(e),
                (Ok(url), Ok(m)) => step matches HttpStep::Send(q) && q.url@ == url && q.method == m
                    && header_views(q.headers@) == headers_of(args.headers@)
                    && text::view_opt_string(q.body) == text::view_opt_string(args.body)
                    && q.timeout_secs == (if self.time_limit() == 0 {
                    30
                } else {
                    self.time_limit()
                }),
            }
        }
    }

    /// Decides over a request, given the text of its host in lower case and its
    /// method in capitals.
    pub fn prepare_given(
        &self,
        args: &HttpArgs,
        can_act: bool,
        recorded: bool,
        lowered: &str,
        upper: &str,
    ) -> (r: HttpStep)
        ensures
            self.prepares(*args, can_act, recorded, lowered@, upper@, r),
    {
        if !can_act {
            return HttpStep::Reply(
                ToolResult::failed("Action blocked: autonomy is read-only".to_string()),
            );
        }
        if !recorded {
            return HttpStep::Reply(
                ToolResult::failed("Action blocked: rate limit exceeded".to_string()),
            );
        }
        let url = match self.judge_url(args.url.as_str(), lowered) {
            Ok(u) => u,
            Err(e) => {
                return HttpStep::Reply(ToolResult::failed(e));
            },
        };
        let method = match self.judge_method(args.method.as_str(), upper) {
            Ok(m) => m,
            Err(e) => {
                return HttpStep::Reply(ToolResult::failed(e));
            },
        };
        let headers = self.parse_headers(&args.headers);
        let body = match &args.body {
            Some(b) => Some(b.clone()),
            None => None,
        };
        HttpStep::Send(
            HttpRequest { url, method, headers, body, timeout_secs: self.effective_timeout_secs() },
        )
    }

    /// Whether the policy is asked to count a request as an action: wherever it
    /// lets the agent act, before the URL and the method are looked at. A request
    /// of an agent that may only read is not counted.
    pub fn is_charged(&self, can_act: bool) -> (r: bool)
        ensures
            r == can_act,
    {
        can_act
    }

    /// Decides over a request. `can_act` says whether the policy lets the agent
    /// act, `recorded` whether it counted this action within its limit.
    pub fn prepare(&self, args: &HttpArgs, can_act: bool, recorded: bool) -> (r: HttpStep)
        ensures
            self.prepares(
                *args,
                can_act,
                recorded,
                text::unicode_lower(host_text(text::trim(args.url@))),
                text::unicode_upper(args.method@),
                r,
            ),
            text::all_ascii(host_text(text::trim(args.url@))) && text::all_ascii(args.method@)
                ==> self.prepares(
                *args,
                can_act,
                recorded,
                text::ascii_lowered(host_text(text::trim(args.url@))),
                text::ascii_uppered(args.method@),
                r,
            ),
    {
        let lowered = lowered_host(args.url.as_str());
        let upper = args.method.as_str().to_uppercase();
        self.prepare_given(args, can_act, recorded, lowered.as_str(), upper.as_str())
    }

    /// Turns a response into a tool result, given its headers as they are shown.
    pub fn respond(
        &self,
        status: u16,
        reason: Option<&str>,
        lines: &Vec<String>,
        body: &BodyRead,
    ) -> (r: ToolResult)
        ensures
            r@ == response_result(
                self.size_limit(),
                status,
                text::view_opt(reason),
                text::views(lines@),
                *body,
            ),
    {
        let headers_text = text::joined(lines, ", ");
        let shown = match body {
            BodyRead::Text(t) => self.truncate_response(t.as_str()),
            BodyRead::Failed { error, chain } => text::cat5(
                "[Failed to read response body: ",
                error.as_str(),
                " (chain: ",
                chain.as_str(),
                ")]",
            ),
        };
        let code = text::decimal_of(status as u64);
        let why = match reason {
            Some(w) => w,
            None => "Unknown",
        };
        let mut output = text::cat5("Status: ", code.as_str(), " ", why, "\nResponse Headers: ");
        output.append(headers_text.as_str());
        output.append("\n\nResponse Body:\n");
        output.append(shown.as_str());
        let error = if 400 <= status && status <= 599 {
            Some(text::cat2("HTTP ", code.as_str()))
        } else {
            None
        };
        ToolResult { success: succeeded(status), output, error }
    }

    /// Turns a response into a tool result: its status, the names of its
    /// headers and its body.
    pub fn finish(
        &self,
        status: u16,
        reason: Option<&str>,
        header_names: &Vec<String>,
        body: &BodyRead,
    ) -> (r: ToolResult)
        ensures
            r@ == response_result(
                self.size_limit(),
                status,
                text::view_opt(reason),
                text::views(header_names@).map_values(|n: Seq<char>| header_line(n)),
                *body,
            ),
            (forall|k: int|
                0 <= k < header_names@.len() ==> is_plain_name((#[trigger] header_names@[k])@))
                ==> r@ == response_result(
                self.size_limit(),
                status,
                text::view_opt(reason),
                text::views(header_names@).map_values(|n: Seq<char>| plain_header_line(n)),
                *body,
            ),
    {
        let mut lines: Vec<String> = Vec::new();
        for k in 0..header_names.len()
            invariant
                lines@.len() == k,
                forall|m: int|
                    0 <= m < k ==> (#[trigger] lines@[m])@ == header_line(header_names@[m]@),
                forall|m: int|
                    0 <= m < k && is_plain_name(header_names@[m]@) ==> (#[trigger] lines@[m])@
                        == plain_header_line(header_names@[m]@),
        {
            lines.push(shown_header(header_names[k].as_str()));
        }
        proof {
            let names = text::views(header_names@);
            assert(text::views(lines@) =~= names.map_values(|n: Seq<char>| header_line(n)));
            if forall|k: int|
                0 <= k < header_names@.len() ==> is_plain_name((#[trigger] header_names@[k])@) {
                assert(text::views(lines@) =~= names.map_values(
                    |n: Seq<char>| plain_header_line(n),
                ));
            }
        }
        self.respond(status, reason, &lines, body)
    }

    /// The JSON schema of the arguments.
    pub fn parameters_schema(&self) -> (r: Json)
        ensures
            r@ == schema(),
    {
        let url = json::object2(
            "type",
            json::string("string"),
            "description",
            json::string("HTTP or HTTPS URL to request"),
        );
        let method = json::object3(
            "type",
            json::string("string"),
            "description",
            json::string("HTTP method (GET, POST, PUT, DELETE, PATCH, HEAD, OPTIONS)"),
            "default",
            json::string("GET"),
        );
        let headers = json::object3(
            "type",
            json::string("object"),
            "description",
            json::string(
                "Optional HTTP headers as key-value pairs (e.g., {\"Authorization\": \"Bearer token\", \"Content-Type\": \"application/json\"})",
            ),
            "default",
            json::object0(),
        );
        let body = json::object2(
            "type",
            json::string("string"),
            "description",
            json::string("Optional request body (for POST, PUT, PATCH requests)"),
        );
        json::object3(
            "type",
            json::string("object"),
            "properties",
            json::object4("url", url, "method", method, "headers", headers, "body", body),
            "required",
            json::array1(json::string("url")),
        )
    }
}

/// The JSON schema of the arguments.
pub open spec fn schema() -> json::JsonView {
    let string = json::JsonView::Text("string"@);
    let object = json::JsonView::Text("object"@);
    let url = json::JsonView::Object(
        seq![
            ("type"@, string),
            ("description"@, json::JsonView::Text("HTTP or HTTPS URL to request"@)),
        ],
    );
    let method = json::JsonView::Object(
        seq![
            ("type"@, string),
            (
                "description"@,
                json::JsonView::Text(
                    "HTTP method (GET, POST, PUT, DELETE, PATCH, HEAD, OPTIONS)"@,
                ),
            ),
            ("default"@, json::JsonView::Text("GET"@)),
        ],
    );
    let headers = json::JsonView::Object(
        seq![
            ("type"@, object),
            (
                "description"@,
                json::JsonView::Text(
                    "Optional HTTP headers as key-value pairs (e.g., {\"Authorization\": \"Bearer token\", \"Content-Type\": \"application/json\"})"@,
                ),
            ),
            ("default"@, json::JsonView::Object(Seq::<(Seq<char>, json::JsonView)>::empty())),
        ],
    );
    let body = json::JsonView::Object(
        seq![
            ("type"@, string),
            (
                "description"@,
                json::JsonView::Text("Optional request body (for POST, PUT, PATCH requests)"@),
            ),
        ],
    );
    json::JsonView::Object(
        seq![
            ("type"@, object),
            (
                "properties"@,
                json::JsonView::Object(
                    seq![
                        ("url"@, url),
                        ("method"@, method),
                        ("headers"@, headers),
                        ("body"@, body),
                    ],
                ),
            ),
            ("required"@, json::JsonView::Array(seq![json::JsonView::Text("url"@)])),
        ],
    )
}

// ---------------------------------------------------------------------------
// Laws
// ---------------------------------------------------------------------------

/// A URL that is accepted leads to a host on the allowlist, with `http` or
/// `https`, and is returned unchanged but for white space around it. It leads
/// to a local or private host only where that is allowed.
pub proof fn law_accepted_url_is_allowed(
    domains: Seq<Seq<char>>,
    allow_private: bool,
    raw: Seq<char>,
    lowered: Seq<char>,
)
    requires
        url_verdict(domains, allow_private, raw, lowered) is Ok,
    ensures
        url_verdict(domains, allow_private, raw, lowered) == Result::<Seq<char>, Seq<char>>::Ok(
            text::trim(raw),
        ),
        host_of(text::trim(raw), lowered) == Result::<Seq<char>, Seq<char>>::Ok(lowered),
        on_allowlist(lowered, domains),
        after_scheme(text::trim(raw)) is Some,
        !allow_private ==> !host::private_or_local(lowered),
{
}

/// Allowing private hosts opens no host that is not on the allowlist.
pub proof fn law_private_hosts_still_need_the_allowlist(
    domains: Seq<Seq<char>>,
    allow_private: bool,
    raw: Seq<char>,
    lowered: Seq<char>,
)
    requires
        !on_allowlist(lowered, domains),
    ensures
        url_verdict(domains, allow_private, raw, lowered) is Err,
{
}

/// Showing headers keeps their names, and shows no value of a sensitive one.
pub proof fn law_redaction_hides_credentials(header: (Seq<char>, Seq<char>))
    ensures
        redacted(header).0 == header.0,
        is_sensitive(text::unicode_lower(header.0)) ==> redacted(header).1 == "***REDACTED***"@,
        redacted(redacted(header)) == redacted(header),
{
}

/// A truncated body is a prefix of the body with a note behind it.
pub proof fn law_truncation_keeps_a_prefix(limit: int, body: Seq<char>)
    requires
        limit >= 0,
    ensures
        truncated(limit, body) == body || exists|k: int|
            0 <= k <= limit && k <= body.len() && truncated(limit, body) == #[trigger] body.take(k)
                + "\n\n... [Response truncated due to size limit] ..."@,
{
    let k = if limit < body.len() {
        limit
    } else {
        body.len() as int
    };
    assert(0 <= k <= limit);
    if truncated(limit, body) != body {
        assert(truncated(limit, body) == body.take(k)
            + "\n\n... [Response truncated due to size limit] ..."@);
    }
}

/// Each of the seven methods is what its own name in capitals gives, and nothing
/// else gives it. So two names never mean the same method, and any other name
/// means none.
pub proof fn law_methods_go_by_their_names(upper: Seq<char>, other: Seq<char>)
    ensures
        method_named(upper) == Some(HttpMethod::Get) <==> upper == "GET"@,
        method_named(upper) == Some(HttpMethod::Post) <==> upper == "POST"@,
        method_named(upper) == Some(HttpMethod::Put) <==> upper == "PUT"@,
        method_named(upper) == Some(HttpMethod::Delete) <==> upper == "DELETE"@,
        method_named(upper) == Some(HttpMethod::Patch) <==> upper == "PATCH"@,
        method_named(upper) == Some(HttpMethod::Head) <==> upper == "HEAD"@,
        method_named(upper) == Some(HttpMethod::Options) <==> upper == "OPTIONS"@,
        method_named(upper) is Some && method_named(upper) == method_named(other) ==> upper
            == other,
{
    reveal_strlit("GET");
    reveal_strlit("POST");
    reveal_strlit("PUT");
    reveal_strlit("DELETE");
    reveal_strlit("PATCH");
    reveal_strlit("HEAD");
    reveal_strlit("OPTIONS");
    assert("GET"@.len() == 3 && "GET"@[0] == 'G');
    assert("PUT"@.len() == 3 && "PUT"@[0] == 'P');
    assert("POST"@.len() == 4 && "POST"@[0] == 'P');
    assert("HEAD"@.len() == 4 && "HEAD"@[0] == 'H');
    assert("PATCH"@.len() == 5);
    assert("DELETE"@.len() == 6);
    assert("OPTIONS"@.len() == 7);
}

/// A method is accepted exactly where its text in capitals names one, as that
/// one; what is said of any other holds the method as it was given.
pub proof fn law_a_refused_method_is_named(method: Seq<char>, upper: Seq<char>)
    ensures
        match method_verdict(method, upper) {
            Ok(m) => method_named(upper) == Some(m),
            Err(e) => method_named(upper) is None && text::contains(e, method),
        },
{
    text::lemma_contains_self(method);
    text::lemma_contains_within(
        "Unsupported HTTP method: "@,
        method,
        ". Supported: GET, POST, PUT, DELETE, PATCH, HEAD, OPTIONS"@,
        method,
    );
}

/// A host lies under a domain exactly where it is the domain, or something, a
/// dot and the domain.
pub proof fn law_subdomains_have_a_dot_before_the_domain(host: Seq<char>, d: Seq<char>)
    ensures
        under_domain(host, d) <==> host == d || exists|x: Seq<char>| #[trigger]
            (x + seq!['.'] + d) == host,
{
    if under_domain(host, d) && host != d {
        let x = host.take(host.len() - d.len() - 1);
        assert(x + seq!['.'] + d =~= host) by {
            assert(host.skip(host.len() - d.len()) == d);
            assert forall|k: int| 0 <= k < host.len() implies #[trigger] (x + seq!['.'] + d)[k]
                == host[k] by {
                if k >= host.len() - d.len() {
                    assert(host.skip(host.len() - d.len())[k - (host.len() - d.len())] == host[k]);
                }
            }
        }
    }
    if exists|x: Seq<char>| #[trigger] (x + seq!['.'] + d) == host {
        let x = choose|x: Seq<char>| #[trigger] (x + seq!['.'] + d) == host;
        assert(host.skip(host.len() - d.len()) =~= d);
        assert(host[host.len() - d.len() - 1] == '.');
    }
}

/// A host is on the allowlist exactly where the list holds the wildcard, the
/// host itself, or a domain that the host lies under.
pub proof fn law_allowlist_names_the_host_or_a_domain_above(
    host: Seq<char>,
    domains: Seq<Seq<char>>,
)
    ensures
        on_allowlist(host, domains) <==> exists|k: int|
            0 <= k < domains.len() && ((#[trigger] domains[k]) == seq!['*'] || domains[k] == host
                || exists|x: Seq<char>| #[trigger] (x + seq!['.'] + domains[k]) == host),
        !on_allowlist(host, Seq::<Seq<char>>::empty()),
{
    reveal_strlit("*");
    assert("*"@ =~= seq!['*']);
    if on_allowlist(host, domains) {
        if domains.contains("*"@) {
            let k = choose|k: int| 0 <= k < domains.len() && domains[k] == "*"@;
            assert(domains[k] == seq!['*']);
        } else {
            let k = choose|k: int|
                0 <= k < domains.len() && under_domain(host, #[trigger] domains[k]);
            law_subdomains_have_a_dot_before_the_domain(host, domains[k]);
            assert(domains[k] == host || exists|x: Seq<char>| #[trigger]
                (x + seq!['.'] + domains[k]) == host);
        }
    }
    if exists|k: int|
        0 <= k < domains.len() && ((#[trigger] domains[k]) == seq!['*'] || domains[k] == host
            || exists|x: Seq<char>| #[trigger] (x + seq!['.'] + domains[k]) == host) {
        let k = choose|k: int|
            0 <= k < domains.len() && ((#[trigger] domains[k]) == seq!['*'] || domains[k] == host
                || exists|x: Seq<char>| #[trigger] (x + seq!['.'] + domains[k]) == host);
        law_subdomains_have_a_dot_before_the_domain(host, domains[k]);
        if domains[k] == seq!['*'] {
            assert(domains.contains("*"@));
        } else {
            assert(under_domain(host, domains[k]));
        }
    }
}

/// The characters of `s` can stand in a host: none of them ends it, is white
/// space, or opens user information.
pub open spec fn is_host_text(s: Seq<char>) -> bool {
    &&& s.len() > 0
    &&& s[0] != '['
    &&& s.last() != '.'
    &&& forall|i: int|
        0 <= i < s.len() ==> #[trigger] s[i] != '/' && s[i] != '?' && s[i] != '#' && s[i] != ':'
            && s[i] != '@' && !text::is_space(s[i])
}

/// A port as it stands behind a host: nothing, or a colon and characters that
/// neither end the host nor open user information.
pub open spec fn is_port_text(s: Seq<char>) -> bool {
    s.len() > 0 ==> {
        &&& s[0] == ':'
        &&& forall|i: int|
            0 <= i < s.len() ==> #[trigger] s[i] != '/' && s[i] != '?' && s[i] != '#' && s[i] != '@'
    }
}

/// What follows the host and the port: nothing, or a path, a query or a
/// fragment.
pub open spec fn is_path_text(s: Seq<char>) -> bool {
    s.len() > 0 ==> s[0] == '/' || s[0] == '?' || s[0] == '#'
}

/// The host of a URL stands between its scheme and its port or path, whatever
/// these are.
pub proof fn law_host_stands_behind_the_scheme(
    secure: bool,
    host: Seq<char>,
    port: Seq<char>,
    path: Seq<char>,
)
    requires
        is_host_text(host),
        is_port_text(port),
        is_path_text(path),
    ensures
        written_host(
            (if secure {
                "https://"@
            } else {
                "http://"@
            }) + host + port + path,
        ) == Result::<Seq<char>, Seq<char>>::Ok(host),
{
    let scheme = if secure {
        "https://"@
    } else {
        "http://"@
    };
    let rest = host + port + path;
    let url = scheme + host + port + path;
    assert(url =~= scheme + rest);
    lemma_after_scheme(secure, rest);
    reveal_strlit("/?#");
    reveal_strlit(":");
    reveal_strlit(".");
    let ends = "/?#"@;
    assert(ends.contains('/')) by {
        assert(ends[0] == '/');
    }
    assert(ends.contains('?')) by {
        assert(ends[1] == '?');
    }
    assert(ends.contains('#')) by {
        assert(ends[2] == '#');
    }
    let authority = host + port;
    assert forall|i: int| 0 <= i < authority.len() implies !ends.contains(
        #[trigger] authority[i],
    ) && authority[i] != '@' by {
        if i < host.len() {
            assert(authority[i] == host[i]);
        } else {
            assert(authority[i] == port[i - host.len()]);
        }
    }
    text::lemma_until(authority, path, ends);
    assert(text::until(rest, ends) == authority);
    assert(authority[0] == host[0]);
    assert(":"@.contains(':')) by {
        assert(":"@[0] == ':');
    }
    assert forall|i: int| 0 <= i < host.len() implies !":"@.contains(#[trigger] host[i]) by {}
    text::lemma_until(host, port, ":"@);
    assert(!text::is_space(host[0]) && !text::is_space(host[host.len() - 1]));
    text::lemma_nothing_to_trim(host);
    assert(!"."@.contains(host.last())) by {
        assert("."@.len() == 1 && "."@[0] == '.');
    }
}

proof fn lemma_after_scheme(secure: bool, rest: Seq<char>)
    ensures
        after_scheme(
            (if secure {
                "https://"@
            } else {
                "http://"@
            }) + rest,
        ) == Some(rest),
{
    let scheme = if secure {
        "https://"@
    } else {
        "http://"@
    };
    let url = scheme + rest;
    reveal_strlit("https://");
    reveal_strlit("http://");
    text::lemma_prefix(scheme, rest);
    assert(url.skip(scheme.len() as int) =~= rest);
    if secure {
        assert(url[4] == 's');
        assert("http://"@[4] == ':');
        assert(!text::has_prefix(url, "http://"@)) by {
            if text::has_prefix(url, "http://"@) {
                assert(url.take(7)[4] == url[4]);
            }
        }
    }
}

/// A URL with user information before its host is refused, whatever the host
/// is: what stands before an `@` is never taken for the host.
pub proof fn law_user_information_is_refused(
    secure: bool,
    user: Seq<char>,
    rest: Seq<char>,
    lowered: Seq<char>,
    domains: Seq<Seq<char>>,
    allow_private: bool,
)
    requires
        forall|i: int|
            0 <= i < user.len() ==> #[trigger] user[i] != '/' && user[i] != '?' && user[i] != '#',
    ensures
        written_host(
            (if secure {
                "https://"@
            } else {
                "http://"@
            }) + user + seq!['@'] + rest,
        ) is Err,
{
    let scheme = if secure {
        "https://"@
    } else {
        "http://"@
    };
    let after = user + seq!['@'] + rest;
    assert(scheme + user + seq!['@'] + rest =~= scheme + after);
    lemma_after_scheme(secure, after);
    reveal_strlit("/?#");
    let ends = "/?#"@;
    let authority = text::until(after, ends);
    text::lemma_find_any(after, ends);
    assert(after[user.len() as int] == '@');
    assert(!ends.contains('@'));
    assert forall|i: int| 0 <= i < user.len() implies !ends.contains(#[trigger] after[i]) by {
        assert(after[i] == user[i]);
    }
    match text::find_any(after, ends) {
        Some(k) => {
            assert(k > user.len());
            assert(after.take(k)[user.len() as int] == '@');
            assert(authority.contains('@'));
        },
        None => {
            assert(authority.contains('@'));
        },
    }
}

/// A URL of a scheme other than `http` and `https` is refused.
pub proof fn law_only_http_schemes_pass(
    domains: Seq<Seq<char>>,
    allow_private: bool,
    raw: Seq<char>,
    lowered: Seq<char>,
)
    requires
        url_verdict(domains, allow_private, raw, lowered) is Ok,
    ensures
        exists|rest: Seq<char>|
            text::trim(raw) == #[trigger] ("http://"@ + rest) || text::trim(raw) == "https://"@
                + rest,
        !text::has_space(text::trim(raw)),
        domains.len() > 0,
{
    let url = text::trim(raw);
    let rest = after_scheme(url)->0;
    if text::has_prefix(url, "http://"@) {
        assert("http://"@ + rest =~= url) by {
            lemma_split_at(url, "http://"@);
        }
    } else {
        lemma_split_at(url, "https://"@);
        assert("https://"@ + rest =~= url);
        let whole = "http://"@ + rest;
    }
}

proof fn lemma_split_at(s: Seq<char>, p: Seq<char>)
    requires
        text::has_prefix(s, p),
    ensures
        p + s.skip(p.len() as int) == s,
{
    assert forall|k: int| 0 <= k < s.len() implies #[trigger] (p + s.skip(p.len() as int))[k]
        == s[k] by {
        if k < p.len() {
            assert(s.take(p.len() as int)[k] == s[k]);
        }
    }
    assert(p + s.skip(p.len() as int) =~= s);
}

/// A URL with a host and a path is accepted exactly where the host is on the
/// allowlist and, unless private hosts are allowed, neither local nor private.
/// White space around the URL does not matter.
pub proof fn law_url_goes_by_its_host(
    domains: Seq<Seq<char>>,
    allow_private: bool,
    raw: Seq<char>,
    secure: bool,
    host: Seq<char>,
    port: Seq<char>,
    path: Seq<char>,
    lowered: Seq<char>,
)
    requires
        text::trim(raw) == (if secure {
            "https://"@
        } else {
            "http://"@
        }) + host + port + path,
        !text::has_space(text::trim(raw)),
        is_host_text(host),
        is_port_text(port),
        is_path_text(path),
        lowered.len() > 0,
        domains.len() > 0,
    ensures
        url_verdict(domains, allow_private, raw, lowered) is Ok <==> on_allowlist(lowered, domains)
            && (allow_private || !host::private_or_local(lowered)),
{
    law_host_stands_behind_the_scheme(secure, host, port, path);
    let scheme = if secure {
        "https://"@
    } else {
        "http://"@
    };
    assert(text::trim(raw) =~= scheme + (host + port + path));
    lemma_after_scheme(secure, host + port + path);
    reveal_strlit("https://");
    reveal_strlit("http://");
}

/// The headers of two objects with the members of one after those of the other
/// are the headers of the one and then those of the other; a single member is a
/// header with its key and value where the value is a text, and none otherwise.
pub proof fn law_headers_are_the_members_that_are_texts(
    a: Seq<(Seq<char>, json::JsonView)>,
    b: Seq<(Seq<char>, json::JsonView)>,
    name: Seq<char>,
    value: json::JsonView,
)
    ensures
        headers_of(json::JsonView::Object(a + b)) == headers_of(json::JsonView::Object(a))
            + headers_of(json::JsonView::Object(b)),
        headers_of(json::JsonView::Object(seq![(name, value)])) == match value {
            json::JsonView::Text(t) => seq![(name, t)],
            _ => seq![],
        },
        !(value is Object) ==> headers_of(value).len() == 0,
    decreases b.len(),
{
    let one = seq![(name, value)];
    assert(one.drop_last() =~= seq![]);
    assert(text_members(seq![]) =~= seq![]);
    assert(text_members(one) =~= match value {
        json::JsonView::Text(t) => seq![(name, t)],
        _ => seq![],
    });
    if b.len() == 0 {
        assert(a + b =~= a);
        assert(text_members(a) + text_members(b) =~= text_members(a));
    } else {
        law_headers_are_the_members_that_are_texts(a, b.drop_last(), name, value);
        assert((a + b).drop_last() =~= a + b.drop_last());
        assert(text_members(a + b) =~= text_members(a) + text_members(b));
    }
}

/// A name that holds one of the five marks of a credential is hidden, with
/// whatever stands around the mark; no other name is.
pub proof fn law_credentials_are_known_by_their_names(
    header: (Seq<char>, Seq<char>),
    lowered: Seq<char>,
    a: Seq<char>,
    b: Seq<char>,
)
    ensures
        redacted_as(header, a + "authorization"@ + b) == (header.0, "***REDACTED***"@),
        redacted_as(header, a + "api-key"@ + b) == (header.0, "***REDACTED***"@),
        redacted_as(header, a + "apikey"@ + b) == (header.0, "***REDACTED***"@),
        redacted_as(header, a + "token"@ + b) == (header.0, "***REDACTED***"@),
        redacted_as(header, a + "secret"@ + b) == (header.0, "***REDACTED***"@),
        redacted_as(header, lowered) != header ==> text::contains(lowered, "authorization"@)
            || text::contains(lowered, "api-key"@) || text::contains(lowered, "apikey"@)
            || text::contains(lowered, "token"@) || text::contains(lowered, "secret"@),
{
    text::law_found_texts_stand_within(a + "authorization"@ + b, "authorization"@);
    text::law_found_texts_stand_within(a + "api-key"@ + b, "api-key"@);
    text::law_found_texts_stand_within(a + "apikey"@ + b, "apikey"@);
    text::law_found_texts_stand_within(a + "token"@ + b, "token"@);
    text::law_found_texts_stand_within(a + "secret"@ + b, "secret"@);
}

/// A response header shows its name. Cookies are hidden, with whatever stands
/// around the mark; of any other header the debug form is shown.
pub proof fn law_cookies_are_hidden(
    name: Seq<char>,
    lowered: Seq<char>,
    shown: Seq<char>,
    a: Seq<char>,
    b: Seq<char>,
)
    ensures
        header_line_as(name, a + "set-cookie"@ + b, shown) == name + ": ***REDACTED***"@,
        !text::contains(lowered, "set-cookie"@) ==> header_line_as(name, lowered, shown) == name
            + ": "@ + shown,
{
    text::law_found_texts_stand_within(a + "set-cookie"@ + b, "set-cookie"@);
}

/// A body within the limit, or without one, is left as it is. A longer one is
/// cut to as many characters as the limit says, or all where it has fewer, and a
/// note follows.
pub proof fn law_bodies_are_cut_at_the_limit(limit: int, body: Seq<char>)
    requires
        limit >= 0,
    ensures
        limit == 0 ==> truncated(limit, body) == body,
        text::byte_len(body) <= limit ==> truncated(limit, body) == body,
        limit > 0 && text::byte_len(body) > limit ==> {
            let kept = if limit <= body.len() {
                limit
            } else {
                body.len() as int
            };
            &&& truncated(limit, body).len() == kept
                + "\n\n... [Response truncated due to size limit] ..."@.len()
            &&& truncated(limit, body).take(kept) == body.take(kept)
            &&& text::has_suffix(
                truncated(limit, body),
                "\n\n... [Response truncated due to size limit] ..."@,
            )
        },
{
    let kept = if limit <= body.len() {
        limit
    } else {
        body.len() as int
    };
    let note = "\n\n... [Response truncated due to size limit] ..."@;
    if limit > 0 && text::byte_len(body) > limit {
        assert(truncated(limit, body) == body.take(kept) + note);
        text::lemma_suffix(body.take(kept), note);
        assert((body.take(kept) + note).take(kept) =~= body.take(kept));
    }
}

/// A response is a success exactly where its status is in the two hundreds. It
/// has an error exactly where the status is in the four or five hundreds, and
/// the error ends with the status.
pub proof fn law_status_decides_success(
    limit: int,
    status: u16,
    reason: Option<Seq<char>>,
    lines: Seq<Seq<char>>,
    body: BodyRead,
)
    ensures
        ({
            let r = response_result(limit, status, reason, lines, body);
            &&& r.success <==> status / 100 == 2
            &&& r.error is Some <==> status / 100 == 4 || status / 100 == 5
            &&& r.error matches Some(e) ==> text::has_suffix(e, text::decimal(status as nat))
        }),
{
    text::lemma_suffix("HTTP "@, text::decimal(status as nat));
}

/// The result of a response begins with the status and the reason, then shows
/// the headers with commas between them, and ends with the body.
pub proof fn law_responses_are_told_whole(
    limit: int,
    status: u16,
    reason: Seq<char>,
    lines: Seq<Seq<char>>,
    body: BodyRead,
)
    ensures
        ({
            let r = response_result(limit, status, Some(reason), lines, body);
            &&& text::has_prefix(r.output, "Status: "@ + text::decimal(status as nat))
            &&& text::contains(r.output, reason)
            &&& text::contains(r.output, text::join(lines, ", "@))
            &&& text::has_suffix(r.output, shown_body(limit, body))
        }),
{
    let output = response_result(limit, status, Some(reason), lines, body).output;
    let code = text::decimal(status as nat);
    let headers = text::join(lines, ", "@);
    let shown = shown_body(limit, body);
    lemma_seven_parts(
        "Status: "@ + code,
        " "@,
        reason,
        "\nResponse Headers: "@,
        headers,
        "\n\nResponse Body:\n"@,
        shown,
    );
}

proof fn lemma_seven_parts(
    a: Seq<char>,
    b: Seq<char>,
    c: Seq<char>,
    d: Seq<char>,
    e: Seq<char>,
    f: Seq<char>,
    g: Seq<char>,
)
    ensures
        text::has_prefix(a + b + c + d + e + f + g, a),
        text::contains(a + b + c + d + e + f + g, c),
        text::contains(a + b + c + d + e + f + g, e),
        text::has_suffix(a + b + c + d + e + f + g, g),
{
    let all = a + b + c + d + e + f + g;
    assert(text::has_prefix(all, a)) by {
        text::lemma_prefix(a, b + c + d + e + f + g);
        assert(all =~= a + (b + c + d + e + f + g));
    }
    assert(text::contains(all, c)) by {
        text::lemma_contains_self(c);
        text::lemma_contains_within(a + b, c, d + e + f + g, c);
        assert(all =~= a + b + c + (d + e + f + g));
    }
    assert(text::contains(all, e)) by {
        text::lemma_contains_self(e);
        text::lemma_contains_within(a + b + c + d, e, f + g, e);
        assert(all =~= a + b + c + d + e + (f + g));
    }
    text::lemma_suffix(a + b + c + d + e + f, g);
}

/// A body that was read is shown within the limit; of one that was not, the error
/// and its causes are.
pub proof fn law_bodies_are_shown(limit: int, body: BodyRead)
    ensures
        body matches BodyRead::Text(t) ==> shown_body(limit, body) == truncated(limit, t@),
        body matches BodyRead::Failed { error, chain } ==> text::contains(
            shown_body(limit, body),
            error@,
        ) && text::contains(shown_body(limit, body), chain@),
{
    if let BodyRead::Failed { error, chain } = body {
        let none = Seq::<char>::empty();
        lemma_seven_parts(
            "[Failed to read response body: "@,
            none,
            error@,
            " (chain: "@,
            chain@,
            ")]"@,
            none,
        );
        assert(shown_body(limit, body) =~= "[Failed to read response body: "@ + none + error@
            + " (chain: "@ + chain@ + ")]"@ + none);
    }
}

impl<S> HttpRequestTool<S> {
    /// A request is sent only for an agent that may act and whose action was
    /// recorded, to the URL that was given, with the method that was named, the
    /// headers and the body that were given, and with a time limit. Where all of
    /// that holds, and the URL and the method pass, it is sent.
    pub proof fn law_what_is_sent_is_what_was_asked(
        &self,
        args: HttpArgs,
        can_act: bool,
        recorded: bool,
        lowered: Seq<char>,
        upper: Seq<char>,
        step: HttpStep,
    )
        requires
            self.prepares(args, can_act, recorded, lowered, upper, step),
        ensures
            step is Send <==> can_act && recorded && method_named(upper) is Some && url_verdict(
                self.domains(),
                self.private_allowed(),
                args.url@,
                lowered,
            ) is Ok,
            step matches HttpStep::Send(q) ==> {
                &&& q.url@ == text::trim(args.url@)
                &&& method_named(upper) == Some(q.method)
                &&& header_views(q.headers@) == headers_of(args.headers@)
                &&& text::view_opt_string(q.body) == text::view_opt_string(args.body)
                &&& q.timeout_secs > 0
                &&& self.time_limit() > 0 ==> q.timeout_secs == self.time_limit()
                &&& on_allowlist(lowered, self.domains())
                &&& host::private_or_local(lowered) ==> self.private_allowed()
            },
            step matches HttpStep::Reply(t) ==> !t@.success && t@.error is Some,
    {
    }
}

/// What is said of a request that could not be sent holds what failed, the
/// error and its causes.
pub proof fn law_unsent_requests_say_why(phase: Seq<char>, error: Seq<char>, chain: Seq<char>)
    ensures
        text::contains(unsent_result(phase, error, chain), phase),
        text::contains(unsent_result(phase, error, chain), error),
        text::contains(unsent_result(phase, error, chain), chain),
{
    let said = unsent_result(phase, error, chain);
    let message = phase + ": "@ + error + " (chain: "@ + chain + ")"@;
    let none = Seq::<char>::empty();
    let front = "HTTP request failed: "@;
    let back = " (chain: "@ + message + ")"@;
    text::lemma_contains_self(phase);
    text::lemma_contains_within(none, phase, ": "@ + error + " (chain: "@ + chain + ")"@, phase);
    assert(none + phase + (": "@ + error + " (chain: "@ + chain + ")"@) =~= message);
    text::lemma_contains_self(error);
    text::lemma_contains_within(phase + ": "@, error, " (chain: "@ + chain + ")"@, error);
    assert(phase + ": "@ + error + (" (chain: "@ + chain + ")"@) =~= message);
    text::lemma_contains_self(chain);
    text::lemma_contains_within(phase + ": "@ + error + " (chain: "@, chain, ")"@, chain);
    text::lemma_contains_within(front, message, back, phase);
    text::lemma_contains_within(front, message, back, error);
    text::lemma_contains_within(front, message, back, chain);
    assert(front + message + back =~= said);
}

/// A configuration entry names a domain with or without a scheme in front of it,
/// and with or without a port and a path behind it.
pub proof fn law_entries_name_their_domain(
    scheme: Seq<char>,
    d: Seq<char>,
    port: Seq<char>,
    path: Seq<char>,
)
    requires
        scheme == "https://"@ || scheme == "http://"@ || scheme == Seq::<char>::empty(),
        is_host_text(d),
        d[0] != '.',
        port.len() > 0 ==> port.len() > 1 && port[0] == ':' && port.last() != '.' && forall|i: int|
            0 <= i < port.len() ==> #[trigger] port[i] != '/',
        path.len() > 0 ==> path[0] == '/',
    ensures
        domain_from(scheme + d + port + path) == Some(d),
{
    let entry = scheme + d + port + path;
    let rest = d + port + path;
    reveal_strlit("https://");
    reveal_strlit("http://");
    reveal_strlit("/");
    reveal_strlit(":");
    reveal_strlit(".");
    assert(entry =~= scheme + rest);
    assert("/"@.len() == 1 && "/"@[0] == '/');
    assert(":"@.len() == 1 && ":"@[0] == ':');
    assert("."@.len() == 1 && "."@[0] == '.');
    assert("http://"@[4] == ':' && "https://"@[4] == 's' && "https://"@[5] == ':');
    assert("http://"@[5] == '/' && "https://"@[6] == '/');
    let bare = match text::without_prefix(entry, "https://"@) {
        Some(rest) => rest,
        None => match text::without_prefix(entry, "http://"@) {
            Some(rest) => rest,
            None => entry,
        },
    };
    if scheme.len() > 0 {
        text::lemma_prefix(scheme, rest);
        assert(entry.skip(scheme.len() as int) =~= rest);
        if scheme == "http://"@ {
            assert(entry[4] == ':');
            if text::has_prefix(entry, "https://"@) {
                assert(entry.take(8)[4] == entry[4]);
            }
        }
    } else {
        assert(entry =~= rest);
        lemma_no_scheme(d, port, path, "https://"@, 5);
        lemma_no_scheme(d, port, path, "http://"@, 4);
    }
    assert(bare =~= rest);
    let name = d + port;
    assert forall|i: int| 0 <= i < name.len() implies !"/"@.contains(#[trigger] name[i]) by {
        if i < d.len() {
            assert(name[i] == d[i]);
        } else {
            assert(name[i] == port[i - d.len()]);
        }
    }
    if path.len() > 0 {
        assert("/"@.contains(path[0]));
    }
    text::lemma_until(name, path, "/"@);
    assert(text::until(bare, "/"@) == name);
    assert(name[0] == d[0]);
    assert(!"."@.contains(name[0]));
    assert(name.last() == if port.len() > 0 {
        port.last()
    } else {
        d.last()
    });
    assert(!"."@.contains(name.last()));
    if port.len() > 0 {
        assert(":"@.contains(port[0]));
    }
    assert forall|i: int| 0 <= i < d.len() implies !":"@.contains(#[trigger] d[i]) by {}
    text::lemma_until(d, port, ":"@);
}

proof fn lemma_no_scheme(
    d: Seq<char>,
    port: Seq<char>,
    path: Seq<char>,
    scheme: Seq<char>,
    at: int,
)
    requires
        is_host_text(d),
        port.len() > 0 ==> port[0] == ':' && forall|i: int|
            0 <= i < port.len() ==> #[trigger] port[i] != '/',
        path.len() > 0 ==> path[0] == '/',
        0 < at < scheme.len() - 1,
        scheme[at] == ':',
        scheme[at + 1] == '/',
        forall|i: int| 0 <= i < at ==> #[trigger] scheme[i] != ':' && scheme[i] != '/',
    ensures
        text::has_prefix(d + port + path, scheme) ==> port.len() == 1,
{
    let all = d + port + path;
    if text::has_prefix(all, scheme) {
        assert(all.take(scheme.len() as int)[at] == all[at]);
        assert(all.take(scheme.len() as int)[at + 1] == all[at + 1]);
        if at < d.len() {
            assert(d[at] == ':');
        } else if d.len() < at {
            assert(all[d.len() as int] == scheme[d.len() as int]) by {
                assert(all.take(scheme.len() as int)[d.len() as int] == all[d.len() as int]);
            }
            if port.len() > 0 {
                assert(all[d.len() as int] == port[0]);
            } else {
                assert(all[d.len() as int] == path[0]);
            }
        } else {
            if port.len() > 1 {
                assert(all[at + 1] == port[1]);
            } else if port.len() == 0 {
                assert(all[at] == path[0]);
            }
        }
    }
}

/// The allowed domains are those that an entry names, in lower case and without
/// the space around it.
pub proof fn law_allowed_domains_are_those_of_the_entries(
    entries: Seq<String>,
    k: int,
    d: Seq<char>,
)
    requires
        0 <= k < entries.len(),
    ensures
        domain_from(text::unicode_lower(text::trim(entries[k]@))) == Some(d) ==> names_domain(
            entries,
            d,
        ),
        domain_from(text::ascii_lowered(text::trim(entries[k]@))) == Some(d) ==> names_ascii_domain(
            entries,
            d,
        ),
        names_domain(entries, d) ==> exists|m: int|
            0 <= m < entries.len() && domain_from(
                text::unicode_lower(text::trim((#[trigger] entries[m])@)),
            ) == Some(d),
{
}

/// In ascending order nothing stands twice, and nothing stands before what comes
/// before it.
pub proof fn law_ascending_texts_differ(s: Seq<Seq<char>>, i: int, j: int)
    requires
        ascending(s),
        0 <= i < j < s.len(),
    ensures
        s[i] != s[j],
        !text::precedes(s[j], s[i]),
{
    text::lemma_precedes_total(s[i], s[j]);
}

/// Whatever the case of its name, a header that sets a cookie is hidden; any other
/// is shown behind its name.
pub proof fn law_header_names_count_in_any_case(name: Seq<char>)
    ensures
        text::contains(text::unicode_lower(name), "set-cookie"@) ==> header_line(name) == name
            + ": ***REDACTED***"@,
        !text::contains(text::unicode_lower(name), "set-cookie"@) ==> header_line(name) == name
            + ": "@ + text::debug_form(name),
        text::contains(text::ascii_lowered(name), "set-cookie"@) ==> plain_header_line(name) == name
            + ": ***REDACTED***"@,
        !text::contains(text::ascii_lowered(name), "set-cookie"@) ==> plain_header_line(name)
            == name + ": \""@ + name + "\""@,
{
    reveal_strlit(": ");
    reveal_strlit(": \"");
    reveal_strlit("\"");
    assert("\""@ =~= seq!['"']);
    assert(": \""@ =~= ": "@ + seq!['"']);
    assert(name + ": "@ + (seq!['"'] + name + seq!['"']) =~= name + ": \""@ + name + "\""@);
}

/// The text of the host is what the URL writes behind its scheme; a URL that is
/// refused has none.
pub proof fn law_hosts_come_from_the_url(url: Seq<char>)
    ensures
        written_host(url) is Ok ==> host_text(url) == written_host(url)->Ok_0,
        written_host(url) is Err ==> host_text(url).len() == 0,
{
}

/// A call needs a URL; it may name a method and headers, and give a body.
pub proof fn law_a_url_is_asked_for()
    ensures
        schema().has("type"@, json::JsonView::Text("object"@)),
        schema().has("required"@, json::JsonView::Array(seq![json::JsonView::Text("url"@)])),
        schema().asks_for("url"@, "string"@),
        schema().asks_for("method"@, "string"@),
        schema().asks_for("headers"@, "object"@),
        schema().asks_for("body"@, "string"@),
{
    reveal_strlit("type");
    reveal_strlit("properties");
    reveal_strlit("required");
    reveal_strlit("url");
    reveal_strlit("method");
    reveal_strlit("headers");
    reveal_strlit("body");
    reveal_strlit("description");
    reveal_strlit("default");
    assert("type"@.len() == 4 && "properties"@.len() == 10 && "required"@.len() == 8);
    assert("url"@.len() == 3 && "method"@.len() == 6 && "headers"@.len() == 7 && "body"@.len() == 4);
    assert("description"@.len() == 11 && "default"@.len() == 7);
    let all = schema()->Object_0;
    assert(all[0] == ("type"@, json::JsonView::Text("object"@)));
    assert(all[2] == ("required"@, json::JsonView::Array(seq![json::JsonView::Text("url"@)])));
    let props = all[1].1;
    assert(all[1] == ("properties"@, props));
    assert(schema().has("properties"@, props));
    let fields = props->Object_0;
    assert(fields[0] == ("url"@, fields[0].1) && fields[1] == ("method"@, fields[1].1));
    assert(fields[2] == ("headers"@, fields[2].1) && fields[3] == ("body"@, fields[3].1));
    assert(props.has("url"@, fields[0].1) && props.has("method"@, fields[1].1));
    assert(props.has("headers"@, fields[2].1) && props.has("body"@, fields[3].1));
    let string = json::JsonView::Text("string"@);
    assert(fields[0].1->Object_0[0] == ("type"@, string));
    assert(fields[1].1->Object_0[0] == ("type"@, string));
    assert(fields[2].1->Object_0[0] == ("type"@, json::JsonView::Text("object"@)));
    assert(fields[3].1->Object_0[0] == ("type"@, string));
}

/// The host of a URL is its text in lower case; a URL that writes no host, or
/// nothing that is left of one, is refused, for the reason that it writes none or
/// for want of a valid one.
pub proof fn law_hosts_are_in_lower_case(url: Seq<char>, lowered: Seq<char>)
    ensures
        written_host(url) is Err ==> host_of(url, lowered) is Err && host_of(url, lowered)->Err_0
            == written_host(url)->Err_0,
        written_host(url) is Ok && lowered.len() > 0 ==> host_of(url, lowered) == Ok::<
            Seq<char>,
            Seq<char>,
        >(lowered),
        written_host(url) is Ok && lowered.len() == 0 ==> host_of(url, lowered) == Err::<
            Seq<char>,
            Seq<char>,
        >("URL must include a valid host"@),
{
}

/// Why a URL is refused: for being empty, for white space, for its scheme, for
/// want of an allowlist, in this order; then for a host that is local or private,
/// and then for one that is not on the allowlist, with the host named.
pub proof fn law_refused_urls_say_why(
    domains: Seq<Seq<char>>,
    allow_private: bool,
    raw: Seq<char>,
    lowered: Seq<char>,
)
    ensures
        ({
            let url = text::trim(raw);
            let v = url_verdict(domains, allow_private, raw, lowered);
            let sound = url.len() > 0 && !text::has_space(url) && after_scheme(url) is Some
                && domains.len() > 0;
            &&& url.len() == 0 ==> v is Err && v->Err_0 == "URL cannot be empty"@
            &&& url.len() > 0 && text::has_space(url) ==> v is Err && v->Err_0
                == "URL cannot contain whitespace"@
            &&& url.len() > 0 && !text::has_space(url) && after_scheme(url) is None ==> v is Err
                && v->Err_0 == "Only http:// and https:// URLs are allowed"@
            &&& url.len() > 0 && !text::has_space(url) && after_scheme(url) is Some && domains.len()
                == 0 ==> v is Err && text::has_prefix(
                v->Err_0,
                "HTTP request tool is enabled but no allowed_domains are configured."@,
            )
            &&& sound && host_of(url, lowered) is Err ==> v is Err && v->Err_0 == host_of(
                url,
                lowered,
            )->Err_0
            &&& sound && host_of(url, lowered) is Ok && !allow_private && host::private_or_local(
                lowered,
            ) ==> v is Err && v->Err_0 == "Blocked local/private host: "@ + lowered
            &&& sound && host_of(url, lowered) is Ok && (allow_private || !host::private_or_local(
                lowered,
            )) && !on_allowlist(lowered, domains) ==> v is Err && v->Err_0 == "Host '"@ + lowered
                + "' is not in http_request.allowed_domains"@
            &&& v is Ok ==> v->Ok_0 == url
        }),
{
    let said = "HTTP request tool is enabled but no allowed_domains are configured. Add [http_request].allowed_domains in config.toml"@;
    reveal_strlit(
        "HTTP request tool is enabled but no allowed_domains are configured. Add [http_request].allowed_domains in config.toml",
    );
    reveal_strlit("HTTP request tool is enabled but no allowed_domains are configured.");
    assert(said.take(67) =~= "HTTP request tool is enabled but no allowed_domains are configured."@);
}

} // verus!
