//! The web tools' decisions: the request parameters, the errors of the
//! search service, and how its results are shown.
use vstd::prelude::*;
use crate::text::{chars_of, push_decimal, decimal, trim, trim_bounds, slice_range, string_of};
use crate::tools::ToolFailure;

verus! {

broadcast use vstd::string::group_string_axioms;

/// How many results a search asks for when none is given.
pub fn default_num_results() -> (r: usize)
    ensures
        r == 10,
{
    10
}

/// The number of results asked of the service: between 1 and 100.
pub fn clamp_num_results(n: usize) -> (r: usize)
    ensures
        r == if n < 1 { 1 } else if n > 100 { 100 } else { n as int },
{
    if n < 1 {
        1
    } else if n > 100 {
        100
    } else {
        n
    }
}

/// The kinds of search.
#[derive(Clone, Copy, Debug, PartialEq, Eq, Structural)]
pub enum SearchType {
    Auto,
    DeepReasoning,
}

impl SearchType {
    /// The name the service knows the kind by.
    pub fn wire_name(self) -> (r: &'static str)
        ensures
            r@ == match self {
                SearchType::Auto => "auto"@,
                SearchType::DeepReasoning => "deep-reasoning"@,
            },
    {
        match self {
            SearchType::Auto => "auto",
            SearchType::DeepReasoning => "deep-reasoning",
        }
    }
}

/// The message when no key for the service is set.
pub open spec fn missing_key_message() -> Seq<char> {
    "EXA_API_KEY is not set. Set EXA_API_KEY before running ogent."@
}

/// Refuses to run without a key for the search service.
pub fn ensure_exa_api_key_set(key: Option<&str>) -> (r: Result<(), ToolFailure>)
    ensures
        r is Ok <==> (key matches Some(k) && trim(k@).len() > 0),
        r matches Err(f) ==> f.message@ == missing_key_message(),
{
    match key {
        Some(k) => {
            let v = chars_of(k);
            let (a, b) = trim_bounds(v.as_slice(), 0, v.len());
            proof {
                assert(v@.subrange(0, v@.len() as int) =~= v@);
            }
            if a < b {
                return Ok(());
            }
        },
        None => {},
    }
    Err(ToolFailure { message: "EXA_API_KEY is not set. Set EXA_API_KEY before running ogent.".to_string() })
}

/// What the service's answer says: a failure status with its body
/// (trimmed), or the error the answer carries.
pub fn exa_failure(status_ok: bool, status: u16, body: &str, error: Option<&str>) -> (r: Option<ToolFailure>)
    ensures
        !status_ok ==> (r matches Some(f) && f.message@ == "exa "@ + decimal(status as nat) + ": "@
            + trim(body@)),
        status_ok ==> match error {
            Some(e) => if e@.len() > 0 {
                r matches Some(f) && f.message@ == "exa error: "@ + e@
            } else {
                r is None
            },
            None => r is None,
        },
{
    if !status_ok {
        let v = chars_of(body);
        let (a, b) = trim_bounds(v.as_slice(), 0, v.len());
        proof {
            assert(v@.subrange(0, v@.len() as int) =~= v@);
        }
        let mut m = String::new();
        m.append("exa ");
        push_decimal(&mut m, status as u64);
        m.append(": ");
        let t = string_of(slice_range(v.as_slice(), a, b).as_slice());
        m.append(t.as_str());
        return Some(ToolFailure { message: m });
    }
    match error {
        Some(e) => if !e.is_empty() {
            let mut m = String::new();
            m.append("exa error: ");
            m.append(e);
            Some(ToolFailure { message: m })
        } else {
            None
        },
        None => None,
    }
}

/// One result of the service: each text member as the answer holds it
/// (`None` when missing or not a string).
#[derive(Clone, Debug)]
pub struct ExaResult {
    pub title: Option<String>,
    pub url: Option<String>,
    pub text: Option<String>,
    /// The highlights, when the member is a list.
    pub highlights: Option<Vec<Option<String>>>,
}

/// A member's text, empty when missing.
pub open spec fn or_empty(o: Option<String>) -> Seq<char> {
    match o {
        Some(s) => s@,
        None => Seq::empty(),
    }
}

/// The highlight lines, each after a prefix.
pub open spec fn highlight_lines(hs: Seq<Option<String>>, prefix: Seq<char>, k: int) -> Seq<char>
    decreases k,
{
    if k <= 0 {
        Seq::empty()
    } else {
        highlight_lines(hs, prefix, k - 1) + prefix + or_empty(hs[k - 1]) + "\n"@
    }
}

/// Appends the highlight lines.
fn push_highlights(out: &mut String, hs: &Vec<Option<String>>, prefix: &str)
    ensures
        final(out)@ == old(out)@ + highlight_lines(hs@, prefix@, hs@.len() as int),
{
    let ghost start = out@;
    let mut i: usize = 0;
    while i < hs.len()
        invariant
            i <= hs@.len(),
            out@ == start + highlight_lines(hs@, prefix@, i as int),
        decreases hs.len() - i,
    {
        let ghost before = out@;
        out.append(prefix);
        match &hs[i] {
            Some(h) => out.append(h.as_str()),
            None => {},
        }
        out.append("\n");
        proof {
            assert(out@ =~= before + prefix@ + or_empty(hs@[i as int]) + "\n"@);
        }
        i += 1;
    }
}

/// The lines of one search result.
pub open spec fn search_entry(n: nat, r: ExaResult) -> Seq<char> {
    decimal(n) + ". "@ + or_empty(r.title) + "\n"@ + "   "@ + or_empty(r.url) + "\n"@ + match r.highlights {
        Some(hs) => highlight_lines(hs@, "   > "@, hs@.len() as int),
        None => Seq::empty(),
    } + "\n"@
}

/// The entries of the first `k` search results.
pub open spec fn search_entries(v: Seq<ExaResult>, k: int) -> Seq<char>
    decreases k,
{
    if k <= 0 {
        Seq::empty()
    } else {
        search_entries(v, k - 1) + search_entry(k as nat, v[k - 1])
    }
}

/// Appends one search result.
fn push_search_entry(out: &mut String, n: u64, r: &ExaResult)
    ensures
        final(out)@ == old(out)@ + search_entry(n as nat, *r),
{
    push_decimal(out, n);
    out.append(". ");
    match &r.title {
        Some(t) => out.append(t.as_str()),
        None => {},
    }
    out.append("\n");
    out.append("   ");
    match &r.url {
        Some(u) => out.append(u.as_str()),
        None => {},
    }
    out.append("\n");
    match &r.highlights {
        Some(hs) => push_highlights(out, hs, "   > "),
        None => {},
    }
    out.append("\n");
    proof {
        assert(final(out)@ =~= old(out)@ + search_entry(n as nat, *r));
    }
}

/// The answer of `web_search`: the results numbered from 1, each with its
/// title, URL and highlights.
pub fn search_results_text(results: &Vec<ExaResult>) -> (r: String)
    ensures
        r@ == search_entries(results@, results@.len() as int),
{
    let mut out = String::new();
    let mut i: usize = 0;
    while i < results.len()
        invariant
            i <= results@.len(),
            out@ == search_entries(results@, i as int),
        decreases results.len() - i,
    {
        push_search_entry(&mut out, (i + 1) as u64, &results[i]);
        i += 1;
    }
    out
}

/// The lines of one read page.
pub open spec fn read_entry(r: ExaResult, text_mode: bool) -> Seq<char> {
    "--- "@ + or_empty(r.title) + " ---\n"@ + or_empty(r.url) + "\n"@ + "\n"@ + if text_mode {
        or_empty(r.text) + "\n\n"@
    } else {
        match r.highlights {
            Some(hs) => highlight_lines(hs@, "> "@, hs@.len() as int) + "\n"@,
            None => Seq::empty(),
        }
    }
}

/// The entries of the first `k` read pages.
pub open spec fn read_entries(v: Seq<ExaResult>, text_mode: bool, k: int) -> Seq<char>
    decreases k,
{
    if k <= 0 {
        Seq::empty()
    } else {
        read_entries(v, text_mode, k - 1) + read_entry(v[k - 1], text_mode)
    }
}

/// Appends one read page.
#[verifier::spinoff_prover]
#[verifier::rlimit(50)]
fn push_read_entry(out: &mut String, r: &ExaResult, text_mode: bool)
    ensures
        final(out)@ == old(out)@ + read_entry(*r, text_mode),
{
    out.append("--- ");
    match &r.title {
        Some(t) => out.append(t.as_str()),
        None => {},
    }
    out.append(" ---\n");
    match &r.url {
        Some(u) => out.append(u.as_str()),
        None => {},
    }
    out.append("\n");
    out.append("\n");
    if text_mode {
        match &r.text {
            Some(t) => out.append(t.as_str()),
            None => {},
        }
        out.append("\n\n");
    } else {
        match &r.highlights {
            Some(hs) => {
                push_highlights(out, hs, "> ");
                out.append("\n");
            },
            None => {},
        }
    }
    proof {
        assert(final(out)@ =~= old(out)@ + read_entry(*r, text_mode));
    }
}

/// The answer of `web_read`: each page's title and URL, then its text or
/// its highlights.
pub fn read_results_text(results: &Vec<ExaResult>, text_mode: bool) -> (r: String)
    ensures
        r@ == read_entries(results@, text_mode, results@.len() as int),
{
    let mut out = String::new();
    let mut i: usize = 0;
    while i < results.len()
        invariant
            i <= results@.len(),
            out@ == read_entries(results@, text_mode, i as int),
        decreases results.len() - i,
    {
        push_read_entry(&mut out, &results[i], text_mode);
        i += 1;
    }
    out
}

/// Refuses a read without URLs.
pub fn check_urls(count: usize) -> (r: Result<(), ToolFailure>)
    ensures
        r is Err <==> count == 0,
        r matches Err(f) ==> f.message@ == "urls is required"@,
{
    if count == 0 {
        return Err(ToolFailure { message: "urls is required".to_string() });
    }
    Ok(())
}

} // verus!
