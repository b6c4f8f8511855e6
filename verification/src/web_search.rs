//! The web-search tool's data model.
//!
//! The HTTP request runs outside the library. The query URL is built here,
//! and the search service's JSON reply is read here: an abstract answer
//! plus related topics, capped at the requested number of results.

use vstd::prelude::*;
use vstd::utf8::encode_utf8;

use crate::json::{rep_lookup, rep_of, JsonRep, JsonValue};
use crate::numbers::dec_digits;

verus! {

/// The arguments of one search.
#[derive(Debug)]
pub struct WebSearchParams {
    pub query: String,
    pub max_results: Option<u64>,
}

/// What one argument value decodes to, if anything: a text `query` and,
/// when present, the literal text of an integer `max_results`.
pub open spec fn search_params_rep(args: JsonRep) -> Option<(Seq<char>, Option<Seq<char>>)> {
    match args {
        JsonRep::Object(ms) => match rep_lookup(ms, "query"@) {
            Option::Some(JsonRep::Text(q)) => match rep_lookup(ms, "max_results"@) {
                Option::None => Some((q, None)),
                Option::Some(JsonRep::Number(t)) => Some((q, Some(t))),
                Option::Some(_) => None,
            },
            _ => None,
        },
        _ => None,
    }
}

impl WebSearchParams {
    /// Reads the parameters out of a request's argument value: an object
    /// with a text `query` and an optional integer `max_results`, which
    /// must be the canonical decimal of a value that fits.
    pub fn from_args(args: &JsonValue) -> (r: Option<WebSearchParams>)
        ensures
            match r {
                Some(p) => search_params_rep(rep_of(*args)) matches Some((q, m)) && p.query@ == q
                    && (match (p.max_results, m) {
                    (Some(v), Some(t)) => t == dec_digits(v as nat),
                    (None, None) => true,
                    _ => false,
                }),
                None => search_params_rep(rep_of(*args)) is None || (search_params_rep(
                    rep_of(*args),
                ) matches Some((q, m)) && m is Some),
            },
    {
        proof {
            if args is Object {
                assert(JsonValue::Object(args->Object_0) == *args);
                crate::json::lemma_rep_of_object(args->Object_0);
                crate::json::lemma_lookup_rep(args->Object_0@, "query"@);
                crate::json::lemma_lookup_rep(args->Object_0@, "max_results"@);
            }
        }
        let query: String = match args.get("query") {
            Some(qv) => match qv.as_text() {
                Some(s) => s.clone(),
                None => {
                    return None;
                },
            },
            None => {
                return None;
            },
        };
        let max_results: Option<u64> = match args.get("max_results") {
            Some(mv) => match mv {
                JsonValue::Number(t) => match crate::numbers::u64_of_digits(t.as_str()) {
                    Some(v) => Some(v),
                    None => {
                        return None;
                    },
                },
                _ => {
                    return None;
                },
            },
            None => None,
        };
        Some(WebSearchParams { query, max_results })
    }

    /// How many results the search should return: the requested number, or
    /// five when none was requested.
    pub fn limit(&self) -> (r: u64)
        ensures
            r == match self.max_results {
                Some(v) => v,
                None => 5u64,
            },
    {
        match self.max_results {
            Some(v) => v,
            None => 5,
        }
    }
}

/// One search hit.
#[derive(Debug)]
pub struct SearchResult {
    pub title: String,
    pub link: String,
    pub snippet: String,
}

/// A whole search outcome: the query and its hits.
#[derive(Debug)]
pub struct WebSearchResult {
    pub query: String,
    pub results: Vec<SearchResult>,
}

impl WebSearchResult {
    /// The outcome as a structured value, ready to carry in a result.
    pub fn to_value(&self) -> (r: JsonValue)
        ensures
            r is Object,
    {
        let mut arr: Vec<JsonValue> = Vec::new();
        let n = self.results.len();
        let mut i: usize = 0;
        while i < n
            invariant
                n == self.results@.len(),
                i <= n,
            decreases n - i,
        {
            let mut ms: Vec<(String, JsonValue)> = Vec::new();
            let k1: &str = "title";
            ms.push((k1.to_owned(), JsonValue::Text(self.results[i].title.clone())));
            let k2: &str = "link";
            ms.push((k2.to_owned(), JsonValue::Text(self.results[i].link.clone())));
            let k3: &str = "snippet";
            ms.push((k3.to_owned(), JsonValue::Text(self.results[i].snippet.clone())));
            arr.push(JsonValue::Object(ms));
            i = i + 1;
        }
        let mut top: Vec<(String, JsonValue)> = Vec::new();
        let kq: &str = "query";
        top.push((kq.to_owned(), JsonValue::Text(self.query.clone())));
        let kr: &str = "results";
        top.push((kr.to_owned(), JsonValue::Array(arr)));
        JsonValue::Object(top)
    }
}

/// A byte that percent-encoding passes through unchanged: ASCII
/// alphanumerics and `-`, `_`, `.`, `~`.
pub open spec fn pct_safe(b: u8) -> bool {
    (48 <= b <= 57) || (65 <= b <= 90) || (97 <= b <= 122) || b == 45 || b == 46 || b == 95
        || b == 126
}

/// The upper-case hexadecimal digit for `n`.
pub open spec fn pct_hex(n: u8) -> char {
    if n < 10 {
        ((n + 48) as u8) as char
    } else {
        ((n + 55) as u8) as char
    }
}

/// The percent-encoding of a byte sequence: safe bytes stand for
/// themselves, every other byte becomes `%` and two upper-case hex digits.
pub open spec fn pct_encoded(bs: Seq<u8>) -> Seq<char>
    decreases bs.len(),
{
    if bs.len() == 0 {
        Seq::empty()
    } else {
        let b = bs[0];
        (if pct_safe(b) {
            seq![b as char]
        } else {
            seq!['%', pct_hex(b / 16), pct_hex(b % 16)]
        }) + pct_encoded(bs.skip(1))
    }
}

/// Relies on urlencoding::encode: it percent-encodes every byte of the
/// string's UTF-8 form except ASCII alphanumerics and `-`, `_`, `.`, `~`,
/// with upper-case hex digits.
#[verifier::external_body]
fn urlencode(s: &str) -> (r: String)
    ensures
        r@ == pct_encoded(encode_utf8(s@)),
{
    urlencoding::encode(s).into_owned()
}

/// The query URL for one search.
pub fn build_search_url(query: &str) -> (r: String)
    ensures
        r@ == "https://api.duckduckgo.com/?q="@ + pct_encoded(encode_utf8(query@))
            + "&format=json&no_html=1&skip_disambig=1"@,
{
    let mut out = String::new();
    out.append("https://api.duckduckgo.com/?q=");
    let enc = urlencode(query);
    out.append(enc.as_str());
    out.append("&format=json&no_html=1&skip_disambig=1");
    out
}

/// The search tool: its identity; the HTTP call runs outside the library.
#[derive(Debug)]
pub struct WebSearchTool;

impl WebSearchTool {
    /// The tool.
    pub fn new() -> (r: WebSearchTool) {
        WebSearchTool
    }

    /// The dispatch key of the tool.
    pub fn name(&self) -> (r: String)
        ensures
            r@ == "web_search"@,
    {
        let s: &str = "web_search";
        s.to_owned()
    }

    /// The description exposed through discovery.
    pub fn description(&self) -> (r: String)
        ensures
            r@ == "Searches the web and returns matching results"@,
    {
        let s: &str = "Searches the web and returns matching results";
        s.to_owned()
    }
}

/// Reads the search service's reply into hits: the abstract answer first
/// (when nonempty), then related topics carrying both a text and a URL,
/// at most `limit` hits in all.
pub fn parse_search_response(text: &str, limit: u64) -> (r: Option<WebSearchResult>)
    ensures
        r is Some ==> r->Some_0.results@.len() <= limit,
{
    let x = match crate::parse::parse_json(text) {
        Some(x) => x,
        None => {
            return None;
        },
    };
    let mut results: Vec<SearchResult> = Vec::new();
    if limit == 0 {
        let q: &str = "";
        return Some(WebSearchResult { query: q.to_owned(), results });
    }
    let abstract_text: Option<String> = match x.get("AbstractText") {
        Some(av) => match av.as_text() {
            Some(s) => if s.as_str().is_empty() {
                None
            } else {
                Some(s.clone())
            },
            None => None,
        },
        None => None,
    };
    let abstract_url: String = match x.get("AbstractURL") {
        Some(uv) => match uv.as_text() {
            Some(s) => s.clone(),
            None => {
                let e: &str = "";
                e.to_owned()
            },
        },
        None => {
            let e: &str = "";
            e.to_owned()
        },
    };
    match abstract_text {
        Some(t) => {
            let title: &str = "Primary result";
            results.push(
                SearchResult { title: title.to_owned(), link: abstract_url, snippet: t },
            );
        },
        None => {},
    }
    match x.get("RelatedTopics") {
        Some(tv) => match tv {
            JsonValue::Array(topics) => {
                let n = topics.len();
                let mut i: usize = 0;
                while i < n
                    invariant
                        n == topics@.len(),
                        i <= n,
                        results@.len() <= limit,
                    decreases n - i,
                {
                    if results.len() as u64 >= limit {
                        break ;
                    }
                    let topic = &topics[i];
                    let text_opt: Option<String> = match topic.get("Text") {
                        Some(txv) => match txv.as_text() {
                            Some(s) => Some(s.clone()),
                            None => None,
                        },
                        None => None,
                    };
                    let url_opt: Option<String> = match topic.get("FirstURL") {
                        Some(uv) => match uv.as_text() {
                            Some(s) => Some(s.clone()),
                            None => None,
                        },
                        None => None,
                    };
                    match (text_opt, url_opt) {
                        (Some(tx), Some(u)) => {
                            let snippet = tx.clone();
                            results.push(SearchResult { title: tx, link: u, snippet });
                        },
                        _ => {},
                    }
                    i = i + 1;
                }
            },
            _ => {},
        },
        None => {},
    }
    let q: &str = "";
    Some(WebSearchResult { query: q.to_owned(), results })
}

} // verus!
