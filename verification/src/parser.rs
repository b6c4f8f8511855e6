//! Extracting tool-call requests from assistant text, and rendering tool
//! results back to text.
//!
//! A request is carried in a fenced block: the opening fence, a newline,
//! the payload, then a closing fence on its own line. The payload is either
//! a JSON object with a `name` field and optional `args`, or the shorthand
//! `name: args`. Malformed blocks are skipped one by one; extraction never
//! fails as a whole.

use vstd::prelude::*;

use crate::chars::{chars_vec, string_of_chars};
use crate::interface::{ToolParameters, ToolResult};
use crate::json::{clone_value, rep_lookup, rep_of, wf_rep, JsonRep, JsonValue};
use crate::parse::{is_ws, p_doc, parse_json, skip_ws};
use crate::ser::{pser_rep, to_json_pretty};

verus! {

/// The opening fence of a tool-call block.
pub open spec fn fence_open() -> Seq<char> {
    seq!['`', '`', '`', 't', 'o', 'o', 'l']
}

/// The closing fence: three backticks on a fresh line.
pub open spec fn fence_close() -> Seq<char> {
    seq!['\n', '`', '`', '`']
}

/// Whether `pat` occurs in `s` at position `i`.
pub open spec fn starts_with(s: Seq<char>, i: int, pat: Seq<char>) -> bool {
    0 <= i && i + pat.len() <= s.len() && s.subrange(i, i + pat.len()) == pat
}

/// The first position at or past `i` that holds no whitespace.
pub open spec fn ws_end(s: Seq<char>, i: int) -> int
    decreases s.len() - i,
{
    if 0 <= i < s.len() && is_ws(s[i]) {
        ws_end(s, i + 1)
    } else {
        i
    }
}

/// The last newline in `[lo, hi)`, if any.
pub open spec fn last_nl_before(s: Seq<char>, lo: int, hi: int) -> Option<int>
    decreases hi - lo,
{
    if hi <= lo {
        None
    } else if 0 <= hi - 1 < s.len() && s[hi - 1] == '\n' {
        Some(hi - 1)
    } else {
        last_nl_before(s, lo, hi - 1)
    }
}

/// The first occurrence of `pat` at or past `i`.
pub open spec fn find_at(s: Seq<char>, i: int, pat: Seq<char>) -> Option<int>
    decreases s.len() - i,
{
    if i + pat.len() > s.len() || i < 0 || pat.len() == 0 {
        None
    } else if starts_with(s, i, pat) {
        Some(i)
    } else {
        find_at(s, i + 1, pat)
    }
}

/// Where the payload of a block opened at `i` starts: after the last
/// newline of the whitespace run that follows the opening fence.
pub open spec fn open_content_start(s: Seq<char>, i: int) -> Option<int> {
    match last_nl_before(s, i + 7, ws_end(s, i + 7)) {
        Option::Some(k) => Some(k + 1),
        Option::None => None,
    }
}

/// The payloads of all fenced blocks at or past `i`, in document order.
pub open spec fn scan_blocks(s: Seq<char>, i: int) -> Seq<Seq<char>>
    decreases s.len() - i,
{
    if i < 0 || i + 7 > s.len() {
        Seq::empty()
    } else if starts_with(s, i, fence_open()) {
        match open_content_start(s, i) {
            Option::Some(cs) => match find_at(s, cs, fence_close()) {
                Option::Some(ce) => if i < ce + 4 <= s.len() && cs <= ce {
                    seq![s.subrange(cs, ce)] + scan_blocks(s, ce + 4)
                } else {
                    Seq::empty()
                },
                Option::None => scan_blocks(s, i + 1),
            },
            Option::None => scan_blocks(s, i + 1),
        }
    } else {
        scan_blocks(s, i + 1)
    }
}

/// The sequence with its trailing whitespace removed.
pub open spec fn trim_end(s: Seq<char>) -> Seq<char>
    decreases s.len(),
{
    if s.len() > 0 && is_ws(s.last()) {
        trim_end(s.drop_last())
    } else {
        s
    }
}

/// The sequence with leading and trailing whitespace removed.
pub open spec fn spec_trim(s: Seq<char>) -> Seq<char> {
    trim_end(skip_ws(s))
}

/// What the shorthand `name: args` form of a payload denotes, if anything.
pub open spec fn shorthand_req(b: Seq<char>) -> Option<(Seq<char>, JsonRep)> {
    match find_at(b, 0, seq![':']) {
        Option::Some(ci) => {
            let nm = spec_trim(b.take(ci));
            let astr = spec_trim(b.skip(ci + 1));
            let args = match p_doc(astr) {
                Option::Some(ar) => ar,
                Option::None => JsonRep::Text(astr),
            };
            Some((nm, args))
        },
        Option::None => None,
    }
}

/// What a block payload denotes: a JSON object with a text `name` member
/// (whose `args` member defaults to an empty object), else the shorthand
/// form, else nothing.
pub open spec fn block_req(b: Seq<char>) -> Option<(Seq<char>, JsonRep)> {
    match p_doc(b) {
        Option::Some(r) => if r matches JsonRep::Object(ms) && rep_lookup(
            ms,
            "name"@,
        ) matches Some(nv) && nv is Text {
            let args = match rep_lookup(r->Object_0, "args"@) {
                Option::Some(a) => a,
                Option::None => JsonRep::Object(Seq::empty()),
            };
            Some((rep_lookup(r->Object_0, "name"@)->Some_0->Text_0, args))
        } else {
            shorthand_req(b)
        },
        Option::None => shorthand_req(b),
    }
}

/// The requests denoted by a sequence of payloads, skipping the malformed.
pub open spec fn reqs_of_blocks(bs: Seq<Seq<char>>) -> Seq<(Seq<char>, JsonRep)>
    decreases bs.len(),
{
    if bs.len() == 0 {
        Seq::empty()
    } else {
        match block_req(bs[0]) {
            Option::Some(r) => seq![r] + reqs_of_blocks(bs.skip(1)),
            Option::None => reqs_of_blocks(bs.skip(1)),
        }
    }
}

/// The models of a sequence of requests.
pub open spec fn reqs_model(q: Seq<ToolParameters>) -> Seq<(Seq<char>, JsonRep)> {
    Seq::new(
        q.len(),
        |i: int|
            if 0 <= i < q.len() {
                (q[i].name@, rep_of(q[i].args))
            } else {
                (Seq::<char>::empty(), JsonRep::Null)
            },
    )
}

/// When every payload is well formed, extraction keeps them all, in order.
#[verifier::rlimit(100)]
#[verifier::spinoff_prover]
pub proof fn lemma_reqs_complete(bs: Seq<Seq<char>>)
    requires
        forall|i: int| 0 <= i < bs.len() ==> block_req(#[trigger] bs[i]) is Some,
    ensures
        reqs_of_blocks(bs).len() == bs.len(),
        forall|i: int|
            0 <= i < bs.len() ==> reqs_of_blocks(bs)[i] == block_req(#[trigger] bs[i])->Some_0,
    decreases bs.len(),
{
    if bs.len() > 0 {
        assert(block_req(bs[0]) is Some);
        assert(forall|i: int| 0 <= i < bs.skip(1).len() ==> bs.skip(1)[i] == bs[i + 1]);
        assert(forall|i: int|
            0 <= i < bs.skip(1).len() ==> block_req(#[trigger] bs.skip(1)[i]) is Some);
        lemma_reqs_complete(bs.skip(1));
        let r = block_req(bs[0])->Some_0;
        assert(reqs_of_blocks(bs) == seq![r] + reqs_of_blocks(bs.skip(1)));
        assert forall|i: int| 0 <= i < bs.len() implies reqs_of_blocks(bs)[i] == block_req(
            bs[i],
        )->Some_0 by {
            if i == 0 {
                assert(reqs_of_blocks(bs)[0] == r);
            } else {
                assert(reqs_of_blocks(bs)[i] == reqs_of_blocks(bs.skip(1))[i - 1]);
                assert(bs.skip(1)[i - 1] == bs[i]);
            }
        }
    }
}

/// Whether the opening fence occurs at `i`, executably.
fn open_at(v: &Vec<char>, i: usize) -> (r: bool)
    requires
        i <= v@.len(),
    ensures
        r == starts_with(v@, i as int, fence_open()),
{
    let n = v.len();
    if n - i < 7 {
        return false;
    }
    let r = v[i] == '`' && v[i + 1] == '`' && v[i + 2] == '`' && v[i + 3] == 't' && v[i + 4]
        == 'o' && v[i + 5] == 'o' && v[i + 6] == 'l';
    proof {
        let sub = v@.subrange(i as int, i + 7);
        assert(sub[0] == v@[i as int] && sub[1] == v@[i + 1] && sub[2] == v@[i + 2] && sub[3]
            == v@[i + 3] && sub[4] == v@[i + 4] && sub[5] == v@[i + 5] && sub[6] == v@[i + 6]);
        if r {
            assert(sub =~= fence_open());
        } else {
            assert(sub != fence_open());
        }
    }
    r
}

/// The first non-whitespace position at or past `i`, executably.
fn ws_end_at(v: &Vec<char>, i: usize) -> (j: usize)
    requires
        i <= v@.len(),
    ensures
        i <= j <= v@.len(),
        j == ws_end(v@, i as int),
{
    let n = v.len();
    let mut j = i;
    while j < n && is_ws_c(v[j])
        invariant
            i <= j <= n,
            n == v@.len(),
            ws_end(v@, i as int) == ws_end(v@, j as int),
        decreases n - j,
    {
        j = j + 1;
    }
    j
}

/// Whether `c` is JSON whitespace, executably.
fn is_ws_c(c: char) -> (r: bool)
    ensures
        r == is_ws(c),
{
    c == ' ' || c == '\t' || c == '\n' || c == '\r'
}

/// The last newline in `[lo, hi)`, executably.
fn last_nl_at(v: &Vec<char>, lo: usize, hi: usize) -> (r: Option<usize>)
    requires
        lo <= hi <= v@.len(),
    ensures
        match r {
            Some(k) => lo <= k < hi && last_nl_before(v@, lo as int, hi as int) == Some(k as int),
            None => last_nl_before(v@, lo as int, hi as int) is None,
        },
{
    let mut h = hi;
    while h > lo
        invariant
            lo <= h <= hi <= v@.len(),
            last_nl_before(v@, lo as int, hi as int) == last_nl_before(v@, lo as int, h as int),
        decreases h,
    {
        if v[h - 1] == '\n' {
            return Some(h - 1);
        }
        h = h - 1;
    }
    None
}

/// The first closing fence at or past `i`, executably.
fn find_close_at(v: &Vec<char>, i: usize) -> (r: Option<usize>)
    requires
        i <= v@.len(),
    ensures
        match r {
            Some(ce) => i <= ce && ce + 4 <= v@.len() && find_at(v@, i as int, fence_close())
                == Some(ce as int),
            None => find_at(v@, i as int, fence_close()) is None,
        },
{
    let n = v.len();
    let mut cur = i;
    while n - cur >= 4
        invariant
            i <= cur <= n,
            n == v@.len(),
            find_at(v@, i as int, fence_close()) == find_at(v@, cur as int, fence_close()),
        decreases n - cur,
    {
        let m = v[cur] == '\n' && v[cur + 1] == '`' && v[cur + 2] == '`' && v[cur + 3] == '`';
        proof {
            let sub = v@.subrange(cur as int, cur + 4);
            assert(sub[0] == v@[cur as int] && sub[1] == v@[cur + 1] && sub[2] == v@[cur + 2]
                && sub[3] == v@[cur + 3]);
            if m {
                assert(sub =~= fence_close());
            } else {
                assert(sub != fence_close());
            }
        }
        if m {
            return Some(cur);
        }
        cur = cur + 1;
    }
    None
}

/// The first colon at or past the start, executably.
fn find_colon_at(v: &Vec<char>) -> (r: Option<usize>)
    ensures
        match r {
            Some(ci) => ci < v@.len() && find_at(v@, 0, seq![':']) == Some(ci as int),
            None => find_at(v@, 0, seq![':']) is None,
        },
{
    let n = v.len();
    let mut cur: usize = 0;
    while cur < n
        invariant
            cur <= n,
            n == v@.len(),
            find_at(v@, 0, seq![':']) == find_at(v@, cur as int, seq![':']),
        decreases n - cur,
    {
        proof {
            let sub = v@.subrange(cur as int, cur + 1);
            assert(sub[0] == v@[cur as int]);
            if v@[cur as int] == ':' {
                assert(sub =~= seq![':']);
            } else {
                assert(sub != seq![':']);
            }
        }
        if v[cur] == ':' {
            return Some(cur);
        }
        cur = cur + 1;
    }
    None
}

/// The characters of `[lo, hi)` as a string.
pub fn substring_chars(v: &Vec<char>, lo: usize, hi: usize) -> (r: String)
    requires
        lo <= hi <= v@.len(),
    ensures
        r@ == v@.subrange(lo as int, hi as int),
{
    let mut out: Vec<char> = Vec::new();
    let mut k = lo;
    proof {
        assert(out@ =~= v@.subrange(lo as int, lo as int));
    }
    while k < hi
        invariant
            lo <= k <= hi <= v@.len(),
            out@ == v@.subrange(lo as int, k as int),
        decreases hi - k,
    {
        let c = v[k];
        proof {
            assert(v@.subrange(lo as int, k + 1) =~= v@.subrange(lo as int, k as int).push(
                v@[k as int],
            ));
        }
        out.push(c);
        k = k + 1;
    }
    string_of_chars(&out)
}

/// The slice `[lo, hi)` with leading and trailing whitespace removed.
pub fn trim_slice(v: &Vec<char>, lo: usize, hi: usize) -> (r: String)
    requires
        lo <= hi <= v@.len(),
    ensures
        r@ == spec_trim(v@.subrange(lo as int, hi as int)),
{
    let mut a = lo;
    while a < hi && is_ws_c(v[a])
        invariant
            lo <= a <= hi <= v@.len(),
            skip_ws(v@.subrange(lo as int, hi as int)) == skip_ws(
                v@.subrange(a as int, hi as int),
            ),
        decreases hi - a,
    {
        proof {
            assert(v@.subrange(a as int, hi as int)[0] == v@[a as int]);
            assert(v@.subrange(a as int, hi as int).skip(1) =~= v@.subrange(a + 1, hi as int));
        }
        a = a + 1;
    }
    proof {
        if a < hi {
            assert(v@.subrange(a as int, hi as int)[0] == v@[a as int]);
        }
        assert(skip_ws(v@.subrange(a as int, hi as int)) == v@.subrange(a as int, hi as int));
    }
    let mut b = hi;
    while b > a && is_ws_c(v[b - 1])
        invariant
            a <= b <= hi <= v@.len(),
            trim_end(v@.subrange(a as int, hi as int)) == trim_end(
                v@.subrange(a as int, b as int),
            ),
        decreases b,
    {
        proof {
            let sub = v@.subrange(a as int, b as int);
            assert(sub.last() == v@[b - 1]);
            assert(sub.drop_last() =~= v@.subrange(a as int, b - 1));
        }
        b = b - 1;
    }
    proof {
        let sub = v@.subrange(a as int, b as int);
        if b > a {
            assert(sub.last() == v@[b - 1]);
        }
        assert(trim_end(sub) == sub);
    }
    substring_chars(v, a, b)
}

/// Reads the shorthand `name: args` form of a payload.
fn parse_shorthand(content: &str) -> (r: Option<ToolParameters>)
    ensures
        match r {
            Some(p) => shorthand_req(content@) == Some((p.name@, rep_of(p.args)))
                && wf_rep(rep_of(p.args)),
            None => shorthand_req(content@) is None,
        },
{
    let cs = chars_vec(content);
    match find_colon_at(&cs) {
        None => None,
        Some(ci) => {
            proof {
                assert(cs@.subrange(0, ci as int) =~= cs@.take(ci as int));
            }
            let name = trim_slice(&cs, 0, ci);
            let n = cs.len();
            proof {
                assert(cs@.subrange(ci + 1, n as int) =~= cs@.skip(ci + 1));
            }
            let astr = trim_slice(&cs, ci + 1, n);
            let args = match parse_json(astr.as_str()) {
                Some(av) => av,
                None => JsonValue::Text(astr),
            };
            Some(ToolParameters { name, args })
        },
    }
}

/// Extracts a request from one block payload: the JSON object form first,
/// then the shorthand form; `None` if the payload fits neither.
pub fn parse_tool_content(content: &str) -> (r: Option<ToolParameters>)
    ensures
        match r {
            Some(p) => block_req(content@) == Some((p.name@, rep_of(p.args))) && wf_rep(
                rep_of(p.args),
            ),
            None => block_req(content@) is None,
        },
{
    match parse_json(content) {
        Some(x) => {
            proof {
                if x is Object {
                    assert(JsonValue::Object(x->Object_0) == x);
                    crate::json::lemma_rep_of_object(x->Object_0);
                    crate::json::lemma_lookup_rep(x->Object_0@, "name"@);
                    crate::json::lemma_lookup_rep(x->Object_0@, "args"@);
                    crate::json::lemma_rep_lookup_wf(rep_of(x)->Object_0, "args"@);
                }
            }
            let name_opt: Option<String> = match x.get("name") {
                Some(nv) => match nv.as_text() {
                    Some(s) => Some(s.clone()),
                    None => None,
                },
                None => None,
            };
            match name_opt {
                Some(name) => {
                    let args: JsonValue = match x.get("args") {
                        Some(av) => clone_value(av),
                        None => {
                            let e = JsonValue::empty_object();
                            proof {
                                crate::json::lemma_rep_of_object(e->Object_0);
                                assert(JsonValue::Object(e->Object_0) == e);
                                assert(rep_of(e)->Object_0 =~= Seq::<(Seq<char>, JsonRep)>::empty());
                            }
                            e
                        },
                    };
                    Some(ToolParameters { name, args })
                },
                None => parse_shorthand(content),
            }
        },
        None => parse_shorthand(content),
    }
}

/// Finds every fenced tool-call block in the text and extracts its request;
/// malformed blocks are skipped. Requests come back in document order.
#[verifier::rlimit(100)]
#[verifier::spinoff_prover]
pub fn parse_tool_calls(ai_message: &str) -> (r: Vec<ToolParameters>)
    ensures
        reqs_model(r@) == reqs_of_blocks(scan_blocks(ai_message@, 0)),
        forall|i: int| 0 <= i < r@.len() ==> wf_rep(rep_of(#[trigger] r@[i].args)),
{
    let cs = chars_vec(ai_message);
    let n = cs.len();
    let mut out: Vec<ToolParameters> = Vec::new();
    let mut i: usize = 0;
    proof {
        assert(reqs_model(out@) =~= Seq::<(Seq<char>, JsonRep)>::empty());
        assert(reqs_model(out@) + reqs_of_blocks(scan_blocks(cs@, 0)) =~= reqs_of_blocks(
            scan_blocks(cs@, 0),
        ));
    }
    while n - i >= 7
        invariant
            i <= n,
            n == cs@.len(),
            cs@ == ai_message@,
            reqs_of_blocks(scan_blocks(cs@, 0)) == reqs_model(out@) + reqs_of_blocks(
                scan_blocks(cs@, i as int),
            ),
            forall|j: int| 0 <= j < out@.len() ==> wf_rep(rep_of(#[trigger] out@[j].args)),
        decreases n - i,
    {
        let ghost pre = reqs_model(out@);
        if open_at(&cs, i) {
            let we = ws_end_at(&cs, i + 7);
            match last_nl_at(&cs, i + 7, we) {
                Some(k) => {
                    let cstart = k + 1;
                    match find_close_at(&cs, cstart) {
                        Some(ce) => {
                            let content = substring_chars(&cs, cstart, ce);
                            proof {
                                assert(scan_blocks(cs@, i as int) == seq![
                                    cs@.subrange(cstart as int, ce as int),
                                ] + scan_blocks(cs@, ce + 4));
                                assert(scan_blocks(cs@, i as int)[0] == content@);
                                assert(scan_blocks(cs@, i as int).skip(1) =~= scan_blocks(
                                    cs@,
                                    ce + 4,
                                ));
                            }
                            match parse_tool_content(content.as_str()) {
                                Some(p) => {
                                    proof {
                                        assert(reqs_of_blocks(scan_blocks(cs@, i as int)) == seq![
                                            (p.name@, rep_of(p.args)),
                                        ] + reqs_of_blocks(scan_blocks(cs@, ce + 4)));
                                        assert(reqs_model(out@.push(p)) =~= reqs_model(
                                            out@,
                                        ).push((p.name@, rep_of(p.args))));
                                        assert(pre + (seq![(p.name@, rep_of(p.args))]
                                            + reqs_of_blocks(scan_blocks(cs@, ce + 4)))
                                            =~= reqs_model(out@.push(p)) + reqs_of_blocks(
                                            scan_blocks(cs@, ce + 4),
                                        ));
                                    }
                                    out.push(p);
                                },
                                None => {
                                    proof {
                                        assert(reqs_of_blocks(scan_blocks(cs@, i as int))
                                            == reqs_of_blocks(scan_blocks(cs@, ce + 4)));
                                    }
                                },
                            }
                            i = ce + 4;
                        },
                        None => {
                            proof {
                                assert(scan_blocks(cs@, i as int) == scan_blocks(cs@, i + 1));
                            }
                            i = i + 1;
                        },
                    }
                },
                None => {
                    proof {
                        assert(scan_blocks(cs@, i as int) == scan_blocks(cs@, i + 1));
                    }
                    i = i + 1;
                },
            }
        } else {
            proof {
                assert(scan_blocks(cs@, i as int) == scan_blocks(cs@, i + 1));
            }
            i = i + 1;
        }
    }
    proof {
        assert(scan_blocks(cs@, i as int) =~= Seq::<Seq<char>>::empty());
        assert(reqs_model(out@) + Seq::<(Seq<char>, JsonRep)>::empty() =~= reqs_model(out@));
    }
    out
}

/// The text rendered for one tool outcome.
pub open spec fn spec_format_tool_result(
    name: Seq<char>,
    res: (bool, JsonRep, Option<Seq<char>>),
) -> Seq<char> {
    if res.0 {
        "Tool `"@ + name + "` succeeded:\n\n"@ + (if res.1 is Text {
            res.1->Text_0
        } else {
            pser_rep(res.1, 0)
        })
    } else {
        "Tool `"@ + name + "` failed:\n\n"@ + (match res.2 {
            Option::Some(e) => e,
            Option::None => "unknown error"@,
        })
    }
}

/// Rendering is a pure function: equal inputs give equal text.
pub proof fn lemma_format_tool_result_pure(
    name1: Seq<char>,
    res1: (bool, JsonRep, Option<Seq<char>>),
    name2: Seq<char>,
    res2: (bool, JsonRep, Option<Seq<char>>),
)
    requires
        name1 == name2,
        res1 == res2,
    ensures
        spec_format_tool_result(name1, res1) == spec_format_tool_result(name2, res2),
{
}

/// Renders a tool outcome as text: on success the carried data (directly if
/// it is a string, else pretty-printed); on failure the carried error, or a
/// fixed placeholder if none is present.
pub fn format_tool_result(tool_name: &str, result: &ToolResult) -> (r: String)
    ensures
        r@ == spec_format_tool_result(tool_name@, result.model()),
{
    let mut out = String::new();
    out.append("Tool `");
    out.append(tool_name);
    if result.success {
        out.append("` succeeded:\n\n");
        match result.data.as_text() {
            Some(s) => {
                out.append(s.as_str());
            },
            None => {
                let pretty = to_json_pretty(&result.data);
                out.append(pretty.as_str());
            },
        }
    } else {
        out.append("` failed:\n\n");
        match &result.error {
            Some(e) => {
                out.append(e.as_str());
            },
            None => {
                out.append("unknown error");
            },
        }
    }
    out
}

} // verus!
