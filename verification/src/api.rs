//! The types and text of the completion API.
//!
//! A completion request goes out as a JSON document over the conversation
//! history; replies come back either whole, or as a stream of
//! `data: <json>` lines whose fragments concatenate to the response text.

use vstd::prelude::*;

use crate::chars::chars_vec;
use crate::json::{rep_lookup, rep_of, JsonRep, JsonValue};
use crate::parse::{p_doc, parse_json};
use crate::parser::{substring_chars, trim_slice};
use crate::ser::{ser_rep, to_json_text};
use crate::wire::RpcError;

verus! {

/// One message of the conversation history.
#[derive(Debug)]
pub struct ChatMessage {
    pub role: String,
    pub content: String,
}

impl ChatMessage {
    /// The model of a message: its role and content.
    pub open spec fn model(self) -> (Seq<char>, Seq<char>) {
        (self.role@, self.content@)
    }

    /// A copy of the message.
    pub fn duplicate(&self) -> (r: ChatMessage)
        ensures
            r.model() == self.model(),
    {
        ChatMessage { role: self.role.clone(), content: self.content.clone() }
    }
}

/// The completion request body.
#[derive(Debug)]
pub struct ChatRequest {
    pub model: String,
    pub messages: Vec<ChatMessage>,
    pub stream: bool,
}

/// The model of one message's wire object.
pub open spec fn message_rep(m: (Seq<char>, Seq<char>)) -> JsonRep {
    JsonRep::Object(seq![("role"@, JsonRep::Text(m.0)), ("content"@, JsonRep::Text(m.1))])
}

/// The model of a completion request's wire object. The temperature is the
/// fixed literal the service is always asked for.
pub open spec fn chat_request_rep(
    model: Seq<char>,
    msgs: Seq<(Seq<char>, Seq<char>)>,
    stream: bool,
) -> JsonRep {
    JsonRep::Object(
        seq![
            ("model"@, JsonRep::Text(model)),
            (
                "messages"@,
                JsonRep::Array(
                    Seq::new(
                        msgs.len(),
                        |i: int|
                            if 0 <= i < msgs.len() {
                                message_rep(msgs[i])
                            } else {
                                JsonRep::Null
                            },
                    ),
                ),
            ),
            ("temperature"@, JsonRep::Number("0.7"@)),
            ("stream"@, JsonRep::Bool(stream)),
        ],
    )
}

/// The models of a message list.
pub open spec fn messages_model(msgs: Seq<ChatMessage>) -> Seq<(Seq<char>, Seq<char>)> {
    Seq::new(
        msgs.len(),
        |i: int|
            if 0 <= i < msgs.len() {
                msgs[i].model()
            } else {
                (Seq::<char>::empty(), Seq::<char>::empty())
            },
    )
}

impl ChatRequest {
    /// The completion request as wire text.
    pub fn to_wire_text(&self) -> (r: String)
        ensures
            r@ == ser_rep(
                chat_request_rep(self.model@, messages_model(self.messages@), self.stream),
            ),
    {
        let mut ms: Vec<(String, JsonValue)> = Vec::new();
        let mk: &str = "model";
        ms.push((mk.to_owned(), JsonValue::Text(self.model.clone())));
        let n = self.messages.len();
        let mut arr: Vec<JsonValue> = Vec::new();
        let mut i: usize = 0;
        while i < n
            invariant
                n == self.messages@.len(),
                i == arr@.len() <= n,
                forall|j: int|
                    0 <= j < i ==> rep_of(#[trigger] arr@[j]) == message_rep(
                        messages_model(self.messages@)[j],
                    ),
            decreases n - i,
        {
            let mut mm: Vec<(String, JsonValue)> = Vec::new();
            let rk: &str = "role";
            mm.push((rk.to_owned(), JsonValue::Text(self.messages[i].role.clone())));
            let ck: &str = "content";
            mm.push((ck.to_owned(), JsonValue::Text(self.messages[i].content.clone())));
            let obj = JsonValue::Object(mm);
            proof {
                crate::json::lemma_rep_of_object(obj->Object_0);
                assert(JsonValue::Object(obj->Object_0) == obj);
                assert(crate::json::rep_members(obj->Object_0@) =~= message_rep(
                    messages_model(self.messages@)[i as int],
                )->Object_0);
            }
            arr.push(obj);
            i = i + 1;
        }
        let arrv = JsonValue::Array(arr);
        proof {
            crate::json::lemma_rep_of_array(arrv->Array_0);
            assert(JsonValue::Array(arrv->Array_0) == arrv);
            assert(crate::json::rep_seq(arrv->Array_0@) =~= chat_request_rep(
                self.model@,
                messages_model(self.messages@),
                self.stream,
            )->Object_0[1].1->Array_0);
        }
        let mgk: &str = "messages";
        ms.push((mgk.to_owned(), arrv));
        let tk: &str = "temperature";
        let tv: &str = "0.7";
        ms.push((tk.to_owned(), JsonValue::Number(tv.to_owned())));
        let sk: &str = "stream";
        ms.push((sk.to_owned(), JsonValue::Bool(self.stream)));
        let obj = JsonValue::Object(ms);
        proof {
            crate::json::lemma_rep_of_object(obj->Object_0);
            assert(JsonValue::Object(obj->Object_0) == obj);
            assert(crate::json::rep_members(obj->Object_0@) =~= chat_request_rep(
                self.model@,
                messages_model(self.messages@),
                self.stream,
            )->Object_0);
        }
        to_json_text(&obj)
    }
}

/// What a whole (non-streamed) completion reply denotes: the content of the
/// first choice's message.
pub open spec fn chat_reply_content(s: Seq<char>) -> Option<Seq<char>> {
    match p_doc(s) {
        Option::Some(JsonRep::Object(ms)) => match rep_lookup(ms, "choices"@) {
            Option::Some(JsonRep::Array(cs)) => if cs.len() > 0 {
                match cs[0] {
                    JsonRep::Object(c0) => match rep_lookup(c0, "message"@) {
                        Option::Some(JsonRep::Object(mm)) => match rep_lookup(mm, "content"@) {
                            Option::Some(JsonRep::Text(t)) => Some(t),
                            _ => None,
                        },
                        _ => None,
                    },
                    _ => None,
                }
            } else {
                None
            },
            _ => None,
        },
        _ => None,
    }
}

/// Reads the response text out of a whole completion reply: `Ok` exactly
/// when the reply carries a first choice whose message content is text.
pub fn extract_chat_content(reply: &str) -> (r: Result<String, RpcError>)
    ensures
        match r {
            Ok(s) => chat_reply_content(reply@) == Some(s@),
            Err(e) => chat_reply_content(reply@) is None && e is Decode,
        },
{
    let fail_m: &str = "completion reply carries no message content";
    match parse_json(reply) {
        Some(x) => {
            proof {
                if x is Object {
                    assert(JsonValue::Object(x->Object_0) == x);
                    crate::json::lemma_rep_of_object(x->Object_0);
                    crate::json::lemma_lookup_rep(x->Object_0@, "choices"@);
                }
            }
            match x.get("choices") {
                Some(cv) => match cv {
                    JsonValue::Array(cs) => {
                        if cs.len() == 0 {
                            proof {
                                crate::json::lemma_rep_of_array(cv->Array_0);
                                assert(JsonValue::Array(cv->Array_0) == *cv);
                            }
                            return Err(RpcError::Decode(fail_m.to_owned()));
                        }
                        proof {
                            crate::json::lemma_rep_of_array(cv->Array_0);
                            assert(JsonValue::Array(cv->Array_0) == *cv);
                            assert(rep_of(*cv)->Array_0[0] == rep_of(cs@[0]));
                        }
                        let c0 = &cs[0];
                        proof {
                            if c0 is Object {
                                assert(JsonValue::Object(c0->Object_0) == *c0);
                                crate::json::lemma_rep_of_object(c0->Object_0);
                                crate::json::lemma_lookup_rep(c0->Object_0@, "message"@);
                            }
                        }
                        match c0.get("message") {
                            Some(mv) => {
                                proof {
                                    if mv is Object {
                                        assert(JsonValue::Object(mv->Object_0) == *mv);
                                        crate::json::lemma_rep_of_object(mv->Object_0);
                                        crate::json::lemma_lookup_rep(mv->Object_0@, "content"@);
                                    }
                                }
                                match mv.get("content") {
                                    Some(tv) => match tv.as_text() {
                                        Some(s) => Ok(s.clone()),
                                        None => Err(RpcError::Decode(fail_m.to_owned())),
                                    },
                                    None => Err(RpcError::Decode(fail_m.to_owned())),
                                }
                            },
                            None => Err(RpcError::Decode(fail_m.to_owned())),
                        }
                    },
                    _ => Err(RpcError::Decode(fail_m.to_owned())),
                },
                None => Err(RpcError::Decode(fail_m.to_owned())),
            }
        },
        None => Err(RpcError::Decode(fail_m.to_owned())),
    }
}

/// What one stream line denotes: the content of the first choice's delta,
/// if the line is a `data:` line carrying one.
pub open spec fn stream_line_content(line: Seq<char>) -> Option<Seq<char>> {
    let t = crate::parser::spec_trim(line);
    if t.len() >= 6 && t.take(6) == "data: "@ {
        let body = t.skip(6);
        if body == "[DONE]"@ {
            None
        } else {
            match p_doc(body) {
                Option::Some(JsonRep::Object(ms)) => match rep_lookup(ms, "choices"@) {
                    Option::Some(JsonRep::Array(cs)) => if cs.len() > 0 {
                        match cs[0] {
                            JsonRep::Object(c0) => match rep_lookup(c0, "delta"@) {
                                Option::Some(JsonRep::Object(dm)) => match rep_lookup(
                                    dm,
                                    "content"@,
                                ) {
                                    Option::Some(JsonRep::Text(t)) => if t.len() > 0 {
                                        Some(t)
                                    } else {
                                        None
                                    },
                                    _ => None,
                                },
                                _ => None,
                            },
                            _ => None,
                        }
                    } else {
                        None
                    },
                    _ => None,
                },
                _ => None,
            }
        }
    } else {
        None
    }
}

/// Reads the content out of one stream line.
fn extract_stream_line(line: &str) -> (r: Option<String>)
    ensures
        match r {
            Some(s) => stream_line_content(line@) == Some(s@),
            None => stream_line_content(line@) is None,
        },
{
    let cs = chars_vec(line);
    let n = cs.len();
    let t = trim_slice(&cs, 0, n);
    proof {
        assert(cs@.subrange(0, n as int) =~= cs@);
    }
    let tc = chars_vec(t.as_str());
    let tn = tc.len();
    if tn < 6 {
        return None;
    }
    let p = tc[0] == 'd' && tc[1] == 'a' && tc[2] == 't' && tc[3] == 'a' && tc[4] == ':'
        && tc[5] == ' ';
    proof {
        reveal_strlit("data: ");
        let pre = tc@.take(6);
        assert(pre[0] == tc@[0] && pre[1] == tc@[1] && pre[2] == tc@[2] && pre[3] == tc@[3]
            && pre[4] == tc@[4] && pre[5] == tc@[5]);
        if p {
            assert(pre =~= "data: "@);
        } else {
            assert(pre != "data: "@);
        }
    }
    if !p {
        return None;
    }
    let body = substring_chars(&tc, 6, tn);
    proof {
        assert(tc@.subrange(6, tn as int) =~= tc@.skip(6));
    }
    let bc = chars_vec(body.as_str());
    let done = bc.len() == 6 && bc[0] == '[' && bc[1] == 'D' && bc[2] == 'O' && bc[3] == 'N'
        && bc[4] == 'E' && bc[5] == ']';
    proof {
        reveal_strlit("[DONE]");
        if bc@.len() == 6 {
            if done {
                assert(bc@ =~= "[DONE]"@);
            } else {
                assert(bc@ != "[DONE]"@);
            }
        } else {
            assert(bc@ != "[DONE]"@);
        }
    }
    if done {
        return None;
    }
    match parse_json(body.as_str()) {
        Some(x) => {
            proof {
                if x is Object {
                    assert(JsonValue::Object(x->Object_0) == x);
                    crate::json::lemma_rep_of_object(x->Object_0);
                    crate::json::lemma_lookup_rep(x->Object_0@, "choices"@);
                }
            }
            match x.get("choices") {
                Some(cv) => match cv {
                    JsonValue::Array(cs2) => {
                        if cs2.len() == 0 {
                            proof {
                                crate::json::lemma_rep_of_array(cv->Array_0);
                                assert(JsonValue::Array(cv->Array_0) == *cv);
                            }
                            return None;
                        }
                        proof {
                            crate::json::lemma_rep_of_array(cv->Array_0);
                            assert(JsonValue::Array(cv->Array_0) == *cv);
                            assert(rep_of(*cv)->Array_0[0] == rep_of(cs2@[0]));
                        }
                        let c0 = &cs2[0];
                        proof {
                            if c0 is Object {
                                assert(JsonValue::Object(c0->Object_0) == *c0);
                                crate::json::lemma_rep_of_object(c0->Object_0);
                                crate::json::lemma_lookup_rep(c0->Object_0@, "delta"@);
                            }
                        }
                        match c0.get("delta") {
                            Some(dv) => {
                                proof {
                                    if dv is Object {
                                        assert(JsonValue::Object(dv->Object_0) == *dv);
                                        crate::json::lemma_rep_of_object(dv->Object_0);
                                        crate::json::lemma_lookup_rep(dv->Object_0@, "content"@);
                                    }
                                }
                                match dv.get("content") {
                                    Some(tv) => match tv.as_text() {
                                        Some(s) => {
                                            if s.as_str().is_empty() {
                                                None
                                            } else {
                                                Some(s.clone())
                                            }
                                        },
                                        None => None,
                                    },
                                    None => None,
                                }
                            },
                            None => None,
                        }
                    },
                    _ => None,
                },
                None => None,
            }
        },
        None => None,
    }
}

/// What a whole stream chunk denotes: the concatenation of its lines'
/// contents, in order.
pub open spec fn stream_chunk_content(lines: Seq<Seq<char>>) -> Seq<char>
    decreases lines.len(),
{
    if lines.len() == 0 {
        Seq::empty()
    } else {
        (match stream_line_content(lines[0]) {
            Option::Some(c) => c,
            Option::None => Seq::empty(),
        }) + stream_chunk_content(lines.skip(1))
    }
}

/// The text split at newlines, the separators dropped.
pub open spec fn split_lines(s: Seq<char>) -> Seq<Seq<char>>
    decreases s.len(),
{
    match crate::parser::find_at(s, 0, seq!['\n']) {
        Option::Some(k) => if 0 <= k < s.len() {
            seq![s.take(k)] + split_lines(s.skip(k + 1))
        } else {
            seq![s]
        },
        Option::None => seq![s],
    }
}

/// Reads the response fragments out of one stream chunk: each `data:` line
/// contributes its delta content, in order.
pub fn extract_stream_content(chunk: &str) -> (r: String)
    ensures
        r@ == stream_chunk_content(split_lines(chunk@)),
{
    let cs = chars_vec(chunk);
    let n = cs.len();
    let mut out = String::new();
    let mut start: usize = 0;
    proof {
        assert(cs@.skip(0) =~= cs@);
        assert(out@ + stream_chunk_content(split_lines(cs@)) =~= stream_chunk_content(
            split_lines(cs@),
        ));
    }
    loop
        invariant
            start <= n,
            n == cs@.len(),
            cs@ == chunk@,
            out@ + stream_chunk_content(split_lines(cs@.skip(start as int))) == stream_chunk_content(
                split_lines(cs@),
            ),
        decreases n - start,
    {
        let ghost rem = cs@.skip(start as int);
        match find_nl(&cs, start) {
            Some(k) => {
                proof {
                    assert(rem.take(k - start) =~= cs@.subrange(start as int, k as int));
                    assert(rem.skip(k - start + 1) =~= cs@.skip(k + 1));
                    assert(split_lines(rem) == seq![rem.take(k - start)] + split_lines(
                        rem.skip(k - start + 1),
                    ));
                    assert(split_lines(rem)[0] == rem.take(k - start));
                    assert(split_lines(rem).skip(1) =~= split_lines(rem.skip(k - start + 1)));
                }
                let line = substring_chars(&cs, start, k);
                let ghost out_pre = out@;
                match extract_stream_line(line.as_str()) {
                    Some(frag) => {
                        out.append(frag.as_str());
                        proof {
                            assert(stream_chunk_content(split_lines(rem)) == frag@
                                + stream_chunk_content(split_lines(cs@.skip(k + 1))));
                            assert(out_pre + (frag@ + stream_chunk_content(
                                split_lines(cs@.skip(k + 1)),
                            )) =~= out@ + stream_chunk_content(split_lines(cs@.skip(k + 1))));
                        }
                    },
                    None => {
                        proof {
                            assert(stream_chunk_content(split_lines(rem)) == Seq::<char>::empty()
                                + stream_chunk_content(split_lines(cs@.skip(k + 1))));
                            assert(out_pre + (Seq::<char>::empty() + stream_chunk_content(
                                split_lines(cs@.skip(k + 1)),
                            )) =~= out@ + stream_chunk_content(split_lines(cs@.skip(k + 1))));
                        }
                    },
                }
                start = k + 1;
            },
            None => {
                proof {
                    assert(rem.take(n - start) =~= cs@.subrange(start as int, n as int));
                    assert(split_lines(rem) == seq![rem]);
                    assert(split_lines(rem).skip(1) =~= Seq::<Seq<char>>::empty());
                    assert(stream_chunk_content(Seq::<Seq<char>>::empty()) == Seq::<
                        char,
                    >::empty());
                }
                let line = substring_chars(&cs, start, n);
                proof {
                    assert(line@ == rem);
                }
                let ghost out_pre = out@;
                match extract_stream_line(line.as_str()) {
                    Some(frag) => {
                        out.append(frag.as_str());
                        proof {
                            assert(stream_chunk_content(split_lines(rem)) =~= frag@);
                            assert(out@ =~= out_pre + stream_chunk_content(split_lines(rem)));
                        }
                    },
                    None => {
                        proof {
                            assert(stream_chunk_content(split_lines(rem)) =~= Seq::<
                                char,
                            >::empty());
                            assert(out@ =~= out_pre + stream_chunk_content(split_lines(rem)));
                        }
                    },
                }
                return out;
            },
        }
    }
}

/// The first newline at or past `i`, executably.
fn find_nl(v: &Vec<char>, i: usize) -> (r: Option<usize>)
    requires
        i <= v@.len(),
    ensures
        match r {
            Some(k) => i <= k < v@.len() && crate::parser::find_at(
                v@.skip(i as int),
                0,
                seq!['\n'],
            ) == Some(k - i),
            None => crate::parser::find_at(v@.skip(i as int), 0, seq!['\n']) is None,
        },
{
    let n = v.len();
    let mut cur = i;
    while cur < n
        invariant
            i <= cur <= n,
            n == v@.len(),
            crate::parser::find_at(v@.skip(i as int), 0, seq!['\n']) == crate::parser::find_at(
                v@.skip(i as int),
                (cur - i) as int,
                seq!['\n'],
            ),
        decreases n - cur,
    {
        proof {
            let rem = v@.skip(i as int);
            let sub = rem.subrange(cur - i, cur - i + 1);
            assert(sub[0] == rem[cur - i]);
            assert(rem[cur - i] == v@[cur as int]);
            if v@[cur as int] == '\n' {
                assert(sub =~= seq!['\n']);
            } else {
                assert(sub != seq!['\n']);
            }
        }
        if v[cur] == '\n' {
            return Some(cur);
        }
        cur = cur + 1;
    }
    None
}

} // verus!
