//! The codec half of the tools client.
//!
//! The client owns the transport channel outside the library; what it puts
//! on the wire and how it reads replies is decided here. One dispatch call
//! carries one request and owes exactly one reply record.

use vstd::prelude::*;
use vstd::utf8::{decode_utf8, encode_utf8, valid_utf8};

use crate::interface::{ToolParameters, ToolResult};
use crate::json::rep_of;
use crate::ser::ser_rep;
use crate::wire::{
    bytes_to_text, decode_result, decode_result_rep, encode_request, request_rep, text_to_bytes,
    RpcError,
};

verus! {

/// The action tag and body bytes of one dispatch call.
pub fn build_execute_action(params: &ToolParameters) -> (r: (String, Vec<u8>))
    ensures
        r.0@ == "execute"@,
        r.1@ == encode_utf8(ser_rep(request_rep(params.name@, rep_of(params.args)))),
{
    let t: &str = "execute";
    let text = encode_request(params);
    (t.to_owned(), text_to_bytes(text.as_str()))
}

/// Reads the reply of one dispatch call: the one reply record's body as a
/// result; no record at all is its own failure.
pub fn decode_execute_reply(reply: Option<&Vec<u8>>) -> (r: Result<ToolResult, RpcError>)
    ensures
        match reply {
            Option::None => r matches Err(e) && e is NoResult,
            Option::Some(b) => if !valid_utf8(b@) {
                r matches Err(e) && e is Decode
            } else {
                match decode_result_rep(decode_utf8(b@)) {
                    Option::Some((success, data, error)) => r matches Ok(res) && res.success
                        == success && rep_of(res.data) == data && (match res.error {
                        Some(e) => Some(e@),
                        None => None,
                    }) == error,
                    Option::None => r matches Err(e) && e is Decode,
                }
            },
        },
{
    match reply {
        None => Err(RpcError::NoResult),
        Some(b) => match bytes_to_text(b.as_slice()) {
            None => {
                let m: &str = "reply is not valid text";
                Err(RpcError::Decode(m.to_owned()))
            },
            Some(text) => decode_result(text.as_str()),
        },
    }
}

/// Reads one discovery record's command bytes as a tool name.
pub fn decode_tool_name(cmd: &[u8]) -> (r: Result<String, RpcError>)
    ensures
        valid_utf8(cmd@) ==> (r matches Ok(s) && s@ == decode_utf8(cmd@)),
        !valid_utf8(cmd@) ==> (r matches Err(e) && e is Decode),
{
    match bytes_to_text(cmd) {
        Some(s) => Ok(s),
        None => {
            let m: &str = "tool name is not valid text";
            Err(RpcError::Decode(m.to_owned()))
        },
    }
}

} // verus!
