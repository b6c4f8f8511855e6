//! The tool registry and the decisions of the dispatch service.
//!
//! The service owns an append-only, ordered collection of registered tools.
//! Discovery returns every name in registration order; dispatch validates
//! the action tag, decodes the request, and looks the tool up by first
//! match. The transport around these decisions lives outside the library;
//! every decision itself is made here.

use vstd::prelude::*;
use vstd::utf8::{decode_utf8, valid_utf8};

use crate::interface::ToolParameters;
use crate::json::{rep_of, str_eq, JsonRep};
use crate::ser::ser_rep;
use crate::wire::{bytes_to_text, decode_request, decode_request_rep, RpcError};

verus! {

/// What discovery exposes of one registered tool.
#[derive(Debug)]
pub struct ToolDescriptor {
    pub name: String,
    pub description: String,
}

/// The dispatch service's shared state: the ordered tool registry.
#[derive(Debug)]
pub struct ToolsFlightService {
    tools: Vec<ToolDescriptor>,
}

impl View for ToolsFlightService {
    type V = Seq<(Seq<char>, Seq<char>)>;

    closed spec fn view(&self) -> Seq<(Seq<char>, Seq<char>)> {
        Seq::new(
            self.tools@.len(),
            |i: int|
                if 0 <= i < self.tools@.len() {
                    (self.tools@[i].name@, self.tools@[i].description@)
                } else {
                    (Seq::<char>::empty(), Seq::<char>::empty())
                },
        )
    }
}

/// The position of the first registered tool with the given name.
pub open spec fn first_index(tools: Seq<(Seq<char>, Seq<char>)>, name: Seq<char>) -> Option<int>
    decreases tools.len(),
{
    if tools.len() == 0 {
        None
    } else if tools[0].0 == name {
        Some(0)
    } else {
        match first_index(tools.skip(1), name) {
            Option::Some(k) => Some(k + 1),
            Option::None => None,
        }
    }
}

/// The discovery record of one tool: its name and description.
pub open spec fn info_rep(name: Seq<char>, description: Seq<char>) -> JsonRep {
    JsonRep::Object(
        seq![
            ("name"@, JsonRep::Text(name)),
            ("description"@, JsonRep::Text(description)),
        ],
    )
}

impl ToolsFlightService {
    /// A service with no tools registered yet.
    pub fn new() -> (r: ToolsFlightService)
        ensures
            r@ == Seq::<(Seq<char>, Seq<char>)>::empty(),
    {
        let r = ToolsFlightService { tools: Vec::new() };
        proof {
            assert(r@ =~= Seq::<(Seq<char>, Seq<char>)>::empty());
        }
        r
    }

    /// Appends a tool; the registry never shrinks and keeps order.
    pub fn register_tool(&mut self, tool: ToolDescriptor)
        ensures
            final(self)@ == old(self)@.push((tool.name@, tool.description@)),
    {
        let ghost pre = self@;
        let ghost nm = tool.name@;
        let ghost ds = tool.description@;
        self.tools.push(tool);
        proof {
            assert(self@ =~= pre.push((nm, ds)));
        }
    }

    /// Every registered name, in registration order.
    pub fn tool_names(&self) -> (r: Vec<String>)
        ensures
            r@.len() == self@.len(),
            forall|i: int| 0 <= i < r@.len() ==> (#[trigger] r@[i])@ == self@[i].0,
    {
        let n = self.tools.len();
        let mut out: Vec<String> = Vec::new();
        let mut i: usize = 0;
        while i < n
            invariant
                n == self.tools@.len(),
                i == out@.len() <= n,
                forall|j: int| 0 <= j < i ==> (#[trigger] out@[j])@ == self@[j].0,
            decreases n - i,
        {
            out.push(self.tools[i].name.clone());
            i = i + 1;
        }
        out
    }

    /// The one supported action and its description.
    pub fn action_types(&self) -> (r: (String, String))
        ensures
            r.0@ == "execute"@,
            r.1@ == "Execute a tool"@,
    {
        let t: &str = "execute";
        let d: &str = "Execute a tool";
        (t.to_owned(), d.to_owned())
    }

    /// The first registered tool carrying `name`, if any.
    pub fn find_tool(&self, name: &str) -> (r: Option<usize>)
        ensures
            match r {
                Some(i) => i < self@.len() && first_index(self@, name@) == Some(i as int),
                None => first_index(self@, name@) is None,
            },
    {
        let n = self.tools.len();
        let mut i: usize = 0;
        proof {
            assert(self@.skip(0) =~= self@);
        }
        while i < n
            invariant
                n == self.tools@.len(),
                i <= n,
                match first_index(self@.skip(i as int), name@) {
                    Option::Some(k) => first_index(self@, name@) == Some(k + i),
                    Option::None => first_index(self@, name@) is None,
                },
            decreases n - i,
        {
            proof {
                assert(self@.skip(i as int)[0] == self@[i as int]);
                assert(self@.skip(i as int).skip(1) =~= self@.skip(i + 1));
            }
            if str_eq(self.tools[i].name.as_str(), name) {
                return Some(i);
            }
            i = i + 1;
        }
        proof {
            assert(self@.skip(n as int) =~= Seq::<(Seq<char>, Seq<char>)>::empty());
        }
        None
    }

    /// The discovery reply for one ticket: the named tool's record, or why
    /// there is none. Bad bytes never reach the registry lookup.
    pub fn do_get_decide(&self, ticket: &[u8]) -> (r: Result<String, RpcError>)
        ensures
            !valid_utf8(ticket@) ==> (r matches Err(e) && e is Decode),
            valid_utf8(ticket@) ==> match first_index(self@, decode_utf8(ticket@)) {
                Option::Some(i) => r matches Ok(s) && s@ == ser_rep(
                    info_rep(self@[i].0, self@[i].1),
                ),
                Option::None => r matches Err(e) && e is NotFound,
            },
    {
        match bytes_to_text(ticket) {
            None => {
                let m: &str = "ticket is not valid text";
                Err(RpcError::Decode(m.to_owned()))
            },
            Some(name) => match self.find_tool(name.as_str()) {
                None => Err(RpcError::NotFound),
                Some(i) => {
                    let mut ms: Vec<(String, crate::json::JsonValue)> = Vec::new();
                    let nk: &str = "name";
                    ms.push((nk.to_owned(), crate::json::JsonValue::Text(
                        self.tools[i].name.clone(),
                    )));
                    let dk: &str = "description";
                    ms.push((dk.to_owned(), crate::json::JsonValue::Text(
                        self.tools[i].description.clone(),
                    )));
                    let obj = crate::json::JsonValue::Object(ms);
                    proof {
                        crate::json::lemma_rep_of_object(obj->Object_0);
                        assert(crate::json::JsonValue::Object(obj->Object_0) == obj);
                        assert(crate::json::rep_members(obj->Object_0@) =~= info_rep(
                            self@[i as int].0,
                            self@[i as int].1,
                        )->Object_0);
                    }
                    Ok(crate::ser::to_json_text(&obj))
                },
            },
        }
    }

    /// The dispatch decision for one action call. An unsupported tag is
    /// rejected before the registry is consulted; then the payload is
    /// decoded, and the named tool looked up by first match. The caller
    /// runs the chosen tool and encodes its result as the single reply.
    pub fn do_action_decide(&self, action_type: &str, body: &[u8]) -> (r: Result<
        (usize, ToolParameters),
        RpcError,
    >)
        ensures
            action_type@ != "execute"@ ==> (r matches Err(e) && e matches RpcError::InvalidArgument(
                m,
            ) && m@ == "Unsupported action type"@),
            action_type@ == "execute"@ && !valid_utf8(body@) ==> (r matches Err(e)
                && e is Decode),
            action_type@ == "execute"@ && valid_utf8(body@) ==> match decode_request_rep(
                decode_utf8(body@),
            ) {
                Option::Some((nm, args)) => match first_index(self@, nm) {
                    Option::Some(i) => r matches Ok(p) && p.0 == i && p.1.name@ == nm
                        && rep_of(p.1.args) == args && crate::json::wf_rep(args),
                    Option::None => r matches Err(e) && e is NotFound,
                },
                Option::None => r matches Err(e) && e is Decode,
            },
    {
        if !str_eq(action_type, "execute") {
            let m: &str = "Unsupported action type";
            return Err(RpcError::InvalidArgument(m.to_owned()));
        }
        match bytes_to_text(body) {
            None => {
                let m: &str = "action body is not valid text";
                Err(RpcError::Decode(m.to_owned()))
            },
            Some(text) => match decode_request(text.as_str()) {
                Err(e) => Err(e),
                Ok(params) => match self.find_tool(params.name.as_str()) {
                    None => Err(RpcError::NotFound),
                    Some(i) => Ok((i, params)),
                },
            },
        }
    }
}

} // verus!
