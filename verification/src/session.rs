//! The chat session: conversation history and the sequencing of one turn.
//!
//! The history is an append-only list of messages with one rollback
//! operation. A turn runs outside the library (the completion stream and
//! the tool calls are I/O); every decision inside it is made here, by
//! `TurnRunner`: which requests the assembled text carries, in which order
//! they run, and what text each outcome appends. With no tools client
//! attached, the assembled text is returned unchanged, byte for byte.

use vstd::prelude::*;

use crate::api::{messages_model, ChatMessage};
use crate::interface::{ToolParameters, ToolResult};
use crate::parser::{
    format_tool_result, parse_tool_calls, reqs_model, reqs_of_blocks, scan_blocks,
    spec_format_tool_result,
};
use crate::wire::{rpc_error_msg, RpcError};

verus! {

/// A conversation: ordered history, verbosity, and whether a tools client
/// is attached.
#[derive(Debug)]
pub struct ChatSession {
    pub api_key: String,
    pub messages: Vec<ChatMessage>,
    pub verbose: bool,
    pub tools_attached: bool,
}

impl ChatSession {
    /// A fresh session: empty history, no tools client.
    pub fn new(api_key: String, verbose: bool) -> (r: ChatSession)
        ensures
            r.messages@.len() == 0,
            r.verbose == verbose,
            !r.tools_attached,
            r.api_key == api_key,
    {
        ChatSession { api_key, messages: Vec::new(), verbose, tools_attached: false }
    }

    /// Marks a tools client as attached; detected requests will then run.
    pub fn set_tools_client(&mut self)
        ensures
            final(self).tools_attached,
            final(self).messages == old(self).messages,
            final(self).verbose == old(self).verbose,
            final(self).api_key == old(self).api_key,
    {
        self.tools_attached = true;
    }

    /// Whether a tools client is attached.
    pub fn has_tools(&self) -> (r: bool)
        ensures
            r == self.tools_attached,
    {
        self.tools_attached
    }

    /// Appends one user message.
    pub fn add_user_message(&mut self, content: String)
        ensures
            messages_model(final(self).messages@) == messages_model(old(self).messages@).push(
                ("user"@, content@),
            ),
            final(self).verbose == old(self).verbose,
            final(self).tools_attached == old(self).tools_attached,
            final(self).api_key == old(self).api_key,
    {
        let role: &str = "user";
        let ghost c = content@;
        self.messages.push(ChatMessage { role: role.to_owned(), content });
        proof {
            assert(messages_model(self.messages@) =~= messages_model(
                old(self).messages@,
            ).push(("user"@, c)));
        }
    }

    /// Appends one assistant message.
    pub fn add_assistant_message(&mut self, content: String)
        ensures
            messages_model(final(self).messages@) == messages_model(old(self).messages@).push(
                ("assistant"@, content@),
            ),
            final(self).verbose == old(self).verbose,
            final(self).tools_attached == old(self).tools_attached,
            final(self).api_key == old(self).api_key,
    {
        let role: &str = "assistant";
        let ghost c = content@;
        self.messages.push(ChatMessage { role: role.to_owned(), content });
        proof {
            assert(messages_model(self.messages@) =~= messages_model(
                old(self).messages@,
            ).push(("assistant"@, c)));
        }
    }

    /// Appends one system message.
    pub fn add_system_message(&mut self, content: String)
        ensures
            messages_model(final(self).messages@) == messages_model(old(self).messages@).push(
                ("system"@, content@),
            ),
            final(self).verbose == old(self).verbose,
            final(self).tools_attached == old(self).tools_attached,
            final(self).api_key == old(self).api_key,
    {
        let role: &str = "system";
        let ghost c = content@;
        self.messages.push(ChatMessage { role: role.to_owned(), content });
        proof {
            assert(messages_model(self.messages@) =~= messages_model(
                old(self).messages@,
            ).push(("system"@, c)));
        }
    }

    /// Rolls back the most recently appended message, if any.
    pub fn remove_last_message(&mut self)
        ensures
            old(self).messages@.len() == 0 ==> final(self).messages@ == old(self).messages@,
            old(self).messages@.len() > 0 ==> final(self).messages@ == old(
                self,
            ).messages@.drop_last(),
            final(self).verbose == old(self).verbose,
            final(self).tools_attached == old(self).tools_attached,
            final(self).api_key == old(self).api_key,
    {
        let _ = self.messages.pop();
        proof {
            if old(self).messages@.len() > 0 {
                assert(self.messages@ =~= old(self).messages@.drop_last());
            } else {
                assert(self.messages@ =~= old(self).messages@);
            }
        }
    }

    /// How many messages the history holds.
    pub fn message_count(&self) -> (r: usize)
        ensures
            r == self.messages@.len(),
    {
        self.messages.len()
    }

    /// Whether the session reports details.
    pub fn is_verbose(&self) -> (r: bool)
        ensures
            r == self.verbose,
    {
        self.verbose
    }
}

/// The text appended for one tool outcome: the rendered result, or the
/// inline failure note if the call itself failed.
pub open spec fn spec_outcome_text(name: Seq<char>, outcome: Result<ToolResult, RpcError>) -> Seq<
    char,
> {
    match outcome {
        Ok(res) => spec_format_tool_result(name, res.model()),
        Err(e) => "Tool `"@ + name + "` failed to execute: "@ + rpc_error_msg(e),
    }
}

/// One conversation turn after the completion stream has finished: the
/// assembled text, the requests it carries, and how far execution has got.
///
/// With no tools client attached no request is planned, so the finished
/// turn returns the assembled text unchanged, byte for byte.
#[derive(Debug)]
pub struct TurnRunner {
    pub content: String,
    pub requests: Vec<ToolParameters>,
    pub next: usize,
}

impl TurnRunner {
    /// Begins the tool phase of a turn over the complete assembled text.
    /// Detection is not incremental: it scans the whole text, here, once.
    pub fn start(full_text: String, has_tools: bool) -> (r: TurnRunner)
        ensures
            r.content@ == full_text@,
            r.next == 0,
            has_tools ==> reqs_model(r.requests@) == reqs_of_blocks(
                scan_blocks(full_text@, 0),
            ),
            !has_tools ==> r.requests@.len() == 0,
    {
        if has_tools {
            let requests = parse_tool_calls(full_text.as_str());
            TurnRunner { content: full_text, requests, next: 0 }
        } else {
            TurnRunner { content: full_text, requests: Vec::new(), next: 0 }
        }
    }

    /// The next request to execute, if any; requests run strictly in text
    /// order.
    pub fn pending(&self) -> (r: Option<&ToolParameters>)
        ensures
            match r {
                Some(p) => self.next < self.requests@.len() && *p == self.requests@[self.next as int],
                None => self.next >= self.requests@.len(),
            },
    {
        if self.next < self.requests.len() {
            Some(&self.requests[self.next])
        } else {
            None
        }
    }

    /// The progress fragment announced before the next request runs.
    pub fn progress_fragment(&self) -> (r: String)
        requires
            self.next < self.requests@.len(),
        ensures
            r@ == "\nRunning tool `"@ + self.requests@[self.next as int].name@ + "`...\n"@,
    {
        let mut out = String::new();
        out.append("\nRunning tool `");
        out.append(self.requests[self.next].name.as_str());
        out.append("`...\n");
        out
    }

    /// Records the outcome of the current request: the rendered text joins
    /// the turn's content, and the same two fragments go to the caller's
    /// sink. A failed call never aborts the remaining requests.
    pub fn record_outcome(&mut self, outcome: &Result<ToolResult, RpcError>) -> (frags: Vec<
        String,
    >)
        requires
            old(self).next < old(self).requests@.len(),
        ensures
            final(self).next == old(self).next + 1,
            final(self).requests == old(self).requests,
            frags@.len() == 2,
            frags@[0]@ == "\n\n"@,
            frags@[1]@ == spec_outcome_text(
                old(self).requests@[old(self).next as int].name@,
                *outcome,
            ),
            final(self).content@ == old(self).content@ + "\n\n"@ + frags@[1]@,
    {
        let rendered: String = match outcome {
            Ok(res) => format_tool_result(self.requests[self.next].name.as_str(), res),
            Err(e) => {
                let mut out = String::new();
                out.append("Tool `");
                out.append(self.requests[self.next].name.as_str());
                out.append("` failed to execute: ");
                let msg = e.message();
                out.append(msg.as_str());
                out
            },
        };
        let sep: &str = "\n\n";
        self.content.append(sep);
        self.content.append(rendered.as_str());
        let n = self.requests.len();
        proof {
            assert(self.next < n);
        }
        self.next = self.next + 1;
        let mut frags: Vec<String> = Vec::new();
        frags.push(sep.to_owned());
        frags.push(rendered);
        frags
    }

    /// Ends the turn: the assembled text plus everything the tool phase
    /// appended, in order.
    pub fn finish(self) -> (r: String)
        ensures
            r@ == self.content@,
    {
        self.content
    }
}

} // verus!
