//! The capability interface of a tool.
//!
//! A tool is a named unit of capability. Its `execute` operation must turn
//! every internal failure into a result with `success == false` and an
//! error text, so tool-level failures are always data, never faults.

use vstd::prelude::*;

use crate::json::{rep_of, JsonRep, JsonValue};

verus! {

/// The arguments of one tool invocation.
#[derive(Debug)]
pub struct ToolParameters {
    pub name: String,
    pub args: JsonValue,
}

impl ToolParameters {
    /// The mathematical model of a request: its name and argument value.
    pub open spec fn model(self) -> (Seq<char>, JsonRep) {
        (self.name@, rep_of(self.args))
    }
}

/// The outcome of one tool invocation.
#[derive(Debug)]
pub struct ToolResult {
    pub success: bool,
    pub data: JsonValue,
    pub error: Option<String>,
}

impl ToolResult {
    /// The mathematical model of a result.
    pub open spec fn model(self) -> (bool, JsonRep, Option<Seq<char>>) {
        (
            self.success,
            rep_of(self.data),
            match self.error {
                Some(e) => Some(e@),
                None => None,
            },
        )
    }
}

/// The contract every tool satisfies: a stable name, a description for
/// discovery, and a total `execute` that reports failure as data.
pub trait Tool {
    /// The dispatch key of the tool.
    fn name(&self) -> (r: String);

    /// The human-readable description exposed through discovery.
    fn description(&self) -> (r: String);

    /// Runs the tool. A failure is reported inside the returned result,
    /// never raised.
    fn execute(&self, params: ToolParameters) -> (r: ToolResult);
}

} // verus!
