//! The file-processing tool's data model.
//!
//! Running the conversion programs happens outside the library; which
//! operation a request asks for, and with which options, is decoded here.

use vstd::prelude::*;

use crate::json::{rep_lookup, rep_of, JsonRep, JsonValue};

verus! {

/// What a file request asks for. Only conversion is implemented; the
/// remaining operations are recognised and reported as unavailable.
#[derive(Debug, PartialEq, Eq, Structural)]
pub enum FileOperation {
    Convert,
    Compress,
    Decompress,
    Rename,
    Organize,
}

/// How a conversion should be performed.
#[derive(Debug)]
pub struct ConvertOptions {
    pub format: String,
    pub quality: Option<String>,
    pub page_range: Option<String>,
    pub extra_args: Vec<String>,
}

/// The arguments of one file request.
#[derive(Debug)]
pub struct FileToolParams {
    pub operation: FileOperation,
    pub input: String,
    pub output: Option<String>,
    pub options: Option<ConvertOptions>,
}

/// The operation a tag names, if any.
pub open spec fn operation_of(t: Seq<char>) -> Option<FileOperation> {
    if t == "convert"@ {
        Some(FileOperation::Convert)
    } else if t == "compress"@ {
        Some(FileOperation::Compress)
    } else if t == "decompress"@ {
        Some(FileOperation::Decompress)
    } else if t == "rename"@ {
        Some(FileOperation::Rename)
    } else if t == "organize"@ {
        Some(FileOperation::Organize)
    } else {
        None
    }
}

/// Reads an operation tag.
fn operation_from(t: &str) -> (r: Option<FileOperation>)
    ensures
        r == operation_of(t@),
{
    if crate::json::str_eq(t, "convert") {
        Some(FileOperation::Convert)
    } else if crate::json::str_eq(t, "compress") {
        Some(FileOperation::Compress)
    } else if crate::json::str_eq(t, "decompress") {
        Some(FileOperation::Decompress)
    } else if crate::json::str_eq(t, "rename") {
        Some(FileOperation::Rename)
    } else if crate::json::str_eq(t, "organize") {
        Some(FileOperation::Organize)
    } else {
        None
    }
}

/// An optional member read leniently as text: a text value carries over,
/// anything else reads as absent.
pub open spec fn text_or_none(o: Option<JsonRep>, out: Option<Seq<char>>) -> bool {
    match o {
        Option::Some(JsonRep::Text(t)) => out == Some(t),
        _ => out is None,
    }
}

impl ConvertOptions {
    /// Reads conversion options out of an argument member: an object with
    /// a text `format` and optional text `quality` and `page_range`. Extra
    /// arguments are not part of the structured surface and stay empty.
    pub fn from_value(v: &JsonValue) -> (r: Option<ConvertOptions>)
        ensures
            match r {
                Some(o) => ({
                    &&& rep_of(*v) matches JsonRep::Object(ms)
                    &&& rep_lookup(ms, "format"@) == Some(JsonRep::Text(o.format@))
                    &&& text_or_none(
                        rep_lookup(ms, "quality"@),
                        match o.quality {
                            Some(q) => Some(q@),
                            None => None,
                        },
                    )
                    &&& text_or_none(
                        rep_lookup(ms, "page_range"@),
                        match o.page_range {
                            Some(p) => Some(p@),
                            None => None,
                        },
                    )
                    &&& o.extra_args@.len() == 0
                }),
                None => !({
                    &&& rep_of(*v) matches JsonRep::Object(ms)
                    &&& rep_lookup(ms, "format"@) matches Some(fv)
                    &&& fv is Text
                }),
            },
    {
        proof {
            if v is Object {
                assert(JsonValue::Object(v->Object_0) == *v);
                crate::json::lemma_rep_of_object(v->Object_0);
                crate::json::lemma_lookup_rep(v->Object_0@, "format"@);
                crate::json::lemma_lookup_rep(v->Object_0@, "quality"@);
                crate::json::lemma_lookup_rep(v->Object_0@, "page_range"@);
            }
        }
        let format: String = match v.get("format") {
            Some(fv) => match fv.as_text() {
                Some(s) => s.clone(),
                None => {
                    return None;
                },
            },
            None => {
                return None;
            },
        };
        let quality: Option<String> = match v.get("quality") {
            Some(qv) => match qv.as_text() {
                Some(s) => Some(s.clone()),
                None => None,
            },
            None => None,
        };
        let page_range: Option<String> = match v.get("page_range") {
            Some(pv) => match pv.as_text() {
                Some(s) => Some(s.clone()),
                None => None,
            },
            None => None,
        };
        Some(ConvertOptions { format, quality, page_range, extra_args: Vec::new() })
    }
}

impl FileToolParams {
    /// Reads the parameters out of a request's argument value: an object
    /// with an operation tag, a text `input`, and optional `output` and
    /// `options` members.
    pub fn from_args(args: &JsonValue) -> (r: Option<FileToolParams>)
        ensures
            match r {
                Some(p) => ({
                    &&& rep_of(*args) matches JsonRep::Object(ms)
                    &&& rep_lookup(ms, "operation"@) matches Some(ov)
                    &&& ov is Text
                    &&& operation_of(ov->Text_0) == Some(p.operation)
                    &&& rep_lookup(ms, "input"@) == Some(JsonRep::Text(p.input@))
                    &&& text_or_none(
                        rep_lookup(ms, "output"@),
                        match p.output {
                            Some(o) => Some(o@),
                            None => None,
                        },
                    )
                }),
                None => !({
                    &&& rep_of(*args) matches JsonRep::Object(ms)
                    &&& rep_lookup(ms, "operation"@) matches Some(ov)
                    &&& ov is Text
                    &&& operation_of(ov->Text_0) is Some
                    &&& rep_lookup(ms, "input"@) matches Some(iv)
                    &&& iv is Text
                }),
            },
    {
        proof {
            if args is Object {
                assert(JsonValue::Object(args->Object_0) == *args);
                crate::json::lemma_rep_of_object(args->Object_0);
                crate::json::lemma_lookup_rep(args->Object_0@, "operation"@);
                crate::json::lemma_lookup_rep(args->Object_0@, "input"@);
                crate::json::lemma_lookup_rep(args->Object_0@, "output"@);
            }
        }
        let operation: FileOperation = match args.get("operation") {
            Some(ov) => match ov.as_text() {
                Some(s) => match operation_from(s.as_str()) {
                    Some(op) => op,
                    None => {
                        return None;
                    },
                },
                None => {
                    return None;
                },
            },
            None => {
                return None;
            },
        };
        let input: String = match args.get("input") {
            Some(iv) => match iv.as_text() {
                Some(s) => s.clone(),
                None => {
                    return None;
                },
            },
            None => {
                return None;
            },
        };
        let output: Option<String> = match args.get("output") {
            Some(ov) => match ov.as_text() {
                Some(s) => Some(s.clone()),
                None => None,
            },
            None => None,
        };
        let options: Option<ConvertOptions> = match args.get("options") {
            Some(ov) => ConvertOptions::from_value(ov),
            None => None,
        };
        Some(FileToolParams { operation, input, output, options })
    }
}

/// What a finished file operation reports.
#[derive(Debug)]
pub struct FileToolResponse {
    pub success: bool,
    pub message: String,
    pub output_path: Option<String>,
}

impl FileToolResponse {
    /// The response as a structured value, ready to carry in a result.
    pub fn to_value(&self) -> (r: JsonValue)
        ensures
            r is Object,
    {
        let mut ms: Vec<(String, JsonValue)> = Vec::new();
        let k1: &str = "success";
        ms.push((k1.to_owned(), JsonValue::Bool(self.success)));
        let k2: &str = "message";
        ms.push((k2.to_owned(), JsonValue::Text(self.message.clone())));
        let k3: &str = "output_path";
        let ov = match &self.output_path {
            Some(p) => JsonValue::Text(p.clone()),
            None => JsonValue::Null,
        };
        ms.push((k3.to_owned(), ov));
        JsonValue::Object(ms)
    }
}

/// The file-processing tool: its identity; the external programs run
/// outside the library.
#[derive(Debug)]
pub struct FileTool {
    pub converter: crate::converter::FileConverter,
}

impl FileTool {
    /// A file tool over the given converter table.
    pub fn new(converter: crate::converter::FileConverter) -> (r: FileTool) {
        FileTool { converter }
    }

    /// The dispatch key of the tool.
    pub fn name(&self) -> (r: String)
        ensures
            r@ == "file_tool"@,
    {
        let s: &str = "file_tool";
        s.to_owned()
    }

    /// The description exposed through discovery.
    pub fn description(&self) -> (r: String)
        ensures
            r@ == "Converts files between formats using local programs"@,
    {
        let s: &str = "Converts files between formats using local programs";
        s.to_owned()
    }
}

} // verus!
