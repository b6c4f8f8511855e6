use rust_agent::api::{extract_chat_content, extract_stream_content, ChatMessage, ChatRequest};
use rust_agent::converter::{ConverterType, FileConverter};
use rust_agent::file_analyzer::{FileAnalysis, FileAnalyzerParams, FileAnalyzerTool};
use rust_agent::file_tool::{FileOperation, FileToolParams};
use rust_agent::parse::parse_json;
use rust_agent::ser::to_json_text;
use rust_agent::web_search::{build_search_url, parse_search_response, WebSearchParams, WebSearchTool};

#[test]
fn analyzer_params_decode() {
    let args = parse_json("{\"path\":\"/tmp\",\"recursive\":true}").expect("should parse");
    let p = FileAnalyzerParams::from_args(&args).expect("should decode");
    assert_eq!(p.path, "/tmp");
    assert!(p.recursive);
    let bad = parse_json("{\"path\":\"/tmp\"}").expect("should parse");
    assert!(FileAnalyzerParams::from_args(&bad).is_none());
}

#[test]
fn analysis_keeps_five_largest_in_descending_order() {
    let mut a = FileAnalysis::new();
    for (name, size) in [("a", 10), ("b", 50), ("c", 30), ("d", 70), ("e", 20), ("f", 60), ("g", 40)] {
        a.record_file(String::from(name), size);
        a.bump_extension("txt");
    }
    assert_eq!(a.file_count, 7);
    assert_eq!(a.total_size, 280);
    let sizes: Vec<u64> = a.largest_files.iter().map(|(_, s)| *s).collect();
    assert_eq!(sizes, vec![70, 60, 50, 40, 30]);
    assert_eq!(a.extension_stats, vec![(String::from("txt"), 7)]);
}

#[test]
fn analyses_merge_like_a_recursive_walk() {
    let mut a = FileAnalysis::new();
    a.record_file(String::from("top"), 100);
    a.bump_extension("rs");
    let mut sub = FileAnalysis::new();
    sub.record_file(String::from("inner1"), 300);
    sub.record_file(String::from("inner2"), 5);
    sub.bump_extension("rs");
    sub.bump_extension("md");
    a.merge(sub);
    assert_eq!(a.file_count, 3);
    assert_eq!(a.total_size, 405);
    let sizes: Vec<u64> = a.largest_files.iter().map(|(_, s)| *s).collect();
    assert_eq!(sizes, vec![300, 100, 5]);
    assert_eq!(
        a.extension_stats,
        vec![(String::from("rs"), 2), (String::from("md"), 1)]
    );
}

#[test]
fn analysis_renders_as_a_structured_value() {
    let mut a = FileAnalysis::new();
    a.record_file(String::from("x.rs"), 7);
    a.bump_extension("rs");
    let v = a.to_value();
    let text = to_json_text(&v);
    assert_eq!(
        text,
        "{\"total_size\":7,\"file_count\":1,\"extension_stats\":{\"rs\":1},\"largest_files\":[[\"x.rs\",7]]}"
    );
}

#[test]
fn converter_detection_follows_the_extension() {
    let c = FileConverter::new(true, true, true, true);
    assert_eq!(c.detect_converter_type("/a/b/report.DOCX"), Some(ConverterType::Document));
    assert_eq!(c.detect_converter_type("photo.jpeg"), Some(ConverterType::Image));
    assert_eq!(c.detect_converter_type("song.mp3"), Some(ConverterType::Media));
    assert_eq!(c.detect_converter_type("paper.pdf"), Some(ConverterType::PDF));
    assert_eq!(c.detect_converter_type("archive.zip"), None);
    assert_eq!(c.detect_converter_type("no_extension"), None);
    assert_eq!(c.detect_converter_type("/dir.d/noext"), None);
    assert_eq!(c.detect_converter_type(".hidden"), None);
}

#[test]
fn converter_availability_follows_the_probe() {
    let c = FileConverter::new(false, true, false, true);
    assert!(!c.available(&ConverterType::Document));
    assert!(c.available(&ConverterType::Image));
    assert!(!c.available(&ConverterType::Media));
    assert!(c.available(&ConverterType::PDF));
}

#[test]
fn file_tool_params_decode() {
    let args = parse_json(
        "{\"operation\":\"convert\",\"input\":\"a.doc\",\"output\":\"a.pdf\",\"options\":{\"format\":\"pdf\",\"quality\":\"high\"}}",
    )
    .expect("should parse");
    let p = FileToolParams::from_args(&args).expect("should decode");
    assert_eq!(p.operation, FileOperation::Convert);
    assert_eq!(p.input, "a.doc");
    assert_eq!(p.output.as_deref(), Some("a.pdf"));
    let o = p.options.expect("options present");
    assert_eq!(o.format, "pdf");
    assert_eq!(o.quality.as_deref(), Some("high"));
    let bad = parse_json("{\"operation\":\"explode\",\"input\":\"a\"}").expect("should parse");
    assert!(FileToolParams::from_args(&bad).is_none());
}

#[test]
fn search_params_decode_with_default_limit() {
    let args = parse_json("{\"query\":\"rust\",\"max_results\":2}").expect("should parse");
    let p = WebSearchParams::from_args(&args).expect("should decode");
    assert_eq!(p.query, "rust");
    assert_eq!(p.limit(), 2);
    let args2 = parse_json("{\"query\":\"rust\"}").expect("should parse");
    let p2 = WebSearchParams::from_args(&args2).expect("should decode");
    assert_eq!(p2.limit(), 5);
}

#[test]
fn search_url_percent_encodes_the_query() {
    assert_eq!(
        build_search_url("rust language?"),
        "https://api.duckduckgo.com/?q=rust%20language%3F&format=json&no_html=1&skip_disambig=1"
    );
    assert_eq!(
        build_search_url("safe-._~AZaz09"),
        "https://api.duckduckgo.com/?q=safe-._~AZaz09&format=json&no_html=1&skip_disambig=1"
    );
}

#[test]
fn search_reply_parses_into_capped_hits() {
    let reply = "{\"AbstractText\":\"An answer\",\"AbstractURL\":\"https://x\",\"RelatedTopics\":[{\"Text\":\"t1\",\"FirstURL\":\"u1\"},{\"NoText\":1},{\"Text\":\"t2\",\"FirstURL\":\"u2\"}]}";
    let out = parse_search_response(reply, 2).expect("should parse");
    assert_eq!(out.results.len(), 2);
    assert_eq!(out.results[0].title, "Primary result");
    assert_eq!(out.results[0].snippet, "An answer");
    assert_eq!(out.results[1].title, "t1");
    assert_eq!(out.results[1].link, "u1");
    assert!(parse_search_response("not json", 5).is_none());
}

#[test]
fn tools_expose_stable_names() {
    assert_eq!(FileAnalyzerTool::new().name(), "file_analyzer");
    assert_eq!(WebSearchTool::new().name(), "web_search");
}

#[test]
fn chat_request_renders_the_documented_body() {
    let req = ChatRequest {
        model: String::from("deepseek-chat"),
        messages: vec![ChatMessage { role: String::from("user"), content: String::from("hi") }],
        stream: false,
    };
    assert_eq!(
        req.to_wire_text(),
        "{\"model\":\"deepseek-chat\",\"messages\":[{\"role\":\"user\",\"content\":\"hi\"}],\"temperature\":0.7,\"stream\":false}"
    );
}

#[test]
fn chat_reply_content_comes_from_the_first_choice() {
    let reply = "{\"choices\":[{\"message\":{\"role\":\"assistant\",\"content\":\"hello\"}}]}";
    assert_eq!(extract_chat_content(reply).expect("should decode"), "hello");
    assert!(extract_chat_content("{\"choices\":[]}").is_err());
    assert!(extract_chat_content("nope").is_err());
}

#[test]
fn stream_chunks_concatenate_their_data_lines() {
    let chunk = "data: {\"choices\":[{\"delta\":{\"content\":\"Hel\"}}]}\n\ndata: {\"choices\":[{\"delta\":{\"content\":\"lo\"}}]}\ndata: [DONE]\n";
    assert_eq!(extract_stream_content(chunk), "Hello");
    assert_eq!(extract_stream_content(""), "");
    assert_eq!(extract_stream_content("ignored noise"), "");
}
