use large_json_array::scanner::{separates, trailing_backslashes};
use large_json_array::JsonStream;

/// The texts of all elements that are complete in `chunks`, fed one by one.
fn texts(chunks: &[&[u8]]) -> Vec<String> {
    let mut stream = JsonStream::new();
    let mut found = Vec::new();
    for chunk in chunks {
        stream.ingest(chunk);
        while let Some(text) = stream.next_element_text() {
            found.push(String::from_utf8(text).unwrap());
        }
    }
    found
}

#[test]
fn text_of_each_element_is_exact() {
    assert_eq!(
        texts(&[br#"[{"foo":1}, {"bar":2}]"#]),
        vec![r#"{"foo":1}"#.to_string(), r#"{"bar":2}"#.to_string()]
    );
}

#[test]
fn inner_whitespace_is_kept_and_outer_is_dropped() {
    assert_eq!(
        texts(&[b" [ \n{ \"a\" : [ 1 , 2 ] }\t,\r\n,, { }  ] "]),
        vec!["{ \"a\" : [ 1 , 2 ] }".to_string(), "{ }".to_string()]
    );
}

#[test]
fn nested_braces_do_not_end_the_element() {
    assert_eq!(texts(&[br#"[{"a":{"b":1}}]"#]), vec![r#"{"a":{"b":1}}"#.to_string()]);
    assert_eq!(texts(&[b"[{{{}}{}}]"]), vec!["{{{}}{}}".to_string()]);
}

#[test]
fn escaped_quote_does_not_end_the_string() {
    assert_eq!(texts(&[br#"[{"s":"a\"b"}]"#]), vec![r#"{"s":"a\"b"}"#.to_string()]);
    assert_eq!(texts(&[br#"[{"s":"a\"}b"}]"#]), vec![r#"{"s":"a\"}b"}"#.to_string()]);
}

#[test]
fn even_run_of_backslashes_ends_the_string() {
    assert_eq!(
        texts(&[br#"[{"s":"a\\"}, {"t":"\\\\"}, {"u":"\\\""}]"#]),
        vec![
            r#"{"s":"a\\"}"#.to_string(),
            r#"{"t":"\\\\"}"#.to_string(),
            r#"{"u":"\\\""}"#.to_string()
        ]
    );
}

#[test]
fn every_cut_gives_the_same_texts() {
    let data: &[u8] = br#" [{"a":"}\"{"}, {"b":{"c":[{"d":"\\"}]}} ,{}]"#;
    let whole = texts(&[data]);
    assert_eq!(
        whole,
        vec![
            r#"{"a":"}\"{"}"#.to_string(),
            r#"{"b":{"c":[{"d":"\\"}]}}"#.to_string(),
            "{}".to_string()
        ]
    );
    for cut in 0..=data.len() {
        assert_eq!(texts(&[&data[..cut], &data[cut..]]), whole);
    }
    let bytes: Vec<&[u8]> = data.chunks(1).collect();
    assert_eq!(texts(&bytes), whole);
}

#[test]
fn element_cut_in_two_comes_once() {
    let mut stream = JsonStream::new();
    stream.ingest(b"[{\"a\":1");
    assert_eq!(stream.next_element_text(), None);
    assert_eq!(stream.pending_len(), 0);
    assert_eq!(stream.brace_depth(), 1);
    assert!(stream.array_opened());
    stream.ingest(b"}]");
    assert_eq!(stream.next_element_text(), Some(b"{\"a\":1}".to_vec()));
    assert_eq!(stream.brace_depth(), 0);
    assert_eq!(stream.pending_len(), 1);
    assert_eq!(stream.next_element_text(), None);
    assert_eq!(stream.pending_len(), 0);
}

#[test]
fn separators_after_an_element_are_consumed() {
    let mut stream = JsonStream::new();
    stream.ingest(b"[{} , \n\t,{}x");
    assert_eq!(stream.next_element_text(), Some(b"{}".to_vec()));
    assert_eq!(stream.pending_len(), 3);
    assert_eq!(stream.next_element_text(), Some(b"{}".to_vec()));
    assert_eq!(stream.pending_len(), 1);
    assert_eq!(stream.next_element_text(), None);
    assert_eq!(stream.pending_len(), 0);
}

#[test]
fn fresh_stream_has_seen_nothing() {
    let stream = JsonStream::new();
    assert_eq!(stream.brace_depth(), 0);
    assert!(!stream.in_string());
    assert!(!stream.array_opened());
    assert_eq!(stream.pending_len(), 0);
    assert!(!stream.is_finished());
}

#[test]
fn ingest_scans_nothing() {
    let mut stream = JsonStream::new();
    stream.ingest(b"[{\"a\":");
    assert_eq!(stream.pending_len(), 6);
    assert_eq!(stream.brace_depth(), 0);
    assert!(!stream.array_opened());
    stream.ingest(b"");
    assert_eq!(stream.pending_len(), 6);
    stream.ingest(b"1}");
    assert_eq!(stream.pending_len(), 8);
}

#[test]
fn state_is_kept_when_the_input_runs_out_inside_a_string() {
    let mut stream = JsonStream::new();
    stream.ingest(b"[{\"a\":\"x}");
    assert_eq!(stream.next_element_text(), None);
    assert!(stream.in_string());
    assert_eq!(stream.brace_depth(), 1);
    stream.ingest(b"\\");
    assert_eq!(stream.next_element_text(), None);
    stream.ingest(b"\"}");
    assert_eq!(stream.next_element_text(), None);
    assert!(stream.in_string());
    stream.ingest(b"\"}");
    assert_eq!(stream.next_element_text(), Some(b"{\"a\":\"x}\\\"}\"}".to_vec()));
    assert!(!stream.in_string());
}

#[test]
fn stray_closing_brace_is_ignored() {
    assert_eq!(texts(&[b"[}, {\"a\":1}, }} {}]"]), vec!["{\"a\":1}".to_string(), "{}".to_string()]);
    let mut stream = JsonStream::new();
    stream.ingest(b"}}}");
    assert_eq!(stream.next_element_text(), None);
    assert_eq!(stream.brace_depth(), 0);
}

#[test]
fn objects_without_an_array_around_them_are_found() {
    assert_eq!(texts(&[b"{\"a\":1} {\"b\":2}"]), vec!["{\"a\":1}".to_string(), "{\"b\":2}".to_string()]);
}

#[test]
fn first_bracket_empties_the_accumulator() {
    assert_eq!(texts(&[b"{\"a\":[1]}"]), vec!["1]}".to_string()]);
    assert_eq!(texts(&[b"{\"a\":[1], \"b\":[2]} [{\"c\":[3]}]"]), vec!["1], \"b\":[2]}".to_string(), "{\"c\":[3]}".to_string()]);
}

#[test]
fn bracket_inside_a_string_does_not_open_the_array() {
    let mut stream = JsonStream::new();
    stream.ingest(b"\"[\"");
    assert_eq!(stream.next_element_text(), None);
    assert!(!stream.array_opened());
    stream.ingest(b"[");
    assert_eq!(stream.next_element_text(), None);
    assert!(stream.array_opened());
}

#[test]
fn deep_nesting_is_counted() {
    let depth = 70_000usize;
    let mut data = vec![b'['];
    data.extend(std::iter::repeat(b'{').take(depth));
    let mut stream = JsonStream::new();
    stream.ingest(&data);
    assert_eq!(stream.next_element_text(), None);
    assert_eq!(stream.brace_depth(), depth as u128);
    let closing = vec![b'}'; depth - 1];
    stream.ingest(&closing);
    assert_eq!(stream.next_element_text(), None);
    assert_eq!(stream.brace_depth(), 1);
    stream.ingest(b"}");
    assert_eq!(stream.next_element_text().map(|t| t.len()), Some(2 * depth));
}

#[test]
fn trailing_backslashes_counts_the_run_at_the_end() {
    assert_eq!(trailing_backslashes(&b"".to_vec()), 0);
    assert_eq!(trailing_backslashes(&b"abc".to_vec()), 0);
    assert_eq!(trailing_backslashes(&b"abc\\".to_vec()), 1);
    assert_eq!(trailing_backslashes(&b"a\\bc\\\\".to_vec()), 2);
    assert_eq!(trailing_backslashes(&b"\\\\\\".to_vec()), 3);
    assert_eq!(trailing_backslashes(&b"\\\\\\x".to_vec()), 0);
}

#[test]
fn separates_is_whitespace_or_comma() {
    for b in 0u8..=255 {
        let expected = matches!(b, b' ' | b'\t' | b'\n' | 0x0C | b'\r' | b',');
        assert_eq!(separates(b), expected, "byte {}", b);
    }
}
