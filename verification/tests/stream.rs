use large_json_array::{JsonError, JsonStream, Pull, ReadFailurePolicy};
use serde_json::Value;
use std::io::{Cursor, Read};

/// Pulls one element, reading from `reader` whenever the stream asks for input.
fn pull_from<R: Read>(
    stream: &mut JsonStream,
    reader: &mut R,
    chunk_size: usize,
) -> Option<Result<Value, JsonError>> {
    let mut buffer = vec![0u8; chunk_size];
    let mut pull = stream.next();
    loop {
        match pull {
            Pull::Item(item) => return Some(item),
            Pull::Finished => return None,
            Pull::NeedInput => {
                pull = match reader.read(&mut buffer) {
                    Ok(n) => stream.supply(Ok(&buffer[..n])),
                    Err(e) => stream.supply(Err(e)),
                };
            }
        }
    }
}

/// Everything that the stream yields for `data`, read in chunks of `chunk_size`.
fn all_values(data: &str, chunk_size: usize) -> Vec<Result<Value, JsonError>> {
    let mut reader = Cursor::new(data.as_bytes().to_vec());
    let mut stream = JsonStream::new();
    let mut found = Vec::new();
    while let Some(item) = pull_from(&mut stream, &mut reader, chunk_size) {
        found.push(item);
    }
    found
}

fn value(text: &str) -> Value {
    serde_json::from_str(text).unwrap()
}

/// A reader that fails once between two chunks.
struct Flaky {
    chunks: Vec<Vec<u8>>,
    at: usize,
    fail_before: usize,
    failed: bool,
}

impl Read for Flaky {
    fn read(&mut self, buffer: &mut [u8]) -> std::io::Result<usize> {
        if self.at == self.fail_before && !self.failed {
            self.failed = true;
            return Err(std::io::Error::new(std::io::ErrorKind::Other, "broken pipe"));
        }
        if self.at == self.chunks.len() {
            return Ok(0);
        }
        let chunk = &self.chunks[self.at];
        buffer[..chunk.len()].copy_from_slice(chunk);
        self.at += 1;
        Ok(chunk.len())
    }
}

#[test]
fn parses_simple_array() {
    let data = r#"[{"foo":1}, {"bar":2}]"#;
    let mut reader = Cursor::new(data);
    let mut it = JsonStream::new();
    assert_eq!(pull_from(&mut it, &mut reader, 1024).unwrap().unwrap()["foo"], 1);
    assert_eq!(pull_from(&mut it, &mut reader, 1024).unwrap().unwrap()["bar"], 2);
    assert!(pull_from(&mut it, &mut reader, 1024).is_none());
}

#[test]
fn yields_every_element_in_order() {
    let data = r#"[{"n":0},{"n":1},{"n":2},{"n":3},{"n":4}]"#;
    let found = all_values(data, 1024);
    assert_eq!(found.len(), 5);
    for (i, item) in found.iter().enumerate() {
        assert_eq!(item.as_ref().unwrap()["n"], i as u64);
    }
}

#[test]
fn chunk_size_does_not_matter() {
    let data = "  [ {\"a\": {\"b\": [1, {\"c\": \"}{\\\"\"}]}} ,\n {\"d\": \"x\\\\\"}, {\"e\":null} ]\n";
    let whole = all_values(data, data.len());
    assert_eq!(whole.len(), 3);
    assert_eq!(*whole[0].as_ref().unwrap(), value(r#"{"a":{"b":[1,{"c":"}{\""}]}}"#));
    assert_eq!(*whole[1].as_ref().unwrap(), value(r#"{"d":"x\\"}"#));
    assert_eq!(*whole[2].as_ref().unwrap(), value(r#"{"e":null}"#));
    for chunk_size in [1usize, 2, 3, 5, 7, 16] {
        let found = all_values(data, chunk_size);
        assert_eq!(found.len(), whole.len());
        for (a, b) in found.iter().zip(whole.iter()) {
            assert_eq!(a.as_ref().unwrap(), b.as_ref().unwrap());
        }
    }
}

#[test]
fn nested_object_is_one_value() {
    let found = all_values(r#"[{"a":{"b":1}}]"#, 4);
    assert_eq!(found.len(), 1);
    assert_eq!(*found[0].as_ref().unwrap(), value(r#"{"a":{"b":1}}"#));
    assert_eq!(found[0].as_ref().unwrap()["a"]["b"], 1);
}

#[test]
fn escaped_quote_stays_inside_the_string() {
    let found = all_values(r#"[{"s":"a\"b"}]"#, 1024);
    assert_eq!(found.len(), 1);
    assert_eq!(found[0].as_ref().unwrap()["s"], "a\"b");
}

#[test]
fn braces_and_commas_in_strings_are_text() {
    let found = all_values(r#"[{"s":"}, {\"x\": [{"}, {"t":"{{{"}]"#, 3);
    assert_eq!(found.len(), 2);
    assert_eq!(found[0].as_ref().unwrap()["s"], "}, {\"x\": [{");
    assert_eq!(found[1].as_ref().unwrap()["t"], "{{{");
}

#[test]
fn two_chunks_give_what_one_gives() {
    let mut split = JsonStream::new();
    assert!(matches!(split.next(), Pull::NeedInput));
    assert!(matches!(split.supply(Ok(b"[{\"a\":1")), Pull::NeedInput));
    let first = match split.supply(Ok(b"}]")) {
        Pull::Item(Ok(v)) => v,
        other => panic!("no element: {:?}", other),
    };
    assert!(matches!(split.next(), Pull::NeedInput));
    assert!(matches!(split.supply(Ok(b"")), Pull::Finished));

    let whole = all_values(r#"[{"a":1}]"#, 1024);
    assert_eq!(whole.len(), 1);
    assert_eq!(first, *whole[0].as_ref().unwrap());
    assert_eq!(first, value(r#"{"a":1}"#));
}

#[test]
fn empty_array_yields_nothing() {
    let mut reader = Cursor::new("[]");
    let mut stream = JsonStream::new();
    assert!(pull_from(&mut stream, &mut reader, 1024).is_none());
    assert!(stream.is_finished());
    assert!(pull_from(&mut stream, &mut reader, 1024).is_none());
}

#[test]
fn blank_array_yields_nothing() {
    assert_eq!(all_values("[   ]", 1024).len(), 0);
    assert_eq!(all_values("[   ]", 1).len(), 0);
    assert_eq!(all_values(" \n[ \t\r\n ]\n", 2).len(), 0);
}

#[test]
fn empty_input_yields_nothing() {
    assert_eq!(all_values("", 8).len(), 0);
}

#[test]
fn malformed_element_is_one_error() {
    let found = all_values("[{bad json}]", 1024);
    assert_eq!(found.len(), 1);
    assert!(matches!(found[0], Err(JsonError::Malformed(_))));
}

#[test]
fn malformed_element_does_not_block_the_next() {
    let found = all_values(r#"[{bad json}, {"ok":1}]"#, 1024);
    assert_eq!(found.len(), 2);
    assert!(matches!(found[0], Err(JsonError::Malformed(_))));
    assert_eq!(found[1].as_ref().unwrap()["ok"], 1);

    let bytewise = all_values(r#"[{bad json}, {"ok":1}, {"x":}, {"y":2}]"#, 1);
    assert_eq!(bytewise.len(), 4);
    assert!(matches!(bytewise[0], Err(JsonError::Malformed(_))));
    assert_eq!(bytewise[1].as_ref().unwrap()["ok"], 1);
    assert!(matches!(bytewise[2], Err(JsonError::Malformed(_))));
    assert_eq!(bytewise[3].as_ref().unwrap()["y"], 2);
}

#[test]
fn input_that_breaks_off_is_reported_once() {
    let mut reader = Cursor::new(r#"[{"a":1}, {"b":"#);
    let mut stream = JsonStream::new();
    assert_eq!(pull_from(&mut stream, &mut reader, 4).unwrap().unwrap()["a"], 1);
    let broken = pull_from(&mut stream, &mut reader, 4);
    assert!(matches!(broken, Some(Err(JsonError::TruncatedInput))));
    assert!(stream.is_finished());
    assert!(pull_from(&mut stream, &mut reader, 4).is_none());
    assert!(matches!(stream.next(), Pull::Finished));
    assert!(matches!(stream.supply(Ok(b"2}]")), Pull::Finished));
}

#[test]
fn missing_closing_bracket_is_no_truncation() {
    let found = all_values(r#"[{"a":1}, {"b":2}"#, 5);
    assert_eq!(found.len(), 2);
    assert_eq!(found[1].as_ref().unwrap()["b"], 2);
}

#[test]
fn end_of_input_is_acted_on_after_buffered_elements() {
    let mut stream = JsonStream::new();
    stream.ingest(br#"[{"a":1},{"b":2}]"#);
    assert!(matches!(stream.supply(Ok(b"")), Pull::Item(Ok(_))));
    assert!(!stream.is_finished());
    assert!(matches!(stream.next(), Pull::Item(Ok(_))));
    assert!(matches!(stream.next(), Pull::NeedInput));
    assert!(matches!(stream.supply(Ok(b"")), Pull::Finished));
    assert!(stream.is_finished());
}

#[test]
fn failed_read_is_reported_and_the_stream_stays_open() {
    let mut reader = Flaky {
        chunks: vec![b"[{\"a\":1}, {\"b".to_vec(), b"\":2}]".to_vec()],
        at: 0,
        fail_before: 1,
        failed: false,
    };
    let mut stream = JsonStream::new();
    assert_eq!(stream.policy(), ReadFailurePolicy::Continue);
    assert_eq!(pull_from(&mut stream, &mut reader, 64).unwrap().unwrap()["a"], 1);
    match pull_from(&mut stream, &mut reader, 64) {
        Some(Err(JsonError::Io(e))) => assert_eq!(e.kind(), std::io::ErrorKind::Other),
        other => panic!("no read failure: {:?}", other),
    }
    assert!(!stream.is_finished());
    assert_eq!(pull_from(&mut stream, &mut reader, 64).unwrap().unwrap()["b"], 2);
    assert!(pull_from(&mut stream, &mut reader, 64).is_none());
}

#[test]
fn failed_read_ends_a_fail_fast_stream() {
    let mut reader = Flaky {
        chunks: vec![b"[{\"a\":1}, {\"b".to_vec(), b"\":2}]".to_vec()],
        at: 0,
        fail_before: 1,
        failed: false,
    };
    let mut stream = JsonStream::with_policy(ReadFailurePolicy::FailFast);
    assert_eq!(stream.policy(), ReadFailurePolicy::FailFast);
    assert_eq!(pull_from(&mut stream, &mut reader, 64).unwrap().unwrap()["a"], 1);
    assert!(matches!(pull_from(&mut stream, &mut reader, 64), Some(Err(JsonError::Io(_)))));
    assert!(stream.is_finished());
    assert!(pull_from(&mut stream, &mut reader, 64).is_none());
    assert!(matches!(stream.supply(Ok(b"\":2}]")), Pull::Finished));
}

#[test]
fn character_split_between_chunks_is_kept_whole() {
    let data = "[{\"k\":\"h\u{e9}llo \u{4e16}\u{754c}\"}]";
    for chunk_size in [1usize, 2, 3, 4, 1024] {
        let found = all_values(data, chunk_size);
        assert_eq!(found.len(), 1);
        assert_eq!(found[0].as_ref().unwrap()["k"], "h\u{e9}llo \u{4e16}\u{754c}");
    }
}

#[test]
fn elements_that_are_no_objects_are_passed_over() {
    let found = all_values(r#"[1, "two", null, {"three":3}, [4], true]"#, 6);
    assert_eq!(found.len(), 1);
    assert_eq!(found[0].as_ref().unwrap()["three"], 3);
}

#[test]
fn find_object_in_buffer_parses_what_is_buffered() {
    let mut stream = JsonStream::new();
    assert!(stream.find_object_in_buffer().is_none());
    stream.ingest(br#"[{"foo":1}, {"ba"#);
    assert_eq!(stream.find_object_in_buffer().unwrap().unwrap()["foo"], 1);
    assert!(stream.find_object_in_buffer().is_none());
    assert_eq!(stream.pending_len(), 0);
    assert_eq!(stream.brace_depth(), 1);
    stream.ingest(br#"r":[2]}]"#);
    assert_eq!(stream.find_object_in_buffer().unwrap().unwrap()["bar"][0], 2);
    assert!(stream.find_object_in_buffer().is_none());
    assert_eq!(stream.brace_depth(), 0);
}
