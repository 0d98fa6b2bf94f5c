use std::sync::Arc;

use orchix::cache::CacheKey;
use orchix::interception::{InterceptionConfig, Interceptor};
use orchix::json::Json;
use orchix::streaming::{find_newline, Step, StreamItem, StreamingAnalyzer, Upstream};

fn policy(names: &[&str]) -> Interceptor {
    Interceptor::new(InterceptionConfig {
        forbidden_tools: names.iter().map(|n| n.to_string()).collect(),
    })
}

fn analyzer(key: Option<CacheKey>) -> StreamingAnalyzer {
    StreamingAnalyzer::new(Arc::new(policy(&["rm_rf"])), key)
}

fn frame(payload: &str) -> StreamItem {
    StreamItem::Frame(payload.to_string())
}

/// Drives a transducer as a consumer would: the queue first, the source
/// only when the queue is empty. Returns every item up to the end of the
/// sequence, and whether a store was asked for.
fn run(analyzer: &mut StreamingAnalyzer, chunks: Vec<Vec<u8>>) -> (Vec<StreamItem>, bool) {
    let mut items = Vec::new();
    let mut stored = false;
    let mut source = chunks.into_iter();
    loop {
        if let Some(item) = analyzer.next_ready() {
            items.push(item);
            continue;
        }
        let event = match source.next() {
            Some(chunk) => Upstream::Chunk(chunk),
            None => Upstream::End,
        };
        let progress = analyzer.on_upstream(event);
        stored = stored || progress.store.is_some();
        match progress.step {
            Step::Item(item) => items.push(item),
            Step::Finished => return (items, stored),
            Step::NotReady { wake } => assert!(wake),
            Step::UpstreamFault => panic!("no fault was fed"),
        }
    }
}

#[test]
fn one_chunk_yields_two_frames() {
    let data = b"data: {\"a\":1}\n\ndata: [DONE]\n\n".to_vec();
    let (items, _) = run(&mut analyzer(None), vec![data]);
    assert_eq!(items, vec![frame("{\"a\":1}"), frame("[DONE]")]);
}

#[test]
fn every_split_point_yields_the_same_frames() {
    let data = b"data: {\"a\":1}\n\ndata: [DONE]\n\n".to_vec();
    let expected = vec![frame("{\"a\":1}"), frame("[DONE]")];
    for cut in 0..=data.len() {
        let chunks = vec![data[..cut].to_vec(), data[cut..].to_vec()];
        let mut a = analyzer(None);
        let (items, _) = run(&mut a, chunks);
        assert_eq!(items, expected);
        assert_eq!(a.get_full_response(), data);
    }
}

#[test]
fn byte_by_byte_yields_the_same_frames() {
    let data = b"data: {\"a\":1}\n\ndata: [DONE]\n\n".to_vec();
    let chunks: Vec<Vec<u8>> = data.iter().map(|b| vec![*b]).collect();
    let mut a = analyzer(None);
    let (items, _) = run(&mut a, chunks);
    assert_eq!(items, vec![frame("{\"a\":1}"), frame("[DONE]")]);
    assert_eq!(a.get_full_response(), data);
    assert!(a.buffer.is_empty());
}

#[test]
fn every_pair_of_split_points_yields_the_same_frames() {
    let data = b"data: {\"a\":1}\n\ndata: [DONE]\n\n".to_vec();
    let expected = vec![frame("{\"a\":1}"), frame("[DONE]")];
    for first in 0..=data.len() {
        for second in first..=data.len() {
            let chunks = vec![
                data[..first].to_vec(),
                data[first..second].to_vec(),
                data[second..].to_vec(),
            ];
            let (items, _) = run(&mut analyzer(None), chunks);
            assert_eq!(items, expected);
        }
    }
}

fn fixture() -> Vec<&'static str> {
    vec![
        r#"{"choices":[{"delta":{"content":"Hello, "}}]}"#,
        r#"{"choices":[{"delta":{"content":"this "}}]}"#,
        r#"{"choices":[{"delta":{"content":"is "}}]}"#,
        r#"{"choices":[{"delta":{"content":"a "}}]}"#,
        r#"{"choices":[{"delta":{"content":"stream. "}}]}"#,
        r#"{"choices":[{"delta":{"tool_calls":[{"index":0,"function":{"name":"get_weather"}}]}}]}"#,
        r#"{"choices":[{"delta":{"tool_calls":[{"index":1,"function":{"name":"rm_rf"}}]}}]}"#,
        "[DONE]",
    ]
}

#[test]
fn reference_fixture_stops_at_the_forbidden_tool() {
    let payloads = fixture();
    let mut a = analyzer(None);
    let mut items = Vec::new();
    'source: for payload in &payloads {
        let chunk = format!("data: {}\n\n", payload).into_bytes();
        loop {
            if let Some(item) = a.next_ready() {
                let fault = matches!(item, StreamItem::Fault(_));
                items.push(item);
                if fault {
                    break 'source;
                }
                continue;
            }
            break;
        }
        match a.on_upstream(Upstream::Chunk(chunk)).step {
            Step::Item(item) => {
                let fault = matches!(item, StreamItem::Fault(_));
                items.push(item);
                if fault {
                    break 'source;
                }
            }
            other => panic!("a frame was due, got {:?}", other),
        }
    }
    let mut expected: Vec<StreamItem> = payloads[..6].iter().map(|p| frame(p)).collect();
    expected.push(StreamItem::Fault(
        "Tool 'rm_rf' is blocked by Orchix security policy".to_string(),
    ));
    assert_eq!(items, expected);
    assert!(a.next_ready().is_none());
}

#[test]
fn violation_ends_the_pass_and_drops_the_lines_behind_it() {
    let payloads = fixture();
    let mut data = Vec::new();
    for payload in &payloads {
        data.extend_from_slice(format!("data: {}\n\n", payload).as_bytes());
    }
    data.extend_from_slice(b"data: unfin");
    let mut a = analyzer(None);
    let first = a.on_upstream(Upstream::Chunk(data.clone())).step;
    assert_eq!(first, Step::Item(frame(payloads[0])));
    let mut items = Vec::new();
    while let Some(item) = a.next_ready() {
        items.push(item);
    }
    assert_eq!(items.len(), 6);
    assert_eq!(
        items[5],
        StreamItem::Fault("Tool 'rm_rf' is blocked by Orchix security policy".to_string())
    );
    assert_eq!(a.buffer, b"data: unfin".to_vec());
    assert_eq!(a.get_full_response(), data);
    assert_eq!(a.on_upstream(Upstream::End).step, Step::Finished);
}

#[test]
fn pending_buffer_never_holds_a_line_feed() {
    let payloads = fixture();
    let mut data = Vec::new();
    for payload in &payloads {
        data.extend_from_slice(format!("data: {}\n\n", payload).as_bytes());
    }
    for size in 1..40 {
        let mut a = analyzer(None);
        for chunk in data.chunks(size) {
            let _ = a.on_upstream(Upstream::Chunk(chunk.to_vec()));
            assert!(!a.buffer.contains(&b'\n'));
            while a.next_ready().is_some() {}
        }
    }
}

#[test]
fn chunk_after_a_fault_is_still_processed() {
    let mut a = analyzer(None);
    let bad = br#"data: {"choices":[{"delta":{"function_call":{"name":"rm_rf"}}}]}
data: dropped
"#
    .to_vec();
    let step = a.on_upstream(Upstream::Chunk(bad)).step;
    assert_eq!(
        step,
        Step::Item(StreamItem::Fault(
            "Function 'rm_rf' is blocked by Orchix security policy".to_string()
        ))
    );
    assert_eq!(a.next_ready(), None);
    assert!(a.buffer.is_empty());
    let step = a.on_upstream(Upstream::Chunk(b"data: later\n".to_vec())).step;
    assert_eq!(step, Step::Item(frame("later")));
}

#[test]
fn protocol_noise_and_blank_lines_are_dropped() {
    let data = b": comment\nid: 7\nevent: x\n\n   \ndata:no-space\ndata: kept\n".to_vec();
    let (items, _) = run(&mut analyzer(None), vec![data]);
    assert_eq!(items, vec![frame("kept")]);
}

#[test]
fn payload_that_is_not_json_passes_unchanged() {
    let data = b"data: {not json rm_rf\ndata: plain text\n".to_vec();
    let (items, _) = run(&mut analyzer(None), vec![data]);
    assert_eq!(items, vec![frame("{not json rm_rf"), frame("plain text")]);
}

#[test]
fn payload_keeps_its_text_not_a_rewritten_form() {
    let data = b"data: { \"b\" : 1 ,  \"a\" : [ 1.0 ] }\n".to_vec();
    let (items, _) = run(&mut analyzer(None), vec![data]);
    assert_eq!(items, vec![frame("{ \"b\" : 1 ,  \"a\" : [ 1.0 ] }")]);
}

#[test]
fn lines_are_trimmed_of_unicode_white_space() {
    let spaces = [
        '\u{9}', '\u{b}', '\u{c}', '\u{d}', ' ', '\u{85}', '\u{a0}', '\u{1680}', '\u{2000}',
        '\u{2005}', '\u{200a}', '\u{2028}', '\u{2029}', '\u{202f}', '\u{205f}', '\u{3000}',
    ];
    for c in spaces {
        let data = format!("{}data: x{}\r\n", c, c).into_bytes();
        let (items, _) = run(&mut analyzer(None), vec![data]);
        assert_eq!(items, vec![frame("x")]);
    }
    let kept = ['\u{8}', '\u{e}', '\u{1f}', '\u{84}', '\u{86}', '\u{180e}', '\u{200b}', '\u{feff}'];
    for c in kept {
        let data = format!("data: x{}\n", c).into_bytes();
        let (items, _) = run(&mut analyzer(None), vec![data]);
        assert_eq!(items, vec![frame(&format!("x{}", c))]);
        let data = format!("{}data: x\n", c).into_bytes();
        let (items, _) = run(&mut analyzer(None), vec![data]);
        assert_eq!(items, Vec::new());
    }
}

#[test]
fn ill_formed_bytes_are_replaced_in_the_payload() {
    let data = vec![b'd', b'a', b't', b'a', b':', b' ', b'a', 0xff, b'b', b'\n'];
    let (items, _) = run(&mut analyzer(None), vec![data.clone()]);
    assert_eq!(items, vec![frame("a\u{fffd}b")]);
    let mut a = analyzer(None);
    let _ = run(&mut a, vec![data.clone()]);
    assert_eq!(a.get_full_response(), data);
}

#[test]
fn dangling_last_line_is_dropped_at_the_end() {
    let mut a = analyzer(None);
    let (items, _) = run(&mut a, vec![b"data: one\ndata: two".to_vec()]);
    assert_eq!(items, vec![frame("one")]);
    assert_eq!(a.buffer, b"data: two".to_vec());
    assert_eq!(a.get_full_response(), b"data: one\ndata: two".to_vec());
}

#[test]
fn incomplete_line_is_not_ready_and_asks_to_be_woken() {
    let mut a = analyzer(None);
    let progress = a.on_upstream(Upstream::Chunk(b"data: par".to_vec()));
    assert_eq!(progress.step, Step::NotReady { wake: true });
    assert!(progress.store.is_none());
    let progress = a.on_upstream(Upstream::Chunk(b"tial\n".to_vec()));
    assert_eq!(progress.step, Step::Item(frame("partial")));
}

#[test]
fn pending_source_is_passed_on_without_a_wake() {
    let mut a = analyzer(None);
    let _ = a.on_upstream(Upstream::Chunk(b"data: par".to_vec()));
    let progress = a.on_upstream(Upstream::Pending);
    assert_eq!(progress.step, Step::NotReady { wake: false });
    assert!(progress.store.is_none());
    assert_eq!(a.buffer, b"data: par".to_vec());
}

#[test]
fn upstream_fault_is_forwarded_and_nothing_is_stored() {
    let mut a = analyzer(Some(CacheKey::new("/s", b"")));
    let _ = a.on_upstream(Upstream::Chunk(b"data: par".to_vec()));
    let progress = a.on_upstream(Upstream::Fault);
    assert_eq!(progress.step, Step::UpstreamFault);
    assert!(progress.store.is_none());
    assert!(a.cache_info.is_some());
}

#[test]
fn clean_end_hands_out_the_raw_response_once() {
    let key = CacheKey::new("/v1/stream_test", b"");
    let mut a = analyzer(Some(key.clone()));
    let data = b"data: {\"a\":1}\n\n: noise\ndata: [DONE]\n\n".to_vec();
    let first = a.on_upstream(Upstream::Chunk(data.clone()));
    assert!(first.store.is_none());
    assert_eq!(first.step, Step::Item(frame("{\"a\":1}")));
    assert_eq!(a.next_ready(), Some(frame("[DONE]")));
    assert_eq!(a.next_ready(), None);
    let end = a.on_upstream(Upstream::End);
    assert_eq!(end.step, Step::Finished);
    let (stored_key, response) = end.store.expect("a clean end stores the response");
    assert_eq!(stored_key, key);
    assert_eq!(response.status, 200);
    assert_eq!(
        response.headers,
        vec![("content-type".to_string(), "text/event-stream".to_string())]
    );
    assert_eq!(response.body, data);
    let again = a.on_upstream(Upstream::End);
    assert!(again.store.is_none());
    assert_eq!(again.step, Step::Finished);
}

#[test]
fn stream_dropped_before_its_end_stores_nothing() {
    let mut a = analyzer(Some(CacheKey::new("/v1/stream_test", b"")));
    let mut stored = false;
    for chunk in [b"data: one\n".to_vec(), b"data: two\n".to_vec(), b"data: thr".to_vec()] {
        while a.next_ready().is_some() {}
        stored = stored || a.on_upstream(Upstream::Chunk(chunk)).store.is_some();
    }
    assert!(!stored);
    assert!(a.cache_info.is_some());
    drop(a);
}

#[test]
fn stream_without_cache_target_stores_nothing() {
    let (_, stored) = run(&mut analyzer(None), vec![b"data: one\n".to_vec()]);
    assert!(!stored);
}

#[test]
fn frames_keep_the_order_of_their_lines() {
    let mut data = Vec::new();
    let mut expected = Vec::new();
    for i in 0..50 {
        data.extend_from_slice(format!("data: {{\"n\":{}}}\n\n", i).as_bytes());
        expected.push(frame(&format!("{{\"n\":{}}}", i)));
    }
    let chunks: Vec<Vec<u8>> = data.chunks(7).map(|c| c.to_vec()).collect();
    let (items, _) = run(&mut analyzer(None), chunks);
    assert_eq!(items, expected);
}

#[test]
fn forbidden_legacy_function_in_a_delta_is_a_fault() {
    let data = br#"data: {"choices":[{"delta":{}},{"delta":{"function_call":{"name":"rm_rf"}}}]}
"#
    .to_vec();
    let (items, _) = run(&mut analyzer(None), vec![data]);
    assert_eq!(
        items,
        vec![StreamItem::Fault(
            "Function 'rm_rf' is blocked by Orchix security policy".to_string()
        )]
    );
}

#[test]
fn forbidden_name_outside_a_delta_is_not_a_fault() {
    let payload = r#"{"tool_calls":[{"function":{"name":"rm_rf"}}],"choices":[{"message":{"tool_calls":[{"function":{"name":"rm_rf"}}]}}]}"#;
    let data = format!("data: {}\n", payload).into_bytes();
    let (items, _) = run(&mut analyzer(None), vec![data]);
    assert_eq!(items, vec![frame(payload)]);
}

#[test]
fn judge_takes_the_parsed_frame_as_given() {
    let a = analyzer(None);
    let call = Json::Object(vec![(
        "function".to_string(),
        Json::Object(vec![("name".to_string(), Json::Text("rm_rf".to_string()))]),
    )]);
    let delta = Json::Object(vec![("tool_calls".to_string(), Json::Array(vec![call]))]);
    let choice = Json::Object(vec![("delta".to_string(), delta)]);
    let parsed = Json::Object(vec![("choices".to_string(), Json::Array(vec![choice]))]);
    assert_eq!(
        a.content_interception(&parsed),
        Err("Tool 'rm_rf' is blocked by Orchix security policy".to_string())
    );
    assert_eq!(
        a.judge("anything", Some(&parsed)),
        StreamItem::Fault("Tool 'rm_rf' is blocked by Orchix security policy".to_string())
    );
    assert_eq!(a.judge("[DONE]", Some(&parsed)), frame("[DONE]"));
    assert_eq!(a.judge("anything", None), frame("anything"));
    assert_eq!(a.content_interception(&Json::Null), Ok(()));
}

#[test]
fn judge_line_skips_what_is_not_data() {
    let a = analyzer(None);
    assert_eq!(a.judge_line(&b"\n".to_vec()), None);
    assert_eq!(a.judge_line(&b"event: x\n".to_vec()), None);
    assert_eq!(a.judge_line(&b"data: \n".to_vec()), None);
    assert_eq!(a.judge_line(&b"data: x\n".to_vec()), Some(frame("x")));
    assert_eq!(a.judge_line(&b"data:  x\n".to_vec()), Some(frame(" x")));
}

#[test]
fn find_newline_gives_the_first_line_feed() {
    assert_eq!(find_newline(&b"".to_vec()), None);
    assert_eq!(find_newline(&b"abc".to_vec()), None);
    assert_eq!(find_newline(&b"\n".to_vec()), Some(0));
    assert_eq!(find_newline(&b"ab\ncd\n".to_vec()), Some(2));
    assert_eq!(find_newline(&b"ab\r\n".to_vec()), Some(3));
}

#[test]
fn try_upstream_takes_what_fits() {
    let mut a = analyzer(None);
    assert!(a.has_room(0));
    assert!(a.has_room(usize::MAX));
    let progress = a.try_upstream(Upstream::Chunk(b"data: one\nda".to_vec())).expect("fits");
    assert_eq!(progress.step, Step::Item(frame("one")));
    assert_eq!(a.buffer, b"da".to_vec());
    assert!(a.has_room(usize::MAX - 12));
    assert!(!a.has_room(usize::MAX - 11));
    assert!(!a.has_room(usize::MAX));
    let progress = a.try_upstream(Upstream::Pending).expect("no chunk");
    assert_eq!(progress.step, Step::NotReady { wake: false });
    let progress = a.try_upstream(Upstream::End).expect("no chunk");
    assert_eq!(progress.step, Step::Finished);
}
