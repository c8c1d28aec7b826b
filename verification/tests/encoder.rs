use rmpv::Value;
use tracer::encoder::{encode, encode_record, encode_span, encode_trace, pin_batch, unpin_batch};
use tracer::gc::GarbageCollector;
use tracer::span::{Span, SpanError, SpanStore};

fn text(s: &str) -> String {
    s.to_string()
}

fn decode(bytes: &[u8]) -> Value {
    let mut rest = bytes;
    let value = rmpv::decode::read_value(&mut rest).unwrap();
    assert!(rest.is_empty());
    value
}

fn record_bytes(span: &Span) -> Vec<u8> {
    let mut buf = Vec::new();
    encode_record(&mut buf, span);
    buf
}

fn entries(value: &Value) -> Vec<(String, Value)> {
    value
        .as_map()
        .unwrap()
        .iter()
        .map(|(k, v)| (k.as_str().unwrap().to_string(), v.clone()))
        .collect()
}

fn field(value: &Value, key: &str) -> Value {
    let found: Vec<Value> = entries(value)
        .into_iter()
        .filter(|(k, _)| k == key)
        .map(|(_, v)| v)
        .collect();
    assert_eq!(found.len(), 1);
    found[0].clone()
}

fn keys(value: &Value) -> Vec<String> {
    entries(value).into_iter().map(|(k, _)| k).collect()
}

const MANDATORY: [&str; 9] = [
    "trace_id",
    "parent_id",
    "span_id",
    "service",
    "resource",
    "name",
    "error",
    "start",
    "duration",
];

#[test]
fn unset_record_is_nine_keys_of_absent_values() {
    let bytes = record_bytes(&Span::new());
    let mut expected: Vec<u8> = vec![0x89];
    for key in MANDATORY {
        expected.push(0xa0 + key.len() as u8);
        expected.extend_from_slice(key.as_bytes());
        expected.push(if key == "error" { 0x00 } else { 0xc0 });
    }
    assert_eq!(bytes, expected);

    let value = decode(&bytes);
    assert_eq!(keys(&value), MANDATORY.to_vec());
}

#[test]
fn one_tag_makes_ten_keys_and_a_meta_container_of_one() {
    let mut span = Span::new();
    let bare = record_bytes(&span);
    assert_eq!(bare[0], 0x89);
    assert_eq!(decode(&bare).as_map().unwrap().len(), 9);

    span.set_meta(text("env"), text("prod"));
    let bytes = record_bytes(&span);
    assert_eq!(bytes[0], 0x8a);
    let mut expected = bare.clone();
    expected[0] = 0x8a;
    expected.extend_from_slice(&[0xa4, b'm', b'e', b't', b'a', 0x81]);
    expected.extend_from_slice(&[0xa3, b'e', b'n', b'v', 0xa4, b'p', b'r', b'o', b'd']);
    assert_eq!(bytes, expected);

    let value = decode(&bytes);
    assert_eq!(value.as_map().unwrap().len(), 10);
    let meta = field(&value, "meta");
    assert_eq!(meta.as_map().unwrap().len(), 1);
    assert_eq!(field(&meta, "env"), Value::from("prod"));
}

#[test]
fn every_optional_section_adds_one_key() {
    let mut span = Span::new();
    span.set_span_type(text("web"));
    let value = decode(&record_bytes(&span));
    assert_eq!(value.as_map().unwrap().len(), 10);
    assert_eq!(field(&value, "type"), Value::from("web"));

    span.set_metrics(text("m"), 2.5f64.to_bits());
    let value = decode(&record_bytes(&span));
    assert_eq!(value.as_map().unwrap().len(), 11);
    let metrics = field(&value, "metrics");
    assert_eq!(field(&metrics, "m").as_f64(), Some(2.5));
    assert!(field(&metrics, "m").is_f64());

    span.set_meta(text("a"), text("b"));
    let value = decode(&record_bytes(&span));
    assert_eq!(value.as_map().unwrap().len(), 12);
    let mut all: Vec<String> = MANDATORY.iter().map(|k| k.to_string()).collect();
    all.extend([text("type"), text("meta"), text("metrics")]);
    assert_eq!(keys(&value), all);

    span.del_meta(text("a"));
    span.del_metrics(text("m"));
    span.set_span_type(String::new());
    assert_eq!(record_bytes(&span), record_bytes(&Span::new()));
}

#[test]
fn zero_trace_id_reads_like_one_never_set() {
    let mut store = SpanStore::new();
    let mut gc = GarbageCollector::new();
    let never = store.new_span();
    let zeroed = store.new_span();
    for h in [never, zeroed] {
        store.set_name(h, text("op")).unwrap();
        store.set_span_id(h, 9).unwrap();
    }
    store.set_trace_id(zeroed, 5).unwrap();
    store.set_trace_id(zeroed, 0).unwrap();

    let a = encode(&store, &mut gc, &vec![never]).unwrap();
    let b = encode(&store, &mut gc, &vec![zeroed]).unwrap();
    assert_eq!(a, b);
    let record = decode(&b).as_array().unwrap()[0].clone();
    assert!(field(&record, "trace_id").is_nil());
    assert_eq!(field(&record, "span_id"), Value::from(9u64));
}

#[test]
fn end_to_end_scenario() {
    let mut store = SpanStore::new();
    let mut gc = GarbageCollector::new();
    let h = store.new_span();
    store.set_service(h, text("web")).unwrap();
    store.set_name(h, text("GET /")).unwrap();
    store.set_resource(h, text("/")).unwrap();
    store.set_trace_id(h, 42).unwrap();
    store.set_span_id(h, 42).unwrap();
    store.set_start(h, 1000).unwrap();
    store.set_duration(h, 500).unwrap();

    let bytes = encode(&store, &mut gc, &vec![h]).unwrap();
    let value = decode(&bytes);
    let batch = value.as_array().unwrap();
    assert_eq!(batch.len(), 1);
    let record = &batch[0];
    assert_eq!(record.as_map().unwrap().len(), 9);
    assert_eq!(field(record, "error"), Value::from(0));
    assert_eq!(field(record, "duration"), Value::from(500));
    assert!(field(record, "parent_id").is_nil());
    assert_eq!(field(record, "trace_id"), Value::from(42u64));
    assert_eq!(field(record, "span_id"), Value::from(42u64));
    assert_eq!(field(record, "start"), Value::from(1000));
    assert_eq!(field(record, "service"), Value::from("web"));
    assert_eq!(field(record, "name"), Value::from("GET /"));
    assert_eq!(field(record, "resource"), Value::from("/"));

    let expected: Vec<u8> = [
        &[0x91, 0x89][..],
        &[0xa8],
        b"trace_id",
        &[0xcf, 0, 0, 0, 0, 0, 0, 0, 42],
        &[0xa9],
        b"parent_id",
        &[0xc0],
        &[0xa7],
        b"span_id",
        &[0xcf, 0, 0, 0, 0, 0, 0, 0, 42],
        &[0xa7],
        b"service",
        &[0xa3],
        b"web",
        &[0xa8],
        b"resource",
        &[0xa1],
        b"/",
        &[0xa4],
        b"name",
        &[0xa5],
        b"GET /",
        &[0xa5],
        b"error",
        &[0x00],
        &[0xa5],
        b"start",
        &[0xcf, 0, 0, 0, 0, 0, 0, 0x03, 0xe8],
        &[0xa8],
        b"duration",
        &[0xcf, 0, 0, 0, 0, 0, 0, 0x01, 0xf4],
    ]
    .concat();
    assert_eq!(bytes, expected);
}

#[test]
fn batch_has_one_element_for_each_handle_in_input_order() {
    let mut store = SpanStore::new();
    let mut gc = GarbageCollector::new();
    let a = store.new_span();
    let b = store.new_span();
    let c = store.new_span();
    store.set_name(a, text("a")).unwrap();
    store.set_name(b, text("b")).unwrap();
    store.set_name(c, text("c")).unwrap();

    let bytes = encode(&store, &mut gc, &vec![c, a, b, a]).unwrap();
    assert_eq!(bytes[0], 0x94);
    let value = decode(&bytes);
    let names: Vec<Value> = value
        .as_array()
        .unwrap()
        .iter()
        .map(|r| field(r, "name"))
        .collect();
    assert_eq!(
        names,
        vec![Value::from("c"), Value::from("a"), Value::from("b"), Value::from("a")]
    );

    let mut joined = vec![0x94];
    for h in [c, a, b, a] {
        encode_span(&mut joined, &store, &h).unwrap();
    }
    assert_eq!(bytes, joined);
}

#[test]
fn empty_batch_is_an_empty_container() {
    let store = SpanStore::new();
    let mut gc = GarbageCollector::new();
    assert_eq!(encode(&store, &mut gc, &vec![]), Ok(vec![0x90]));
}

#[test]
fn batch_of_sixteen_takes_the_wide_header() {
    let mut store = SpanStore::new();
    let mut gc = GarbageCollector::new();
    let mut batch = Vec::new();
    for _ in 0..16 {
        batch.push(store.new_span());
    }
    let bytes = encode(&store, &mut gc, &batch).unwrap();
    assert_eq!(&bytes[..3], &[0xdc, 0x00, 0x10]);
    assert_eq!(decode(&bytes).as_array().unwrap().len(), 16);

    batch.pop();
    let bytes = encode(&store, &mut gc, &batch).unwrap();
    assert_eq!(bytes[0], 0x9f);
    assert_eq!(decode(&bytes).as_array().unwrap().len(), 15);
}

#[test]
fn unknown_handle_fails_the_whole_batch() {
    let mut store = SpanStore::new();
    let mut gc = GarbageCollector::new();
    let a = store.new_span();
    let b = store.new_span();
    store.remove_span(&b);

    assert_eq!(
        encode(&store, &mut gc, &vec![a, b, 77]),
        Err(SpanError::UnknownHandle(b))
    );
    assert_eq!(
        encode(&store, &mut gc, &vec![77, b, a]),
        Err(SpanError::UnknownHandle(77))
    );
    assert!(!gc.is_kept(&a));
    assert!(!gc.is_kept(&b));
    assert!(!gc.is_kept(&77));

    let mut buf = vec![0xff];
    assert_eq!(
        encode_span(&mut buf, &store, &b),
        Err(SpanError::UnknownHandle(b))
    );
    assert_eq!(buf, vec![0xff]);

    let mut buf = Vec::new();
    assert_eq!(
        encode_trace(&mut buf, &store, &vec![a, b]),
        Err(SpanError::UnknownHandle(b))
    );
    let mut partial = vec![0x92];
    encode_span(&mut partial, &store, &a).unwrap();
    assert_eq!(buf, partial);
}

#[test]
fn encode_leaves_no_handle_of_the_batch_pinned() {
    let mut store = SpanStore::new();
    let mut gc = GarbageCollector::new();
    let a = store.new_span();
    let b = store.new_span();
    let c = store.new_span();
    gc.keep(&a);
    gc.keep(&c);
    gc.recycle(&b);

    encode(&store, &mut gc, &vec![a, b]).unwrap();
    assert!(!gc.is_kept(&a));
    assert!(!gc.is_kept(&b));
    assert!(gc.is_kept(&c));
    assert!(gc.is_garbage(&b));
    assert!(!gc.is_started());
}

#[test]
fn pinned_batch_encodes_while_the_reclaimer_sweeps() {
    let mut store = SpanStore::new();
    let mut gc = GarbageCollector::new();
    let batch: Vec<u32> = (0..4).map(|_| store.new_span()).collect();
    for (i, h) in batch.iter().enumerate() {
        store.set_span_id(*h, i as u64 + 1).unwrap();
        gc.recycle(h);
    }

    pin_batch(&mut gc, &batch);
    for round in 0..50 {
        let x = store.new_span();
        gc.recycle(&x);
        let y = store.new_span();
        gc.recycle(&y);
        if round % 3 == 0 {
            gc.sweep(&mut store);
        }
    }
    gc.sweep(&mut store);
    assert_eq!(store.len(), 4);

    let mut buf = Vec::new();
    assert_eq!(encode_trace(&mut buf, &store, &batch), Ok(()));
    let value = decode(&buf);
    let ids: Vec<Value> = value
        .as_array()
        .unwrap()
        .iter()
        .map(|r| field(r, "span_id"))
        .collect();
    assert_eq!(
        ids,
        vec![Value::from(1u64), Value::from(2u64), Value::from(3u64), Value::from(4u64)]
    );

    unpin_batch(&mut gc, &batch);
    gc.sweep(&mut store);
    assert_eq!(store.len(), 0);
    assert_eq!(
        encode(&store, &mut gc, &batch),
        Err(SpanError::UnknownHandle(batch[0]))
    );
}

#[test]
fn timing_fields_are_absent_unsigned_or_signed() {
    let mut span = Span::new();
    span.set_start(-1);
    span.set_duration(i64::MIN);
    let bytes = record_bytes(&span);
    let tail: Vec<u8> = [
        &[0xa5][..],
        b"start",
        &[0xd3, 0xff, 0xff, 0xff, 0xff, 0xff, 0xff, 0xff, 0xff],
        &[0xa8],
        b"duration",
        &[0xd3, 0x80, 0, 0, 0, 0, 0, 0, 0],
    ]
    .concat();
    assert!(bytes.ends_with(&tail));
    let value = decode(&bytes);
    assert_eq!(field(&value, "start"), Value::from(-1));
    assert_eq!(field(&value, "duration"), Value::from(i64::MIN));

    span.set_start(i64::MAX);
    span.set_duration(0);
    let bytes = record_bytes(&span);
    let tail: Vec<u8> = [
        &[0xa5][..],
        b"start",
        &[0xcf, 0x7f, 0xff, 0xff, 0xff, 0xff, 0xff, 0xff, 0xff],
        &[0xa8],
        b"duration",
        &[0xc0],
    ]
    .concat();
    assert!(bytes.ends_with(&tail));
}

#[test]
fn identifiers_take_nine_bytes_however_small() {
    let mut span = Span::new();
    span.set_trace_id(1);
    span.set_parent_id(u64::MAX);
    span.set_span_id(0x0102_0304_0506_0708);
    let bytes = record_bytes(&span);
    let head: Vec<u8> = [
        &[0x89][..],
        &[0xa8],
        b"trace_id",
        &[0xcf, 0, 0, 0, 0, 0, 0, 0, 1],
        &[0xa9],
        b"parent_id",
        &[0xcf, 0xff, 0xff, 0xff, 0xff, 0xff, 0xff, 0xff, 0xff],
        &[0xa7],
        b"span_id",
        &[0xcf, 1, 2, 3, 4, 5, 6, 7, 8],
    ]
    .concat();
    assert!(bytes.starts_with(&head));
}

#[test]
fn error_flag_is_the_literal_zero_or_one() {
    for (error, byte) in [(0, 0x00u8), (1, 0x01), (7, 0x01), (-1, 0x01), (i32::MIN, 0x01)] {
        let mut span = Span::new();
        span.set_error(error);
        let bytes = record_bytes(&span);
        let at = bytes.windows(5).position(|w| w == b"error").unwrap();
        assert_eq!(bytes[at + 5], byte);
        assert_eq!(field(&decode(&bytes), "error"), Value::from(byte));
    }
}

#[test]
fn metric_is_written_as_the_float_whose_bits_it_holds() {
    let values = [
        0.0f64,
        -0.0,
        1.0,
        -2.5,
        1e300,
        f64::MIN_POSITIVE,
        f64::INFINITY,
        f64::NEG_INFINITY,
        f64::NAN,
    ];
    for v in values {
        let mut span = Span::new();
        span.set_metrics(text("m"), v.to_bits());
        let bytes = record_bytes(&span);

        let mut expected = record_bytes(&Span::new());
        expected[0] = 0x8a;
        expected.extend_from_slice(&[0xa7]);
        expected.extend_from_slice(b"metrics");
        expected.extend_from_slice(&[0x81, 0xa1, b'm']);
        rmp::encode::write_f64(&mut expected, v).unwrap();
        assert_eq!(bytes, expected);

        let read = field(&field(&decode(&bytes), "metrics"), "m");
        assert_eq!(read.as_f64().unwrap().to_bits(), v.to_bits());
    }
}

#[test]
fn string_header_grows_with_the_length() {
    for (len, header) in [
        (1usize, vec![0xa1u8]),
        (31, vec![0xbf]),
        (32, vec![0xd9, 32]),
        (255, vec![0xd9, 255]),
        (256, vec![0xda, 0x01, 0x00]),
        (65535, vec![0xda, 0xff, 0xff]),
        (65536, vec![0xdb, 0x00, 0x01, 0x00, 0x00]),
    ] {
        let name = "x".repeat(len);
        let mut span = Span::new();
        span.set_name(name.clone());
        let bytes = record_bytes(&span);
        let at = bytes.windows(5).position(|w| w == b"\xa4name").unwrap() + 5;
        assert_eq!(&bytes[at..at + header.len()], &header[..]);
        assert_eq!(field(&decode(&bytes), "name"), Value::from(name));
    }
}

#[test]
fn string_length_counts_bytes_not_characters() {
    let mut span = Span::new();
    span.set_service(text("h\u{e9}llo \u{1f600}"));
    let bytes = record_bytes(&span);
    let at = bytes.windows(8).position(|w| w == b"\xa7service").unwrap() + 8;
    assert_eq!(bytes[at], 0xa0 + 11);
    assert_eq!(&bytes[at + 1..at + 12], "h\u{e9}llo \u{1f600}".as_bytes());
    assert_eq!(
        field(&decode(&bytes), "service"),
        Value::from("h\u{e9}llo \u{1f600}")
    );
}

#[test]
fn tags_are_written_in_the_order_their_keys_arrived() {
    let mut span = Span::new();
    span.set_meta(text("z"), text("1"));
    span.set_meta(text("a"), text("2"));
    span.set_meta(text("m"), String::new());
    span.set_meta(text("z"), text("3"));
    let value = decode(&record_bytes(&span));
    let meta = field(&value, "meta");
    assert_eq!(
        meta.as_map().unwrap().clone(),
        vec![
            (Value::from("z"), Value::from("3")),
            (Value::from("a"), Value::from("2")),
            (Value::from("m"), Value::Nil),
        ]
    );
}

#[test]
fn empty_tag_key_is_written_as_absent() {
    let mut span = Span::new();
    span.set_meta(String::new(), text("v"));
    let bytes = record_bytes(&span);
    assert!(bytes.ends_with(&[0xa4, b'm', b'e', b't', b'a', 0x81, 0xc0, 0xa1, b'v']));
}

#[test]
fn sixteen_tags_take_the_wide_header() {
    let mut span = Span::new();
    for i in 0..16 {
        span.set_meta(format!("k{:02}", i), text("v"));
        span.set_metrics(format!("m{:02}", i), (i as f64).to_bits());
    }
    let bytes = record_bytes(&span);
    let at = bytes.windows(5).position(|w| w == b"\xa4meta").unwrap() + 5;
    assert_eq!(&bytes[at..at + 3], &[0xde, 0x00, 0x10]);
    let at = bytes.windows(8).position(|w| w == b"\xa7metrics").unwrap() + 8;
    assert_eq!(&bytes[at..at + 3], &[0xde, 0x00, 0x10]);
    let value = decode(&bytes);
    assert_eq!(field(&value, "meta").as_map().unwrap().len(), 16);
    assert_eq!(field(&value, "metrics").as_map().unwrap().len(), 16);
    assert_eq!(
        field(&field(&value, "metrics"), "m15").as_f64(),
        Some(15.0)
    );
}

#[test]
fn encode_span_appends_behind_what_the_buffer_holds() {
    let mut store = SpanStore::new();
    let h = store.new_span();
    store.set_name(h, text("n")).unwrap();
    let mut buf = vec![1, 2, 3];
    assert_eq!(encode_span(&mut buf, &store, &h), Ok(()));
    assert_eq!(&buf[..3], &[1, 2, 3]);
    assert_eq!(&buf[3..], &record_bytes(store.get(h).unwrap())[..]);
}
