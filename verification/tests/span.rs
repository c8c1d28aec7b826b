use tracer::span::{Span, Tags};

fn text(s: &str) -> String {
    s.to_string()
}

#[test]
fn tags_keep_insertion_order_and_unique_keys() {
    let mut tags: Tags<String> = Tags::new();
    assert!(tags.is_empty());
    tags.insert(text("b"), text("1"));
    tags.insert(text("a"), text("2"));
    tags.insert(text("c"), text("3"));
    tags.insert(text("a"), text("4"));
    assert_eq!(tags.len(), 3);
    assert_eq!(tags.key_at(0), "b");
    assert_eq!(tags.key_at(1), "a");
    assert_eq!(tags.value_at(1), "4");
    assert_eq!(tags.key_at(2), "c");
    assert_eq!(tags.get(&text("a")), Some(&text("4")));
    assert_eq!(tags.get(&text("z")), None);

    tags.remove(&text("b"));
    assert_eq!(tags.len(), 2);
    assert_eq!(tags.key_at(0), "a");
    assert_eq!(tags.key_at(1), "c");
    tags.remove(&text("b"));
    assert_eq!(tags.len(), 2);
    assert!(!tags.is_empty());
}

#[test]
fn span_accessors_read_what_was_written() {
    let mut span = Span::new();
    assert_eq!(span.get_name(), "");
    assert_eq!(span.get_trace_id(), 0);

    span.set_name(text("query"));
    span.set_service(text("db"));
    span.set_resource(text("select 1"));
    span.set_span_type(text("sql"));
    span.set_trace_id(1);
    span.set_parent_id(2);
    span.set_span_id(3);
    span.set_start(-4);
    span.set_duration(5);
    span.set_error(6);
    span.set_meta(text("k"), text("v"));
    span.set_metrics(text("m"), 7);

    assert_eq!(span.get_name(), "query");
    assert_eq!(span.get_service(), "db");
    assert_eq!(span.get_resource(), "select 1");
    assert_eq!(span.get_span_type(), "sql");
    assert_eq!(span.get_trace_id(), 1);
    assert_eq!(span.get_parent_id(), 2);
    assert_eq!(span.get_span_id(), 3);
    assert_eq!(span.get_start(), -4);
    assert_eq!(span.get_duration(), 5);
    assert_eq!(span.get_error(), 6);
    assert_eq!(span.get_meta(&text("k")), Some(&text("v")));
    assert_eq!(span.get_meta(&text("x")), None);
    assert_eq!(span.get_metrics(&text("m")), Some(&7));
    assert_eq!(span.get_metrics(&text("x")), None);

    span.del_meta(text("k"));
    span.del_metrics(text("m"));
    span.del_metrics(text("m"));
    assert_eq!(span.get_meta(&text("k")), None);
    assert_eq!(span.get_metrics(&text("m")), None);
}
