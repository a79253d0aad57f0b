use barm_worker::trace::TraceContext;

fn is_lower_hex(s: &str) -> bool {
    s.chars().all(|c| c.is_ascii_digit() || ('a'..='f').contains(&c))
}

#[test]
fn traceparent_gives_both_ids() {
    let text = "00-0af7651916cd43dd8448eb211c80319c-b7ad6b7169203331-01";
    let context = TraceContext::from_traceparent(text);
    assert_eq!(context.traceparent.as_deref(), Some(text));
    assert_eq!(context.trace_id.as_deref(), Some("0af7651916cd43dd8448eb211c80319c"));
    assert_eq!(context.span_id.as_deref(), Some("b7ad6b7169203331"));
}

#[test]
fn traceparent_of_fewer_fields_gives_no_ids() {
    for text in ["", "00", "00-abc", "-"] {
        let context = TraceContext::from_traceparent(text);
        assert_eq!(context.traceparent.as_deref(), Some(text));
        assert_eq!(context.trace_id, None);
        assert_eq!(context.span_id, None);
    }
}

#[test]
fn traceparent_of_three_or_more_fields_gives_second_and_third() {
    let context = TraceContext::from_traceparent("a-b-c");
    assert_eq!(context.trace_id.as_deref(), Some("b"));
    assert_eq!(context.span_id.as_deref(), Some("c"));

    let context = TraceContext::from_traceparent("--");
    assert_eq!(context.trace_id.as_deref(), Some(""));
    assert_eq!(context.span_id.as_deref(), Some(""));

    let context = TraceContext::from_traceparent("a-\u{e9}-\u{1f600}-d-e");
    assert_eq!(context.trace_id.as_deref(), Some("\u{e9}"));
    assert_eq!(context.span_id.as_deref(), Some("\u{1f600}"));
}

#[test]
fn default_context_is_empty() {
    let context = TraceContext::default();
    assert_eq!(context.traceparent, None);
    assert_eq!(context.trace_id, None);
    assert_eq!(context.span_id, None);
}

#[test]
fn ids_are_written_in_padded_hexadecimal() {
    let context = TraceContext::from_ids(0xabc, 0xdef0);
    assert_eq!(context.trace_id.as_deref(), Some("00000000000000000000000000000abc"));
    assert_eq!(context.span_id.as_deref(), Some("000000000000def0"));
    assert_eq!(
        context.traceparent.as_deref(),
        Some("00-00000000000000000000000000000abc-000000000000def0-01")
    );

    let context = TraceContext::from_ids(u128::MAX, u64::MAX);
    assert_eq!(context.trace_id, Some(format!("{:032x}", u128::MAX)));
    assert_eq!(context.span_id, Some(format!("{:016x}", u64::MAX)));
}

#[test]
fn generated_context_reads_back_from_its_traceparent() {
    let made = TraceContext::from_ids(0x0af7651916cd43dd8448eb211c80319c, 0xb7ad6b7169203331);
    let read = TraceContext::from_traceparent(made.traceparent.as_deref().unwrap());
    assert_eq!(read.traceparent, made.traceparent);
    assert_eq!(read.trace_id, made.trace_id);
    assert_eq!(read.span_id, made.span_id);
}

#[test]
fn different_ids_give_different_traceparents() {
    let base = TraceContext::from_ids(1, 1).traceparent;
    assert_ne!(base, TraceContext::from_ids(2, 1).traceparent);
    assert_ne!(base, TraceContext::from_ids(1, 2).traceparent);
}

#[test]
fn new_context_has_random_ids_of_full_length() {
    let a = TraceContext::new();
    let b = TraceContext::new();
    let trace_id = a.trace_id.clone().unwrap();
    let span_id = a.span_id.clone().unwrap();
    assert_eq!(trace_id.len(), 32);
    assert_eq!(span_id.len(), 16);
    assert!(is_lower_hex(&trace_id));
    assert!(is_lower_hex(&span_id));
    assert_eq!(a.traceparent, Some(format!("00-{}-{}-01", trace_id, span_id)));
    assert_ne!(a.trace_id, b.trace_id);
    assert_ne!(a.span_id, b.span_id);
}
