//! The batch encoder: what a record and a batch look like on the wire, and
//! the functions that write them.

use crate::gc::{
    lemma_pinned_survives_sweep, lemma_take_next, sweep_outcome, GarbageCollector, GcView,
};
use crate::span::record::{Span, SpanView};
use crate::span::store::{SpanError, SpanReference, SpanStore, StoreView};
use crate::span::tags::tag_set;
use crate::wire::{
    array_len_bytes, f64_bits_bytes, i64_bytes, low32, map_len_bytes, nil_bytes, pfix_bytes,
    lemma_short_ascii_str, put_array_len, put_f64_bits, put_i64, put_map_len, put_nil, put_pfix,
    put_str, put_u64, str_bytes, u64_bytes, wire_len,
};
use vstd::prelude::*;

verus! {

/// A string value: the "absent" marker where it is empty.
pub open spec fn text_bytes(s: Seq<char>) -> Seq<u8> {
    if s.len() == 0 {
        nil_bytes()
    } else {
        str_bytes(s)
    }
}

/// An identifier: the "absent" marker where it is zero.
pub open spec fn id_bytes(v: u64) -> Seq<u8> {
    if v == 0 {
        nil_bytes()
    } else {
        u64_bytes(v)
    }
}

/// A timestamp or duration: the "absent" marker where it is zero, the
/// unsigned form where it is positive, the signed form where it is negative.
pub open spec fn time_bytes(v: i64) -> Seq<u8> {
    if v == 0 {
        nil_bytes()
    } else if v > 0 {
        u64_bytes(v as u64)
    } else {
        i64_bytes(v)
    }
}

/// The error flag: the literal `1` where it is set, `0` where it is not.
pub open spec fn flag_bytes(error: i32) -> Seq<u8> {
    pfix_bytes(if error != 0 { 1u8 } else { 0u8 })
}

/// How many keys the record's container has: the nine mandatory ones and one
/// for each optional section that is not empty.
pub open spec fn entry_count(s: SpanView) -> nat {
    9 + (if s.span_type.len() > 0 { 1nat } else { 0nat }) + (if s.meta.len() > 0 {
        1nat
    } else {
        0nat
    }) + (if s.metrics.len() > 0 { 1nat } else { 0nat })
}

/// The three identifiers, each behind its key.
pub open spec fn ids_bytes(s: SpanView) -> Seq<u8> {
    str_bytes("trace_id"@) + id_bytes(s.trace_id) + str_bytes("parent_id"@) + id_bytes(s.parent_id)
        + str_bytes("span_id"@) + id_bytes(s.span_id)
}

/// The three names, each behind its key.
pub open spec fn names_bytes(s: SpanView) -> Seq<u8> {
    str_bytes("service"@) + text_bytes(s.service) + str_bytes("resource"@) + text_bytes(s.resource)
        + str_bytes("name"@) + text_bytes(s.name)
}

/// The error flag and the two timing fields, each behind its key.
pub open spec fn timing_bytes(s: SpanView) -> Seq<u8> {
    str_bytes("error"@) + flag_bytes(s.error) + str_bytes("start"@) + time_bytes(s.start)
        + str_bytes("duration"@) + time_bytes(s.duration)
}

/// The nine entries that every record carries.
pub open spec fn mandatory_bytes(s: SpanView) -> Seq<u8> {
    ids_bytes(s) + names_bytes(s) + timing_bytes(s)
}

/// The `type` entry, present only for a non-empty span type.
pub open spec fn type_section(s: SpanView) -> Seq<u8> {
    if s.span_type.len() > 0 {
        str_bytes("type"@) + text_bytes(s.span_type)
    } else {
        Seq::empty()
    }
}

/// The tags one after another, key then value, in the order they are held.
pub open spec fn meta_entries_bytes(m: Seq<(Seq<char>, Seq<char>)>) -> Seq<u8>
    decreases m.len(),
{
    if m.len() == 0 {
        Seq::empty()
    } else {
        meta_entries_bytes(m.drop_last()) + text_bytes(m.last().0) + text_bytes(m.last().1)
    }
}

/// The `meta` entry, present only where there are tags.
pub open spec fn meta_section(s: SpanView) -> Seq<u8> {
    if s.meta.len() > 0 {
        str_bytes("meta"@) + map_len_bytes(wire_len(s.meta.len())) + meta_entries_bytes(s.meta)
    } else {
        Seq::empty()
    }
}

/// The metrics one after another, key then value, in the order they are held.
pub open spec fn metrics_entries_bytes(m: Seq<(Seq<char>, u64)>) -> Seq<u8>
    decreases m.len(),
{
    if m.len() == 0 {
        Seq::empty()
    } else {
        metrics_entries_bytes(m.drop_last()) + text_bytes(m.last().0) + f64_bits_bytes(m.last().1)
    }
}

/// The `metrics` entry, present only where there are metrics.
pub open spec fn metrics_section(s: SpanView) -> Seq<u8> {
    if s.metrics.len() > 0 {
        str_bytes("metrics"@) + map_len_bytes(wire_len(s.metrics.len())) + metrics_entries_bytes(
            s.metrics,
        )
    } else {
        Seq::empty()
    }
}

/// One record on the wire: a key-value container with the mandatory entries
/// and then the optional sections that are not empty.
pub open spec fn span_bytes(s: SpanView) -> Seq<u8> {
    map_len_bytes(entry_count(s) as u32) + mandatory_bytes(s) + type_section(s) + meta_section(s)
        + metrics_section(s)
}

/// The twelve keys as they stand on the wire: a header byte with the length,
/// then the key's ASCII characters.
pub proof fn lemma_key_bytes()
    ensures
        str_bytes("trace_id"@) == seq![0xa8u8, 0x74, 0x72, 0x61, 0x63, 0x65, 0x5f, 0x69, 0x64],
        str_bytes("parent_id"@) == seq![0xa9u8, 0x70, 0x61, 0x72, 0x65, 0x6e, 0x74, 0x5f, 0x69, 0x64],
        str_bytes("span_id"@) == seq![0xa7u8, 0x73, 0x70, 0x61, 0x6e, 0x5f, 0x69, 0x64],
        str_bytes("service"@) == seq![0xa7u8, 0x73, 0x65, 0x72, 0x76, 0x69, 0x63, 0x65],
        str_bytes("resource"@) == seq![0xa8u8, 0x72, 0x65, 0x73, 0x6f, 0x75, 0x72, 0x63, 0x65],
        str_bytes("name"@) == seq![0xa4u8, 0x6e, 0x61, 0x6d, 0x65],
        str_bytes("error"@) == seq![0xa5u8, 0x65, 0x72, 0x72, 0x6f, 0x72],
        str_bytes("start"@) == seq![0xa5u8, 0x73, 0x74, 0x61, 0x72, 0x74],
        str_bytes("duration"@) == seq![0xa8u8, 0x64, 0x75, 0x72, 0x61, 0x74, 0x69, 0x6f, 0x6e],
        str_bytes("type"@) == seq![0xa4u8, 0x74, 0x79, 0x70, 0x65],
        str_bytes("meta"@) == seq![0xa4u8, 0x6d, 0x65, 0x74, 0x61],
        str_bytes("metrics"@) == seq![0xa7u8, 0x6d, 0x65, 0x74, 0x72, 0x69, 0x63, 0x73],
{
    reveal_strlit("trace_id");
    lemma_short_ascii_str("trace_id"@);
    assert(str_bytes("trace_id"@) =~= seq![0xa8u8, 0x74, 0x72, 0x61, 0x63, 0x65, 0x5f, 0x69, 0x64]);
    reveal_strlit("parent_id");
    lemma_short_ascii_str("parent_id"@);
    assert(str_bytes("parent_id"@) =~= seq![0xa9u8, 0x70, 0x61, 0x72, 0x65, 0x6e, 0x74, 0x5f, 0x69, 0x64]);
    reveal_strlit("span_id");
    lemma_short_ascii_str("span_id"@);
    assert(str_bytes("span_id"@) =~= seq![0xa7u8, 0x73, 0x70, 0x61, 0x6e, 0x5f, 0x69, 0x64]);
    reveal_strlit("service");
    lemma_short_ascii_str("service"@);
    assert(str_bytes("service"@) =~= seq![0xa7u8, 0x73, 0x65, 0x72, 0x76, 0x69, 0x63, 0x65]);
    reveal_strlit("resource");
    lemma_short_ascii_str("resource"@);
    assert(str_bytes("resource"@) =~= seq![0xa8u8, 0x72, 0x65, 0x73, 0x6f, 0x75, 0x72, 0x63, 0x65]);
    reveal_strlit("name");
    lemma_short_ascii_str("name"@);
    assert(str_bytes("name"@) =~= seq![0xa4u8, 0x6e, 0x61, 0x6d, 0x65]);
    reveal_strlit("error");
    lemma_short_ascii_str("error"@);
    assert(str_bytes("error"@) =~= seq![0xa5u8, 0x65, 0x72, 0x72, 0x6f, 0x72]);
    reveal_strlit("start");
    lemma_short_ascii_str("start"@);
    assert(str_bytes("start"@) =~= seq![0xa5u8, 0x73, 0x74, 0x61, 0x72, 0x74]);
    reveal_strlit("duration");
    lemma_short_ascii_str("duration"@);
    assert(str_bytes("duration"@) =~= seq![0xa8u8, 0x64, 0x75, 0x72, 0x61, 0x74, 0x69, 0x6f, 0x6e]);
    reveal_strlit("type");
    lemma_short_ascii_str("type"@);
    assert(str_bytes("type"@) =~= seq![0xa4u8, 0x74, 0x79, 0x70, 0x65]);
    reveal_strlit("meta");
    lemma_short_ascii_str("meta"@);
    assert(str_bytes("meta"@) =~= seq![0xa4u8, 0x6d, 0x65, 0x74, 0x61]);
    reveal_strlit("metrics");
    lemma_short_ascii_str("metrics"@);
    assert(str_bytes("metrics"@) =~= seq![0xa7u8, 0x6d, 0x65, 0x74, 0x72, 0x69, 0x63, 0x73]);
}

/// Empty sections are left out: a record without span type, tags and
/// metrics is a container of exactly the nine mandatory entries. With one tag
/// stored, the container has ten entries, and after the mandatory ones comes
/// the key `meta` with a container of that one tag.
pub proof fn lemma_empty_sections_are_omitted(s: SpanView, key: Seq<char>, value: Seq<char>)
    requires
        s.span_type.len() == 0,
        s.meta.len() == 0,
        s.metrics.len() == 0,
    ensures
        entry_count(s) == 9,
        span_bytes(s) == seq![0x89u8] + mandatory_bytes(s),
        ({
            let t = SpanView { meta: tag_set(s.meta, key, value), ..s };
            &&& t.meta == seq![(key, value)]
            &&& entry_count(t) == 10
            &&& span_bytes(t) == seq![0x8au8] + mandatory_bytes(s) + str_bytes("meta"@) + seq![
                0x81u8,
            ] + text_bytes(key) + text_bytes(value)
        }),
{
    let t = SpanView { meta: tag_set(s.meta, key, value), ..s };
    assert(t.meta =~= seq![(key, value)]);
    assert(span_bytes(s) =~= seq![0x89u8] + mandatory_bytes(s));
    assert(t.meta.drop_last() =~= Seq::empty());
    assert(meta_entries_bytes(t.meta.drop_last()) =~= Seq::empty());
    assert(meta_entries_bytes(t.meta) =~= text_bytes(key) + text_bytes(value));
    assert(mandatory_bytes(t) == mandatory_bytes(s));
    assert(map_len_bytes(wire_len(1)) =~= seq![0x81u8]);
    assert(map_len_bytes(10) =~= seq![0x8au8]);
    assert(meta_section(t) =~= str_bytes("meta"@) + seq![0x81u8] + text_bytes(key) + text_bytes(
        value,
    ));
    lemma_append_assoc(
        seq![0x8au8] + mandatory_bytes(s),
        str_bytes("meta"@) + seq![0x81u8],
        text_bytes(key),
    );
    lemma_append_assoc(seq![0x8au8] + mandatory_bytes(s), str_bytes("meta"@), seq![0x81u8]);
    lemma_append_assoc(
        seq![0x8au8] + mandatory_bytes(s),
        str_bytes("meta"@) + seq![0x81u8] + text_bytes(key),
        text_bytes(value),
    );
    assert(span_bytes(t) =~= seq![0x8au8] + mandatory_bytes(s) + meta_section(t));
}

/// An identifier of zero is written as the "absent" marker, so a record
/// whose `trace_id` was set to zero reads on the wire exactly like one whose
/// `trace_id` was never set and still has the value it was created with.
pub proof fn lemma_zero_trace_id_is_absent(s: SpanView)
    requires
        s.trace_id == 0,
    ensures
        id_bytes(s.trace_id) == seq![0xc0u8],
        ids_bytes(s) == str_bytes("trace_id"@) + seq![0xc0u8] + str_bytes("parent_id"@) + id_bytes(
            s.parent_id,
        ) + str_bytes("span_id"@) + id_bytes(s.span_id),
        span_bytes(s) == span_bytes(SpanView { trace_id: SpanView::zero().trace_id, ..s }),
{
}

/// A batch is announced as a sequence container of exactly as many elements
/// as it has handles, and an empty batch is the announcement alone.
pub proof fn lemma_trace_count(spans: Map<SpanReference, SpanView>, trace: Seq<SpanReference>)
    requires
        trace.len() <= u32::MAX,
    ensures
        trace_bytes(spans, trace) == array_len_bytes(trace.len() as u32) + records_bytes(
            spans,
            trace,
        ),
        trace.len() == 0 ==> trace_bytes(spans, trace) == seq![0x90u8],
{
    let n = trace.len();
    assert(n % 0x1_0000_0000 == n) by (nonlinear_arith)
        requires
            n <= u32::MAX,
    ;
    assert(wire_len(n) == n as u32);
    if n == 0 {
        assert(records_bytes(spans, trace) == Seq::<u8>::empty());
        assert(array_len_bytes(0) + Seq::<u8>::empty() =~= seq![0x90u8]);
    }
}

/// A batch keeps its order: the record of the handle at position `i` stands
/// right behind the records of the handles before it.
pub proof fn lemma_trace_order(
    spans: Map<SpanReference, SpanView>,
    trace: Seq<SpanReference>,
    i: int,
)
    requires
        0 <= i < trace.len(),
    ensures
        records_bytes(spans, trace.take(i + 1)) == records_bytes(spans, trace.take(i)) + span_bytes(
            spans[trace[i]],
        ),
        records_bytes(spans, trace.take(trace.len() as int)) == records_bytes(spans, trace),
{
    lemma_take_next(trace, i);
    assert(trace.take(trace.len() as int) =~= trace);
}

fn put_text(buf: &mut Vec<u8>, s: &str)
    ensures
        final(buf)@ == old(buf)@ + text_bytes(s@),
{
    if s.is_empty() {
        put_nil(buf);
    } else {
        put_str(buf, s);
    }
}

fn put_id(buf: &mut Vec<u8>, v: u64)
    ensures
        final(buf)@ == old(buf)@ + id_bytes(v),
{
    if v == 0 {
        put_nil(buf);
    } else {
        put_u64(buf, v);
    }
}

fn put_time(buf: &mut Vec<u8>, v: i64)
    ensures
        final(buf)@ == old(buf)@ + time_bytes(v),
{
    if v == 0 {
        put_nil(buf);
    } else if v > 0 {
        put_u64(buf, v as u64);
    } else {
        put_i64(buf, v);
    }
}

fn put_meta(buf: &mut Vec<u8>, span: &Span)
    ensures
        final(buf)@ == old(buf)@ + meta_section(span@),
{
    let n = span.meta.len();
    if n > 0 {
        put_str(buf, "meta");
        put_map_len(buf, low32(n));
        let ghost start = buf@;
        let mut i: usize = 0;
        while i < n
            invariant
                i <= n,
                n == span@.meta.len(),
                buf@ == start + meta_entries_bytes(span@.meta.take(i as int)),
            decreases n - i,
        {
            put_text(buf, span.meta.key_at(i).as_str());
            put_text(buf, span.meta.value_at(i).as_str());
            proof {
                let next = span@.meta.take(i + 1);
                assert(next.drop_last() =~= span@.meta.take(i as int));
                assert(next.last() == span@.meta[i as int]);
                assert(buf@ =~= start + meta_entries_bytes(next));
            }
            i += 1;
        }
        assert(span@.meta.take(n as int) =~= span@.meta);
        assert(buf@ =~= old(buf)@ + meta_section(span@));
    } else {
        assert(buf@ =~= old(buf)@ + meta_section(span@));
    }
}

fn put_metrics(buf: &mut Vec<u8>, span: &Span)
    ensures
        final(buf)@ == old(buf)@ + metrics_section(span@),
{
    let n = span.metrics.len();
    if n > 0 {
        put_str(buf, "metrics");
        put_map_len(buf, low32(n));
        let ghost start = buf@;
        let mut i: usize = 0;
        while i < n
            invariant
                i <= n,
                n == span@.metrics.len(),
                buf@ == start + metrics_entries_bytes(span@.metrics.take(i as int)),
            decreases n - i,
        {
            put_text(buf, span.metrics.key_at(i).as_str());
            put_f64_bits(buf, *span.metrics.value_at(i));
            proof {
                let next = span@.metrics.take(i + 1);
                assert(next.drop_last() =~= span@.metrics.take(i as int));
                assert(next.last() == span@.metrics[i as int]);
                assert(buf@ =~= start + metrics_entries_bytes(next));
            }
            i += 1;
        }
        assert(span@.metrics.take(n as int) =~= span@.metrics);
        assert(buf@ =~= old(buf)@ + metrics_section(span@));
    } else {
        assert(buf@ =~= old(buf)@ + metrics_section(span@));
    }
}

fn put_ids(buf: &mut Vec<u8>, span: &Span)
    ensures
        final(buf)@ == old(buf)@ + ids_bytes(span@),
{
    put_str(buf, "trace_id");
    put_id(buf, span.trace_id);
    put_str(buf, "parent_id");
    put_id(buf, span.parent_id);
    put_str(buf, "span_id");
    put_id(buf, span.span_id);
    assert(buf@ =~= old(buf)@ + ids_bytes(span@));
}

fn put_names(buf: &mut Vec<u8>, span: &Span)
    ensures
        final(buf)@ == old(buf)@ + names_bytes(span@),
{
    put_str(buf, "service");
    put_text(buf, span.service.as_str());
    put_str(buf, "resource");
    put_text(buf, span.resource.as_str());
    put_str(buf, "name");
    put_text(buf, span.name.as_str());
    assert(buf@ =~= old(buf)@ + names_bytes(span@));
}

fn put_timing(buf: &mut Vec<u8>, span: &Span)
    ensures
        final(buf)@ == old(buf)@ + timing_bytes(span@),
{
    put_str(buf, "error");
    put_pfix(buf, if span.error != 0 { 1 } else { 0 });
    put_str(buf, "start");
    put_time(buf, span.start);
    put_str(buf, "duration");
    put_time(buf, span.duration);
    assert(buf@ =~= old(buf)@ + timing_bytes(span@));
}

fn put_type(buf: &mut Vec<u8>, span: &Span)
    ensures
        final(buf)@ == old(buf)@ + type_section(span@),
{
    if !span.span_type.as_str().is_empty() {
        put_str(buf, "type");
        put_text(buf, span.span_type.as_str());
    }
    assert(buf@ =~= old(buf)@ + type_section(span@));
}

proof fn lemma_append_assoc(a: Seq<u8>, b: Seq<u8>, c: Seq<u8>)
    ensures
        a + b + c == a + (b + c),
{
    assert(a + b + c =~= a + (b + c));
}

/// Appends one record to `buf` in its wire form.
pub fn encode_record(buf: &mut Vec<u8>, span: &Span)
    ensures
        final(buf)@ == old(buf)@ + span_bytes(span@),
{
    let len: u32 = 9 + if span.meta.len() > 0 { 1u32 } else { 0u32 } + if span.metrics.len()
        > 0 { 1u32 } else { 0u32 } + if span.span_type.as_str().is_empty() { 0u32 } else { 1u32 };
    put_map_len(buf, len);
    put_ids(buf, span);
    put_names(buf, span);
    put_timing(buf, span);
    put_type(buf, span);
    put_meta(buf, span);
    put_metrics(buf, span);
    proof {
        let s = span@;
        let head = map_len_bytes(entry_count(s) as u32);
        let body = head + mandatory_bytes(s);
        lemma_append_assoc(old(buf)@ + head, ids_bytes(s), names_bytes(s));
        lemma_append_assoc(old(buf)@ + head, ids_bytes(s) + names_bytes(s), timing_bytes(s));
        lemma_append_assoc(old(buf)@, head, mandatory_bytes(s));
        lemma_append_assoc(old(buf)@, body, type_section(s));
        lemma_append_assoc(old(buf)@, body + type_section(s), meta_section(s));
        lemma_append_assoc(
            old(buf)@,
            body + type_section(s) + meta_section(s),
            metrics_section(s),
        );
    }
}

/// The records that the handles of `trace` address, one after another.
pub open spec fn records_bytes(
    spans: Map<SpanReference, SpanView>,
    trace: Seq<SpanReference>,
) -> Seq<u8>
    decreases trace.len(),
{
    if trace.len() == 0 {
        Seq::empty()
    } else {
        records_bytes(spans, trace.drop_last()) + span_bytes(spans[trace.last()])
    }
}

/// A batch on the wire: a sequence container with one record for each
/// handle, in the order of the batch.
pub open spec fn trace_bytes(
    spans: Map<SpanReference, SpanView>,
    trace: Seq<SpanReference>,
) -> Seq<u8> {
    array_len_bytes(wire_len(trace.len())) + records_bytes(spans, trace)
}

/// The position of the first handle of `trace` that addresses no live record.
pub open spec fn first_unknown(
    spans: Map<SpanReference, SpanView>,
    trace: Seq<SpanReference>,
) -> Option<int>
    decreases trace.len(),
{
    if trace.len() == 0 {
        None
    } else {
        match first_unknown(spans, trace.drop_last()) {
            Some(i) => Some(i),
            None => if spans.contains_key(trace.last()) {
                None
            } else {
                Some(trace.len() - 1)
            },
        }
    }
}

/// `first_unknown` finds the first handle that is not live, and finds none
/// exactly where every handle is live.
pub proof fn lemma_first_unknown(spans: Map<SpanReference, SpanView>, trace: Seq<SpanReference>)
    ensures
        match first_unknown(spans, trace) {
            Some(i) => 0 <= i < trace.len() && !spans.contains_key(trace[i]) && forall|j: int|
                0 <= j < i ==> spans.contains_key(#[trigger] trace[j]),
            None => forall|j: int| 0 <= j < trace.len() ==> spans.contains_key(#[trigger] trace[j]),
        },
    decreases trace.len(),
{
    if trace.len() > 0 {
        lemma_first_unknown(spans, trace.drop_last());
        assert forall|j: int| 0 <= j < trace.len() - 1 implies trace[j] == trace.drop_last()[j] by {}
    }
}

/// The first handle that is not live is the one that `first_unknown` finds.
pub proof fn lemma_first_unknown_is(
    spans: Map<SpanReference, SpanView>,
    trace: Seq<SpanReference>,
    i: int,
)
    requires
        0 <= i < trace.len(),
        !spans.contains_key(trace[i]),
        forall|j: int| 0 <= j < i ==> spans.contains_key(#[trigger] trace[j]),
    ensures
        first_unknown(spans, trace) == Some(i),
{
    lemma_first_unknown(spans, trace);
}

proof fn lemma_same_liveness_same_unknown(
    a: Map<SpanReference, SpanView>,
    b: Map<SpanReference, SpanView>,
    trace: Seq<SpanReference>,
)
    requires
        forall|i: int|
            0 <= i < trace.len() ==> (a.contains_key(#[trigger] trace[i]) <==> b.contains_key(
                trace[i],
            )),
    ensures
        first_unknown(a, trace) == first_unknown(b, trace),
    decreases trace.len(),
{
    if trace.len() > 0 {
        let front = trace.drop_last();
        assert forall|i: int| 0 <= i < front.len() implies (a.contains_key(#[trigger] front[i])
            <==> b.contains_key(front[i])) by {
            assert(front[i] == trace[i]);
        }
        lemma_same_liveness_same_unknown(a, b, front);
        assert(trace.last() == trace[trace.len() - 1]);
    }
}

proof fn lemma_same_records(
    a: Map<SpanReference, SpanView>,
    b: Map<SpanReference, SpanView>,
    trace: Seq<SpanReference>,
)
    requires
        forall|i: int| 0 <= i < trace.len() ==> a[#[trigger] trace[i]] == b[trace[i]],
    ensures
        records_bytes(a, trace) == records_bytes(b, trace),
    decreases trace.len(),
{
    if trace.len() > 0 {
        let front = trace.drop_last();
        assert forall|i: int| 0 <= i < front.len() implies a[#[trigger] front[i]] == b[front[i]] by {
            assert(front[i] == trace[i]);
        }
        lemma_same_records(a, b, front);
        assert(trace.last() == trace[trace.len() - 1]);
    }
}

/// Two arenas that agree on every handle of a batch give the batch the same
/// first unknown handle and, where there is none, the same bytes.
pub proof fn lemma_same_records_same_bytes(
    a: Map<SpanReference, SpanView>,
    b: Map<SpanReference, SpanView>,
    trace: Seq<SpanReference>,
)
    requires
        forall|i: int|
            0 <= i < trace.len() ==> (a.contains_key(#[trigger] trace[i]) <==> b.contains_key(
                trace[i],
            )),
        forall|i: int|
            0 <= i < trace.len() && a.contains_key(#[trigger] trace[i]) ==> a[trace[i]]
                == b[trace[i]],
    ensures
        first_unknown(a, trace) == first_unknown(b, trace),
        first_unknown(a, trace) is None ==> trace_bytes(a, trace) == trace_bytes(b, trace),
{
    lemma_same_liveness_same_unknown(a, b, trace);
    if first_unknown(a, trace) is None {
        lemma_first_unknown(a, trace);
        lemma_same_records(a, b, trace);
    }
}

/// A pinned batch outlives a sweep: whatever else the sweep removes, the
/// batch encodes afterwards exactly as it would have before, to the same
/// bytes or to the same error.
pub proof fn lemma_pinned_batch_outlives_sweep(
    gc: GcView,
    pre: StoreView,
    post: StoreView,
    trace: Seq<SpanReference>,
)
    requires
        pre.wf(),
        sweep_outcome(gc, pre, post),
        forall|i: int| 0 <= i < trace.len() ==> gc.keep.contains(#[trigger] trace[i]),
    ensures
        first_unknown(post.spans, trace) == first_unknown(pre.spans, trace),
        first_unknown(pre.spans, trace) is None ==> trace_bytes(post.spans, trace) == trace_bytes(
            pre.spans,
            trace,
        ),
{
    assert forall|i: int| 0 <= i < trace.len() implies (pre.spans.contains_key(
        #[trigger] trace[i],
    ) <==> post.spans.contains_key(trace[i])) && (pre.spans.contains_key(trace[i])
        ==> pre.spans[trace[i]] == post.spans[trace[i]]) by {
        lemma_pinned_survives_sweep(gc, pre, post, trace[i]);
    }
    lemma_same_records_same_bytes(pre.spans, post.spans, trace);
}

/// Appends the record at `reference` to `buf`; without a live record there,
/// `buf` stays as it was.
pub fn encode_span(buf: &mut Vec<u8>, store: &SpanStore, reference: &SpanReference) -> (r: Result<
    (),
    SpanError,
>)
    ensures
        match r {
            Ok(_) => store@.spans.contains_key(*reference) && final(buf)@ == old(buf)@ + span_bytes(
                store@.spans[*reference],
            ),
            Err(e) => !store@.spans.contains_key(*reference) && e == SpanError::UnknownHandle(
                *reference,
            ) && final(buf)@ == old(buf)@,
        },
{
    match store.get(*reference) {
        Some(span) => {
            encode_record(buf, span);
            Ok(())
        },
        None => Err(SpanError::UnknownHandle(*reference)),
    }
}

/// Appends the batch `trace` to `buf`: the container header, then the
/// records in order. It stops at the first handle without a live record and
/// reports that handle; what was appended up to there stays in `buf`.
pub fn encode_trace(buf: &mut Vec<u8>, store: &SpanStore, trace: &Vec<SpanReference>) -> (r:
    Result<(), SpanError>)
    ensures
        match first_unknown(store@.spans, trace@) {
            None => r is Ok && final(buf)@ == old(buf)@ + trace_bytes(store@.spans, trace@),
            Some(i) => r == Err::<(), SpanError>(SpanError::UnknownHandle(trace@[i])) && final(buf)@
                == old(buf)@ + array_len_bytes(wire_len(trace@.len())) + records_bytes(
                store@.spans,
                trace@.take(i),
            ),
        },
{
    let n = trace.len();
    put_array_len(buf, low32(n));
    let ghost start = buf@;
    let mut i: usize = 0;
    while i < n
        invariant
            i <= n,
            n == trace@.len(),
            start == old(buf)@ + array_len_bytes(wire_len(trace@.len())),
            forall|j: int| 0 <= j < i ==> store@.spans.contains_key(#[trigger] trace@[j]),
            buf@ == start + records_bytes(store@.spans, trace@.take(i as int)),
        decreases n - i,
    {
        match encode_span(buf, store, &trace[i]) {
            Ok(_) => {
                proof {
                    let next = trace@.take(i + 1);
                    assert(next.drop_last() =~= trace@.take(i as int));
                    assert(next.last() == trace@[i as int]);
                    lemma_append_assoc(
                        start,
                        records_bytes(store@.spans, trace@.take(i as int)),
                        span_bytes(store@.spans[trace@[i as int]]),
                    );
                }
            },
            Err(e) => {
                proof {
                    lemma_first_unknown_is(store@.spans, trace@, i as int);
                }
                return Err(e);
            },
        }
        i += 1;
    }
    proof {
        assert(trace@.take(n as int) =~= trace@);
        lemma_first_unknown(store@.spans, trace@);
        lemma_append_assoc(
            old(buf)@,
            array_len_bytes(wire_len(trace@.len())),
            records_bytes(store@.spans, trace@),
        );
    }
    Ok(())
}

/// Pins every handle of `trace`, so that no sweep frees one of them.
pub fn pin_batch(gc: &mut GarbageCollector, trace: &Vec<SpanReference>)
    ensures
        final(gc)@ == (GcView { keep: old(gc)@.keep.union(trace@.to_set()), ..old(gc)@ }),
{
    let n = trace.len();
    let mut i: usize = 0;
    assert(gc@.keep =~= old(gc)@.keep.union(trace@.take(0).to_set()));
    while i < n
        invariant
            i <= n,
            n == trace@.len(),
            gc@ == (GcView {
                keep: old(gc)@.keep.union(trace@.take(i as int).to_set()),
                ..old(gc)@
            }),
        decreases n - i,
    {
        gc.keep(&trace[i]);
        proof {
            lemma_take_next(trace@, i as int);
            assert(gc@.keep =~= old(gc)@.keep.union(trace@.take(i + 1).to_set()));
        }
        i += 1;
    }
    assert(trace@.take(n as int) =~= trace@);
}

/// Unpins every handle of `trace`, whoever pinned it.
pub fn unpin_batch(gc: &mut GarbageCollector, trace: &Vec<SpanReference>)
    ensures
        final(gc)@ == (GcView { keep: old(gc)@.keep.difference(trace@.to_set()), ..old(gc)@ }),
{
    let n = trace.len();
    let mut i: usize = 0;
    assert(gc@.keep =~= old(gc)@.keep.difference(trace@.take(0).to_set()));
    while i < n
        invariant
            i <= n,
            n == trace@.len(),
            gc@ == (GcView {
                keep: old(gc)@.keep.difference(trace@.take(i as int).to_set()),
                ..old(gc)@
            }),
        decreases n - i,
    {
        gc.release(&trace[i]);
        proof {
            lemma_take_next(trace@, i as int);
            assert(gc@.keep =~= old(gc)@.keep.difference(trace@.take(i + 1).to_set()));
        }
        i += 1;
    }
    assert(trace@.take(n as int) =~= trace@);
}

/// Encodes the batch `trace` into a fresh buffer. Every handle of the batch
/// is pinned before the first record is read and unpinned after the last,
/// whether the encoding succeeded or not. The call fails, with the first
/// offending handle, where a handle addresses no live record.
pub fn encode(store: &SpanStore, gc: &mut GarbageCollector, trace: &Vec<SpanReference>) -> (r:
    Result<Vec<u8>, SpanError>)
    ensures
        match first_unknown(store@.spans, trace@) {
            None => r matches Ok(bytes) && bytes@ == trace_bytes(store@.spans, trace@),
            Some(i) => r == Err::<Vec<u8>, SpanError>(SpanError::UnknownHandle(trace@[i])),
        },
        final(gc)@ == (GcView { keep: old(gc)@.keep.difference(trace@.to_set()), ..old(gc)@ }),
{
    pin_batch(gc, trace);
    let mut buf: Vec<u8> = Vec::new();
    let outcome = encode_trace(&mut buf, store, trace);
    unpin_batch(gc, trace);
    proof {
        assert(gc@.keep =~= old(gc)@.keep.difference(trace@.to_set()));
        assert(Seq::<u8>::empty() + trace_bytes(store@.spans, trace@) =~= trace_bytes(
            store@.spans,
            trace@,
        ));
    }
    match outcome {
        Ok(_) => Ok(buf),
        Err(e) => Err(e),
    }
}

} // verus!
