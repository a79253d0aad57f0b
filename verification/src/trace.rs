//! Trace context for distributed tracing.

use vstd::arithmetic::power::pow;
use vstd::prelude::*;
use vstd::string::*;

use crate::random::{random_u128, random_u64};
use crate::text::{hex_text, split_on};
use crate::text::{
    hex, hex_span, hex_value, is_hex_digit, law_first_piece, law_hex_counts_powers_of_sixteen,
    lemma_hex, lemma_next_index_is, pieces, pieces_from,
};

verus! {

/// The text that an optional string holds.
pub open spec fn text_of(s: Option<String>) -> Option<Seq<char>> {
    match s {
        Some(t) => Some(t@),
        None => None,
    }
}

/// Trace context for distributed tracing
#[derive(Debug, Clone)]
pub struct TraceContext {
    /// W3C traceparent header value
    pub traceparent: Option<String>,
    /// Trace ID extracted from traceparent
    pub trace_id: Option<String>,
    /// Span ID extracted from traceparent
    pub span_id: Option<String>,
}

/// What a trace context holds.
#[verifier::ext_equal]
pub struct TraceView {
    pub traceparent: Option<Seq<char>>,
    pub trace_id: Option<Seq<char>>,
    pub span_id: Option<Seq<char>>,
}

impl View for TraceContext {
    type V = TraceView;

    open spec fn view(&self) -> TraceView {
        TraceView {
            traceparent: text_of(self.traceparent),
            trace_id: text_of(self.trace_id),
            span_id: text_of(self.span_id),
        }
    }
}

/// The context without any trace.
pub open spec fn no_trace() -> TraceView {
    TraceView { traceparent: None, trace_id: None, span_id: None }
}

/// The context of a traceparent text: its second and third hyphen-separated
/// fields are the trace ID and the span ID. A text of fewer than three fields
/// has neither.
pub open spec fn trace_of(traceparent: Seq<char>) -> TraceView {
    let fields = pieces(traceparent, '-');
    TraceView {
        traceparent: Some(traceparent),
        trace_id: if fields.len() >= 3 {
            Some(fields[1])
        } else {
            None
        },
        span_id: if fields.len() >= 3 {
            Some(fields[2])
        } else {
            None
        },
    }
}

/// The traceparent text of a trace and a span: version `00`, the trace ID in
/// 32 hexadecimal digits, the span ID in 16, and the flags `01`.
pub open spec fn traceparent_of(trace: u128, span: u64) -> Seq<char> {
    "00-"@ + hex(trace as nat, 32) + "-"@ + hex(span as nat, 16) + "-01"@
}

/// The context of a trace and a span that are given by number.
pub open spec fn generated(trace: u128, span: u64) -> TraceView {
    TraceView {
        traceparent: Some(traceparent_of(trace, span)),
        trace_id: Some(hex(trace as nat, 32)),
        span_id: Some(hex(span as nat, 16)),
    }
}

impl Default for TraceContext {
    /// The context without any trace.
    fn default() -> (r: Self)
        ensures
            r@ == no_trace(),
            r.traceparent is None && r.trace_id is None && r.span_id is None,
    {
        TraceContext { traceparent: None, trace_id: None, span_id: None }
    }
}

impl TraceContext {
    /// Create a new TraceContext from a W3C traceparent string
    ///
    /// Format: version-traceId-spanId-traceFlags (e.g.,
    /// 00-0af7651916cd43dd8448eb211c80319c-b7ad6b7169203331-01)
    pub fn from_traceparent(traceparent: &str) -> (r: Self)
        ensures
            r@ == trace_of(traceparent@),
            r.traceparent is Some && r.traceparent->0@ == traceparent@,
            pieces(traceparent@, '-').len() >= 3 ==> {
                &&& r.trace_id is Some && r.trace_id->0@ == pieces(traceparent@, '-')[1]
                &&& r.span_id is Some && r.span_id->0@ == pieces(traceparent@, '-')[2]
            },
            pieces(traceparent@, '-').len() < 3 ==> r.trace_id is None && r.span_id is None,
    {
        let parts = split_on(traceparent, '-');
        let ghost fields = pieces(traceparent@, '-');
        assert(parts@.len() == fields.len()) by {
            assert(parts@.map_values(|t: String| t@).len() == parts@.len());
        }
        if parts.len() >= 3 {
            proof {
                assert(parts@.map_values(|t: String| t@)[1] == parts@[1]@);
                assert(parts@.map_values(|t: String| t@)[2] == parts@[2]@);
            }
            TraceContext {
                traceparent: Some(traceparent.to_owned()),
                trace_id: Some(parts[1].clone()),
                span_id: Some(parts[2].clone()),
            }
        } else {
            TraceContext {
                traceparent: Some(traceparent.to_owned()),
                trace_id: None,
                span_id: None,
            }
        }
    }

    /// Create the trace context of a trace and a span that are given by number.
    pub fn from_ids(trace: u128, span: u64) -> (r: Self)
        ensures
            r@ == generated(trace, span),
            r.trace_id is Some && r.trace_id->0@ == hex(trace as nat, 32),
            r.span_id is Some && r.span_id->0@ == hex(span as nat, 16),
            r.traceparent is Some && r.traceparent->0@ == "00-"@ + hex(trace as nat, 32) + "-"@
                + hex(span as nat, 16) + "-01"@,
    {
        let trace_id = hex_text(trace, 32);
        let span_id = hex_text(span as u128, 16);
        let mut traceparent = "00-".to_owned();
        traceparent.append(trace_id.as_str());
        traceparent.append("-");
        traceparent.append(span_id.as_str());
        traceparent.append("-01");
        TraceContext {
            traceparent: Some(traceparent),
            trace_id: Some(trace_id),
            span_id: Some(span_id),
        }
    }

    /// Create a new trace context with generated IDs
    pub fn new() -> (r: Self)
        ensures
            exists|trace: u128, span: u64| r@ == #[trigger] generated(trace, span),
    {
        let trace = random_u128();
        let span = random_u64();
        TraceContext::from_ids(trace, span)
    }
}

/// The IDs of a generated context are the ones that its traceparent carries:
/// reading the traceparent gives the whole context back.
pub proof fn law_generated_context_reads_back(trace: u128, span: u64)
    ensures
        trace_of(traceparent_of(trace, span)) == generated(trace, span),
{
    reveal_strlit("00-");
    reveal_strlit("-");
    reveal_strlit("-01");
    let t = hex(trace as nat, 32);
    let s = hex(span as nat, 16);
    let text = traceparent_of(trace, span);
    lemma_hex(trace as nat, 32);
    lemma_hex(span as nat, 16);
    assert(text.len() == 55);
    assert forall|i: int| 3 <= i < 35 implies text[i] != '-' by {
        assert(text[i] == t[i - 3]);
        assert(is_hex_digit(t[i - 3]));
    }
    assert forall|i: int| 36 <= i < 52 implies text[i] != '-' by {
        assert(text[i] == s[i - 36]);
        assert(is_hex_digit(s[i - 36]));
    }
    lemma_next_index_is(text, '-', 0, 2);
    lemma_next_index_is(text, '-', 3, 35);
    lemma_next_index_is(text, '-', 36, 52);
    lemma_next_index_is(text, '-', 53, 55);
    assert(text.subrange(3, 35) =~= t);
    assert(text.subrange(36, 52) =~= s);
    let last = pieces_from(text, '-', 53);
    let third = pieces_from(text, '-', 36);
    let second = pieces_from(text, '-', 3);
    assert(last.len() == 1);
    assert(third == seq![s] + last);
    assert(second == seq![t] + third);
    assert(pieces(text, '-') == seq![text.subrange(0, 2)] + second);
    assert(pieces(text, '-')[1] == t);
    assert(pieces(text, '-')[2] == s);
}

/// Generated contexts are told apart: different numbers give different
/// traceparent texts.
pub proof fn law_generated_contexts_are_distinct(
    trace_a: u128,
    span_a: u64,
    trace_b: u128,
    span_b: u64,
)
    requires
        trace_a != trace_b || span_a != span_b,
    ensures
        traceparent_of(trace_a, span_a) != traceparent_of(trace_b, span_b),
{
    law_generated_context_reads_back(trace_a, span_a);
    law_generated_context_reads_back(trace_b, span_b);
    lemma_hex(trace_a as nat, 32);
    lemma_hex(trace_b as nat, 32);
    lemma_hex(span_a as nat, 16);
    lemma_hex(span_b as nat, 16);
    reveal_with_fuel(hex_span, 33);
    assert(hex_span(16) == 0x1_0000_0000_0000_0000);
    assert(hex_span(32) == 0x1_0000_0000_0000_0000_0000_0000_0000_0000);
    if traceparent_of(trace_a, span_a) == traceparent_of(trace_b, span_b) {
        assert(generated(trace_a, span_a) == generated(trace_b, span_b));
        assert(hex_value(hex(trace_a as nat, 32)) == hex_value(hex(trace_b as nat, 32)));
        assert(hex_value(hex(span_a as nat, 16)) == hex_value(hex(span_b as nat, 16)));
    }
}

/// The IDs are the second and the third field of a traceparent, whole and
/// unchanged, whatever the fields hold and whatever follows them; the text
/// itself is kept.
pub proof fn law_ids_are_the_second_and_third_field(
    version: Seq<char>,
    trace_id: Seq<char>,
    span_id: Seq<char>,
    rest: Seq<char>,
)
    requires
        forall|i: int| 0 <= i < version.len() ==> version[i] != '-',
        forall|i: int| 0 <= i < trace_id.len() ==> trace_id[i] != '-',
        forall|i: int| 0 <= i < span_id.len() ==> span_id[i] != '-',
        rest.len() > 0 ==> rest[0] == '-',
    ensures
        ({
            let text = version + seq!['-'] + trace_id + seq!['-'] + span_id + rest;
            trace_of(text) == (TraceView {
                traceparent: Some(text),
                trace_id: Some(trace_id),
                span_id: Some(span_id),
            })
        }),
{
    let text = version + seq!['-'] + trace_id + seq!['-'] + span_id + rest;
    let second = trace_id + seq!['-'] + (span_id + rest);
    let third = span_id + rest;
    assert(text =~= version + seq!['-'] + second);
    law_first_piece(version, '-', second);
    law_first_piece(trace_id, '-', third);
    if rest.len() > 0 {
        assert(third =~= span_id + seq!['-'] + rest.skip(1));
        law_first_piece(span_id, '-', rest.skip(1));
    } else {
        assert(third =~= span_id);
        law_first_piece(span_id, '-', rest);
    }
    assert(pieces(text, '-')[1] == trace_id);
    assert(pieces(text, '-')[2] == span_id);
}

/// A text with fewer than three fields, that is, with at most one hyphen, has
/// no IDs; the text itself is kept.
pub proof fn law_too_few_fields_give_no_ids(first: Seq<char>, second: Seq<char>)
    requires
        forall|i: int| 0 <= i < first.len() ==> first[i] != '-',
        forall|i: int| 0 <= i < second.len() ==> second[i] != '-',
    ensures
        trace_of(first) == (TraceView { traceparent: Some(first), trace_id: None, span_id: None }),
        trace_of(first + seq!['-'] + second) == (TraceView {
            traceparent: Some(first + seq!['-'] + second),
            trace_id: None,
            span_id: None,
        }),
{
    law_first_piece(first, '-', second);
    law_first_piece(second, '-', first);
}

/// A generated context is spelled out: version and flags are fixed, the trace
/// ID stands in 32 hexadecimal digits and the span ID in 16, and each digit
/// counts the power of sixteen of its position.
pub proof fn law_generated_context_spells_its_numbers(trace: u128, span: u64, i: int)
    ensures
        ({
            let text = traceparent_of(trace, span);
            &&& text.len() == 55
            &&& text.take(3) == "00-"@
            &&& text[35] == '-'
            &&& text.skip(52) == "-01"@
            &&& 0 <= i < 32 ==> text[3 + i] == "0123456789abcdef"@[(trace as int / pow(
                16,
                (31 - i) as nat,
            )) % 16]
            &&& 0 <= i < 16 ==> text[36 + i] == "0123456789abcdef"@[(span as int / pow(
                16,
                (15 - i) as nat,
            )) % 16]
            &&& generated(trace, span) == (TraceView {
                traceparent: Some(text),
                trace_id: Some(text.subrange(3, 35)),
                span_id: Some(text.subrange(36, 52)),
            })
        }),
{
    reveal_strlit("00-");
    reveal_strlit("-");
    reveal_strlit("-01");
    let t = hex(trace as nat, 32);
    let s = hex(span as nat, 16);
    let text = traceparent_of(trace, span);
    lemma_hex(trace as nat, 32);
    lemma_hex(span as nat, 16);
    assert(text.take(3) =~= "00-"@);
    assert(text.skip(52) =~= "-01"@);
    assert(text.subrange(3, 35) =~= t);
    assert(text.subrange(36, 52) =~= s);
    if 0 <= i < 32 {
        law_hex_counts_powers_of_sixteen(trace as nat, 32, i);
        assert(text[3 + i] == t[i]);
    }
    if 0 <= i < 16 {
        law_hex_counts_powers_of_sixteen(span as nat, 16, i);
        assert(text[36 + i] == s[i]);
    }
}

} // verus!
