//! The walk over an analysis that hands token spans to the search engine.

use vstd::prelude::*;
use crate::analysis::{walkable, Analysis};
use crate::node::MorphNode;
use crate::span::{
    emitted_length, emitted_spans, lemma_boundaries_alone_emit_nothing,
    lemma_emitted_length_prefix, lemma_emitted_length_push, lemma_emitted_spans_push,
    lemma_offset_coverage, span_from, SpanView, TokenSpan, TOKEN_FLAGS,
};
use crate::status::{SQLITE_ERROR, SQLITE_OK};

verus! {

/// The exact outcome of handing the token spans to a callback.
#[derive(Clone, Copy, Debug, PartialEq, Eq, Structural)]
pub struct Delivery {
    /// Status of the walk: `SQLITE_OK` when every span was accepted, else the
    /// status with which the callback refused one, or `SQLITE_ERROR` when
    /// there was no analysis to walk.
    pub status: i32,
    /// Number of times the callback was invoked.
    pub delivered: usize,
}

/// The reply that the `i`-th of `count` invocations must have given for a walk
/// to end with `status` after them: every invocation but the last let the walk
/// go on, and the last one gave the walk its status.
pub open spec fn reply_at(i: int, count: int, status: i32) -> i32 {
    if i + 1 < count {
        SQLITE_OK
    } else {
        status
    }
}

/// Whether `outcome` is what a walk over `spans` comes to when the callback
/// received exactly `sent`, one invocation for each.
///
/// The callback received the first spans in order, and no others. Each
/// invocation but the last returned `SQLITE_OK`. A walk that ends in
/// `SQLITE_OK` has delivered every span; a walk that ends otherwise ends with
/// what its last invocation returned.
pub open spec fn delivered_as<F: Fn(&TokenSpan) -> i32>(
    emit: F,
    spans: Seq<SpanView>,
    sent: Seq<TokenSpan>,
    outcome: Delivery,
) -> bool {
    &&& sent.len() == outcome.delivered
    &&& sent.len() <= spans.len()
    &&& forall|i: int|
        0 <= i < sent.len() ==> {
            &&& (#[trigger] sent[i])@ == spans[i]
            &&& call_ensures(emit, (&sent[i],), reply_at(i, sent.len() as int, outcome.status))
        }
    &&& outcome.status == SQLITE_OK ==> sent.len() == spans.len()
    &&& outcome.status != SQLITE_OK ==> sent.len() >= 1
}

/// Whether `outcome` is what a walk over `spans` with the callback `emit`
/// comes to.
pub open spec fn delivers<F: Fn(&TokenSpan) -> i32>(
    emit: F,
    spans: Seq<SpanView>,
    outcome: Delivery,
) -> bool {
    exists|sent: Seq<TokenSpan>| #[trigger] delivered_as(emit, spans, sent, outcome)
}

/// Whether what `emit` returns for a span depends on nothing but the span's
/// content.
pub open spec fn replies_by_content<F: Fn(&TokenSpan) -> i32>(emit: F) -> bool {
    forall|a: TokenSpan, b: TokenSpan, x: i32, y: i32|
        a@ == b@ && #[trigger] call_ensures(emit, (&a,), x) && #[trigger] call_ensures(
            emit,
            (&b,),
            y,
        ) ==> x == y
}

/// The views of a list of spans.
pub open spec fn span_views(spans: Seq<TokenSpan>) -> Seq<SpanView> {
    spans.map_values(|s: TokenSpan| s@)
}

/// The span of a token node that begins at `offset`.
fn span_at(node: &MorphNode, offset: i32) -> (span: TokenSpan)
    requires
        node.spec_has_surface(),
        offset + node.length <= i32::MAX,
    ensures
        span@ == span_from(*node, offset as int),
{
    TokenSpan {
        flags: TOKEN_FLAGS,
        start: offset,
        end: offset + node.length as i32,
        bytes: node.token_bytes(),
    }
}

/// All the token spans of an analysis, in order.
pub fn token_spans(analysis: &Analysis) -> (spans: Vec<TokenSpan>)
    ensures
        span_views(spans@) == emitted_spans(analysis@),
{
    let nodes = analysis.nodes();
    let mut spans: Vec<TokenSpan> = Vec::new();
    let mut cursor: i32 = 0;
    let mut i: usize = 0;
    while i < nodes.len()
        invariant
            i <= nodes.len(),
            walkable(nodes@),
            cursor == emitted_length(nodes@.take(i as int)),
            span_views(spans@) == emitted_spans(nodes@.take(i as int)),
        decreases nodes.len() - i,
    {
        let node = &nodes[i];
        proof {
            assert(nodes@.take(i + 1) =~= nodes@.take(i as int).push(*node));
            lemma_emitted_length_push(nodes@.take(i as int), *node);
            lemma_emitted_spans_push(nodes@.take(i as int), *node);
            lemma_emitted_length_prefix(nodes@, i + 1);
        }
        if node.is_token() {
            let span = span_at(node, cursor);
            proof {
                assert(span_views(spans@.push(span)) =~= span_views(spans@).push(span@));
            }
            cursor = span.end;
            spans.push(span);
        }
        i += 1;
    }
    proof {
        assert(nodes@.take(i as int) =~= nodes@);
    }
    spans
}

/// Walks an analysis and hands each token span to `emit`, in order, until
/// `emit` returns something other than `SQLITE_OK` or the spans are exhausted.
///
/// Without an analysis, which is how an analyzer failure arrives here, `emit`
/// is not invoked and the status is `SQLITE_ERROR`.
pub fn tokenize<F: Fn(&TokenSpan) -> i32>(parsed: Option<&Analysis>, emit: F) -> (outcome: Delivery)
    requires
        parsed matches Some(analysis) ==> forall|span: TokenSpan|
            emitted_spans(analysis@).contains(span@) ==> call_requires(emit, (&span,)),
    ensures
        parsed is None ==> outcome == (Delivery { status: SQLITE_ERROR, delivered: 0 }),
        parsed matches Some(analysis) ==> delivers(emit, emitted_spans(analysis@), outcome),
{
    let analysis = match parsed {
        Some(analysis) => analysis,
        None => {
            return Delivery { status: SQLITE_ERROR, delivered: 0 };
        },
    };
    let nodes = analysis.nodes();
    let ghost mut sent: Seq<TokenSpan> = Seq::empty();
    let mut delivered: usize = 0;
    let mut cursor: i32 = 0;
    let mut i: usize = 0;
    while i < nodes.len()
        invariant
            i <= nodes.len(),
            walkable(nodes@),
            parsed == Some(analysis),
            nodes@ == analysis@,
            forall|span: TokenSpan|
                emitted_spans(nodes@).contains(span@) ==> call_requires(emit, (&span,)),
            cursor == emitted_length(nodes@.take(i as int)),
            delivered <= i,
            delivered == sent.len(),
            span_views(sent) == emitted_spans(nodes@.take(i as int)),
            forall|k: int|
                0 <= k < sent.len() ==> call_ensures(emit, (&#[trigger] sent[k],), SQLITE_OK),
        decreases nodes.len() - i,
    {
        let node = &nodes[i];
        proof {
            assert(nodes@.take(i + 1) =~= nodes@.take(i as int).push(*node));
            lemma_emitted_length_push(nodes@.take(i as int), *node);
            lemma_emitted_spans_push(nodes@.take(i as int), *node);
            lemma_emitted_length_prefix(nodes@, i + 1);
        }
        if node.is_token() {
            let span = span_at(node, cursor);
            proof {
                lemma_spans_prefix(nodes@, i + 1);
                assert(emitted_spans(nodes@)[delivered as int] == span@);
            }
            let status = emit(&span);
            proof {
                assert(span_views(sent.push(span)) =~= span_views(sent).push(span@));
                sent = sent.push(span);
            }
            delivered = delivered + 1;
            if status != SQLITE_OK {
                let outcome = Delivery { status, delivered };
                proof {
                    assert(delivered_as(emit, emitted_spans(nodes@), sent, outcome));
                }
                return outcome;
            }
            cursor = span.end;
        }
        i += 1;
    }
    let outcome = Delivery { status: SQLITE_OK, delivered };
    proof {
        assert(nodes@.take(i as int) =~= nodes@);
        assert(delivered_as(emit, emitted_spans(nodes@), sent, outcome));
    }
    outcome
}

/// When a walk over a node list that covers a document of `input_length`
/// bytes ends in `SQLITE_OK`, the callback has received every span of the
/// list: the first begins at offset 0, each begins where the one before it
/// ends, and the last ends at `input_length`.
pub proof fn lemma_successful_walk_covers_input<F: Fn(&TokenSpan) -> i32>(
    emit: F,
    nodes: Seq<MorphNode>,
    input_length: int,
    sent: Seq<TokenSpan>,
    outcome: Delivery,
)
    requires
        emitted_length(nodes) == input_length,
        delivered_as(emit, emitted_spans(nodes), sent, outcome),
        outcome.status == SQLITE_OK,
    ensures
        span_views(sent) == emitted_spans(nodes),
        sent.len() > 0 ==> sent.first().start == 0 && sent.last().end == input_length,
        sent.len() == 0 ==> input_length == 0,
        forall|k: int|
            0 <= k < sent.len() ==> 0 <= (#[trigger] sent[k]).start <= sent[k].end <= input_length,
        forall|k: int| 0 <= k < sent.len() - 1 ==> (#[trigger] sent[k]).end == sent[k + 1].start,
{
    let spans = emitted_spans(nodes);
    lemma_offset_coverage(nodes, input_length);
    assert(span_views(sent) =~= spans);
    assert forall|k: int| 0 <= k < sent.len() implies 0 <= (#[trigger] sent[k]).start
        <= sent[k].end <= input_length by {
        assert(sent[k]@ == spans[k]);
    }
    assert forall|k: int| 0 <= k < sent.len() - 1 implies (#[trigger] sent[k]).end == sent[k
        + 1].start by {
        assert(sent[k]@ == spans[k]);
        assert(sent[k + 1]@ == spans[k + 1]);
    }
    if sent.len() > 0 {
        assert(sent[0]@ == spans[0]);
        assert(sent[sent.len() - 1]@ == spans[spans.len() - 1]);
    }
}

/// A walk keeps no state of its own: with a callback that replies by content,
/// the spans alone decide its outcome. Walks over the same spans come to the
/// same status after the same number of invocations, whatever was walked
/// before or elsewhere.
pub proof fn lemma_outcome_is_determined<F: Fn(&TokenSpan) -> i32>(
    emit: F,
    spans: Seq<SpanView>,
    first: Delivery,
    second: Delivery,
)
    requires
        replies_by_content(emit),
        delivers(emit, spans, first),
        delivers(emit, spans, second),
    ensures
        first == second,
{
    let a = choose|sent: Seq<TokenSpan>| delivered_as(emit, spans, sent, first);
    let b = choose|sent: Seq<TokenSpan>| delivered_as(emit, spans, sent, second);
    if a.len() < b.len() {
        lemma_shorter_walk_went_on(emit, spans, a, first, b, second);
    } else if b.len() < a.len() {
        lemma_shorter_walk_went_on(emit, spans, b, second, a, first);
    } else if a.len() > 0 {
        let k = a.len() - 1;
        assert(a[k]@ == spans[k] && b[k]@ == spans[k]);
        assert(call_ensures(emit, (&a[k],), reply_at(k, a.len() as int, first.status)));
        assert(call_ensures(emit, (&b[k],), reply_at(k, b.len() as int, second.status)));
    }
}

/// Of two walks over the same spans, the one with fewer invocations had
/// `SQLITE_OK` for its last reply, so it went on to the last span.
proof fn lemma_shorter_walk_went_on<F: Fn(&TokenSpan) -> i32>(
    emit: F,
    spans: Seq<SpanView>,
    shorter: Seq<TokenSpan>,
    first: Delivery,
    longer: Seq<TokenSpan>,
    second: Delivery,
)
    requires
        replies_by_content(emit),
        delivered_as(emit, spans, shorter, first),
        delivered_as(emit, spans, longer, second),
        shorter.len() < longer.len(),
    ensures
        shorter.len() == spans.len(),
{
    if shorter.len() > 0 {
        let k = shorter.len() - 1;
        assert(shorter[k]@ == spans[k] && longer[k]@ == spans[k]);
        assert(call_ensures(emit, (&shorter[k],), reply_at(k, shorter.len() as int, first.status)));
        assert(call_ensures(emit, (&longer[k],), reply_at(k, longer.len() as int, second.status)));
        assert(first.status == SQLITE_OK);
    }
}

/// A walk that ends with a status other than `SQLITE_OK` ends with exactly
/// what the last invocation of the callback returned. All invocations before
/// that one returned `SQLITE_OK`, and none was made after it.
pub proof fn lemma_abort_propagation<F: Fn(&TokenSpan) -> i32>(
    emit: F,
    spans: Seq<SpanView>,
    sent: Seq<TokenSpan>,
    outcome: Delivery,
)
    requires
        delivered_as(emit, spans, sent, outcome),
        outcome.status != SQLITE_OK,
    ensures
        1 <= outcome.delivered <= spans.len(),
        sent.len() == outcome.delivered,
        sent.last()@ == spans[outcome.delivered - 1],
        call_ensures(emit, (&sent.last(),), outcome.status),
        forall|i: int|
            0 <= i < outcome.delivered - 1 ==> call_ensures(
                emit,
                (&#[trigger] sent[i],),
                SQLITE_OK,
            ),
{
    let last = sent[sent.len() - 1];
    assert forall|i: int| 0 <= i < outcome.delivered - 1 implies call_ensures(
        emit,
        (&#[trigger] sent[i],),
        SQLITE_OK,
    ) by {
        assert(reply_at(i, sent.len() as int, outcome.status) == SQLITE_OK);
    }
}

/// A walk over sentence boundaries alone, which is what the analysis of an
/// empty document holds, succeeds without invoking the callback.
pub proof fn lemma_empty_input_succeeds<F: Fn(&TokenSpan) -> i32>(
    emit: F,
    nodes: Seq<MorphNode>,
    outcome: Delivery,
)
    requires
        forall|i: int| 0 <= i < nodes.len() ==> !(#[trigger] nodes[i]).spec_is_token(),
        delivers(emit, emitted_spans(nodes), outcome),
    ensures
        outcome == (Delivery { status: SQLITE_OK, delivered: 0 }),
{
    lemma_boundaries_alone_emit_nothing(nodes);
}

/// The spans of a prefix of a node list are the first spans of the whole
/// list.
pub proof fn lemma_spans_prefix(nodes: Seq<MorphNode>, i: int)
    requires
        0 <= i <= nodes.len(),
    ensures
        emitted_spans(nodes.take(i)).len() <= emitted_spans(nodes).len(),
        forall|k: int|
            0 <= k < emitted_spans(nodes.take(i)).len() ==> emitted_spans(nodes.take(i))[k]
                == emitted_spans(nodes)[k],
    decreases nodes.len() - i,
{
    if i == nodes.len() {
        assert(nodes.take(i) =~= nodes);
    } else {
        lemma_spans_prefix(nodes, i + 1);
        assert(nodes.take(i + 1) =~= nodes.take(i).push(nodes[i]));
        lemma_emitted_spans_push(nodes.take(i), nodes[i]);
    }
}

} // verus!
