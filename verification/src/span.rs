//! Token spans, and which spans a list of analyzer nodes gives rise to.

use vstd::prelude::*;
use crate::node::MorphNode;

verus! {

/// The flags that every token is handed over with: none is set.
pub const TOKEN_FLAGS: i32 = 0;

/// A token as the search engine receives it: the bytes of the token and the
/// byte offsets in the document between which it lies.
#[derive(Debug, PartialEq, Eq)]
pub struct TokenSpan {
    /// Flags of the token, in the engine's encoding.
    pub flags: i32,
    /// Offset of the token's first byte.
    pub start: i32,
    /// Offset just past the token's last byte.
    pub end: i32,
    /// The token's bytes, owned by the span.
    pub bytes: Vec<u8>,
}

/// The mathematical content of a [`TokenSpan`].
pub ghost struct SpanView {
    /// Flags of the token.
    pub flags: int,
    /// Offset of the token's first byte.
    pub start: int,
    /// Offset just past the token's last byte.
    pub end: int,
    /// The token's bytes.
    pub bytes: Seq<u8>,
}

impl View for TokenSpan {
    type V = SpanView;

    open spec fn view(&self) -> SpanView {
        SpanView {
            flags: self.flags as int,
            start: self.start as int,
            end: self.end as int,
            bytes: self.bytes@,
        }
    }
}

impl Clone for TokenSpan {
    /// A span with the same flags, offsets and bytes.
    fn clone(&self) -> (copy: Self)
        ensures
            copy@ == self@,
    {
        TokenSpan { flags: self.flags, start: self.start, end: self.end, bytes: self.bytes.clone() }
    }
}

/// The nodes that become tokens, in their order: all but the sentence
/// boundaries.
pub open spec fn token_nodes(nodes: Seq<MorphNode>) -> Seq<MorphNode> {
    nodes.filter(|n: MorphNode| n.spec_is_token())
}

/// Sum of the lengths of the first `k` of `tokens`.
pub open spec fn length_before(tokens: Seq<MorphNode>, k: int) -> int
    decreases k,
{
    if k <= 0 {
        0
    } else {
        length_before(tokens, k - 1) + tokens[k - 1].length as int
    }
}

/// The span of the `k`-th of `tokens`: it begins where the lengths of the
/// tokens before it end, and holds the token's own bytes.
pub open spec fn span_of(tokens: Seq<MorphNode>, k: int) -> SpanView {
    SpanView {
        flags: TOKEN_FLAGS as int,
        start: length_before(tokens, k),
        end: length_before(tokens, k + 1),
        bytes: tokens[k].spec_token_bytes(),
    }
}

/// The spans that a list of nodes gives rise to: one for each node that is not
/// a sentence boundary, laid end to end from offset 0.
pub open spec fn emitted_spans(nodes: Seq<MorphNode>) -> Seq<SpanView> {
    let tokens = token_nodes(nodes);
    Seq::new(tokens.len(), |k: int| span_of(tokens, k))
}

/// Number of bytes that the spans of a list of nodes cover together.
pub open spec fn emitted_length(nodes: Seq<MorphNode>) -> int {
    length_before(token_nodes(nodes), token_nodes(nodes).len() as int)
}

/// The span that `node` is given when the tokens before it cover `offset`
/// bytes.
pub open spec fn span_from(node: MorphNode, offset: int) -> SpanView {
    SpanView {
        flags: TOKEN_FLAGS as int,
        start: offset,
        end: offset + node.length as int,
        bytes: node.spec_token_bytes(),
    }
}

/// Appending a node appends it to the token nodes exactly if it is a token.
pub proof fn lemma_token_nodes_push(nodes: Seq<MorphNode>, node: MorphNode)
    ensures
        token_nodes(nodes.push(node)) == if node.spec_is_token() {
            token_nodes(nodes).push(node)
        } else {
            token_nodes(nodes)
        },
{
    reveal(Seq::filter);
    assert(nodes.push(node).drop_last() =~= nodes);
}

/// The lengths before position `k` do not depend on what follows it.
pub proof fn lemma_length_before_push(tokens: Seq<MorphNode>, node: MorphNode, k: int)
    requires
        k <= tokens.len(),
    ensures
        length_before(tokens.push(node), k) == length_before(tokens, k),
    decreases k,
{
    if k > 0 {
        lemma_length_before_push(tokens, node, k - 1);
    }
}

/// Lengths are never negative, and grow with the position.
pub proof fn lemma_length_before_monotonic(tokens: Seq<MorphNode>, j: int, k: int)
    requires
        j <= k,
    ensures
        0 <= length_before(tokens, j) <= length_before(tokens, k),
    decreases k,
{
    if k > 0 && j < k {
        lemma_length_before_monotonic(tokens, j, k - 1);
    } else if k > 0 {
        lemma_length_before_monotonic(tokens, j - 1, k - 1);
    }
}

/// Appending a node adds its length to the covered bytes exactly if it is a
/// token.
pub proof fn lemma_emitted_length_push(nodes: Seq<MorphNode>, node: MorphNode)
    ensures
        emitted_length(nodes.push(node)) == emitted_length(nodes) + if node.spec_is_token() {
            node.length as int
        } else {
            0
        },
{
    lemma_token_nodes_push(nodes, node);
    if node.spec_is_token() {
        let tokens = token_nodes(nodes);
        lemma_length_before_push(tokens, node, tokens.len() as int);
    }
}

/// Appending a token node appends its span, which begins where the spans so
/// far end; appending a sentence boundary changes nothing.
pub proof fn lemma_emitted_spans_push(nodes: Seq<MorphNode>, node: MorphNode)
    ensures
        emitted_spans(nodes.push(node)) == if node.spec_is_token() {
            emitted_spans(nodes).push(span_from(node, emitted_length(nodes)))
        } else {
            emitted_spans(nodes)
        },
{
    lemma_token_nodes_push(nodes, node);
    if node.spec_is_token() {
        let tokens = token_nodes(nodes);
        let longer = tokens.push(node);
        let n = tokens.len() as int;
        assert forall|k: int| 0 <= k < n implies span_of(longer, k) == span_of(tokens, k) by {
            lemma_length_before_push(tokens, node, k);
            lemma_length_before_push(tokens, node, k + 1);
        }
        lemma_length_before_push(tokens, node, n);
        assert(span_of(longer, n) == span_from(node, emitted_length(nodes)));
        assert(emitted_spans(nodes.push(node)) =~= emitted_spans(nodes).push(
            span_from(node, emitted_length(nodes)),
        ));
    }
}

/// A prefix of a list of nodes covers no more bytes than the whole list.
pub proof fn lemma_emitted_length_prefix(nodes: Seq<MorphNode>, i: int)
    requires
        0 <= i <= nodes.len(),
    ensures
        0 <= emitted_length(nodes.take(i)) <= emitted_length(nodes),
    decreases nodes.len() - i,
{
    if i == nodes.len() {
        assert(nodes.take(i) =~= nodes);
        lemma_length_before_monotonic(token_nodes(nodes), 0, token_nodes(nodes).len() as int);
    } else {
        lemma_emitted_length_prefix(nodes, i + 1);
        assert(nodes.take(i + 1) =~= nodes.take(i).push(nodes[i]));
        lemma_emitted_length_push(nodes.take(i), nodes[i]);
        lemma_length_before_monotonic(
            token_nodes(nodes.take(i)),
            0,
            token_nodes(nodes.take(i)).len() as int,
        );
    }
}

/// The spans of a node list are laid end to end: the first
/// begins at offset 0, each begins where the one before it ends, none ends
/// before it begins, and the last ends where the token nodes' lengths end.
/// For an analysis that covers a document of `input_length` bytes, that is
/// the end of the document, and every offset lies within the document.
pub proof fn lemma_offset_coverage(nodes: Seq<MorphNode>, input_length: int)
    requires
        emitted_length(nodes) == input_length,
    ensures
        emitted_spans(nodes).len() > 0 ==> emitted_spans(nodes).first().start == 0,
        emitted_spans(nodes).len() > 0 ==> emitted_spans(nodes).last().end == input_length,
        emitted_spans(nodes).len() == 0 ==> input_length == 0,
        forall|k: int|
            0 <= k < emitted_spans(nodes).len() ==> 0 <= (#[trigger] emitted_spans(nodes)[k]).start
                <= emitted_spans(nodes)[k].end <= input_length,
        forall|k: int|
            0 <= k < emitted_spans(nodes).len() - 1 ==> (#[trigger] emitted_spans(nodes)[k]).end
                == emitted_spans(nodes)[k + 1].start,
        forall|j: int, k: int|
            0 <= j < k < emitted_spans(nodes).len() ==> (#[trigger] emitted_spans(nodes)[j]).end
                <= (#[trigger] emitted_spans(nodes)[k]).start,
{
    let tokens = token_nodes(nodes);
    let n = tokens.len() as int;
    assert forall|k: int| 0 <= k < n implies 0 <= (#[trigger] emitted_spans(nodes)[k]).start
        <= emitted_spans(nodes)[k].end <= input_length by {
        lemma_length_before_monotonic(tokens, 0, k);
        lemma_length_before_monotonic(tokens, k, k + 1);
        lemma_length_before_monotonic(tokens, k + 1, n);
    }
    assert forall|j: int, k: int| 0 <= j < k < n implies (#[trigger] emitted_spans(
        nodes,
    )[j]).end <= (#[trigger] emitted_spans(nodes)[k]).start by {
        lemma_length_before_monotonic(tokens, j + 1, k);
    }
}

/// The spans stem from the token nodes alone:
/// there is one span for each node that is no sentence boundary, in the
/// nodes' order, with that node's bytes and length, and the sentence
/// boundaries could as well not be there.
pub proof fn lemma_spans_stem_from_tokens(nodes: Seq<MorphNode>)
    ensures
        emitted_spans(nodes).len() == token_nodes(nodes).len(),
        emitted_spans(token_nodes(nodes)) == emitted_spans(nodes),
        forall|k: int|
            0 <= k < token_nodes(nodes).len() ==> {
                &&& (#[trigger] token_nodes(nodes)[k]).spec_is_token()
                &&& nodes.contains(token_nodes(nodes)[k])
                &&& emitted_spans(nodes)[k].bytes == token_nodes(nodes)[k].spec_token_bytes()
                &&& emitted_spans(nodes)[k].end - emitted_spans(nodes)[k].start
                    == token_nodes(nodes)[k].length as int
            },
{
    let pred = |n: MorphNode| n.spec_is_token();
    let tokens = token_nodes(nodes);
    assert forall|k: int| 0 <= k < tokens.len() implies pred(#[trigger] tokens[k])
        && nodes.contains(tokens[k]) by {
        nodes.lemma_filter_pred(pred, k);
        assert(tokens.contains(tokens[k]));
        nodes.lemma_filter_contains_rev(pred, tokens[k]);
    }
    lemma_filter_keeps_all(tokens);
}

/// Filtering a list that holds token nodes only keeps it as it is.
proof fn lemma_filter_keeps_all(tokens: Seq<MorphNode>)
    requires
        forall|k: int| 0 <= k < tokens.len() ==> (#[trigger] tokens[k]).spec_is_token(),
    ensures
        token_nodes(tokens) == tokens,
    decreases tokens.len(),
{
    reveal(Seq::filter);
    if tokens.len() > 0 {
        lemma_filter_keeps_all(tokens.drop_last());
        assert(tokens.drop_last().push(tokens.last()) =~= tokens);
    }
}

/// A sentence boundary changes nothing, wherever in the list it stands.
pub proof fn lemma_boundary_changes_nothing(nodes: Seq<MorphNode>, i: int, boundary: MorphNode)
    requires
        0 <= i <= nodes.len(),
        !boundary.spec_is_token(),
    ensures
        emitted_spans(nodes.insert(i, boundary)) == emitted_spans(nodes),
        emitted_length(nodes.insert(i, boundary)) == emitted_length(nodes),
{
    let pred = |n: MorphNode| n.spec_is_token();
    let head = nodes.take(i);
    let tail = nodes.skip(i);
    let one = seq![boundary];
    assert(nodes.insert(i, boundary) =~= head + one + tail);
    assert(nodes =~= head + tail);
    Seq::filter_distributes_over_add(head + one, tail, pred);
    Seq::filter_distributes_over_add(head, one, pred);
    Seq::filter_distributes_over_add(head, tail, pred);
    assert(one.filter(pred) =~= Seq::<MorphNode>::empty()) by {
        one.lemma_all_neg_filter_empty(pred);
    }
    assert(head.filter(pred) + one.filter(pred) =~= head.filter(pred));
    assert(token_nodes(nodes.insert(i, boundary)) == token_nodes(nodes));
}

/// A list that holds sentence boundaries only, as the analysis of an empty
/// document does, gives rise to no span at all.
pub proof fn lemma_boundaries_alone_emit_nothing(nodes: Seq<MorphNode>)
    requires
        forall|i: int| 0 <= i < nodes.len() ==> !(#[trigger] nodes[i]).spec_is_token(),
    ensures
        emitted_spans(nodes) == Seq::<SpanView>::empty(),
        emitted_length(nodes) == 0,
{
    let pred = |n: MorphNode| n.spec_is_token();
    nodes.lemma_all_neg_filter_empty(pred);
    assert(emitted_spans(nodes) =~= Seq::<SpanView>::empty());
}

} // verus!
