//! An analyzer's output for one document, checked before it is walked.

use vstd::prelude::*;
use crate::node::MorphNode;
use crate::span::{
    emitted_length, emitted_spans, lemma_emitted_length_prefix, lemma_emitted_length_push,
    lemma_offset_coverage, lemma_spans_stem_from_tokens, token_nodes, TOKEN_FLAGS,
};

verus! {

/// Whether every token node among `nodes` has a surface that holds the bytes
/// it covers.
pub open spec fn surfaces_present(nodes: Seq<MorphNode>) -> bool {
    forall|i: int|
        0 <= i < nodes.len() && (#[trigger] nodes[i]).spec_is_token()
            ==> nodes[i].spec_has_surface()
}

/// Whether a list of nodes can be turned into token spans: each token's bytes
/// are there, and every offset fits the engine's 32-bit signed offsets.
pub open spec fn walkable(nodes: Seq<MorphNode>) -> bool {
    surfaces_present(nodes) && emitted_length(nodes) <= i32::MAX
}

/// Every span of a walkable node list fits the engine's callback: its offsets
/// are 32-bit signed numbers, its bytes are as many as lie between its
/// offsets, and none of its flags is set.
pub proof fn lemma_spans_fit(nodes: Seq<MorphNode>)
    requires
        walkable(nodes),
    ensures
        forall|k: int|
            0 <= k < emitted_spans(nodes).len() ==> {
                &&& 0 <= (#[trigger] emitted_spans(nodes)[k]).start <= emitted_spans(nodes)[k].end
                    <= i32::MAX
                &&& emitted_spans(nodes)[k].bytes.len() == emitted_spans(nodes)[k].end
                    - emitted_spans(nodes)[k].start
                &&& emitted_spans(nodes)[k].flags == TOKEN_FLAGS
            },
{
    lemma_offset_coverage(nodes, emitted_length(nodes));
    lemma_spans_stem_from_tokens(nodes);
    assert forall|k: int| 0 <= k < emitted_spans(nodes).len() implies (#[trigger] emitted_spans(
        nodes,
    )[k]).bytes.len() == emitted_spans(nodes)[k].end - emitted_spans(nodes)[k].start by {
        let token = token_nodes(nodes)[k];
        assert(nodes.contains(token));
        let j = choose|j: int| 0 <= j < nodes.len() && nodes[j] == token;
        assert(nodes[j].spec_has_surface());
    }
}

/// The node list that the analyzer produced for one document, known to be
/// [`walkable`].
pub struct Analysis {
    nodes: Vec<MorphNode>,
}

impl View for Analysis {
    type V = Seq<MorphNode>;

    closed spec fn view(&self) -> Seq<MorphNode> {
        self.nodes@
    }
}

impl Analysis {
    /// What holds of every `Analysis`.
    #[verifier::type_invariant]
    pub open spec fn well_formed(&self) -> bool {
        walkable(self@)
    }

    /// Checks a node list. The list is accepted exactly if it is walkable,
    /// and is then kept as it is.
    pub fn new(nodes: Vec<MorphNode>) -> (analysis: Option<Analysis>)
        ensures
            analysis.is_some() == walkable(nodes@),
            analysis matches Some(a) ==> a@ == nodes@,
    {
        let mut total: i32 = 0;
        let mut i: usize = 0;
        while i < nodes.len()
            invariant
                i <= nodes.len(),
                total == emitted_length(nodes@.take(i as int)),
                surfaces_present(nodes@.take(i as int)),
            decreases nodes.len() - i,
        {
            let node = &nodes[i];
            proof {
                assert(nodes@.take(i + 1) =~= nodes@.take(i as int).push(*node));
                lemma_emitted_length_push(nodes@.take(i as int), *node);
                lemma_emitted_length_prefix(nodes@, i as int);
                lemma_emitted_length_prefix(nodes@, i + 1);
            }
            if node.is_token() {
                if !node.has_surface() {
                    return None;
                }
                if node.length as i32 > i32::MAX - total {
                    return None;
                }
                total = total + node.length as i32;
            }
            i += 1;
        }
        proof {
            assert(nodes@.take(i as int) =~= nodes@);
        }
        Some(Analysis { nodes })
    }

    /// The nodes, in the analyzer's order.
    pub fn nodes(&self) -> (nodes: &Vec<MorphNode>)
        ensures
            nodes@ == self@,
            walkable(nodes@),
    {
        proof {
            use_type_invariant(self);
        }
        &self.nodes
    }
}

} // verus!
