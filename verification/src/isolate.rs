//! Sink Isolator: neutralizing every outbound edge of the abort node.
//!
//! The abort node denotes a sink; what the abort path itself calls must not
//! be mistaken for what calls into it. A one-time pass rewrites the arrow
//! head of every edge whose caller is the abort node, producing a sanitized
//! working buffer; the backward walker only ever reads that buffer.

use crate::layout::{ARROW_HEAD, CARROT_LENGTH_FORWARD, NEUTRAL_MARK, NODE_COMPARISON_LENGTH};
use crate::scan::{match_at, matches_at};
use vstd::prelude::*;

verus! {

/// `node` occurs as the caller of an edge at position `i`: its identifier
/// matches there and the arrow head follows at the fixed forward offset.
pub open spec fn caller_edge_at(data: Seq<u8>, node: Seq<u8>, i: int) -> bool {
    &&& match_at(data, node, i)
    &&& i + NODE_COMPARISON_LENGTH + CARROT_LENGTH_FORWARD < data.len()
    &&& data[i + NODE_COMPARISON_LENGTH + CARROT_LENGTH_FORWARD] == ARROW_HEAD
}

/// The sanitized buffer: byte-identical to `data` except that the arrow
/// head of every edge whose caller is `node` is overwritten with the
/// neutral mark.
pub open spec fn sanitized(data: Seq<u8>, node: Seq<u8>) -> Seq<u8> {
    Seq::new(
        data.len(),
        |j: int|
            if caller_edge_at(data, node, j - (NODE_COMPARISON_LENGTH + CARROT_LENGTH_FORWARD)) {
                NEUTRAL_MARK
            } else {
                data[j]
            },
    )
}

/// Rewrites `data` into its sanitized form: every edge with caller `node`
/// loses its arrow head, and every other byte is left untouched.
pub fn remove_downstream(data: &mut Vec<u8>, node: &Vec<u8>)
    requires
        node@.len() == NODE_COMPARISON_LENGTH,
    ensures
        final(data)@ == sanitized(old(data)@, node@),
{
    let mut out: Vec<u8> = Vec::new();
    let len = data.len();
    let mut j: usize = 0;
    while j < len
        invariant
            data@ == old(data)@,
            node@.len() == NODE_COMPARISON_LENGTH,
            len == data@.len(),
            j <= len,
            out@ == sanitized(data@, node@).subrange(0, j as int),
        decreases len - j,
    {
        let mark = j >= NODE_COMPARISON_LENGTH + CARROT_LENGTH_FORWARD && data[j] == ARROW_HEAD
            && matches_at(data, node, j - (NODE_COMPARISON_LENGTH + CARROT_LENGTH_FORWARD));
        proof {
            assert(mark == caller_edge_at(
                data@,
                node@,
                j - (NODE_COMPARISON_LENGTH + CARROT_LENGTH_FORWARD),
            ));
        }
        if mark {
            out.push(NEUTRAL_MARK);
        } else {
            out.push(data[j]);
        }
        proof {
            assert(out@ =~= sanitized(data@, node@).subrange(0, j + 1));
        }
        j = j + 1;
    }
    proof {
        assert(sanitized(data@, node@).subrange(0, len as int) =~= sanitized(data@, node@));
    }
    *data = out;
}

/// Sink soundness: in the sanitized buffer, no edge has the abort node as
/// its caller, provided the node's identifier does not itself contain the
/// neutral mark byte.
pub proof fn lemma_sink_isolation_sound(data: Seq<u8>, node: Seq<u8>)
    requires
        node.len() == NODE_COMPARISON_LENGTH,
        forall|k: int| 0 <= k < node.len() ==> node[k] != NEUTRAL_MARK,
    ensures
        forall|i: int| !caller_edge_at(sanitized(data, node), node, i),
{
    let san = sanitized(data, node);
    assert(san.len() == data.len());
    assert forall|i: int| !caller_edge_at(san, node, i) by {
        if caller_edge_at(san, node, i) {
            let a = i + NODE_COMPARISON_LENGTH + CARROT_LENGTH_FORWARD;
            assert forall|k: int| 0 <= k < node.len() implies #[trigger] node[k] == data[i + k] by {
                assert(node[k] == san[i + k]);
                assert(san[i + k] != NEUTRAL_MARK);
            }
            assert(match_at(data, node, i));
            assert(san[a] == ARROW_HEAD);
            assert(san[a] != NEUTRAL_MARK);
            assert(data[a] == ARROW_HEAD);
            assert(caller_edge_at(data, node, i));
            assert(san[a] == NEUTRAL_MARK);
            assert(false);
        }
    }
}

} // verus!
