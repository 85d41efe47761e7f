//! Backward Path Walker: depth-bounded recursive search over inbound edges.
//!
//! Starting from the abort node, the walker looks for every edge whose
//! callee is the current node, recurses on each caller with one hop less of
//! budget, and emits a node's label once per successful branch, indented by
//! the deepest depth any caller reached. A node in the top-level set is a
//! leaf of the search; a branch that exhausts its budget simply reports
//! nothing. Termination rests on the budget alone, so direct self-edges are
//! skipped rather than followed.

use crate::emit::{emit_for_node, store_node_name};
use crate::errors::AnalysisError;
use crate::layout::{
    ARROW_HEAD, INDENT_SPACE, NODE_COMPARISON_LENGTH, NODE_LENGTH, POINT_LENGTH,
    PREV_CARROT_LENGTH,
};
use crate::scan::{bytes_eq, contains_bytes, copy_range, match_at, matches_at};
use vstd::prelude::*;

verus! {

/// `node` occurs as the callee of an edge at position `i`: its identifier
/// matches there, immediately preceded by an arrow head.
pub open spec fn callee_edge_at(data: Seq<u8>, node: Seq<u8>, i: int) -> bool {
    &&& match_at(data, node, i)
    &&& i >= PREV_CARROT_LENGTH
    &&& data[i - PREV_CARROT_LENGTH] == ARROW_HEAD
}

/// The caller identifier of the edge whose callee sits at position `i`.
pub open spec fn caller_of(data: Seq<u8>, i: int) -> Seq<u8> {
    data.subrange(
        i - NODE_LENGTH - POINT_LENGTH,
        i - NODE_LENGTH - POINT_LENGTH + NODE_COMPARISON_LENGTH,
    )
}

/// The larger of two discovered depths.
pub open spec fn nat_max(a: nat, b: nat) -> nat {
    if a >= b {
        a
    } else {
        b
    }
}

/// The report indentation for a discovered depth: two spaces per level.
pub open spec fn indent_seq(tab: nat) -> Seq<u8>
    decreases tab,
{
    if tab == 0 {
        Seq::empty()
    } else {
        indent_seq((tab - 1) as nat) + seq![INDENT_SPACE, INDENT_SPACE]
    }
}

/// What one walk of `node` with the given depth budget emits and returns:
/// the bytes appended to the report and the discovered depth (0 = not
/// found). A top-level node is a leaf: its label alone, depth 1. Otherwise
/// the walk scans every inbound edge, recurses on each caller that is not
/// the node itself, and, when any caller succeeded, emits the node's label
/// indented by the deepest discovered depth.
pub open spec fn walk_spec(
    data: Seq<u8>,
    tops: Seq<Seq<u8>>,
    node: Seq<u8>,
    depth: nat,
    decode_names: bool,
) -> Result<(Seq<u8>, nat), ()>
    decreases depth, 0int, 0int,
{
    if tops.contains(node) {
        match emit_for_node(data, node, decode_names) {
            Ok(e) => Ok((e, 1)),
            Err(_) => Err(()),
        }
    } else if depth == 0 {
        Ok((Seq::empty(), 0))
    } else {
        match walk_scan(data, tops, node, (depth - 1) as nat, 0, decode_names) {
            Err(_) => Err(()),
            Ok(p) => {
                if p.1 > 0 {
                    match emit_for_node(data, node, decode_names) {
                        Ok(e) => Ok((p.0 + indent_seq(p.1) + e, p.1 + 1)),
                        Err(_) => Err(()),
                    }
                } else {
                    Ok((p.0, 0))
                }
            },
        }
    }
}

/// The walk's scan over inbound edges of `node`, from position `i` on: the
/// concatenation of what each recursive branch emits, and the maximum
/// discovered depth across the branches.
pub open spec fn walk_scan(
    data: Seq<u8>,
    tops: Seq<Seq<u8>>,
    node: Seq<u8>,
    budget: nat,
    i: int,
    decode_names: bool,
) -> Result<(Seq<u8>, nat), ()>
    decreases budget, 1int, data.len() + 1 - i,
{
    if i + NODE_COMPARISON_LENGTH > data.len() {
        Ok((Seq::empty(), 0))
    } else if callee_edge_at(data, node, i) {
        if i < NODE_LENGTH + POINT_LENGTH {
            Err(())
        } else {
            if caller_of(data, i) != node {
                match walk_spec(data, tops, caller_of(data, i), budget, decode_names) {
                    Err(_) => Err(()),
                    Ok(p1) => match walk_scan(data, tops, node, budget, i + 1, decode_names) {
                        Err(_) => Err(()),
                        Ok(p2) => Ok((p1.0 + p2.0, nat_max(p1.1, p2.1))),
                    },
                }
            } else {
                walk_scan(data, tops, node, budget, i + 1, decode_names)
            }
        }
    } else {
        walk_scan(data, tops, node, budget, i + 1, decode_names)
    }
}

/// Whether the walk succeeds (no format error along any explored branch).
pub open spec fn walk_ok(
    data: Seq<u8>,
    tops: Seq<Seq<u8>>,
    node: Seq<u8>,
    depth: nat,
    decode_names: bool,
) -> bool {
    match walk_spec(data, tops, node, depth, decode_names) {
        Ok(_) => true,
        Err(_) => false,
    }
}

/// What a successful walk appends to the report.
pub open spec fn walk_emit(
    data: Seq<u8>,
    tops: Seq<Seq<u8>>,
    node: Seq<u8>,
    depth: nat,
    decode_names: bool,
) -> Seq<u8> {
    match walk_spec(data, tops, node, depth, decode_names) {
        Ok(p) => p.0,
        Err(_) => Seq::empty(),
    }
}

/// The depth a successful walk discovers (0 = nothing found).
pub open spec fn walk_tab(
    data: Seq<u8>,
    tops: Seq<Seq<u8>>,
    node: Seq<u8>,
    depth: nat,
    decode_names: bool,
) -> nat {
    match walk_spec(data, tops, node, depth, decode_names) {
        Ok(p) => p.1,
        Err(_) => 0,
    }
}

/// Appends the indentation for depth `tab` to the report buffer.
fn push_indent(out: &mut Vec<u8>, tab: usize)
    ensures
        final(out)@ == old(out)@ + indent_seq(tab as nat),
{
    let mut k: usize = 0;
    while k < tab
        invariant
            k <= tab,
            out@ == old(out)@ + indent_seq(k as nat),
        decreases tab - k,
    {
        out.push(INDENT_SPACE);
        out.push(INDENT_SPACE);
        proof {
            assert(old(out)@ + indent_seq((k + 1) as nat) =~= (old(out)@ + indent_seq(
                k as nat,
            )).push(INDENT_SPACE).push(INDENT_SPACE));
        }
        k = k + 1;
    }
}

/// Walks backward from `node` over inbound edges, appending discovered
/// chains to `out_data`, and returns the discovered depth (0 = not found).
///
/// The emitted bytes and the returned depth are exactly those of
/// [`walk_spec`]; a format error reports a malformed edge or declaration
/// and is the only failure.
pub fn get_prev_nodes(
    data: &Vec<u8>,
    top_level_nodes: &Vec<Vec<u8>>,
    out_data: &mut Vec<u8>,
    node: &Vec<u8>,
    depth: usize,
    decode_names: bool,
) -> (r: Result<usize, AnalysisError>)
    requires
        node@.len() == NODE_COMPARISON_LENGTH,
        depth < usize::MAX,
    ensures
        match r {
            Ok(t) => walk_ok(data@, top_level_nodes.deep_view(), node@, depth as nat, decode_names)
                && final(out_data)@ == old(out_data)@ + walk_emit(
                data@,
                top_level_nodes.deep_view(),
                node@,
                depth as nat,
                decode_names,
            ) && t as nat == walk_tab(
                data@,
                top_level_nodes.deep_view(),
                node@,
                depth as nat,
                decode_names,
            ) && t <= depth + 1,
            Err(e) => !walk_ok(data@, top_level_nodes.deep_view(), node@, depth as nat, decode_names)
                && e == AnalysisError::Format,
        },
    decreases depth,
{
    let ghost tls = top_level_nodes.deep_view();
    if contains_bytes(top_level_nodes, node) {
        match store_node_name(data, node, out_data, decode_names) {
            Ok(_) => Ok(1),
            Err(e) => Err(e),
        }
    } else if depth == 0 {
        proof {
            assert(old(out_data)@ + walk_emit(data@, tls, node@, 0, decode_names) =~= old(
                out_data,
            )@);
        }
        Ok(0)
    } else {
        let budget = depth - 1;
        let data_len = data.len();
        if data.len() < NODE_COMPARISON_LENGTH {
            proof {
                assert(walk_scan(data@, tls, node@, budget as nat, 0, decode_names) == Ok::<
                    (Seq<u8>, nat),
                    (),
                >((Seq::empty(), 0)));
                assert(old(out_data)@ + walk_emit(data@, tls, node@, depth as nat, decode_names)
                    =~= old(out_data)@);
            }
            return Ok(0);
        }
        let last = data.len() - NODE_COMPARISON_LENGTH;
        let mut tab: usize = 0;
        let mut i: usize = 0;
        while i <= last
            invariant
                data@.len() == data_len,
                node@.len() == NODE_COMPARISON_LENGTH,
                NODE_COMPARISON_LENGTH <= data@.len(),
                last == data@.len() - NODE_COMPARISON_LENGTH,
                i <= last + 1,
                1 <= depth < usize::MAX,
                budget == depth - 1,
                tab <= depth,
                tls == top_level_nodes.deep_view(),
                !tls.contains(node@),
                out_data@.len() >= old(out_data)@.len(),
                out_data@.subrange(0, old(out_data)@.len() as int) == old(out_data)@,
                ({
                    let done = out_data@.subrange(
                        old(out_data)@.len() as int,
                        out_data@.len() as int,
                    );
                    match walk_scan(data@, tls, node@, budget as nat, i as int, decode_names) {
                        Ok(p) => walk_scan(data@, tls, node@, budget as nat, 0, decode_names)
                            == Ok::<(Seq<u8>, nat), ()>((done + p.0, nat_max(tab as nat, p.1))),
                        Err(u) => (match walk_scan(
                            data@,
                            tls,
                            node@,
                            budget as nat,
                            0,
                            decode_names,
                        ) {
                            Ok(q) => false,
                            Err(w) => true,
                        }),
                    }
                }),
            decreases last + 1 - i,
        {
            let is_edge = i >= PREV_CARROT_LENGTH && matches_at(data, node, i) && data[i
                - PREV_CARROT_LENGTH] == ARROW_HEAD;
            proof {
                assert(is_edge == callee_edge_at(data@, node@, i as int));
            }
            if is_edge {
                if i < NODE_LENGTH + POINT_LENGTH {
                    return Err(AnalysisError::Format);
                }
                let prev = copy_range(
                    data,
                    i - (NODE_LENGTH + POINT_LENGTH),
                    i - (NODE_LENGTH + POINT_LENGTH) + NODE_COMPARISON_LENGTH,
                );
                proof {
                    assert(prev@ == caller_of(data@, i as int));
                }
                if !bytes_eq(&prev, node) {
                    let ghost done_before = out_data@.subrange(
                        old(out_data)@.len() as int,
                        out_data@.len() as int,
                    );
                    match get_prev_nodes(data, top_level_nodes, out_data, &prev, budget,
                        decode_names) {
                        Err(e) => {
                            return Err(e);
                        },
                        Ok(t1) => {
                            proof {
                                let e1 = walk_emit(data@, tls, prev@, budget as nat, decode_names);
                                assert(out_data@.subrange(
                                    old(out_data)@.len() as int,
                                    out_data@.len() as int,
                                ) =~= done_before + e1);
                                assert(out_data@.subrange(0, old(out_data)@.len() as int) =~= old(
                                    out_data,
                                )@);
                                match walk_scan(
                                    data@,
                                    tls,
                                    node@,
                                    budget as nat,
                                    i + 1,
                                    decode_names,
                                ) {
                                    Ok(p2) => {
                                        assert((done_before + e1) + p2.0 =~= done_before + (e1
                                            + p2.0));
                                    },
                                    Err(u) => {},
                                }
                            }
                            if t1 > tab {
                                tab = t1;
                            }
                        },
                    }
                }
            }
            i = i + 1;
        }
        proof {
            assert(walk_scan(data@, tls, node@, budget as nat, i as int, decode_names) == Ok::<
                (Seq<u8>, nat),
                (),
            >((Seq::empty(), 0)));
            let done = out_data@.subrange(old(out_data)@.len() as int, out_data@.len() as int);
            assert(done + Seq::<u8>::empty() =~= done);
        }
        if tab > 0 {
            let ghost done = out_data@.subrange(old(out_data)@.len() as int, out_data@.len() as int);
            push_indent(out_data, tab);
            match store_node_name(data, node, out_data, decode_names) {
                Ok(_) => {
                    proof {
                        let e = crate::emit::emit_value(data@, node@, decode_names);
                        assert(out_data@ =~= old(out_data)@ + (done + indent_seq(tab as nat) + e));
                    }
                    Ok(tab + 1)
                },
                Err(e) => Err(e),
            }
        } else {
            proof {
                let done = out_data@.subrange(old(out_data)@.len() as int, out_data@.len() as int);
                assert(out_data@ =~= old(out_data)@ + done);
            }
            Ok(0)
        }
    }
}

} // verus!
