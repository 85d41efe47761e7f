//! Global properties of the analysis, stated and proved over the
//! specification models that the executable functions' contracts pin down.

use crate::directory::{first_nl_at, panic_list_spec, resolve_symbols};
use crate::errors::AnalysisError;
use crate::isolate::sanitized;
use crate::layout::{NODE_LENGTH, POINT_LENGTH};
use crate::locate::locate_root;
use crate::walk::{
    callee_edge_at, caller_of, nat_max, walk_ok, walk_scan, walk_spec, walk_tab,
};
use vstd::prelude::*;

verus! {

/// Idempotence: the analysis is a pure function of its inputs, so running
/// it twice on the same call-graph text, export list, budget and decoding
/// choice yields identical results.
pub proof fn lemma_analysis_deterministic(
    cg: Seq<u8>,
    sym: Seq<u8>,
    depth: nat,
    decode_names: bool,
    r1: Result<Seq<u8>, AnalysisError>,
    r2: Result<Seq<u8>, AnalysisError>,
)
    requires
        r1 == panic_list_spec(cg, sym, depth, decode_names),
        r2 == panic_list_spec(cg, sym, depth, decode_names),
    ensures
        r1 == r2,
{
}

/// The resolved top-level node set never contains the abort node: a symbol
/// that is simultaneously exported and equal to the abort entry is excluded
/// rather than reported as a chain.
pub proof fn lemma_resolved_excludes_root(data: Seq<u8>, sym: Seq<u8>, root: Seq<u8>)
    ensures
        match resolve_symbols(data, sym, root) {
            Ok(t) => !t.contains(root),
            Err(u) => true,
        },
    decreases sym.len(),
{
    if exists|k: int| first_nl_at(sym, k) {
        let k = choose|k: int| first_nl_at(sym, k);
        let rest = sym.subrange(k + 1, sym.len() as int);
        lemma_resolved_excludes_root(data, rest, root);
        match resolve_symbols(data, sym, root) {
            Ok(t) => {
                assert forall|i: int| 0 <= i < t.len() implies t[i] != root by {
                    match resolve_symbols(data, rest, root) {
                        Ok(t2) => {
                            if t.len() == t2.len() + 1 && i >= 1 {
                                if t2[i - 1] == root {
                                    assert(t2.contains(root));
                                }
                            } else if t == t2 {
                                if t2[i] == root {
                                    assert(t2.contains(root));
                                }
                            }
                        },
                        Err(u) => {},
                    }
                }
                if t.contains(root) {
                    let i = choose|i: int| 0 <= i < t.len() && t[i] == root;
                    assert(t[i] != root);
                }
            },
            Err(u) => {},
        }
    }
}

/// Every inbound edge of `node` found by the scan is either absent or a
/// well-formed direct self-edge; the scan then discovers nothing.
proof fn lemma_walk_scan_skips(
    data: Seq<u8>,
    tops: Seq<Seq<u8>>,
    node: Seq<u8>,
    budget: nat,
    i: int,
    decode_names: bool,
)
    requires
        forall|j: int| #[trigger]
            callee_edge_at(data, node, j) ==> j >= NODE_LENGTH + POINT_LENGTH && caller_of(
                data,
                j,
            ) == node,
    ensures
        walk_scan(data, tops, node, budget, i, decode_names) == Ok::<(Seq<u8>, nat), ()>(
            (Seq::empty(), 0nat),
        ),
    decreases data.len() + 1 - i,
{
    if i + crate::layout::NODE_COMPARISON_LENGTH > data.len() {
    } else {
        lemma_walk_scan_skips(data, tops, node, budget, i + 1, decode_names);
    }
}

/// Emptiness correctness: when the abort node is not itself exported and no
/// edge leads into it, the walk emits nothing and finds nothing, whatever
/// the top-level set or the depth budget.
pub proof fn lemma_no_inbound_edges_empty(
    data: Seq<u8>,
    tops: Seq<Seq<u8>>,
    node: Seq<u8>,
    depth: nat,
    decode_names: bool,
)
    requires
        !tops.contains(node),
        forall|j: int| !(#[trigger] callee_edge_at(data, node, j)),
    ensures
        walk_spec(data, tops, node, depth, decode_names) == Ok::<(Seq<u8>, nat), ()>(
            (Seq::empty(), 0nat),
        ),
{
    if depth > 0 {
        lemma_walk_scan_skips(data, tops, node, (depth - 1) as nat, 0, decode_names);
    }
}

/// Emptiness correctness, whole-analysis form: when the abort node, once
/// the graph is sanitized, has no inbound edges, the report is empty
/// whatever the export list resolved to and whatever the depth budget.
pub proof fn lemma_no_inbound_root_empty_report(
    cg: Seq<u8>,
    sym: Seq<u8>,
    depth: nat,
    decode_names: bool,
    root: Seq<u8>,
)
    requires
        locate_root(cg) == Ok::<Option<Seq<u8>>, ()>(Some(root)),
        forall|j: int| !(#[trigger] callee_edge_at(sanitized(cg, root), root, j)),
        (match resolve_symbols(cg, sym, root) {
            Ok(t) => true,
            Err(u) => false,
        }),
    ensures
        panic_list_spec(cg, sym, depth, decode_names) == Ok::<Seq<u8>, AnalysisError>(
            Seq::empty(),
        ),
{
    lemma_resolved_excludes_root(cg, sym, root);
    match resolve_symbols(cg, sym, root) {
        Ok(tops) => {
            lemma_no_inbound_edges_empty(sanitized(cg, root), tops, root, depth, decode_names);
        },
        Err(u) => {},
    }
}

/// Self-edge safety: a node whose inbound edges are all well-formed direct
/// self-edges is never followed into itself; the walk discovers nothing
/// there, at every depth budget. (Termination itself holds for every input:
/// the walk's model and implementation are both proved total, the budget
/// strictly decreasing on each backward hop.)
pub proof fn lemma_self_edges_ignored(
    data: Seq<u8>,
    tops: Seq<Seq<u8>>,
    node: Seq<u8>,
    depth: nat,
    decode_names: bool,
)
    requires
        !tops.contains(node),
        forall|j: int| #[trigger]
            callee_edge_at(data, node, j) ==> j >= NODE_LENGTH + POINT_LENGTH && caller_of(
                data,
                j,
            ) == node,
    ensures
        walk_spec(data, tops, node, depth, decode_names) == Ok::<(Seq<u8>, nat), ()>(
            (Seq::empty(), 0nat),
        ),
{
    if depth > 0 {
        lemma_walk_scan_skips(data, tops, node, (depth - 1) as nat, 0, decode_names);
    }
}

/// A walk that discovers nothing emits nothing: an unreachable node never
/// contributes a line to the report, whatever its subtree explored.
pub proof fn lemma_not_found_emits_nothing(
    data: Seq<u8>,
    tops: Seq<Seq<u8>>,
    node: Seq<u8>,
    depth: nat,
    decode_names: bool,
)
    ensures
        (match walk_spec(data, tops, node, depth, decode_names) {
            Ok(p) => p.1 == 0 ==> p.0 == Seq::<u8>::empty(),
            Err(u) => true,
        }),
    decreases depth, 0int, 0int,
{
    if tops.contains(node) {
    } else if depth == 0 {
    } else {
        lemma_scan_not_found_emits_nothing(data, tops, node, (depth - 1) as nat, 0, decode_names);
    }
}

/// Scan-level form: a scan whose every branch discovers nothing emits
/// nothing.
proof fn lemma_scan_not_found_emits_nothing(
    data: Seq<u8>,
    tops: Seq<Seq<u8>>,
    node: Seq<u8>,
    budget: nat,
    i: int,
    decode_names: bool,
)
    ensures
        (match walk_scan(data, tops, node, budget, i, decode_names) {
            Ok(p) => p.1 == 0 ==> p.0 == Seq::<u8>::empty(),
            Err(u) => true,
        }),
    decreases budget, 1int, data.len() + 1 - i,
{
    if i + crate::layout::NODE_COMPARISON_LENGTH > data.len() {
    } else if callee_edge_at(data, node, i) {
        if i < NODE_LENGTH + POINT_LENGTH {
        } else if caller_of(data, i) != node {
            lemma_not_found_emits_nothing(data, tops, caller_of(data, i), budget, decode_names);
            lemma_scan_not_found_emits_nothing(data, tops, node, budget, i + 1, decode_names);
            match walk_spec(data, tops, caller_of(data, i), budget, decode_names) {
                Ok(p1) => match walk_scan(data, tops, node, budget, i + 1, decode_names) {
                    Ok(p2) => {
                        if nat_max(p1.1, p2.1) == 0 {
                            assert(p1.0 + p2.0 =~= Seq::<u8>::empty());
                        }
                    },
                    Err(u) => {},
                },
                Err(u) => {},
            }
        } else {
            lemma_scan_not_found_emits_nothing(data, tops, node, budget, i + 1, decode_names);
        }
    } else {
        lemma_scan_not_found_emits_nothing(data, tops, node, budget, i + 1, decode_names);
    }
}

/// Depth monotonicity, walk level: enlarging the budget never loses a
/// discovery. If the walk succeeds at budget `d2`, it also succeeds at any
/// smaller budget `d1`, and the depth it discovers there is no larger; in
/// particular a node found (nonzero depth) with `d1` is still found with
/// `d2`.
pub proof fn lemma_walk_depth_monotonic(
    data: Seq<u8>,
    tops: Seq<Seq<u8>>,
    node: Seq<u8>,
    d1: nat,
    d2: nat,
    decode_names: bool,
)
    requires
        d1 <= d2,
        walk_ok(data, tops, node, d2, decode_names),
    ensures
        walk_ok(data, tops, node, d1, decode_names),
        walk_tab(data, tops, node, d1, decode_names) <= walk_tab(data, tops, node, d2, decode_names),
    decreases d2, 0int, 0int,
{
    if tops.contains(node) {
    } else if d1 == 0 {
    } else {
        lemma_scan_depth_monotonic(data, tops, node, (d1 - 1) as nat, (d2 - 1) as nat, 0,
            decode_names);
    }
}

/// Depth monotonicity, scan level: with a larger budget every recursive
/// branch still succeeds and discovers at least as much.
proof fn lemma_scan_depth_monotonic(
    data: Seq<u8>,
    tops: Seq<Seq<u8>>,
    node: Seq<u8>,
    b1: nat,
    b2: nat,
    i: int,
    decode_names: bool,
)
    requires
        b1 <= b2,
        (match walk_scan(data, tops, node, b2, i, decode_names) {
            Ok(p) => true,
            Err(u) => false,
        }),
    ensures
        ({
            let s1 = walk_scan(data, tops, node, b1, i, decode_names);
            let s2 = walk_scan(data, tops, node, b2, i, decode_names);
            match s1 {
                Ok(p1) => match s2 {
                    Ok(p2) => p1.1 <= p2.1,
                    Err(u) => false,
                },
                Err(u) => false,
            }
        }),
    decreases b2, 1int, data.len() + 1 - i,
{
    if i + crate::layout::NODE_COMPARISON_LENGTH > data.len() {
    } else if callee_edge_at(data, node, i) {
        if i < NODE_LENGTH + POINT_LENGTH {
        } else if caller_of(data, i) != node {
            lemma_walk_depth_monotonic(data, tops, caller_of(data, i), b1, b2, decode_names);
            lemma_scan_depth_monotonic(data, tops, node, b1, b2, i + 1, decode_names);
        } else {
            lemma_scan_depth_monotonic(data, tops, node, b1, b2, i + 1, decode_names);
        }
    } else {
        lemma_scan_depth_monotonic(data, tops, node, b1, b2, i + 1, decode_names);
    }
}

/// No chain outruns the budget: the depth a walk discovers never exceeds
/// the budget plus the final top-level leaf, i.e. a reported chain makes at
/// most `depth` backward hops.
pub proof fn lemma_walk_tab_bounded(
    data: Seq<u8>,
    tops: Seq<Seq<u8>>,
    node: Seq<u8>,
    depth: nat,
    decode_names: bool,
)
    ensures
        walk_tab(data, tops, node, depth, decode_names) <= depth + 1,
    decreases depth, 0int, 0int,
{
    if tops.contains(node) {
    } else if depth == 0 {
    } else {
        lemma_scan_tab_bounded(data, tops, node, (depth - 1) as nat, 0, decode_names);
    }
}

/// Scan-level bound: no branch of the scan discovers a depth beyond its
/// budget plus the leaf.
proof fn lemma_scan_tab_bounded(
    data: Seq<u8>,
    tops: Seq<Seq<u8>>,
    node: Seq<u8>,
    budget: nat,
    i: int,
    decode_names: bool,
)
    ensures
        (match walk_scan(data, tops, node, budget, i, decode_names) {
            Ok(p) => p.1 <= budget + 1,
            Err(u) => true,
        }),
    decreases budget, 1int, data.len() + 1 - i,
{
    if i + crate::layout::NODE_COMPARISON_LENGTH > data.len() {
    } else if callee_edge_at(data, node, i) {
        if i < NODE_LENGTH + POINT_LENGTH {
        } else if caller_of(data, i) != node {
            lemma_walk_tab_bounded(data, tops, caller_of(data, i), budget, decode_names);
            lemma_scan_tab_bounded(data, tops, node, budget, i + 1, decode_names);
            assert(nat_max(
                walk_tab(data, tops, caller_of(data, i), budget, decode_names),
                (match walk_scan(data, tops, node, budget, i + 1, decode_names) {
                    Ok(p) => p.1,
                    Err(u) => 0nat,
                }),
            ) <= budget + 1);
        } else {
            lemma_scan_tab_bounded(data, tops, node, budget, i + 1, decode_names);
        }
    } else {
        lemma_scan_tab_bounded(data, tops, node, budget, i + 1, decode_names);
    }
}

} // verus!
