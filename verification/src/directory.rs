//! Symbol Directory and analysis driver.
//!
//! The directory resolves a newline-delimited list of exported symbol names
//! into the top-level node set, skipping names absent from the graph and
//! excluding the abort node itself. The driver strings the whole analysis
//! together: locate the abort node, resolve the exports, sanitize a working
//! copy of the graph text, and walk backward from the abort node.

use crate::errors::AnalysisError;
use crate::isolate::{remove_downstream, sanitized};
use crate::layout::{LINE_END, NODE_COMPARISON_LENGTH};
use crate::locate::{
    extract_node_from_name, extract_node_from_root, locate_name, locate_root,
};
use crate::scan::{bytes_eq, copy_range, find_byte, lemma_bytes_deep_view};
use crate::walk::{get_prev_nodes, walk_emit, walk_spec};
use vstd::prelude::*;

verus! {

/// `k` is the position of the first newline of `sym`.
pub open spec fn first_nl_at(sym: Seq<u8>, k: int) -> bool {
    &&& 0 <= k < sym.len()
    &&& sym[k] == LINE_END
    &&& forall|j: int| 0 <= j < k ==> sym[j] != LINE_END
}

/// What resolving the newline-delimited export list yields: the node
/// identifiers of the declared exports, in list order, names absent from
/// the graph skipped and the abort node excluded. Only newline-terminated
/// names are considered.
pub open spec fn resolve_symbols(data: Seq<u8>, sym: Seq<u8>, root: Seq<u8>) -> Result<
    Seq<Seq<u8>>,
    (),
>
    decreases sym.len(),
{
    if exists|k: int| first_nl_at(sym, k) {
        let k = choose|k: int| first_nl_at(sym, k);
        let rest = sym.subrange(k + 1, sym.len() as int);
        match locate_name(data, sym.subrange(0, k)) {
            Err(_) => Err(()),
            Ok(opt) => match resolve_symbols(data, rest, root) {
                Err(_) => Err(()),
                Ok(t) => match opt {
                    Some(n) => if n != root {
                        Ok(seq![n] + t)
                    } else {
                        Ok(t)
                    },
                    None => Ok(t),
                },
            },
        }
    } else {
        Ok(Seq::<Seq<u8>>::empty())
    }
}

/// Resolves each exported name in the newline-delimited `symbol_bytes` to
/// its node identifier, building the top-level node set.
///
/// A name not declared in the graph is skipped, not an error; a resolved
/// name equal to the abort node is excluded.
pub fn collect_top_level_nodes(
    data: &Vec<u8>,
    symbol_bytes: &Vec<u8>,
    root_node: &Vec<u8>,
) -> (r: Result<Vec<Vec<u8>>, AnalysisError>)
    ensures
        match r {
            Ok(v) => resolve_symbols(data@, symbol_bytes@, root_node@) == Ok::<Seq<Seq<u8>>, ()>(
                v.deep_view(),
            ),
            Err(e) => (match resolve_symbols(data@, symbol_bytes@, root_node@) {
                Ok(q) => false,
                Err(w) => true,
            }) && e == AnalysisError::Format,
        },
{
    let mut tops: Vec<Vec<u8>> = Vec::new();
    let mut start: usize = 0;
    let sym_len = symbol_bytes.len();
    proof {
        assert(symbol_bytes@.skip(0) =~= symbol_bytes@);
        assert(tops.deep_view() =~= Seq::<Seq<u8>>::empty());
        match resolve_symbols(data@, symbol_bytes@, root_node@) {
            Ok(t) => {
                assert(tops.deep_view() + t =~= t);
            },
            Err(u) => {},
        }
    }
    loop
        invariant
            symbol_bytes@.len() == sym_len,
            start <= symbol_bytes@.len(),
            ({
                match resolve_symbols(data@, symbol_bytes@.skip(start as int), root_node@) {
                    Ok(t) => resolve_symbols(data@, symbol_bytes@, root_node@) == Ok::<
                        Seq<Seq<u8>>,
                        (),
                    >(tops.deep_view() + t),
                    Err(u) => (match resolve_symbols(data@, symbol_bytes@, root_node@) {
                        Ok(q) => false,
                        Err(w) => true,
                    }),
                }
            }),
        decreases symbol_bytes@.len() - start,
    {
        let ghost suffix = symbol_bytes@.skip(start as int);
        match find_byte(symbol_bytes, start, LINE_END) {
            None => {
                proof {
                    assert forall|k: int| !first_nl_at(suffix, k) by {
                        if 0 <= k < suffix.len() {
                            assert(suffix[k] == symbol_bytes@[start + k]);
                        }
                    }
                    assert(tops.deep_view() + Seq::<Seq<u8>>::empty() =~= tops.deep_view());
                }
                return Ok(tops);
            },
            Some(nl) => {
                proof {
                    assert(suffix[nl - start] == symbol_bytes@[nl as int]);
                    assert forall|j: int| 0 <= j < nl - start implies suffix[j] != LINE_END by {
                        assert(suffix[j] == symbol_bytes@[start + j]);
                    }
                    assert(first_nl_at(suffix, nl - start));
                    let c = choose|k: int| first_nl_at(suffix, k);
                    if c < nl - start {
                        assert(suffix[c] == symbol_bytes@[start + c]);
                        assert(false);
                    } else if c > nl - start {
                        assert(suffix[nl - start] != LINE_END);
                        assert(false);
                    }
                }
                let name = copy_range(symbol_bytes, start, nl);
                proof {
                    assert(name@ =~= suffix.subrange(0, nl - start));
                    assert(symbol_bytes@.skip(nl + 1) =~= suffix.subrange(
                        nl - start + 1,
                        suffix.len() as int,
                    ));
                }
                match extract_node_from_name(data, &name) {
                    Err(e) => {
                        return Err(e);
                    },
                    Ok(opt) => {
                        let ghost old_deep = tops.deep_view();
                        match opt {
                            Some(n) => {
                                if !bytes_eq(&n, root_node) {
                                    proof {
                                        lemma_bytes_deep_view(n);
                                    }
                                    let ghost nv = n@;
                                    tops.push(n);
                                    proof {
                                        assert(tops.deep_view() =~= old_deep.push(nv));
                                        match resolve_symbols(
                                            data@,
                                            symbol_bytes@.skip(nl + 1),
                                            root_node@,
                                        ) {
                                            Ok(t) => {
                                                assert(old_deep + (seq![nv] + t) =~= old_deep.push(
                                                    nv,
                                                ) + t);
                                            },
                                            Err(u) => {},
                                        }
                                    }
                                }
                            },
                            None => {},
                        }
                        start = nl + 1;
                    },
                }
            },
        }
    }
}

/// What the whole analysis returns for a call-graph text, an export list,
/// a depth budget and a name-decoding choice.
pub open spec fn panic_list_spec(
    cg: Seq<u8>,
    sym: Seq<u8>,
    depth: nat,
    decode_names: bool,
) -> Result<Seq<u8>, AnalysisError> {
    match locate_root(cg) {
        Err(_) => Err(AnalysisError::Format),
        Ok(opt) => match opt {
            None => Err(AnalysisError::RootNotFound),
            Some(root) => match resolve_symbols(cg, sym, root) {
                Err(_) => Err(AnalysisError::Format),
                Ok(tops) => match walk_spec(
                    sanitized(cg, root),
                    tops,
                    root,
                    depth,
                    decode_names,
                ) {
                    Err(_) => Err(AnalysisError::Format),
                    Ok(p) => Ok(p.0),
                },
            },
        },
    }
}

/// Runs the whole analysis: locates the abort node, resolves the exported
/// names, sanitizes a working copy of the graph text, and walks backward
/// from the abort node, returning the report bytes.
///
/// An absent abort entry and malformed graph text are the only failures;
/// an empty report is a valid result meaning no export reaches the abort
/// entry within the budget.
pub fn generate_panic_list(
    callgraph_data: &Vec<u8>,
    symbol_bytes: &Vec<u8>,
    recursive_depth: usize,
    decode_names: bool,
) -> (r: Result<Vec<u8>, AnalysisError>)
    requires
        recursive_depth < usize::MAX,
    ensures
        match r {
            Ok(v) => panic_list_spec(
                callgraph_data@,
                symbol_bytes@,
                recursive_depth as nat,
                decode_names,
            ) == Ok::<Seq<u8>, AnalysisError>(v@),
            Err(e) => panic_list_spec(
                callgraph_data@,
                symbol_bytes@,
                recursive_depth as nat,
                decode_names,
            ) == Err::<Seq<u8>, AnalysisError>(e),
        },
{
    let root = match extract_node_from_root(callgraph_data) {
        Err(e) => {
            return Err(e);
        },
        Ok(None) => {
            return Err(AnalysisError::RootNotFound);
        },
        Ok(Some(root)) => root,
    };
    let tops = match collect_top_level_nodes(callgraph_data, symbol_bytes, &root) {
        Err(e) => {
            return Err(e);
        },
        Ok(t) => t,
    };
    let mut work = copy_range(callgraph_data, 0, callgraph_data.len());
    proof {
        assert(work@ =~= callgraph_data@);
    }
    remove_downstream(&mut work, &root);
    let mut out: Vec<u8> = Vec::new();
    match get_prev_nodes(&work, &tops, &mut out, &root, recursive_depth, decode_names) {
        Err(e) => Err(e),
        Ok(_) => {
            proof {
                assert(out@ =~= walk_emit(
                    work@,
                    tops.deep_view(),
                    root@,
                    recursive_depth as nat,
                    decode_names,
                ));
            }
            Ok(out)
        },
    }
}

} // verus!
