//! Node Locator: resolving a symbol name, or the abort-entry label, to the
//! node identifier declared for it in the call-graph text.
//!
//! A declaration binds a node identifier to a symbol label; the identifier
//! sits at a fixed offset before the label. Lookups scan forward from the
//! start of the buffer and return the first match only: duplicate
//! declarations of one symbol are not merged.

use crate::errors::AnalysisError;
use crate::layout::{root_label, root_label_bytes, LABEL_OPEN, NODE_COMPARISON_LENGTH, SYMBOL_TO_NODE};
use crate::scan::{copy_range, find_byte, first_match_at, match_at, matches_at};
use vstd::prelude::*;

verus! {

/// Position `i` of `data` holds a label-open delimiter immediately followed
/// by the queried name: the anchored form that prevents a query from
/// matching as a mere substring of a longer name.
pub open spec fn name_match_at(data: Seq<u8>, name: Seq<u8>, i: int) -> bool {
    &&& 0 <= i
    &&& i + 1 + name.len() <= data.len()
    &&& data[i] == LABEL_OPEN
    &&& match_at(data, name, i + 1)
}

/// `i` is the first position of `data` with an anchored match of `name`.
pub open spec fn first_name_match_at(data: Seq<u8>, name: Seq<u8>, i: int) -> bool {
    &&& name_match_at(data, name, i)
    &&& forall|j: int| 0 <= j < i ==> !name_match_at(data, name, j)
}

/// What resolving the abort-entry label returns: the node identifier decoded
/// from the fixed structural offset before the label's first occurrence;
/// `None` when the label never occurs; an error when the first occurrence
/// sits too close to the buffer start to carry a declaration.
pub open spec fn locate_root(data: Seq<u8>) -> Result<Option<Seq<u8>>, ()> {
    if exists|i: int| first_match_at(data, root_label(), i) {
        let i = choose|i: int| first_match_at(data, root_label(), i);
        if i >= SYMBOL_TO_NODE {
            Ok(
                Some(
                    data.subrange(
                        i - SYMBOL_TO_NODE,
                        i - SYMBOL_TO_NODE + NODE_COMPARISON_LENGTH,
                    ),
                ),
            )
        } else {
            Err(())
        }
    } else {
        Ok(None)
    }
}

/// What resolving an exported symbol name returns, anchored at a label-open
/// delimiter; `None` when the name never occurs so anchored.
pub open spec fn locate_name(data: Seq<u8>, name: Seq<u8>) -> Result<Option<Seq<u8>>, ()> {
    if exists|i: int| first_name_match_at(data, name, i) {
        let i = choose|i: int| first_name_match_at(data, name, i);
        if i + 1 >= SYMBOL_TO_NODE {
            Ok(
                Some(
                    data.subrange(
                        i + 1 - SYMBOL_TO_NODE,
                        i + 1 - SYMBOL_TO_NODE + NODE_COMPARISON_LENGTH,
                    ),
                ),
            )
        } else {
            Err(())
        }
    } else {
        Ok(None)
    }
}

/// Resolves the abort/unwind entry's well-known label to its node
/// identifier.
///
/// Returns `Ok(None)` when the label does not occur, and a format error when
/// its first occurrence has no room for the enclosing declaration's
/// identifier before it.
pub fn extract_node_from_root(data: &Vec<u8>) -> (r: Result<Option<Vec<u8>>, AnalysisError>)
    ensures
        match r {
            Ok(Some(v)) => locate_root(data@) == Ok::<Option<Seq<u8>>, ()>(Some(v@)) && v@.len()
                == NODE_COMPARISON_LENGTH,
            Ok(None) => locate_root(data@) == Ok::<Option<Seq<u8>>, ()>(None),
            Err(e) => locate_root(data@) == Err::<Option<Seq<u8>>, ()>(()) && e
                == AnalysisError::Format,
        },
{
    let pat = root_label_bytes();
    if data.len() < pat.len() {
        proof {
            assert forall|j: int| !first_match_at(data@, root_label(), j) by {
                assert(!match_at(data@, root_label(), j));
            }
        }
        return Ok(None);
    }
    let data_len = data.len();
    let last = data.len() - pat.len();
    let mut i: usize = 0;
    while i <= last
        invariant
            data@.len() == data_len,
            pat@ == root_label(),
            pat@.len() <= data@.len(),
            last == data@.len() - pat@.len(),
            i <= last + 1,
            forall|j: int| 0 <= j < i ==> !match_at(data@, root_label(), j),
        decreases last + 1 - i,
    {
        if matches_at(data, &pat, i) {
            proof {
                assert(first_match_at(data@, root_label(), i as int));
                let c = choose|j: int| first_match_at(data@, root_label(), j);
                if c < i as int {
                    assert(!match_at(data@, root_label(), c));
                    assert(false);
                } else if c > i as int {
                    assert(!match_at(data@, root_label(), i as int));
                    assert(false);
                }
            }
            if i >= SYMBOL_TO_NODE {
                let v = copy_range(
                    data,
                    i - SYMBOL_TO_NODE,
                    i - SYMBOL_TO_NODE + NODE_COMPARISON_LENGTH,
                );
                return Ok(Some(v));
            } else {
                return Err(AnalysisError::Format);
            }
        }
        i = i + 1;
    }
    proof {
        assert forall|j: int| !first_match_at(data@, root_label(), j) by {
            if 0 <= j <= last as int {
                assert(!match_at(data@, root_label(), j));
            } else {
                assert(!match_at(data@, root_label(), j));
            }
        }
    }
    Ok(None)
}

/// Resolves an exported symbol name to its node identifier, requiring the
/// label-open delimiter immediately before the name.
///
/// Returns `Ok(None)` when the name is not declared in the graph text — a
/// non-fatal miss the caller skips — and a format error when the first
/// anchored occurrence has no room for the declaration's identifier.
pub fn extract_node_from_name(data: &Vec<u8>, name_search: &Vec<u8>) -> (r: Result<
    Option<Vec<u8>>,
    AnalysisError,
>)
    ensures
        match r {
            Ok(Some(v)) => locate_name(data@, name_search@) == Ok::<Option<Seq<u8>>, ()>(Some(v@))
                && v@.len() == NODE_COMPARISON_LENGTH,
            Ok(None) => locate_name(data@, name_search@) == Ok::<Option<Seq<u8>>, ()>(None),
            Err(e) => locate_name(data@, name_search@) == Err::<Option<Seq<u8>>, ()>(()) && e
                == AnalysisError::Format,
        },
{
    if data.len() <= name_search.len() {
        proof {
            assert forall|j: int| !first_name_match_at(data@, name_search@, j) by {
                assert(!name_match_at(data@, name_search@, j));
            }
        }
        return Ok(None);
    }
    let data_len = data.len();
    let last = data.len() - name_search.len() - 1;
    let mut i: usize = 0;
    while i <= last
        invariant
            data@.len() == data_len,
            name_search@.len() + 1 <= data@.len(),
            last == data@.len() - name_search@.len() - 1,
            i <= last + 1,
            forall|j: int| 0 <= j < i ==> !name_match_at(data@, name_search@, j),
        decreases last + 1 - i,
    {
        if data[i] == LABEL_OPEN && matches_at(data, name_search, i + 1) {
            proof {
                assert(first_name_match_at(data@, name_search@, i as int));
                let c = choose|j: int| first_name_match_at(data@, name_search@, j);
                if c < i as int {
                    assert(!name_match_at(data@, name_search@, c));
                    assert(false);
                } else if c > i as int {
                    assert(!name_match_at(data@, name_search@, i as int));
                    assert(false);
                }
            }
            if i + 1 >= SYMBOL_TO_NODE {
                let v = copy_range(
                    data,
                    i + 1 - SYMBOL_TO_NODE,
                    i + 1 - SYMBOL_TO_NODE + NODE_COMPARISON_LENGTH,
                );
                return Ok(Some(v));
            } else {
                return Err(AnalysisError::Format);
            }
        }
        i = i + 1;
    }
    proof {
        assert forall|j: int| !first_name_match_at(data@, name_search@, j) by {
            if 0 <= j <= last as int {
                assert(!name_match_at(data@, name_search@, j));
            } else {
                assert(!name_match_at(data@, name_search@, j));
            }
        }
    }
    Ok(None)
}

} // verus!
