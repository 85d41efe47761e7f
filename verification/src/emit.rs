//! Report emission: extracting a node's symbol label and appending it, one
//! newline-terminated line per emitted node, to the output buffer.
//!
//! A node's label is read from the first declaration of that node: the text
//! between the label delimiters at the declaration's fixed offset. The label
//! may be an encoded (mangled) function name; emission can optionally decode
//! it and drop the trailing hash segment, as the decoded form reads
//! `path::to::function::h<hash>`.

use crate::errors::AnalysisError;
use crate::layout::{
    ARROW_HEAD, COLON, LABEL_CLOSE, LABEL_OPEN, LINE_END, NODE_COMPARISON_LENGTH,
    PREV_CARROT_LENGTH, SYMBOL_TO_NODE,
};
use crate::scan::{copy_range, find_byte, match_at, matches_at, push_all};
use vstd::prelude::*;

verus! {

/// What decoding a mangled symbol name returns. The result of
/// `rustc_demangle::demangle` depends on the input bytes alone; this names
/// it so that contracts can speak of it exactly.
pub uninterp spec fn demangle_of(raw: Seq<u8>) -> Seq<u8>;

/// Decodes a mangled symbol name.
///
/// Relies on `rustc_demangle::demangle`: its rendering is a pure function
/// of the input string. Input bytes that are not valid UTF-8 cannot name a
/// symbol and are returned unchanged.
#[verifier::external_body]
fn demangle_bytes(raw: &Vec<u8>) -> (r: Vec<u8>)
    ensures
        r@ == demangle_of(raw@),
{
    match core::str::from_utf8(raw.as_slice()) {
        Ok(s) => rustc_demangle::demangle(s).to_string().into_bytes(),
        Err(_) => raw.clone(),
    }
}

/// A doubled colon starts at position `j` of `d`.
pub open spec fn colcol_at(d: Seq<u8>, j: int) -> bool {
    &&& 0 <= j
    &&& j + 2 <= d.len()
    &&& d[j] == COLON
    &&& d[j + 1] == COLON
}

/// `j` is the last position of `d` at which a doubled colon starts.
pub open spec fn last_colcol_at(d: Seq<u8>, j: int) -> bool {
    &&& colcol_at(d, j)
    &&& forall|k: int| k > j ==> !colcol_at(d, k)
}

/// A decoded name with its trailing path segment (the hash) removed: the
/// prefix up to the last doubled colon, or the whole name when it has none.
pub open spec fn trim_hash(d: Seq<u8>) -> Seq<u8> {
    if exists|j: int| last_colcol_at(d, j) {
        d.subrange(0, choose|j: int| last_colcol_at(d, j))
    } else {
        d
    }
}

/// The label text as emitted: decoded and trimmed when decoding is on, raw
/// otherwise.
pub open spec fn rendered(raw: Seq<u8>, decode_names: bool) -> Seq<u8> {
    if decode_names {
        trim_hash(demangle_of(raw))
    } else {
        raw
    }
}

/// `node` is declared at position `i`: its identifier matches there, is not
/// preceded by an arrow head (which would make it an edge's callee), and
/// the label-open delimiter stands at the declaration's fixed offset.
pub open spec fn decl_at(data: Seq<u8>, node: Seq<u8>, i: int) -> bool {
    &&& match_at(data, node, i)
    &&& i >= PREV_CARROT_LENGTH
    &&& data[i - PREV_CARROT_LENGTH] != ARROW_HEAD
    &&& i + SYMBOL_TO_NODE - 1 < data.len()
    &&& data[i + SYMBOL_TO_NODE - 1] == LABEL_OPEN
}

/// `i` is the first position of `data` at which `node` is declared.
pub open spec fn first_decl_at(data: Seq<u8>, node: Seq<u8>, i: int) -> bool {
    &&& decl_at(data, node, i)
    &&& forall|j: int| 0 <= j < i ==> !decl_at(data, node, j)
}

/// The close delimiter of a label starting at `start` sits at `e`.
pub open spec fn label_end_at(data: Seq<u8>, start: int, e: int) -> bool {
    &&& start <= e < data.len()
    &&& data[e] == LABEL_CLOSE
    &&& forall|k: int| start <= k < e ==> data[k] != LABEL_CLOSE
}

/// What emitting `node`'s label appends to the report: one rendered,
/// newline-terminated line read from the node's first declaration; nothing
/// when the node is never declared; an error when the declaration's label
/// is unterminated or empty.
pub open spec fn emit_for_node(data: Seq<u8>, node: Seq<u8>, decode_names: bool) -> Result<
    Seq<u8>,
    (),
> {
    if exists|i: int| first_decl_at(data, node, i) {
        let i = choose|i: int| first_decl_at(data, node, i);
        if exists|e: int| #[trigger] label_end_at(data, i + SYMBOL_TO_NODE, e) {
            let e = choose|e: int| #[trigger] label_end_at(data, i + SYMBOL_TO_NODE, e);
            if e > i + SYMBOL_TO_NODE {
                Ok(rendered(data.subrange(i + SYMBOL_TO_NODE, e), decode_names).push(LINE_END))
            } else {
                Err(())
            }
        } else {
            Err(())
        }
    } else {
        Ok(Seq::empty())
    }
}

/// Whether emitting `node`'s label succeeds.
pub open spec fn emit_ok(data: Seq<u8>, node: Seq<u8>, decode_names: bool) -> bool {
    match emit_for_node(data, node, decode_names) {
        Ok(_) => true,
        Err(_) => false,
    }
}

/// What emitting `node`'s label appends on success.
pub open spec fn emit_value(data: Seq<u8>, node: Seq<u8>, decode_names: bool) -> Seq<u8> {
    match emit_for_node(data, node, decode_names) {
        Ok(e) => e,
        Err(_) => Seq::empty(),
    }
}

/// Drops the trailing hash segment of a decoded name.
fn trim_colons(d: &Vec<u8>) -> (r: Vec<u8>)
    ensures
        r@ == trim_hash(d@),
{
    if d.len() < 2 {
        proof {
            assert forall|j: int| !last_colcol_at(d@, j) by {
                assert(!colcol_at(d@, j));
            }
        }
        return copy_range(d, 0, d.len());
    }
    let mut j: usize = d.len() - 1;
    while j > 0
        invariant
            d@.len() >= 2,
            j <= d@.len() - 1,
            forall|k: int| k >= j ==> !colcol_at(d@, k),
        decreases j,
    {
        j = j - 1;
        if d[j] == COLON && d[j + 1] == COLON {
            proof {
                assert(last_colcol_at(d@, j as int));
                let c = choose|k: int| last_colcol_at(d@, k);
                if c < j as int {
                    assert(!colcol_at(d@, j as int));
                    assert(false);
                } else if c > j as int {
                    assert(!colcol_at(d@, c));
                    assert(false);
                }
            }
            return copy_range(d, 0, j);
        }
        proof {
            assert(!colcol_at(d@, j as int));
        }
    }
    proof {
        assert forall|k: int| !last_colcol_at(d@, k) by {
            if k >= 0 {
                assert(!colcol_at(d@, k));
            } else {
                assert(!colcol_at(d@, k));
            }
        }
    }
    copy_range(d, 0, d.len())
}

/// Emits `node`'s symbol label, newline-terminated, onto the report buffer.
///
/// Reads the label of the node's first declaration; a node without a
/// declaration emits nothing, and a declaration whose label is empty or
/// unterminated is a format error that leaves the buffer untouched.
pub fn store_node_name(
    data: &Vec<u8>,
    node: &Vec<u8>,
    out_data: &mut Vec<u8>,
    decode_names: bool,
) -> (r: Result<(), AnalysisError>)
    requires
        node@.len() == NODE_COMPARISON_LENGTH,
    ensures
        match r {
            Ok(_) => emit_ok(data@, node@, decode_names) && final(out_data)@ == old(out_data)@
                + emit_value(data@, node@, decode_names),
            Err(e) => !emit_ok(data@, node@, decode_names) && e == AnalysisError::Format
                && final(out_data)@ == old(out_data)@,
        },
{
    let data_len = data.len();
    if data.len() < node.len() {
        proof {
            assert forall|j: int| !first_decl_at(data@, node@, j) by {
                assert(!match_at(data@, node@, j));
            }
            assert(old(out_data)@ + emit_value(data@, node@, decode_names) =~= old(out_data)@);
        }
        return Ok(());
    }
    let last = data.len() - node.len();
    let mut i: usize = 0;
    while i <= last
        invariant
            data@.len() == data_len,
            node@.len() == NODE_COMPARISON_LENGTH,
            node@.len() <= data@.len(),
            last == data@.len() - node@.len(),
            i <= last + 1,
            out_data@ == old(out_data)@,
            forall|j: int| 0 <= j < i ==> !decl_at(data@, node@, j),
        decreases last + 1 - i,
    {
        let is_decl = i >= PREV_CARROT_LENGTH && data.len() - i > SYMBOL_TO_NODE - 1
            && matches_at(data, node, i) && data[i - PREV_CARROT_LENGTH] != ARROW_HEAD && data[i
            + (SYMBOL_TO_NODE - 1)] == LABEL_OPEN;
        proof {
            assert(is_decl == decl_at(data@, node@, i as int));
        }
        if is_decl {
            proof {
                assert(first_decl_at(data@, node@, i as int));
                let c = choose|j: int| first_decl_at(data@, node@, j);
                if c < i as int {
                    assert(!decl_at(data@, node@, c));
                    assert(false);
                } else if c > i as int {
                    assert(!decl_at(data@, node@, i as int));
                    assert(false);
                }
            }
            let start = i + SYMBOL_TO_NODE;
            match find_byte(data, start, LABEL_CLOSE) {
                None => {
                    proof {
                        assert forall|e: int| !label_end_at(data@, start as int, e) by {
                            if start as int <= e < data@.len() {
                                assert(data@[e] != LABEL_CLOSE);
                            }
                        }
                    }
                    return Err(AnalysisError::Format);
                },
                Some(e) => {
                    proof {
                        assert(label_end_at(data@, start as int, e as int));
                        let c = choose|k: int| label_end_at(data@, start as int, k);
                        if c < e as int {
                            assert(data@[c] != LABEL_CLOSE);
                            assert(false);
                        } else if c > e as int {
                            assert(data@[e as int] != LABEL_CLOSE);
                            assert(false);
                        }
                    }
                    if e == start {
                        return Err(AnalysisError::Format);
                    }
                    let raw = copy_range(data, start, e);
                    if decode_names {
                        let decoded = demangle_bytes(&raw);
                        let trimmed = trim_colons(&decoded);
                        push_all(out_data, &trimmed);
                    } else {
                        push_all(out_data, &raw);
                    }
                    out_data.push(LINE_END);
                    proof {
                        assert(out_data@ =~= old(out_data)@ + rendered(raw@, decode_names).push(
                            LINE_END,
                        ));
                    }
                    return Ok(());
                },
            }
        }
        i = i + 1;
    }
    proof {
        assert forall|j: int| !first_decl_at(data@, node@, j) by {
            if 0 <= j <= last as int {
                assert(!decl_at(data@, node@, j));
            } else {
                assert(!match_at(data@, node@, j));
            }
        }
        assert(old(out_data)@ + emit_value(data@, node@, decode_names) =~= old(out_data)@);
    }
    Ok(())
}

} // verus!
