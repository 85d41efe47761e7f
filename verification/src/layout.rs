//! Structural constants of the call-graph text layout.
//!
//! The producing toolchain emits node declarations and edges at fixed byte
//! offsets around each node identifier; every scan in this crate decodes
//! positions with these constants.

use vstd::prelude::*;

verus! {

/// Width in bytes of the comparison portion of a node identifier.
pub const NODE_COMPARISON_LENGTH: usize = 12;

/// Bytes of node-token prefix that precede the comparison portion.
pub const NODE_PREFIX: usize = 6;

/// Full width of a node token: prefix plus comparison portion.
pub const NODE_LENGTH: usize = NODE_COMPARISON_LENGTH + NODE_PREFIX;

/// Bytes between the end of a declared node's comparison portion and the
/// opening label delimiter of its declaration.
pub const SYMBOL_PREFIX: usize = 22;

/// Offset from a declared node's comparison portion to the first byte of its
/// symbol label.
pub const SYMBOL_TO_NODE: usize = SYMBOL_PREFIX + 1 + NODE_COMPARISON_LENGTH;

/// Width of the arrow marker region between a caller and callee token.
pub const POINT_LENGTH: usize = 4;

/// Offset from the end of a caller's comparison portion to the arrow head.
pub const CARROT_LENGTH_FORWARD: usize = 2;

/// Bytes of the arrow marker that precede a callee token.
pub const CARROT_LENGTH_BACKWARDS: usize = POINT_LENGTH - CARROT_LENGTH_FORWARD;

/// Offset backwards from a callee's comparison portion to the arrow head.
pub const PREV_CARROT_LENGTH: usize = NODE_PREFIX + CARROT_LENGTH_BACKWARDS;

/// The arrow head byte (`>`); its presence marks an edge.
pub const ARROW_HEAD: u8 = 62;

/// The byte (`-`) written over an arrow head to neutralize an edge.
pub const NEUTRAL_MARK: u8 = 45;

/// Opening delimiter (`{`) of a declaration's symbol label.
pub const LABEL_OPEN: u8 = 123;

/// Closing delimiter (`}`) of a declaration's symbol label.
pub const LABEL_CLOSE: u8 = 125;

/// Newline byte terminating each emitted report line and each symbol name.
pub const LINE_END: u8 = 10;

/// The colon byte; a doubled colon separates path segments in decoded names.
pub const COLON: u8 = 58;

/// Indentation unit of the report: one space byte, written twice per level.
pub const INDENT_SPACE: u8 = 32;

/// The well-known symbol label of the abort/unwind entry point.
pub open spec fn root_label() -> Seq<u8> {
    seq![
        114u8, 117u8, 115u8, 116u8, 95u8, 98u8, 101u8, 103u8, 105u8, 110u8, 95u8, 117u8, 110u8,
        119u8, 105u8, 110u8, 100u8,
    ]
}

/// Builds the abort-entry label (`rust_begin_unwind`) as a byte vector.
pub fn root_label_bytes() -> (r: Vec<u8>)
    ensures
        r@ == root_label(),
{
    let mut v: Vec<u8> = Vec::new();
    v.push(114u8);
    v.push(117u8);
    v.push(115u8);
    v.push(116u8);
    v.push(95u8);
    v.push(98u8);
    v.push(101u8);
    v.push(103u8);
    v.push(105u8);
    v.push(110u8);
    v.push(95u8);
    v.push(117u8);
    v.push(110u8);
    v.push(119u8);
    v.push(105u8);
    v.push(110u8);
    v.push(100u8);
    proof {
        assert(v@ =~= root_label());
    }
    v
}

} // verus!
