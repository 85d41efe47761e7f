//! End-to-end tests of the analysis over hand-built call-graph text.

use panic_list::directory::generate_panic_list;
use panic_list::errors::AnalysisError;

const PAD: &[u8] = b"\n       ";

/// Appends a node declaration: identifier, 22 filler bytes, then the label
/// in braces, with padding so no identifier occurrence sits near an edge
/// marker.
fn decl(buf: &mut Vec<u8>, node: &[u8; 12], label: &[u8]) {
    buf.extend_from_slice(PAD);
    buf.extend_from_slice(node);
    buf.extend_from_slice(&[b' '; 22]);
    buf.push(b'{');
    buf.extend_from_slice(label);
    buf.push(b'}');
}

/// Appends an edge record: caller identifier, arrow marker, callee token.
fn edge(buf: &mut Vec<u8>, caller: &[u8; 12], callee: &[u8; 12]) {
    buf.extend_from_slice(PAD);
    buf.extend_from_slice(caller);
    buf.extend_from_slice(b" -> ");
    buf.extend_from_slice(b"Node0x");
    buf.extend_from_slice(callee);
}

const ABORT: &[u8; 12] = b"AAAAAAAAAAAA";
const EXPORT1: &[u8; 12] = b"EEEEEEEEEEEE";
const EXPORT2: &[u8; 12] = b"XXXXXXXXXXXX";
const MID: &[u8; 12] = b"MMMMMMMMMMMM";

fn chain_graph() -> Vec<u8> {
    let mut buf = Vec::new();
    decl(&mut buf, ABORT, b"rust_begin_unwind");
    decl(&mut buf, MID, b"Mid");
    decl(&mut buf, EXPORT1, b"Export1");
    edge(&mut buf, EXPORT1, MID);
    edge(&mut buf, MID, ABORT);
    buf
}

#[test]
fn scenario_chain_is_reported_indented() {
    let graph = chain_graph();
    let syms = b"Export1\n".to_vec();
    let out = generate_panic_list(&graph, &syms, 10, false).unwrap();
    assert_eq!(out, b"Export1\n  Mid\n    rust_begin_unwind\n".to_vec());
}

#[test]
fn scenario_unreachable_export_is_absent() {
    let mut graph = chain_graph();
    decl(&mut graph, EXPORT2, b"Export2");
    let syms = b"Export1\nExport2\n".to_vec();
    let out = generate_panic_list(&graph, &syms, 10, false).unwrap();
    assert_eq!(out, b"Export1\n  Mid\n    rust_begin_unwind\n".to_vec());
    let text = String::from_utf8(out).unwrap();
    assert!(!text.contains("Export2"));
}

#[test]
fn scenario_unknown_export_is_skipped() {
    let graph = chain_graph();
    let syms = b"NoSuchSymbol\nExport1\n".to_vec();
    let out = generate_panic_list(&graph, &syms, 10, false).unwrap();
    assert_eq!(out, b"Export1\n  Mid\n    rust_begin_unwind\n".to_vec());
}

#[test]
fn analysis_is_idempotent() {
    let graph = chain_graph();
    let syms = b"Export1\n".to_vec();
    let first = generate_panic_list(&graph, &syms, 10, false).unwrap();
    let second = generate_panic_list(&graph, &syms, 10, false).unwrap();
    assert_eq!(first, second);
}

#[test]
fn depth_budget_too_small_finds_nothing() {
    let graph = chain_graph();
    let syms = b"Export1\n".to_vec();
    let out = generate_panic_list(&graph, &syms, 1, false).unwrap();
    assert!(out.is_empty());
}

#[test]
fn depth_budget_monotonic_on_chain() {
    let graph = chain_graph();
    let syms = b"Export1\n".to_vec();
    let at_two = generate_panic_list(&graph, &syms, 2, false).unwrap();
    let at_ten = generate_panic_list(&graph, &syms, 10, false).unwrap();
    assert_eq!(at_two, b"Export1\n  Mid\n    rust_begin_unwind\n".to_vec());
    assert_eq!(at_two, at_ten);
}

#[test]
fn no_inbound_edges_yields_empty_output() {
    let mut buf = Vec::new();
    decl(&mut buf, ABORT, b"rust_begin_unwind");
    decl(&mut buf, EXPORT1, b"Export1");
    edge(&mut buf, ABORT, EXPORT1);
    let syms = b"Export1\n".to_vec();
    let out = generate_panic_list(&buf, &syms, 10, false).unwrap();
    assert!(out.is_empty());
}

#[test]
fn direct_self_edge_terminates() {
    let mut buf = Vec::new();
    decl(&mut buf, ABORT, b"rust_begin_unwind");
    decl(&mut buf, MID, b"Mid");
    decl(&mut buf, EXPORT1, b"Export1");
    edge(&mut buf, MID, MID);
    edge(&mut buf, EXPORT1, MID);
    edge(&mut buf, MID, ABORT);
    let syms = b"Export1\n".to_vec();
    let out = generate_panic_list(&buf, &syms, 10, false).unwrap();
    assert_eq!(out, b"Export1\n  Mid\n    rust_begin_unwind\n".to_vec());
}

#[test]
fn cycle_not_touching_root_terminates() {
    let mut buf = Vec::new();
    decl(&mut buf, ABORT, b"rust_begin_unwind");
    decl(&mut buf, MID, b"Mid");
    decl(&mut buf, EXPORT1, b"Export1");
    edge(&mut buf, MID, EXPORT1);
    edge(&mut buf, EXPORT1, MID);
    edge(&mut buf, MID, ABORT);
    let syms = b"Export1\n".to_vec();
    let out = generate_panic_list(&buf, &syms, 3, false).unwrap();
    assert_eq!(out, b"Export1\n  Mid\n    rust_begin_unwind\n".to_vec());
}

#[test]
fn missing_abort_entry_is_fatal() {
    let mut buf = Vec::new();
    decl(&mut buf, EXPORT1, b"Export1");
    let syms = b"Export1\n".to_vec();
    let r = generate_panic_list(&buf, &syms, 10, false);
    assert_eq!(r, Err(AnalysisError::RootNotFound));
}

#[test]
fn abort_label_without_declaration_room_is_format_error() {
    let mut buf = b"rust_begin_unwind".to_vec();
    buf.extend_from_slice(&[b' '; 64]);
    let syms = Vec::new();
    let r = generate_panic_list(&buf, &syms, 10, false);
    assert_eq!(r, Err(AnalysisError::Format));
}

#[test]
fn empty_label_on_chain_is_format_error() {
    let mut buf = Vec::new();
    decl(&mut buf, ABORT, b"rust_begin_unwind");
    decl(&mut buf, MID, b"");
    decl(&mut buf, EXPORT1, b"Export1");
    edge(&mut buf, EXPORT1, MID);
    edge(&mut buf, MID, ABORT);
    let syms = b"Export1\n".to_vec();
    let r = generate_panic_list(&buf, &syms, 10, false);
    assert_eq!(r, Err(AnalysisError::Format));
}

#[test]
fn exported_abort_entry_is_excluded() {
    let mut buf = Vec::new();
    decl(&mut buf, ABORT, b"rust_begin_unwind");
    edge(&mut buf, MID, ABORT);
    let syms = b"rust_begin_unwind\n".to_vec();
    let out = generate_panic_list(&buf, &syms, 10, false).unwrap();
    assert!(out.is_empty());
}

#[test]
fn name_without_trailing_newline_is_ignored() {
    let graph = chain_graph();
    let syms = b"Export1".to_vec();
    let out = generate_panic_list(&graph, &syms, 10, false).unwrap();
    assert!(out.is_empty());
}

#[test]
fn query_matches_only_at_label_open() {
    let mut buf = Vec::new();
    decl(&mut buf, ABORT, b"rust_begin_unwind");
    decl(&mut buf, MID, b"PreExport1");
    edge(&mut buf, MID, ABORT);
    let syms = b"Export1\n".to_vec();
    let out = generate_panic_list(&buf, &syms, 10, false).unwrap();
    assert!(out.is_empty());
}

#[test]
fn query_matches_label_prefix() {
    let mut buf = Vec::new();
    decl(&mut buf, ABORT, b"rust_begin_unwind");
    decl(&mut buf, EXPORT1, b"Export1Extra");
    edge(&mut buf, EXPORT1, ABORT);
    let syms = b"Export1\n".to_vec();
    let out = generate_panic_list(&buf, &syms, 10, false).unwrap();
    assert_eq!(out, b"Export1Extra\n  rust_begin_unwind\n".to_vec());
}

#[test]
fn decoded_names_drop_hash_segment() {
    let mut buf = Vec::new();
    decl(&mut buf, ABORT, b"rust_begin_unwind");
    decl(&mut buf, EXPORT1, b"_ZN3foo3bar17h0123456789abcdefE");
    edge(&mut buf, EXPORT1, ABORT);
    let syms = b"_ZN3foo3bar17h0123456789abcdefE\n".to_vec();
    let out = generate_panic_list(&buf, &syms, 10, false).unwrap();
    assert_eq!(
        out,
        b"_ZN3foo3bar17h0123456789abcdefE\n  rust_begin_unwind\n".to_vec()
    );
    let decoded = generate_panic_list(&buf, &syms, 10, true).unwrap();
    assert_eq!(decoded, b"foo::bar\n  rust_begin_unwind\n".to_vec());
}

#[test]
fn fan_in_reports_deepest_chain_once() {
    // Export1 reaches Mid both directly and through Export2; Mid's line is
    // emitted once, at the deepest discovered depth.
    let mut buf = Vec::new();
    decl(&mut buf, ABORT, b"rust_begin_unwind");
    decl(&mut buf, MID, b"Mid");
    decl(&mut buf, EXPORT1, b"Export1");
    decl(&mut buf, EXPORT2, b"Helper");
    edge(&mut buf, EXPORT1, MID);
    edge(&mut buf, EXPORT1, EXPORT2);
    edge(&mut buf, EXPORT2, MID);
    edge(&mut buf, MID, ABORT);
    let syms = b"Export1\n".to_vec();
    let out = generate_panic_list(&buf, &syms, 10, false).unwrap();
    assert_eq!(
        out,
        b"Export1\nExport1\n  Helper\n    Mid\n      rust_begin_unwind\n".to_vec()
    );
}
