//! Component-level tests: locator, isolator, emitter and walker in
//! isolation over hand-built call-graph text.

use panic_list::directory::collect_top_level_nodes;
use panic_list::errors::AnalysisError;
use panic_list::isolate::remove_downstream;
use panic_list::locate::{extract_node_from_name, extract_node_from_root};
use panic_list::walk::get_prev_nodes;
use panic_list::emit::store_node_name;

const PAD: &[u8] = b"\n       ";

fn decl(buf: &mut Vec<u8>, node: &[u8; 12], label: &[u8]) {
    buf.extend_from_slice(PAD);
    buf.extend_from_slice(node);
    buf.extend_from_slice(&[b' '; 22]);
    buf.push(b'{');
    buf.extend_from_slice(label);
    buf.push(b'}');
}

fn edge(buf: &mut Vec<u8>, caller: &[u8; 12], callee: &[u8; 12]) {
    buf.extend_from_slice(PAD);
    buf.extend_from_slice(caller);
    buf.extend_from_slice(b" -> ");
    buf.extend_from_slice(b"Node0x");
    buf.extend_from_slice(callee);
}

const ABORT: &[u8; 12] = b"AAAAAAAAAAAA";
const EXPORT1: &[u8; 12] = b"EEEEEEEEEEEE";
const MID: &[u8; 12] = b"MMMMMMMMMMMM";

#[test]
fn root_node_is_decoded_from_declaration() {
    let mut buf = Vec::new();
    decl(&mut buf, MID, b"Mid");
    decl(&mut buf, ABORT, b"rust_begin_unwind");
    let node = extract_node_from_root(&buf).unwrap().unwrap();
    assert_eq!(node, ABORT.to_vec());
}

#[test]
fn root_node_missing_yields_none() {
    let mut buf = Vec::new();
    decl(&mut buf, MID, b"Mid");
    assert_eq!(extract_node_from_root(&buf), Ok(None));
}

#[test]
fn named_node_is_decoded_from_declaration() {
    let mut buf = Vec::new();
    decl(&mut buf, ABORT, b"rust_begin_unwind");
    decl(&mut buf, EXPORT1, b"Export1");
    let node = extract_node_from_name(&buf, &b"Export1".to_vec())
        .unwrap()
        .unwrap();
    assert_eq!(node, EXPORT1.to_vec());
}

#[test]
fn named_node_requires_label_open_anchor() {
    let mut buf = Vec::new();
    decl(&mut buf, MID, b"PreExport1");
    assert_eq!(extract_node_from_name(&buf, &b"Export1".to_vec()), Ok(None));
}

#[test]
fn anchored_name_too_close_to_start_is_format_error() {
    let mut buf = b"{Export1}".to_vec();
    buf.extend_from_slice(&[b' '; 40]);
    assert_eq!(
        extract_node_from_name(&buf, &b"Export1".to_vec()),
        Err(AnalysisError::Format)
    );
}

#[test]
fn isolation_leaves_no_outbound_root_edges() {
    let mut buf = Vec::new();
    decl(&mut buf, ABORT, b"rust_begin_unwind");
    decl(&mut buf, MID, b"Mid");
    edge(&mut buf, ABORT, MID);
    edge(&mut buf, MID, ABORT);
    edge(&mut buf, ABORT, ABORT);
    let root = extract_node_from_root(&buf).unwrap().unwrap();
    remove_downstream(&mut buf, &root);
    // Scan the sanitized buffer for any edge whose caller is the root.
    for i in 0..buf.len().saturating_sub(12) {
        if buf[i..].starts_with(ABORT) && i + 14 < buf.len() {
            assert_ne!(buf[i + 14], b'>');
        }
    }
    // The inbound edge of the root is untouched.
    let callee_at = |buf: &Vec<u8>, caller: &[u8; 12]| {
        (0..buf.len() - 12).any(|i| buf[i..].starts_with(caller) && buf[i + 14] == b'>')
    };
    assert!(callee_at(&buf, MID));
}

#[test]
fn isolation_touches_only_arrow_heads() {
    let mut buf = Vec::new();
    decl(&mut buf, ABORT, b"rust_begin_unwind");
    decl(&mut buf, MID, b"Mid");
    edge(&mut buf, ABORT, MID);
    let before = buf.clone();
    let root = extract_node_from_root(&buf).unwrap().unwrap();
    remove_downstream(&mut buf, &root);
    assert_eq!(buf.len(), before.len());
    let diffs: Vec<usize> = (0..buf.len()).filter(|&i| buf[i] != before[i]).collect();
    assert_eq!(diffs.len(), 1);
    assert_eq!(before[diffs[0]], b'>');
    assert_eq!(buf[diffs[0]], b'-');
}

#[test]
fn collect_skips_unknown_and_excludes_root() {
    let mut buf = Vec::new();
    decl(&mut buf, ABORT, b"rust_begin_unwind");
    decl(&mut buf, EXPORT1, b"Export1");
    let root = extract_node_from_root(&buf).unwrap().unwrap();
    let syms = b"Missing\nExport1\nrust_begin_unwind\n".to_vec();
    let tops = collect_top_level_nodes(&buf, &syms, &root).unwrap();
    assert_eq!(tops, vec![EXPORT1.to_vec()]);
}

#[test]
fn store_node_name_emits_first_declaration_label() {
    let mut buf = Vec::new();
    decl(&mut buf, MID, b"First");
    decl(&mut buf, MID, b"Second");
    let mut out = Vec::new();
    store_node_name(&buf, &MID.to_vec(), &mut out, false).unwrap();
    assert_eq!(out, b"First\n".to_vec());
}

#[test]
fn store_node_name_without_declaration_emits_nothing() {
    let mut buf = Vec::new();
    decl(&mut buf, ABORT, b"rust_begin_unwind");
    let mut out = Vec::new();
    store_node_name(&buf, &MID.to_vec(), &mut out, false).unwrap();
    assert!(out.is_empty());
}

#[test]
fn walker_reports_top_level_node_as_leaf() {
    let mut buf = Vec::new();
    decl(&mut buf, EXPORT1, b"Export1");
    let tops = vec![EXPORT1.to_vec()];
    let mut out = Vec::new();
    let depth = get_prev_nodes(&buf, &tops, &mut out, &EXPORT1.to_vec(), 0, false).unwrap();
    assert_eq!(depth, 1);
    assert_eq!(out, b"Export1\n".to_vec());
}

#[test]
fn walker_returns_zero_when_budget_exhausted() {
    let mut buf = Vec::new();
    decl(&mut buf, ABORT, b"rust_begin_unwind");
    decl(&mut buf, MID, b"Mid");
    edge(&mut buf, MID, ABORT);
    let tops: Vec<Vec<u8>> = Vec::new();
    let mut out = Vec::new();
    let depth = get_prev_nodes(&buf, &tops, &mut out, &ABORT.to_vec(), 0, false).unwrap();
    assert_eq!(depth, 0);
    assert!(out.is_empty());
}

#[test]
fn walker_skips_direct_self_edge() {
    let mut buf = Vec::new();
    decl(&mut buf, MID, b"Mid");
    edge(&mut buf, MID, MID);
    let tops: Vec<Vec<u8>> = Vec::new();
    let mut out = Vec::new();
    let depth = get_prev_nodes(&buf, &tops, &mut out, &MID.to_vec(), 1000, false).unwrap();
    assert_eq!(depth, 0);
    assert!(out.is_empty());
}
