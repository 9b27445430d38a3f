use geaflow::algorithm::{dec_u64, enc_u64};
use geaflow::state::GraphState;

#[test]
fn test_graph_state_basic() {
    let mut state = GraphState::new();
    state.put_vertex(enc_u64(1), enc_u64(42));
    state.put_vertex(enc_u64(2), enc_u64(7));
    state.put_vertex(enc_u64(1), enc_u64(43));

    assert_eq!(dec_u64(state.get_vertex(&enc_u64(1)).unwrap()), Some(43));
    assert_eq!(dec_u64(state.get_vertex(&enc_u64(2)).unwrap()), Some(7));
    assert!(state.get_vertex(&enc_u64(9)).is_none());

    let listed = state.list_vertices();
    assert_eq!(listed.len(), 2);

    state.put_edge_batch(vec![
        (enc_u64(1), enc_u64(2), vec![9u8]),
        (enc_u64(1), enc_u64(3), vec![8u8]),
        (enc_u64(2), enc_u64(1), vec![7u8]),
    ]);
    let out = state.get_out_edges(&enc_u64(1));
    assert_eq!(out.len(), 2);
    assert_eq!(dec_u64(&out[0].0), Some(2));
    assert_eq!(out[0].1, vec![9u8]);
    assert_eq!(dec_u64(&out[1].0), Some(3));
    assert!(state.get_out_edges(&enc_u64(3)).is_empty());
}

#[test]
fn test_edge_preservation_across_batches() {
    // Parallel and duplicate edges from repeated batches must all survive,
    // in batch order.
    let mut state = GraphState::new();
    state.put_edge_batch(vec![
        (enc_u64(1), enc_u64(2), vec![1u8]),
        (enc_u64(1), enc_u64(2), vec![2u8]),
    ]);
    state.put_edge_batch(vec![
        (enc_u64(1), enc_u64(2), vec![1u8]),
        (enc_u64(1), enc_u64(3), vec![3u8]),
    ]);
    let out = state.get_out_edges(&enc_u64(1));
    let decoded: Vec<(u64, Vec<u8>)> = out
        .iter()
        .map(|(t, v)| (dec_u64(t).unwrap(), v.clone()))
        .collect();
    assert_eq!(
        decoded,
        vec![(2, vec![1u8]), (2, vec![2u8]), (2, vec![1u8]), (3, vec![3u8])]
    );
}

#[test]
fn test_checkpoint_snapshot_and_recovery() {
    let mut state = GraphState::new();
    state.put_vertex_batch(vec![
        (enc_u64(1), enc_u64(100)),
        (enc_u64(2), enc_u64(200)),
    ]);
    state.put_edge_batch(vec![(enc_u64(1), enc_u64(2), vec![0u8])]);

    let snapshot = state.snapshot_bytes();
    state.put_vertex(enc_u64(1), enc_u64(999));

    let recovered = GraphState::restore(&snapshot).unwrap();
    assert_eq!(dec_u64(recovered.get_vertex(&enc_u64(1)).unwrap()), Some(100));
    assert_eq!(dec_u64(recovered.get_vertex(&enc_u64(2)).unwrap()), Some(200));
    assert_eq!(recovered.get_out_edges(&enc_u64(1)).len(), 1);

    assert_eq!(dec_u64(state.get_vertex(&enc_u64(1)).unwrap()), Some(999));
}

#[test]
fn test_restore_rejects_torn_snapshot() {
    let mut state = GraphState::new();
    state.put_vertex(enc_u64(1), enc_u64(100));
    let mut snapshot = state.snapshot_bytes();
    snapshot.pop();
    assert!(GraphState::restore(&snapshot).is_none());
}

#[test]
fn test_list_vertices_is_sorted_by_key_bytes() {
    // Keys inserted out of order come back in ascending key-byte order: the
    // store's natural iteration order.
    let mut state = GraphState::new();
    state.put_vertex(vec![2, 0], enc_u64(20));
    state.put_vertex(vec![1, 9, 9], enc_u64(19));
    state.put_vertex(vec![2], enc_u64(2));
    state.put_vertex(vec![1, 9, 9], enc_u64(99));

    let keys: Vec<Vec<u8>> = state.list_vertices().iter().map(|(k, _)| k.clone()).collect();
    assert_eq!(keys, vec![vec![1, 9, 9], vec![2], vec![2, 0]]);
    assert_eq!(dec_u64(state.get_vertex(&vec![1, 9, 9]).unwrap()), Some(99));
}
