use geaflow::driver::new_inboxes;
use geaflow::partition::partition_of_bytes;
use geaflow::shuffle::{route_outbox_into, Inbox};

#[test]
fn test_partition_of_bytes_is_stable_and_in_range() {
    for n in 1usize..6 {
        for id in 0u64..50 {
            let key = id.to_le_bytes().to_vec();
            let p1 = partition_of_bytes(&key, n);
            let p2 = partition_of_bytes(&key, n);
            assert_eq!(p1, p2, "same key and count must place identically");
            assert!(p1 < n);
        }
    }
    // A partition count of zero is treated as one.
    assert_eq!(partition_of_bytes(&[1, 2, 3], 0), 0);
}

#[test]
fn test_partition_of_bytes_known_value() {
    // FNV-1a of the empty input is its offset basis, so the placement of an
    // empty key is the offset basis modulo the partition count.
    let offset_basis: u64 = 0xcbf29ce484222325;
    for n in 1usize..5 {
        assert_eq!(partition_of_bytes(&[], n), (offset_basis % n as u64) as usize);
    }
}

#[test]
fn test_shuffle_conserves_messages() {
    let n = 3usize;
    let outbox: Vec<(Vec<u8>, Vec<u8>)> = (0u64..20)
        .map(|i| ((i % 7).to_le_bytes().to_vec(), vec![i as u8]))
        .collect();
    let total_in = outbox.len();
    let mut inboxes: Vec<Inbox> = new_inboxes(n);
    route_outbox_into(outbox, n, &mut inboxes);
    let total_out: usize = inboxes
        .iter()
        .map(|i| i.entries.iter().map(|(_, msgs)| msgs.len()).sum::<usize>())
        .sum();
    assert_eq!(total_out, total_in);
}

#[test]
fn test_shuffle_places_by_target_and_keeps_arrival_order() {
    let n = 4usize;
    let target = 5u64.to_le_bytes().to_vec();
    let outbox: Vec<(Vec<u8>, Vec<u8>)> = vec![
        (target.clone(), vec![1]),
        (target.clone(), vec![2]),
        (target.clone(), vec![3]),
    ];
    let mut inboxes: Vec<Inbox> = new_inboxes(n);
    route_outbox_into(outbox, n, &mut inboxes);
    let p = partition_of_bytes(&target, n);
    for (i, inbox) in inboxes.iter().enumerate() {
        if i == p {
            assert_eq!(inbox.entries.len(), 1);
            assert_eq!(inbox.entries[0].0, target);
            assert_eq!(inbox.entries[0].1, vec![vec![1], vec![2], vec![3]]);
        } else {
            assert!(inbox.entries.is_empty());
        }
    }
}
