use mempool_server::store::Mempool;

fn tx(n: u8) -> (String, Vec<u8>) {
    (format!("tx{:02x}", n), vec![n, n, n])
}

#[test]
fn fresh_store_is_empty() {
    let mp = Mempool::new();
    assert_eq!(mp.len(), 0);
    assert_eq!(mp.counter(), 0);
    assert!(mp.txid_pos_iterator().is_empty());
    assert!(mp.pos_data_iterator().is_empty());
    // What the size endpoint would serve for it.
    assert_eq!(mempool_server::text::u32_to_dec_string(mp.len()), "0");
}

#[test]
fn add_then_remove_keeps_counter() {
    // Two arrivals, then the first is evicted: one entry remains, the
    // counter still counts both arrivals.
    let mut mp = Mempool::new();
    let (t1, b1) = tx(1);
    let (t2, b2) = tx(2);
    mp.add_tx(t1.clone(), b1);
    mp.add_tx(t2.clone(), b2.clone());
    mp.remove_tx(&t1);
    assert_eq!(mp.len(), 1);
    assert_eq!(mp.counter(), 2);
    let ids = mp.txid_pos_iterator();
    assert_eq!(ids.len(), 1);
    assert_eq!(ids[0].0, t2);
    let data = mp.pos_data_iterator_from(0);
    assert_eq!(data.len(), 1);
    assert_eq!(data[0].1, b2);
}

#[test]
fn both_directions_same_size() {
    let mut mp = Mempool::new();
    for n in 0..10u8 {
        let (t, b) = tx(n);
        mp.add_tx(t, b);
    }
    for n in [1u8, 4, 7] {
        let (t, _) = tx(n);
        mp.remove_tx(&t);
    }
    assert_eq!(mp.txid_pos_iterator().len(), mp.pos_data_iterator().len());
    assert_eq!(mp.len(), 7);
}

#[test]
fn arrival_indices_increase_in_program_order() {
    let mut mp = Mempool::new();
    let (t1, b1) = tx(1);
    let (t2, b2) = tx(2);
    mp.add_tx(t1.clone(), b1);
    mp.add_tx(t2.clone(), b2);
    let ids = mp.txid_pos_iterator();
    let s1 = ids.iter().find(|e| e.0 == t1).unwrap().1;
    let s2 = ids.iter().find(|e| e.0 == t2).unwrap().1;
    assert!(s1 < s2);
}

#[test]
fn duplicate_add_supersedes_old_entry() {
    // Re-adding an id retires its old arrival index: both directions hold
    // one entry, under the fresh index, with the fresh bytes.
    let mut mp = Mempool::new();
    let (t1, b1) = tx(1);
    mp.add_tx(t1.clone(), b1);
    mp.add_tx(t1.clone(), vec![9, 9]);
    assert_eq!(mp.len(), 1);
    assert_eq!(mp.counter(), 2);
    let data = mp.pos_data_iterator();
    assert_eq!(data.len(), 1);
    assert_eq!(data[0].0, 1);
    assert_eq!(data[0].1, vec![9, 9]);
    let ids = mp.txid_pos_iterator();
    assert_eq!(ids.len(), 1);
    assert_eq!(ids[0].1, 1);
}

#[test]
fn remove_is_idempotent_and_absent_remove_is_no_op() {
    let mut mp = Mempool::new();
    let (t1, b1) = tx(1);
    let (t9, _) = tx(9);
    mp.add_tx(t1.clone(), b1);
    mp.remove_tx(&t9);
    assert_eq!(mp.len(), 1);
    assert_eq!(mp.counter(), 1);
    mp.remove_tx(&t1);
    mp.remove_tx(&t1);
    assert_eq!(mp.len(), 0);
    assert_eq!(mp.counter(), 1);
    assert!(mp.pos_data_iterator().is_empty());
}

#[test]
fn counter_equals_total_insertions() {
    let mut mp = Mempool::new();
    for n in 0..50u8 {
        let (t, b) = tx(n);
        mp.add_tx(t, b);
    }
    for n in 0..50u8 {
        let (t, _) = tx(n);
        mp.remove_tx(&t);
    }
    for n in 0..25u8 {
        let (t, b) = tx(n);
        mp.add_tx(t, b);
    }
    assert_eq!(mp.counter(), 75);
    assert_eq!(mp.len(), 25);
}

#[test]
fn range_iteration_yields_suffix_in_order() {
    let mut mp = Mempool::new();
    for n in 0..5u8 {
        let (t, b) = tx(n);
        mp.add_tx(t, b);
    }
    let entries = mp.pos_data_iterator_from(2);
    assert_eq!(entries.len(), 3);
    assert_eq!(
        entries.iter().map(|e| e.0).collect::<Vec<u64>>(),
        vec![2, 3, 4]
    );
    for e in &entries {
        assert_eq!(e.1, vec![e.0 as u8, e.0 as u8, e.0 as u8]);
    }
    assert!(mp.pos_data_iterator_from(5).is_empty());
}

#[test]
fn layered_load_orders_by_ancestor_count() {
    // A and B are roots, C depends on A, D on C: every layer is fully
    // inserted before the next, so index(A) < index(C) < index(D) and
    // index(B) < index(C).
    let mut mp = Mempool::new();
    let layers = vec![
        vec![
            mempool_server::txdepth::TxDepth {
                ancestor_count: 1,
                tx_id: "aa".to_string(),
                bytes: vec![0xaa],
            },
            mempool_server::txdepth::TxDepth {
                ancestor_count: 1,
                tx_id: "bb".to_string(),
                bytes: vec![0xbb],
            },
        ],
        vec![mempool_server::txdepth::TxDepth {
            ancestor_count: 2,
            tx_id: "cc".to_string(),
            bytes: vec![0xcc],
        }],
        vec![mempool_server::txdepth::TxDepth {
            ancestor_count: 3,
            tx_id: "dd".to_string(),
            bytes: vec![0xdd],
        }],
    ];
    mp.load_mempool_with(layers);
    assert_eq!(mp.counter(), 4);
    assert_eq!(mp.len(), 4);
    let ids = mp.txid_pos_iterator();
    let seq_of = |name: &str| ids.iter().find(|e| e.0 == name).unwrap().1;
    assert!(seq_of("aa") < seq_of("cc"));
    assert!(seq_of("bb") < seq_of("cc"));
    assert!(seq_of("cc") < seq_of("dd"));
    // The data direction yields bytes in arrival order.
    let data = mp.pos_data_iterator();
    assert_eq!(data.len(), 4);
    for w in data.windows(2) {
        assert!(w[0].0 < w[1].0);
    }
}

#[test]
fn snapshot_survives_later_mutation() {
    // The tail snapshot taken at 500 keeps exactly what stood at or above
    // 500, whatever is inserted or removed afterwards.
    let mut mp = Mempool::new();
    for n in 0..1000u32 {
        mp.add_tx(format!("tx{:04}", n), n.to_be_bytes().to_vec());
    }
    let snapshot = mp.pos_data_iterator_from(500);
    assert_eq!(snapshot.len(), 500);
    for n in 1000..1100u32 {
        mp.add_tx(format!("tx{:04}", n), n.to_be_bytes().to_vec());
    }
    for n in (0..1000u32).step_by(10) {
        mp.remove_tx(&format!("tx{:04}", n));
    }
    for e in &snapshot {
        assert!(e.0 >= 500);
        assert_eq!(e.1, (e.0 as u32).to_be_bytes().to_vec());
    }
    for w in snapshot.windows(2) {
        assert!(w[0].0 < w[1].0);
    }
}
