use mempool_server::errors::CoreError;
use mempool_server::loader::LoadProgress;
use mempool_server::loader::get_mempool_layers;
use mempool_server::loader::make_tx_depth;
use mempool_server::loader::percent;
use mempool_server::txdepth::TxDepth;

fn record(ancestor_count: usize, id: &str) -> TxDepth {
    TxDepth { ancestor_count, tx_id: id.to_string(), bytes: vec![ancestor_count as u8] }
}

#[test]
fn records_from_fetch_results() {
    // A vanished transaction is skipped silently.
    assert!(matches!(make_tx_depth(1, "aa".to_string(), None), Ok(None)));
    // Good hex becomes a record.
    match make_tx_depth(2, "bb".to_string(), Some(b"c0ffee".to_vec())) {
        Ok(Some(t)) => {
            assert_eq!(t.ancestor_count, 2);
            assert_eq!(t.tx_id, "bb");
            assert_eq!(t.bytes, vec![0xc0, 0xff, 0xee]);
        }
        _ => panic!("expected a record"),
    }
    // Malformed hex is a protocol fault.
    assert!(matches!(
        make_tx_depth(1, "cc".to_string(), Some(b"zz".to_vec())),
        Err(CoreError::RpcProtocol)
    ));
}

#[test]
fn layers_bucket_by_ancestor_count() {
    let vec = vec![record(1, "a"), record(3, "d"), record(1, "b"), record(3, "e")];
    let layers = get_mempool_layers(vec);
    assert_eq!(layers.len(), 3);
    assert_eq!(
        layers[0].iter().map(|t| t.tx_id.as_str()).collect::<Vec<&str>>(),
        vec!["a", "b"]
    );
    // The middle layer is kept, empty.
    assert!(layers[1].is_empty());
    assert_eq!(
        layers[2].iter().map(|t| t.tx_id.as_str()).collect::<Vec<&str>>(),
        vec!["d", "e"]
    );
}

#[test]
fn no_records_no_layers() {
    let layers = get_mempool_layers(vec![]);
    assert!(layers.is_empty());
}

#[test]
fn progress_reports_each_percent_once() {
    // The first record, or an empty pool, opens the report.
    assert_eq!(percent(0, 0, 10), (LoadProgress::Begin, 0));
    assert_eq!(percent(0, 0, 0), (LoadProgress::Begin, 0));
    // The last record closes it.
    assert_eq!(percent(10, 90, 10), (LoadProgress::Done, 90));
    // A newly reached percent is reported and remembered.
    assert_eq!(percent(1, 0, 10), (LoadProgress::Step { percent: 10 }, 10));
    // The same percent again stays quiet.
    assert_eq!(percent(1, 10, 10), (LoadProgress::Quiet, 10));
    // Truncation to the whole percent below.
    assert_eq!(percent(1, 0, 3), (LoadProgress::Step { percent: 33 }, 33));
    assert_eq!(percent(2, 33, 3), (LoadProgress::Step { percent: 66 }, 66));
}
