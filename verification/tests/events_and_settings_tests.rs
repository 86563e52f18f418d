use mempool_server::errors::CoreError;
use mempool_server::errors::check_tx_index;
use mempool_server::events::MempoolSequence;
use mempool_server::events::UpdateAction;
use mempool_server::events::UpdaterPhase;
use mempool_server::events::UpdaterSignal;
use mempool_server::events::apply_block_connection;
use mempool_server::events::apply_block_disconnection;
use mempool_server::events::apply_tx_added;
use mempool_server::events::update_plan;
use mempool_server::events::updater_step;
use mempool_server::settings::BitcoindClient;
use mempool_server::settings::RpcAuth;
use mempool_server::settings::auth_choice;
use mempool_server::settings::effective_wait_timeout_sec;
use mempool_server::settings::redacted_config;
use mempool_server::settings::zmq_url_string;
use mempool_server::store::Mempool;

#[test]
fn plan_per_event() {
    assert!(matches!(
        update_plan(&MempoolSequence::SeqStart { bitcoind_already_working: true }),
        UpdateAction::Proceed
    ));
    assert!(matches!(
        update_plan(&MempoolSequence::SeqStart { bitcoind_already_working: false }),
        UpdateAction::FatalNotWorking
    ));
    match update_plan(&MempoolSequence::SeqError { error: "gone".to_string() }) {
        UpdateAction::FatalStreamError { error } => assert_eq!(error, "gone"),
        _ => panic!("expected a fatal stream error"),
    }
    match update_plan(&MempoolSequence::TxAdded {
        txid: "aa".to_string(),
        mp_seq_num: 4,
        zmq_seq: 2,
    }) {
        UpdateAction::FetchAndAdd { txid } => assert_eq!(txid, "aa"),
        _ => panic!("expected a fetch-and-add"),
    }
    match update_plan(&MempoolSequence::TxRemoved {
        txid: "bb".to_string(),
        mp_seq_num: 5,
        zmq_seq: 3,
    }) {
        UpdateAction::RemoveOne { txid } => assert_eq!(txid, "bb"),
        _ => panic!("expected a removal"),
    }
    match update_plan(&MempoolSequence::BlockConnection {
        block_hash: "h1".to_string(),
        zmq_seq: 9,
    }) {
        UpdateAction::RemoveBlock { block_hash } => assert_eq!(block_hash, "h1"),
        _ => panic!("expected a block removal"),
    }
    match update_plan(&MempoolSequence::BlockDisconnection {
        block_hash: "h2".to_string(),
        zmq_seq: 10,
    }) {
        UpdateAction::AddBlock { block_hash } => assert_eq!(block_hash, "h2"),
        _ => panic!("expected a block re-insertion"),
    }
}

#[test]
fn tx_added_inserts_only_when_fetched() {
    let mut mp = Mempool::new();
    apply_tx_added(&mut mp, "aa".to_string(), Some(vec![1, 2]));
    apply_tx_added(&mut mp, "bb".to_string(), None);
    assert_eq!(mp.len(), 1);
    assert_eq!(mp.counter(), 1);
}

#[test]
fn block_connection_removes_listed_transactions() {
    // The store holds T1, T2, T3; the block lists T1, T3 and a stranger
    // T99. Only T2 remains and the counter does not move.
    let mut mp = Mempool::new();
    mp.add_tx("t1".to_string(), vec![1]);
    mp.add_tx("t2".to_string(), vec![2]);
    mp.add_tx("t3".to_string(), vec![3]);
    let before = mp.counter();
    apply_block_connection(
        &mut mp,
        &vec!["t1".to_string(), "t3".to_string(), "t99".to_string()],
    );
    assert_eq!(mp.len(), 1);
    assert_eq!(mp.counter(), before);
    let ids = mp.txid_pos_iterator();
    assert_eq!(ids.len(), 1);
    assert_eq!(ids[0].0, "t2");
}

#[test]
fn block_disconnection_reinserts_fetched_transactions() {
    // A reorg returns T1 and T2 to the empty pool, in block order: T1 takes
    // the smaller arrival index.
    let mut mp = Mempool::new();
    apply_block_disconnection(
        &mut mp,
        vec![
            ("t1".to_string(), Some(vec![1])),
            ("t2".to_string(), Some(vec![2])),
            ("t3".to_string(), None),
        ],
    );
    assert_eq!(mp.len(), 2);
    assert_eq!(mp.counter(), 2);
    let ids = mp.txid_pos_iterator();
    let seq_of = |name: &str| ids.iter().find(|e| e.0 == name).unwrap().1;
    assert!(seq_of("t1") < seq_of("t2"));
}

#[test]
fn updater_lifecycle() {
    assert_eq!(
        updater_step(UpdaterPhase::Init, UpdaterSignal::StartWorking),
        UpdaterPhase::Running
    );
    assert_eq!(
        updater_step(UpdaterPhase::Init, UpdaterSignal::StartNotWorking),
        UpdaterPhase::Draining
    );
    assert_eq!(
        updater_step(UpdaterPhase::Running, UpdaterSignal::Ordinary),
        UpdaterPhase::Running
    );
    assert_eq!(
        updater_step(UpdaterPhase::Running, UpdaterSignal::StreamError),
        UpdaterPhase::Draining
    );
    assert_eq!(
        updater_step(UpdaterPhase::Running, UpdaterSignal::Timeout),
        UpdaterPhase::Draining
    );
    assert_eq!(
        updater_step(UpdaterPhase::Running, UpdaterSignal::StopFlag),
        UpdaterPhase::Draining
    );
    assert_eq!(
        updater_step(UpdaterPhase::Draining, UpdaterSignal::Drained),
        UpdaterPhase::Stopped
    );
    // Events after the stop are discarded.
    assert_eq!(
        updater_step(UpdaterPhase::Stopped, UpdaterSignal::Ordinary),
        UpdaterPhase::Stopped
    );
}

fn config(
    cookie: Option<&str>,
    user: Option<&str>,
    passwd: Option<&str>,
) -> BitcoindClient {
    BitcoindClient {
        cookie_auth_path: cookie.map(|s| s.to_string()),
        ip_addr: "127.0.0.1".to_string(),
        user: user.map(|s| s.to_string()),
        passwd: passwd.map(|s| s.to_string()),
        zmq_port: 29000,
        wait_timeout_sec: None,
    }
}

#[test]
fn cookie_takes_precedence() {
    match auth_choice(&config(Some("/tmp/cookie"), Some("u"), Some("p"))) {
        Ok(RpcAuth::Cookie { path }) => assert_eq!(path, "/tmp/cookie"),
        _ => panic!("expected cookie auth"),
    }
    match auth_choice(&config(None, Some("u"), Some("p"))) {
        Ok(RpcAuth::UserPass { user, passwd }) => {
            assert_eq!(user, "u");
            assert_eq!(passwd, "p");
        }
        _ => panic!("expected user/password auth"),
    }
    assert!(matches!(
        auth_choice(&config(None, Some("u"), None)),
        Err(CoreError::Config)
    ));
    assert!(matches!(auth_choice(&config(None, None, None)), Err(CoreError::Config)));
}

#[test]
fn wait_timeout_defaults_to_sixty() {
    let mut c = config(None, None, None);
    assert_eq!(effective_wait_timeout_sec(&c), 60);
    c.wait_timeout_sec = Some(5);
    assert_eq!(effective_wait_timeout_sec(&c), 5);
}

#[test]
fn zmq_url_is_tcp_host_port() {
    assert_eq!(
        zmq_url_string(&"127.0.0.1".to_string(), 29000),
        "tcp://127.0.0.1:29000"
    );
    assert_eq!(zmq_url_string(&"localhost".to_string(), 1), "tcp://localhost:1");
}

#[test]
fn log_rendering_hides_credentials() {
    let c = config(Some("/home/u/.cookie"), Some("myuser"), Some("hunter2"));
    let text = redacted_config(&c);
    assert!(text.contains("****"));
    assert!(!text.contains("myuser"));
    assert!(!text.contains("hunter2"));
    assert!(text.contains("/home/u/.cookie"));
    assert!(text.contains("29000"));
    let none = redacted_config(&config(None, None, None));
    assert!(none.contains("cookie_auth_path: None"));
}

#[test]
fn tx_index_is_required() {
    assert!(check_tx_index(true).is_ok());
    assert_eq!(check_tx_index(false), Err(CoreError::NodePrecondition));
    assert!(CoreError::NotFound.is_recoverable());
    assert!(!CoreError::Stall.is_recoverable());
    assert!(!CoreError::RpcProtocol.is_recoverable());
}
