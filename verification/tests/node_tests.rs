use engine_skiplist::keys::STORE_IDENT_KEY;
use engine_skiplist::node::{
    bootstrap_step, check_bootstrapped_step, prepare_plan, BootstrapAction, BootstrapEvent,
    CheckAction, Node, NodeError, PreparePlan, StoreIdent, StoreLabel,
    CHECK_CLUSTER_BOOTSTRAPPED_RETRY_SECONDS, INVALID_ID, MAX_CHECK_CLUSTER_BOOTSTRAPPED_RETRY_COUNT,
};
use engine_skiplist::{Error, SkiplistEngineBuilder};

fn node(cluster_id: u64) -> Node {
    Node::new(cluster_id, "127.0.0.1:20160".to_string(), String::new(), "4.0.0".to_string(), Vec::new())
}

#[test]
fn new_node_has_no_store_yet() {
    let labels = vec![StoreLabel { key: "zone".to_string(), value: "z1".to_string() }];
    let n = Node::new(1, "a:1".to_string(), "b:2".to_string(), "4.0.0".to_string(), labels.clone());
    assert_eq!(n.id(), INVALID_ID);
    assert_eq!(n.cluster_id(), 1);
    assert_eq!(n.store_info().address, "b:2");
    assert_eq!(n.store_info().version, "4.0.0");
    assert_eq!(n.store_info().labels, labels);
    assert_eq!(node(1).store_info().address, "127.0.0.1:20160");
}

#[test]
fn set_id_changes_the_identifier_only() {
    let mut n = node(1);
    n.set_id(9);
    assert_eq!(n.id(), 9);
    assert_eq!(n.store_info().address, "127.0.0.1:20160");
}

#[test]
fn check_ident_judges_the_stored_identity() {
    let n = node(5);
    assert_eq!(n.check_ident(None), Ok(INVALID_ID));
    assert_eq!(n.check_ident(Some(StoreIdent { cluster_id: 5, store_id: 3 })), Ok(3));
    assert_eq!(
        n.check_ident(Some(StoreIdent { cluster_id: 6, store_id: 3 })),
        Err(NodeError::ClusterMismatch { local: 6, remote: 5 })
    );
    assert_eq!(
        n.check_ident(Some(StoreIdent { cluster_id: 5, store_id: INVALID_ID })),
        Err(NodeError::InvalidStoreIdent { cluster_id: 5 })
    );
}

#[test]
fn check_store_reads_the_engine() {
    let mut engine = SkiplistEngineBuilder::new().build();
    let n = node(5);
    assert_eq!(n.check_store(&engine), Ok(INVALID_ID));
    engine.put(&STORE_IDENT_KEY, &StoreIdent { cluster_id: 5, store_id: 77 }.encode()).unwrap();
    assert_eq!(n.check_store(&engine), Ok(77));
    assert_eq!(node(4).check_store(&engine), Err(NodeError::ClusterMismatch { local: 5, remote: 4 }));
    engine.put(&STORE_IDENT_KEY, b"junk").unwrap();
    assert!(matches!(n.check_store(&engine), Err(NodeError::Engine(Error::Codec(_)))));
    let other = SkiplistEngineBuilder::new().cf_names(&["lock"]).build();
    assert!(matches!(n.check_store(&other), Err(NodeError::Engine(Error::CFName(_)))));
}

#[test]
fn store_ident_round_trip() {
    let ident = StoreIdent { cluster_id: u64::MAX, store_id: 258 };
    let bytes = ident.encode();
    assert_eq!(bytes.len(), 16);
    assert_eq!(bytes[8..], [0, 0, 0, 0, 0, 0, 1, 2]);
    assert_eq!(StoreIdent::decode(&bytes), Ok(ident));
    assert!(matches!(StoreIdent::decode(&bytes[..15]), Err(Error::Codec(_))));
}

#[test]
fn a_store_is_started_once() {
    let mut n = node(1);
    assert_eq!(n.start_store(3), Ok(()));
    assert_eq!(n.start_store(3), Err(NodeError::AlreadyStarted { store_id: 3 }));
}

#[test]
fn bootstrap_goes_on_as_the_answer_says() {
    assert_eq!(bootstrap_step(0, BootstrapEvent::Accepted), BootstrapAction::ClearPrepareKey);
    assert_eq!(bootstrap_step(7, BootstrapEvent::BootstrappedSame), BootstrapAction::ClearPrepareKey);
    assert_eq!(bootstrap_step(7, BootstrapEvent::BootstrappedOther), BootstrapAction::ClearPreparedRegion);
    assert_eq!(bootstrap_step(0, BootstrapEvent::Failed), BootstrapAction::Retry(1));
    assert_eq!(bootstrap_step(57, BootstrapEvent::BootstrappedUnknown), BootstrapAction::Retry(58));
    assert_eq!(bootstrap_step(58, BootstrapEvent::Failed), BootstrapAction::Retry(59));
    assert_eq!(bootstrap_step(59, BootstrapEvent::Failed), BootstrapAction::GiveUp);
    assert_eq!(bootstrap_step(u64::MAX, BootstrapEvent::Failed), BootstrapAction::GiveUp);
    assert_eq!(MAX_CHECK_CLUSTER_BOOTSTRAPPED_RETRY_COUNT, 60);
    assert_eq!(CHECK_CLUSTER_BOOTSTRAPPED_RETRY_SECONDS, 3);
}

#[test]
fn asking_for_the_bootstrap_state_is_retried() {
    assert_eq!(check_bootstrapped_step(0, Some(true)), CheckAction::Answered(true));
    assert_eq!(check_bootstrapped_step(59, Some(false)), CheckAction::Answered(false));
    assert_eq!(check_bootstrapped_step(0, None), CheckAction::Retry(1));
    assert_eq!(check_bootstrapped_step(58, None), CheckAction::Retry(59));
    assert_eq!(check_bootstrapped_step(59, None), CheckAction::GiveUp);
}

#[test]
fn first_region_plan() {
    assert_eq!(prepare_plan(true, false), PreparePlan::UsePrepared);
    assert_eq!(prepare_plan(true, true), PreparePlan::UsePrepared);
    assert_eq!(prepare_plan(false, true), PreparePlan::Nothing);
    assert_eq!(prepare_plan(false, false), PreparePlan::Prepare);
}
