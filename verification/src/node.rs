//! The decisions that a node takes when it joins a cluster: what the identity stored in
//! its engine means, and how it goes on after each answer of the placement driver. The
//! calls to the placement driver and the waiting between them are the caller's.

use vstd::prelude::*;
use crate::engine::SkiplistEngine;
use crate::errors::Error;
use crate::keys::{be64, be64_value, push_be64, read_be64, STORE_IDENT_KEY};

verus! {

/// The identifier that stands for "none".
pub const INVALID_ID: u64 = 0;

/// How often the placement driver is asked before the node gives up.
pub const MAX_CHECK_CLUSTER_BOOTSTRAPPED_RETRY_COUNT: u64 = 60;

/// The seconds to wait after an attempt that failed.
pub const CHECK_CLUSTER_BOOTSTRAPPED_RETRY_SECONDS: u64 = 3;

/// Why a node could not start.
#[derive(Clone, Debug, PartialEq, Eq)]
pub enum NodeError {
    /// The engine belongs to another cluster than the one the node is to join.
    ClusterMismatch { local: u64, remote: u64 },
    /// The stored identity names no store.
    InvalidStoreIdent { cluster_id: u64 },
    /// The cluster could not be bootstrapped within the attempts allowed.
    BootstrapFailed,
    /// The placement driver did not tell within the attempts allowed whether the cluster
    /// is bootstrapped.
    NotBootstrapped,
    /// The store is running already.
    AlreadyStarted { store_id: u64 },
    /// The engine failed.
    Engine(Error),
}

/// The identity that a store keeps in its engine.
#[derive(Clone, Copy, Debug, PartialEq, Eq, Structural)]
pub struct StoreIdent {
    pub cluster_id: u64,
    pub store_id: u64,
}

/// The bytes that an identity is stored as: the cluster and the store, eight octets each.
pub open spec fn ident_encoding(ident: StoreIdent) -> Seq<u8> {
    be64(ident.cluster_id) + be64(ident.store_id)
}

/// The identity that stored bytes spell; none where they are not as many as an identity
/// takes.
pub open spec fn ident_decoding(bytes: Seq<u8>) -> Option<StoreIdent> {
    if bytes.len() == 16 {
        Some(
            StoreIdent {
                cluster_id: be64_value(bytes.subrange(0, 8)),
                store_id: be64_value(bytes.subrange(8, 16)),
            },
        )
    } else {
        None
    }
}

/// An identity written and read back is the identity that was written.
pub proof fn lemma_ident_round_trip(ident: StoreIdent)
    ensures
        ident_decoding(ident_encoding(ident)) == Some(ident),
{
    let bytes = ident_encoding(ident);
    assert(bytes.subrange(0, 8) =~= be64(ident.cluster_id));
    assert(bytes.subrange(8, 16) =~= be64(ident.store_id));
    crate::keys::lemma_be64_value(ident.cluster_id);
    crate::keys::lemma_be64_value(ident.store_id);
}

impl StoreIdent {
    /// Writes the identity as bytes.
    pub fn encode(&self) -> (bytes: Vec<u8>)
        ensures
            bytes@ == ident_encoding(*self),
    {
        let mut bytes: Vec<u8> = Vec::with_capacity(16);
        assert(bytes@ =~= Seq::<u8>::empty());
        push_be64(&mut bytes, self.cluster_id);
        push_be64(&mut bytes, self.store_id);
        assert(bytes@ =~= ident_encoding(*self));
        bytes
    }

    /// Reads an identity from bytes.
    pub fn decode(bytes: &[u8]) -> (r: Result<StoreIdent, Error>)
        ensures
            match r {
                Ok(ident) => ident_decoding(bytes@) == Some(ident),
                Err(e) => ident_decoding(bytes@) is None && e is Codec,
            },
    {
        if bytes.len() != 16 {
            return Err(Error::Codec("stored store ident has a wrong length".to_string()));
        }
        let cluster_id = read_be64(bytes, 0);
        let store_id = read_be64(bytes, 8);
        Ok(StoreIdent { cluster_id, store_id })
    }
}

/// A label of a store.
#[derive(Clone, Debug, PartialEq, Eq)]
pub struct StoreLabel {
    pub key: String,
    pub value: String,
}

/// What a node tells the placement driver of its store.
#[derive(Clone, Debug, PartialEq, Eq)]
pub struct Store {
    pub id: u64,
    pub address: String,
    pub version: String,
    pub labels: Vec<StoreLabel>,
}

/// What the identity found in the engine means for a node of the cluster `cluster_id`: the
/// identifier of its store, `INVALID_ID` where the engine holds no identity yet.
pub open spec fn store_of(ident: Option<StoreIdent>, cluster_id: u64) -> Result<u64, NodeError> {
    match ident {
        None => Ok(INVALID_ID),
        Some(ident) => if ident.cluster_id != cluster_id {
            Err(NodeError::ClusterMismatch { local: ident.cluster_id, remote: cluster_id })
        } else if ident.store_id == INVALID_ID {
            Err(NodeError::InvalidStoreIdent { cluster_id: ident.cluster_id })
        } else {
            Ok(ident.store_id)
        },
    }
}

/// How a node goes on after an attempt to bootstrap the cluster.
#[derive(Clone, Copy, Debug, PartialEq, Eq, Structural)]
pub enum BootstrapAction {
    /// The cluster is bootstrapped with the node's region: remove the marker of the
    /// pending bootstrap.
    ClearPrepareKey,
    /// The cluster was bootstrapped by another store: remove the marker and the region
    /// that was prepared.
    ClearPreparedRegion,
    /// Wait, then try again; this is the number of attempts made.
    Retry(u64),
    /// Wait, then give up.
    GiveUp,
}

/// What an attempt to bootstrap the cluster came to.
#[derive(Clone, Copy, Debug, PartialEq, Eq, Structural)]
pub enum BootstrapEvent {
    /// The placement driver accepted the bootstrap.
    Accepted,
    /// The cluster is bootstrapped already, and its first region is the node's.
    BootstrappedSame,
    /// The cluster is bootstrapped already, with another first region.
    BootstrappedOther,
    /// The cluster is bootstrapped already, and its first region could not be read.
    BootstrappedUnknown,
    /// The attempt failed otherwise.
    Failed,
}

/// How a node goes on after the attempt number `retry`, counted from 0, came to `event`.
pub open spec fn bootstrap_next(retry: u64, event: BootstrapEvent) -> BootstrapAction {
    match event {
        BootstrapEvent::Accepted => BootstrapAction::ClearPrepareKey,
        BootstrapEvent::BootstrappedSame => BootstrapAction::ClearPrepareKey,
        BootstrapEvent::BootstrappedOther => BootstrapAction::ClearPreparedRegion,
        _ => if retry + 1 < MAX_CHECK_CLUSTER_BOOTSTRAPPED_RETRY_COUNT {
            BootstrapAction::Retry((retry + 1) as u64)
        } else {
            BootstrapAction::GiveUp
        },
    }
}

/// Decides how a node goes on after an attempt to bootstrap the cluster.
pub fn bootstrap_step(retry: u64, event: BootstrapEvent) -> (action: BootstrapAction)
    ensures
        action == bootstrap_next(retry, event),
{
    match event {
        BootstrapEvent::Accepted => BootstrapAction::ClearPrepareKey,
        BootstrapEvent::BootstrappedSame => BootstrapAction::ClearPrepareKey,
        BootstrapEvent::BootstrappedOther => BootstrapAction::ClearPreparedRegion,
        _ => {
            if retry < MAX_CHECK_CLUSTER_BOOTSTRAPPED_RETRY_COUNT - 1 {
                BootstrapAction::Retry(retry + 1)
            } else {
                BootstrapAction::GiveUp
            }
        },
    }
}

/// How a node goes on after it asked whether the cluster is bootstrapped.
#[derive(Clone, Copy, Debug, PartialEq, Eq, Structural)]
pub enum CheckAction {
    /// The placement driver answered.
    Answered(bool),
    /// Wait, then ask again; this is the number of attempts made.
    Retry(u64),
    /// Wait, then give up.
    GiveUp,
}

/// How a node goes on after the attempt number `attempt`, counted from 0, to ask whether
/// the cluster is bootstrapped: `answer` is what the placement driver said, if anything.
pub open spec fn check_next(attempt: u64, answer: Option<bool>) -> CheckAction {
    match answer {
        Some(b) => CheckAction::Answered(b),
        None => if attempt + 1 < MAX_CHECK_CLUSTER_BOOTSTRAPPED_RETRY_COUNT {
            CheckAction::Retry((attempt + 1) as u64)
        } else {
            CheckAction::GiveUp
        },
    }
}

/// Decides how a node goes on after it asked whether the cluster is bootstrapped.
pub fn check_bootstrapped_step(attempt: u64, answer: Option<bool>) -> (action: CheckAction)
    ensures
        action == check_next(attempt, answer),
{
    match answer {
        Some(b) => CheckAction::Answered(b),
        None => {
            if attempt < MAX_CHECK_CLUSTER_BOOTSTRAPPED_RETRY_COUNT - 1 {
                CheckAction::Retry(attempt + 1)
            } else {
                CheckAction::GiveUp
            }
        },
    }
}

/// What is to be done about the first region of the cluster.
#[derive(Clone, Copy, Debug, PartialEq, Eq, Structural)]
pub enum PreparePlan {
    /// A region was prepared before: bootstrap the cluster with it.
    UsePrepared,
    /// The cluster is bootstrapped: nothing to prepare.
    Nothing,
    /// Prepare a first region, and bootstrap the cluster with it.
    Prepare,
}

/// Decides what is to be done about the first region: `prepared` tells whether the
/// engine holds a region prepared before, `bootstrapped` whether the cluster is
/// bootstrapped.
pub fn prepare_plan(prepared: bool, bootstrapped: bool) -> (plan: PreparePlan)
    ensures
        plan == if prepared {
            PreparePlan::UsePrepared
        } else if bootstrapped {
            PreparePlan::Nothing
        } else {
            PreparePlan::Prepare
        },
{
    if prepared {
        PreparePlan::UsePrepared
    } else if bootstrapped {
        PreparePlan::Nothing
    } else {
        PreparePlan::Prepare
    }
}

/// A node: the store it runs and the cluster it belongs to.
pub struct Node {
    cluster_id: u64,
    store: Store,
    has_started: bool,
}

impl Node {
    /// The cluster that the node belongs to.
    pub closed spec fn cluster(&self) -> u64 {
        self.cluster_id
    }

    /// What the node tells of its store.
    pub closed spec fn store(&self) -> Store {
        self.store
    }

    /// Whether the store was started.
    pub closed spec fn started(&self) -> bool {
        self.has_started
    }

    /// A node of the cluster `cluster_id` that has no store identifier yet and was not
    /// started. The address it tells is `advertise_addr`, or `addr` where that is empty.
    pub fn new(
        cluster_id: u64,
        addr: String,
        advertise_addr: String,
        version: String,
        labels: Vec<StoreLabel>,
    ) -> (node: Node)
        ensures
            node.cluster() == cluster_id,
            !node.started(),
            node.store().id == INVALID_ID,
            node.store().address@ == if advertise_addr@.len() == 0 {
                addr@
            } else {
                advertise_addr@
            },
            node.store().version == version,
            node.store().labels == labels,
    {
        let address = if advertise_addr.as_str().is_empty() {
            addr
        } else {
            advertise_addr
        };
        Node {
            cluster_id,
            store: Store { id: INVALID_ID, address, version, labels },
            has_started: false,
        }
    }

    /// The cluster that the node belongs to.
    pub fn cluster_id(&self) -> (id: u64)
        ensures
            id == self.cluster(),
    {
        self.cluster_id
    }

    /// The identifier of the node's store.
    pub fn id(&self) -> (id: u64)
        ensures
            id == self.store().id,
    {
        self.store.id
    }

    /// Gives the node's store its identifier.
    pub fn set_id(&mut self, id: u64)
        ensures
            final(self).store().id == id,
            final(self).store().address == old(self).store().address,
            final(self).store().version == old(self).store().version,
            final(self).store().labels == old(self).store().labels,
            final(self).cluster() == old(self).cluster(),
            final(self).started() == old(self).started(),
    {
        self.store.id = id;
    }

    /// What the node tells the placement driver of its store.
    pub fn store_info(&self) -> (s: &Store)
        ensures
            *s == self.store(),
    {
        &self.store
    }

    /// Judges the identity found in the engine: the identifier of the store, or
    /// `INVALID_ID` where the engine holds no identity yet. An identity of another
    /// cluster, and one that names no store, are refused.
    pub fn check_ident(&self, ident: Option<StoreIdent>) -> (r: Result<u64, NodeError>)
        ensures
            r == store_of(ident, self.cluster()),
    {
        match ident {
            None => Ok(INVALID_ID),
            Some(ident) => {
                if ident.cluster_id != self.cluster_id {
                    Err(NodeError::ClusterMismatch { local: ident.cluster_id,
                        remote: self.cluster_id })
                } else if ident.store_id == INVALID_ID {
                    Err(NodeError::InvalidStoreIdent { cluster_id: ident.cluster_id })
                } else {
                    Ok(ident.store_id)
                }
            },
        }
    }

    /// Reads the identity that `engine` holds and judges it as `check_ident` does.
    pub fn check_store(&self, engine: &SkiplistEngine) -> (r: Result<u64, NodeError>)
        requires
            engine.wf(),
        ensures
            match r {
                Err(NodeError::Engine(e)) => !engine.has_log() || stored_ident(engine.log()) is Err,
                _ => engine.has_log() && stored_ident(engine.log()) is Ok && r == store_of(
                    stored_ident(engine.log())->Ok_0,
                    self.cluster(),
                ),
            },
    {
        let stored = match engine.get_value(&STORE_IDENT_KEY) {
            Ok(v) => v,
            Err(e) => {
                return Err(NodeError::Engine(e));
            },
        };
        let ident = match stored {
            None => None,
            Some(bytes) => match StoreIdent::decode(bytes.as_slice()) {
                Ok(ident) => Some(ident),
                Err(e) => {
                    return Err(NodeError::Engine(e));
                },
            },
        };
        self.check_ident(ident)
    }

    /// Marks the store as started. A store is started once only.
    pub fn start_store(&mut self, store_id: u64) -> (r: Result<(), NodeError>)
        ensures
            final(self).cluster() == old(self).cluster(),
            final(self).store() == old(self).store(),
            final(self).started(),
            r == if old(self).started() {
                Err::<(), NodeError>(NodeError::AlreadyStarted { store_id })
            } else {
                Ok::<(), NodeError>(())
            },
    {
        if self.has_started {
            return Err(NodeError::AlreadyStarted { store_id });
        }
        self.has_started = true;
        Ok(())
    }
}

/// The identity stored in a log family: none where the key of the identity has no
/// entry, a failure where its bytes are no identity.
pub open spec fn stored_ident(log: crate::model::Entries) -> Result<Option<StoreIdent>, ()> {
    if !log.dom().contains(STORE_IDENT_KEY@) {
        Ok(None)
    } else {
        match ident_decoding(log[STORE_IDENT_KEY@]) {
            Some(ident) => Ok(Some(ident)),
            None => Err(()),
        }
    }
}

} // verus!
