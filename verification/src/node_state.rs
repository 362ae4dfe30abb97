//! Per-node state built from consensus-confirmed messages: the latest record
//! of each drone, the latest ping of each survivor, and the analyst's latest
//! summary; and the snapshot that the node's read-only endpoint serves.

use vstd::prelude::*;
use crate::analyst::{after_push, AnalystBuffer};
use crate::keyed_store::{
    lemma_key_order_listing_unique, lemma_listing_holds_stored_values, listed_in_key_order, KeyedStore,
};
use crate::records::{Duplicate, LogRecord, SurvivorPing, SwarmMessage};

verus! {

/// The state a node shows: node id, drones and survivors in key order, and
/// the analyst's summary.
#[derive(Debug)]
pub struct StateSnapshot {
    pub node_id: u16,
    pub drones: Vec<LogRecord>,
    pub survivors: Vec<SurvivorPing>,
    pub analyst: Option<String>,
}

/// Consensus-confirmed state of one node.
pub struct NodeState {
    pub node_id: u16,
    drones: KeyedStore<LogRecord>,
    survivors: KeyedStore<SurvivorPing>,
    analyst: Option<String>,
}

impl NodeState {
    /// The stores are well formed.
    pub closed spec fn wf(&self) -> bool {
        self.drones.wf() && self.survivors.wf()
    }

    /// The node's id.
    pub closed spec fn node(&self) -> u16 {
        self.node_id
    }

    /// Latest record of each drone, by public key.
    pub closed spec fn drone_map(&self) -> Map<Seq<char>, LogRecord> {
        self.drones.map()
    }

    /// Latest ping of each survivor, by device id.
    pub closed spec fn survivor_map(&self) -> Map<Seq<char>, SurvivorPing> {
        self.survivors.map()
    }

    /// The drones' keys in ascending order.
    pub closed spec fn drone_keys(&self) -> Seq<Seq<char>> {
        self.drones.keys()
    }

    /// The survivors' device ids in ascending order.
    pub closed spec fn survivor_keys(&self) -> Seq<Seq<char>> {
        self.survivors.keys()
    }

    /// The analyst's latest summary, if any.
    pub closed spec fn analyst_line(&self) -> Option<String> {
        self.analyst
    }

    /// `snap` shows this state: the node id, the drones and the survivors
    /// each listed once in ascending key order, and the analyst's summary.
    pub open spec fn shows(&self, snap: StateSnapshot) -> bool {
        &&& snap.node_id == self.node()
        &&& listed_in_key_order(self.drone_map(), self.drone_keys(), snap.drones@)
        &&& listed_in_key_order(self.survivor_map(), self.survivor_keys(), snap.survivors@)
        &&& snap.analyst == self.analyst_line()
    }

    /// A node with nothing confirmed yet.
    pub fn new(node_id: u16) -> (state: Self)
        ensures
            state.wf(),
            state.node() == node_id,
            state.drone_map() == Map::<Seq<char>, LogRecord>::empty(),
            state.survivor_map() == Map::<Seq<char>, SurvivorPing>::empty(),
            state.analyst_line() == None::<String>,
    {
        NodeState { node_id, drones: KeyedStore::new(), survivors: KeyedStore::new(), analyst: None }
    }

    /// Records a confirmed drone fix: it becomes that drone's latest record.
    pub fn apply_telemetry(&mut self, rec: LogRecord)
        requires
            old(self).wf(),
        ensures
            final(self).wf(),
            final(self).node() == old(self).node(),
            final(self).drone_map() == old(self).drone_map().insert(rec.public_key_hex@, rec),
            final(self).survivor_map() == old(self).survivor_map(),
            final(self).survivor_keys() == old(self).survivor_keys(),
            final(self).analyst_line() == old(self).analyst_line(),
    {
        let key = rec.public_key_hex.clone();
        self.drones.upsert(key, rec);
    }

    /// Records a confirmed survivor ping: it becomes that survivor's latest
    /// ping.
    pub fn apply_survivor(&mut self, ping: SurvivorPing)
        requires
            old(self).wf(),
        ensures
            final(self).wf(),
            final(self).node() == old(self).node(),
            final(self).survivor_map() == old(self).survivor_map().insert(ping.device_id@, ping),
            final(self).drone_map() == old(self).drone_map(),
            final(self).drone_keys() == old(self).drone_keys(),
            final(self).analyst_line() == old(self).analyst_line(),
    {
        let key = ping.device_id.clone();
        self.survivors.upsert(key, ping);
    }

    /// The slot where the analyst publishes its latest summary.
    pub fn analyst_slot(&mut self) -> (slot: &mut Option<String>)
        requires
            old(self).wf(),
        ensures
            *slot == old(self).analyst_line(),
            final(self).analyst_line() == *final(slot),
            final(self).wf(),
            final(self).node() == old(self).node(),
            final(self).drone_map() == old(self).drone_map(),
            final(self).drone_keys() == old(self).drone_keys(),
            final(self).survivor_map() == old(self).survivor_map(),
            final(self).survivor_keys() == old(self).survivor_keys(),
    {
        &mut self.analyst
    }

    /// The state as the read-only endpoint serves it.
    pub fn snapshot(&self) -> (snap: StateSnapshot)
        requires
            self.wf(),
        ensures
            self.shows(snap),
            snap.node_id == self.node(),
            listed_in_key_order(self.drone_map(), self.drone_keys(), snap.drones@),
            listed_in_key_order(self.survivor_map(), self.survivor_keys(), snap.survivors@),
            snap.analyst == self.analyst_line(),
    {
        let analyst = match &self.analyst {
            Some(line) => Some(line.clone()),
            None => None,
        };
        StateSnapshot {
            node_id: self.node_id,
            drones: self.drones.values(),
            survivors: self.survivors.values(),
            analyst,
        }
    }

    /// Applies one consensus-confirmed message. A drone fix updates the
    /// drone's record and enters the analyst's window under its consensus
    /// timestamp; a survivor ping updates the survivor's record and is handed
    /// back, to be persisted.
    pub fn apply_message(
        &mut self,
        buffer: &mut AnalystBuffer,
        consensus_at: u64,
        msg: SwarmMessage,
    ) -> (persist: Option<SurvivorPing>)
        requires
            old(self).wf(),
        ensures
            final(self).wf(),
            final(self).node() == old(self).node(),
            final(self).analyst_line() == old(self).analyst_line(),
            final(buffer).capacity() == old(buffer).capacity(),
            match msg {
                SwarmMessage::DroneTelemetry(rec) => {
                    &&& final(self).drone_map() == old(self).drone_map().insert(
                        rec.public_key_hex@,
                        rec,
                    )
                    &&& final(self).survivor_map() == old(self).survivor_map()
                    &&& final(buffer)@ == after_push(
                        old(buffer).capacity(),
                        old(buffer)@,
                        (consensus_at, rec),
                    )
                    &&& persist == None::<SurvivorPing>
                },
                SwarmMessage::SurvivorLocated(ping) => {
                    &&& final(self).survivor_map() == old(self).survivor_map().insert(
                        ping.device_id@,
                        ping,
                    )
                    &&& final(self).drone_map() == old(self).drone_map()
                    &&& final(buffer)@ == old(buffer)@
                    &&& persist == Some(ping)
                },
            },
    {
        match msg {
            SwarmMessage::DroneTelemetry(rec) => {
                self.apply_telemetry(rec.duplicate());
                buffer.push(consensus_at, rec);
                None
            },
            SwarmMessage::SurvivorLocated(ping) => {
                self.apply_survivor(ping.duplicate());
                Some(ping)
            },
        }
    }
}

/// What a node shows depends on its confirmed state alone: two nodes with
/// the same id, the same drone and survivor records and the same summary
/// show the same snapshot, whatever order their writes came in.
pub proof fn lemma_snapshot_determined_by_state(
    a: NodeState,
    b: NodeState,
    snap_a: StateSnapshot,
    snap_b: StateSnapshot,
)
    requires
        a.wf(),
        b.wf(),
        a.node() == b.node(),
        a.drone_map() == b.drone_map(),
        a.survivor_map() == b.survivor_map(),
        a.analyst_line() == b.analyst_line(),
        a.shows(snap_a),
        b.shows(snap_b),
    ensures
        snap_a.node_id == snap_b.node_id,
        snap_a.drones@ == snap_b.drones@,
        snap_a.survivors@ == snap_b.survivors@,
        snap_a.analyst == snap_b.analyst,
{
    lemma_key_order_listing_unique(a.drone_map(), a.drone_keys(), snap_a.drones@, b.drone_keys(), snap_b.drones@);
    lemma_key_order_listing_unique(
        a.survivor_map(),
        a.survivor_keys(),
        snap_a.survivors@,
        b.survivor_keys(),
        snap_b.survivors@,
    );
}

/// A confirmed drone fix is what the node then shows for that drone: a
/// listing in key order of the state after `apply_telemetry(rec)` holds
/// `rec` itself, and holds it at the drone's place.
pub proof fn lemma_snapshot_shows_applied_fix(
    before: NodeState,
    after: NodeState,
    rec: LogRecord,
    snap: StateSnapshot,
)
    requires
        after.drone_map() == before.drone_map().insert(rec.public_key_hex@, rec),
        listed_in_key_order(after.drone_map(), after.drone_keys(), snap.drones@),
    ensures
        snap.drones@.contains(rec),
        forall|i: int|
            0 <= i < snap.drones@.len() && after.drone_keys()[i] == rec.public_key_hex@
                ==> #[trigger] snap.drones@[i] == rec,
{
    lemma_listing_holds_stored_values(after.drone_map(), after.drone_keys(), snap.drones@);
    assert(after.drone_map().contains_key(rec.public_key_hex@));
}

/// A confirmed survivor ping is what the node then shows for that survivor:
/// a listing in key order of the state after `apply_survivor(ping)` holds
/// `ping` itself (device id, latitude and longitude unchanged), at the
/// survivor's place.
pub proof fn lemma_snapshot_shows_applied_ping(
    before: NodeState,
    after: NodeState,
    ping: SurvivorPing,
    snap: StateSnapshot,
)
    requires
        after.survivor_map() == before.survivor_map().insert(ping.device_id@, ping),
        listed_in_key_order(after.survivor_map(), after.survivor_keys(), snap.survivors@),
    ensures
        snap.survivors@.contains(ping),
        forall|i: int|
            0 <= i < snap.survivors@.len() && after.survivor_keys()[i] == ping.device_id@
                ==> #[trigger] snap.survivors@[i] == ping,
{
    lemma_listing_holds_stored_values(after.survivor_map(), after.survivor_keys(), snap.survivors@);
    assert(after.survivor_map().contains_key(ping.device_id@));
}

} // verus!
