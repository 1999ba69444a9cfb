//! The peers the crawler is connected to right now.
use vstd::prelude::*;
use crate::types::addressportnetwork::{AddressPortNetwork, ApnModel, spec_apn_set, position_of};

verus! {

/// The set of peers with a live connection.
pub struct ConnectedPeers {
    peers: Vec<AddressPortNetwork>,
}

impl View for ConnectedPeers {
    type V = Set<ApnModel>;

    closed spec fn view(&self) -> Set<ApnModel> {
        spec_apn_set(self.peers@)
    }
}

impl ConnectedPeers {
    /// No peer connected.
    pub fn new() -> (r: ConnectedPeers)
        ensures
            r@ == Set::<ApnModel>::empty(),
    {
        let r = ConnectedPeers { peers: Vec::new() };
        assert(r@ =~= Set::<ApnModel>::empty());
        r
    }
}

/// A live connection to a peer; it holds the peer in `ConnectedPeers`
/// until it is released.
pub struct TrackedConnection {
    apn: AddressPortNetwork,
}

impl View for TrackedConnection {
    type V = ApnModel;

    closed spec fn view(&self) -> ApnModel {
        self.apn@
    }
}

impl TrackedConnection {
    /// Records a connection to `apn`, which must not be connected already.
    pub fn new(apn: AddressPortNetwork, connected: &mut ConnectedPeers) -> (r: TrackedConnection)
        requires
            !old(connected)@.contains(apn@),
        ensures
            r@ == apn@,
            final(connected)@ == old(connected)@.insert(apn@),
    {
        let ghost m = apn@;
        let ghost before = connected.peers@;
        let copy = apn.duplicate();
        connected.peers.push(copy);
        assert forall|x: ApnModel| spec_apn_set(connected.peers@).contains(x) <==> spec_apn_set(before).insert(m).contains(x) by {
            if spec_apn_set(connected.peers@).contains(x) {
                let k = choose|k: int| 0 <= k < connected.peers@.len() && (#[trigger] connected.peers@[k])@ == x;
                if k < before.len() {
                    assert(connected.peers@[k] == before[k]);
                }
            }
            if spec_apn_set(before).contains(x) {
                let k = choose|k: int| 0 <= k < before.len() && (#[trigger] before[k])@ == x;
                assert(connected.peers@[k] == before[k]);
            }
            if x == m {
                assert(connected.peers@[before.len() as int]@ == x);
            }
        }
        assert(connected@ =~= old(connected)@.insert(m));
        TrackedConnection { apn }
    }

    /// Ends the connection: its peer is no longer connected.
    pub fn release(self, connected: &mut ConnectedPeers)
        requires
            old(connected)@.contains(self@),
        ensures
            final(connected)@ == old(connected)@.remove(self@),
    {
        let ghost m = self.apn@;
        let ghost start = connected.peers@;
        let mut kept: Vec<AddressPortNetwork> = Vec::new();
        let mut i: usize = 0;
        while i < connected.peers.len()
            invariant
                connected.peers@ == start,
                m == self.apn@,
                i <= start.len(),
                forall|x: ApnModel| spec_apn_set(kept@).contains(x)
                    <==> (x != m && exists|j: int| 0 <= j < i && (#[trigger] start[j])@ == x),
            decreases start.len() - i,
        {
            let ghost before = kept@;
            if !connected.peers[i].same_as(&self.apn) {
                let c = connected.peers[i].duplicate();
                let ghost cv = c@;
                assert(cv == start[i as int]@);
                assert(cv != m);
                kept.push(c);
                assert(kept@.len() == before.len() + 1);
                assert(kept@[before.len() as int]@ == cv);
                assert(forall|k: int| 0 <= k < before.len() ==> kept@[k] == before[k]);
                assert forall|x: ApnModel| spec_apn_set(kept@).contains(x)
                    <==> (x != m && exists|j: int| 0 <= j < i + 1 && (#[trigger] start[j])@ == x) by {
                    if spec_apn_set(kept@).contains(x) {
                        let k = choose|k: int| 0 <= k < kept@.len() && (#[trigger] kept@[k])@ == x;
                        if k < before.len() {
                            assert(kept@[k] == before[k]);
                            assert(spec_apn_set(before).contains(x));
                        } else {
                            assert(start[i as int]@ == x);
                        }
                    }
                    if x != m && exists|j: int| 0 <= j < i + 1 && (#[trigger] start[j])@ == x {
                        let j = choose|j: int| 0 <= j < i + 1 && (#[trigger] start[j])@ == x;
                        if j < i {
                            assert(spec_apn_set(before).contains(x));
                            let k = choose|k: int| 0 <= k < before.len() && (#[trigger] before[k])@ == x;
                            assert(kept@[k] == before[k]);
                        } else {
                            assert(kept@[before.len() as int]@ == start[j]@);
                        }
                    }
                }
            } else {
                assert(start[i as int]@ == m);
                assert forall|x: ApnModel| spec_apn_set(kept@).contains(x)
                    <==> (x != m && exists|j: int| 0 <= j < i + 1 && (#[trigger] start[j])@ == x) by {
                    if x != m && exists|j: int| 0 <= j < i + 1 && (#[trigger] start[j])@ == x {
                        let j = choose|j: int| 0 <= j < i + 1 && (#[trigger] start[j])@ == x;
                        assert(j < i);
                    }
                }
            }
            i = i + 1;
        }
        connected.peers = kept;
        assert(connected@ =~= old(connected)@.remove(m));
    }
}

/// Every peer the crawler is connected to right now.
pub fn get_all_connected_peers(connected: &ConnectedPeers) -> (r: Vec<AddressPortNetwork>)
    ensures
        spec_apn_set(r@) == connected@,
{
    let mut out: Vec<AddressPortNetwork> = Vec::new();
    let mut i: usize = 0;
    while i < connected.peers.len()
        invariant
            i <= connected.peers@.len(),
            out@.len() == i,
            forall|k: int| 0 <= k < i ==> (#[trigger] out@[k])@ == connected.peers@[k]@,
        decreases connected.peers@.len() - i,
    {
        out.push(connected.peers[i].duplicate());
        i = i + 1;
    }
    assert forall|x: ApnModel| spec_apn_set(out@).contains(x) <==> spec_apn_set(connected.peers@).contains(x) by {
        if spec_apn_set(out@).contains(x) {
            let k = choose|k: int| 0 <= k < out@.len() && (#[trigger] out@[k])@ == x;
            assert(connected.peers@[k]@ == x);
        }
        if spec_apn_set(connected.peers@).contains(x) {
            let k = choose|k: int| 0 <= k < connected.peers@.len() && (#[trigger] connected.peers@[k])@ == x;
            assert(out@[k]@ == x);
        }
    }
    assert(spec_apn_set(out@) =~= connected@);
    out
}

/// A peer is connected from the moment its connection is recorded until it
/// is released, and releasing it leaves the other connections as they were
/// before: `during` is `before` after `TrackedConnection::new` for `apn`,
/// `after` is `during` after that connection's `release`.
pub proof fn law_connection_lifetime(before: ConnectedPeers, during: ConnectedPeers, after: ConnectedPeers, apn: ApnModel)
    requires
        !before@.contains(apn),
        during@ == before@.insert(apn),
        after@ == during@.remove(apn),
    ensures
        during@.contains(apn),
        !after@.contains(apn),
        after@ == before@,
        forall|x: ApnModel| x != apn ==> (during@.contains(x) <==> before@.contains(x)),
{
    assert(after@ =~= before@);
}

/// One step of connection tracking: `TrackedConnection::new` for a peer,
/// or `release` of a connection to it.
pub enum TrackingStep {
    Track(ApnModel),
    Release(ApnModel),
}

/// The connected set after `steps`, each as its function's contract gives
/// it: tracking adds the peer, releasing removes it.
pub open spec fn spec_after_steps(start: Set<ApnModel>, steps: Seq<TrackingStep>) -> Set<ApnModel>
    decreases steps.len(),
{
    if steps.len() == 0 {
        start
    } else {
        let before = spec_after_steps(start, steps.drop_last());
        match steps.last() {
            TrackingStep::Track(a) => before.insert(a),
            TrackingStep::Release(a) => before.remove(a),
        }
    }
}

/// Every step meets its function's precondition: a peer is tracked only
/// while not connected, and released only while connected.
pub open spec fn spec_steps_allowed(start: Set<ApnModel>, steps: Seq<TrackingStep>) -> bool
    decreases steps.len(),
{
    if steps.len() == 0 {
        true
    } else {
        let before = spec_after_steps(start, steps.drop_last());
        &&& spec_steps_allowed(start, steps.drop_last())
        &&& match steps.last() {
            TrackingStep::Track(a) => !before.contains(a),
            TrackingStep::Release(a) => before.contains(a),
        }
    }
}

/// How many connections to `a` the steps leave alive: those made minus
/// those released.
pub open spec fn spec_live_connections(steps: Seq<TrackingStep>, a: ApnModel) -> int
    decreases steps.len(),
{
    if steps.len() == 0 {
        0
    } else {
        spec_live_connections(steps.drop_last(), a) + match steps.last() {
            TrackingStep::Track(b) => if b == a { 1int } else { 0 },
            TrackingStep::Release(b) => if b == a { -1int } else { 0 },
        }
    }
}

/// Over any sequence of tracking and releasing from no connections, a peer
/// is connected exactly when a connection to it is alive, and never more
/// than one is.
pub proof fn law_connected_iff_alive(steps: Seq<TrackingStep>, a: ApnModel)
    requires
        spec_steps_allowed(Set::empty(), steps),
    ensures
        spec_after_steps(Set::empty(), steps).contains(a) <==> spec_live_connections(steps, a) == 1,
        0 <= spec_live_connections(steps, a) <= 1,
    decreases steps.len(),
{
    if steps.len() > 0 {
        law_connected_iff_alive(steps.drop_last(), a);
    }
}

/// Whether the crawler is connected to `apn` right now.
pub fn is_connected_now(connected: &ConnectedPeers, apn: &AddressPortNetwork) -> (r: bool)
    ensures
        r == connected@.contains(apn@),
{
    position_of(&connected.peers, apn).is_some()
}

} // verus!
