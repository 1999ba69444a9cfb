//! The peers this node knows of, the ones still to check, and the ones seen
//! online lately.
use vstd::prelude::*;
use crate::types::addressportnetwork::{AddressPortNetwork, ApnModel, spec_apn_set, spec_apns_view, position_of};
use crate::util::random::random_index;

verus! {

broadcast use vstd::seq_lib::group_seq_properties;

/// A peer seen online: its services and when it was last seen, in seconds.
pub struct OnlinePeer {
    pub apn: AddressPortNetwork,
    pub services: u64,
    pub last_seen: u64,
}

/// The peers seen online, remembered for `window_secs` seconds.
pub struct OnlineList {
    pub peers: Vec<OnlinePeer>,
    pub window_secs: u64,
}

/// Whether a peer seen at `last_seen` with `services` is still online at
/// `now` and offers every service bit that `wanted` asks for.
pub open spec fn spec_alive(p: OnlinePeer, wanted: Option<u64>, now: u64, window: u64) -> bool {
    &&& p.last_seen + window >= now
    &&& match wanted {
        Some(s) => p.services & s == s,
        None => true,
    }
}

/// The peers of `peers` that are alive, in order.
pub open spec fn spec_alive_peers(peers: Seq<OnlinePeer>, wanted: Option<u64>, now: u64, window: u64) -> Seq<ApnModel>
    decreases peers.len(),
{
    if peers.len() == 0 {
        Seq::empty()
    } else {
        let rest = spec_alive_peers(peers.drop_last(), wanted, now, window);
        if spec_alive(peers.last(), wanted, now, window) {
            rest.push(peers.last().apn@)
        } else {
            rest
        }
    }
}

impl OnlineList {
    /// An empty list that remembers a peer for `window_secs` seconds.
    pub fn new(window_secs: u64) -> (r: OnlineList)
        ensures
            r.peers@.len() == 0,
            r.window_secs == window_secs,
    {
        OnlineList { peers: Vec::new(), window_secs }
    }

    /// Records that `apn` was online at `now` with `services`: its entry is
    /// replaced, or added at the end; the other entries stay.
    pub fn peer_online(&mut self, apn: AddressPortNetwork, services: u64, now: u64)
        ensures
            final(self).window_secs == old(self).window_secs,
            exists|i: int| 0 <= i < final(self).peers@.len() && (#[trigger] final(self).peers@[i]).apn@ == apn@
                && final(self).peers@[i].services == services && final(self).peers@[i].last_seen == now,
            final(self).peers@.len() == old(self).peers@.len() || final(self).peers@.len() == old(self).peers@.len() + 1,
            forall|i: int| 0 <= i < old(self).peers@.len() && (#[trigger] old(self).peers@[i]).apn@ != apn@
                ==> final(self).peers@[i] == old(self).peers@[i],
            final(self).peers@.len() == old(self).peers@.len() + 1
                ==> forall|i: int| 0 <= i < old(self).peers@.len() ==> (#[trigger] old(self).peers@[i]).apn@ != apn@,
    {
        let mut i: usize = 0;
        while i < self.peers.len()
            invariant
                i <= self.peers@.len(),
                self.window_secs == old(self).window_secs,
                self.peers@ == old(self).peers@,
                forall|j: int| 0 <= j < i ==> (#[trigger] self.peers@[j]).apn@ != apn@,
            decreases self.peers@.len() - i,
        {
            if self.peers[i].apn.same_as(&apn) {
                let p = OnlinePeer { apn, services, last_seen: now };
                let ghost pv = p.apn@;
                self.peers.set(i, p);
                assert(self.peers@[i as int].apn@ == pv);
                return;
            }
            i = i + 1;
        }
        let ghost m = apn@;
        self.peers.push(OnlinePeer { apn, services, last_seen: now });
        assert(self.peers@[self.peers@.len() - 1].apn@ == m);
    }

    /// The peers alive at `now` that offer the `wanted` services, in order.
    pub fn alive_peers(&self, wanted: Option<u64>, now: u64) -> (r: Vec<AddressPortNetwork>)
        ensures
            spec_apns_view(r@) == spec_alive_peers(self.peers@, wanted, now, self.window_secs),
    {
        let mut out: Vec<AddressPortNetwork> = Vec::new();
        let mut i: usize = 0;
        while i < self.peers.len()
            invariant
                i <= self.peers@.len(),
                spec_apns_view(out@) == spec_alive_peers(self.peers@.take(i as int), wanted, now, self.window_secs),
            decreases self.peers@.len() - i,
        {
            let p = &self.peers[i];
            let ghost prev = spec_apns_view(out@);
            assert(self.peers@.take(i + 1).drop_last() =~= self.peers@.take(i as int));
            let fresh = p.last_seen as u128 + self.window_secs as u128 >= now as u128;
            let has = match wanted {
                Some(s) => p.services & s == s,
                None => true,
            };
            if fresh && has {
                let c = p.apn.duplicate();
                out.push(c);
                assert(spec_apns_view(out@) =~= prev.push(p.apn@));
            }
            i = i + 1;
        }
        assert(self.peers@.take(i as int) =~= self.peers@);
        out
    }

    /// One of the peers alive at `now` that offer the `wanted` services,
    /// picked at random; `None` when there is none.
    pub fn random(&self, wanted: Option<u64>, now: u64) -> (r: Option<AddressPortNetwork>)
        ensures
            r is None <==> spec_alive_peers(self.peers@, wanted, now, self.window_secs).len() == 0,
            r matches Some(a) ==> spec_alive_peers(self.peers@, wanted, now, self.window_secs).contains(a@),
    {
        let alive = self.alive_peers(wanted, now);
        if alive.len() == 0 {
            return None;
        }
        let i = random_index(alive.len());
        let a = alive[i].duplicate();
        assert(spec_apns_view(alive@)[i as int] == a@);
        Some(a)
    }
}

/// A peer alive at `now` that offers the `wanted` services, picked at random.
pub fn get_alive_peer(online: &OnlineList, services: Option<u64>, now: u64) -> (r: Option<AddressPortNetwork>)
    ensures
        r is None <==> spec_alive_peers(online.peers@, services, now, online.window_secs).len() == 0,
        r matches Some(a) ==> spec_alive_peers(online.peers@, services, now, online.window_secs).contains(a@),
{
    online.random(services, now)
}

/// The peers known of, and the ones not checked yet.
pub struct AddrMan {
    pub known: Vec<AddressPortNetwork>,
    pub to_check: Vec<AddressPortNetwork>,
}

impl AddrMan {
    /// Starts from the peers stored earlier: all are known, all to be checked.
    pub fn start(all_peers: Vec<AddressPortNetwork>) -> (r: AddrMan)
        ensures
            spec_apns_view(r.known@) == spec_apns_view(all_peers@),
            spec_apns_view(r.to_check@) == spec_apns_view(all_peers@),
    {
        let mut known: Vec<AddressPortNetwork> = Vec::new();
        let mut i: usize = 0;
        while i < all_peers.len()
            invariant
                i <= all_peers@.len(),
                spec_apns_view(known@) == spec_apns_view(all_peers@).take(i as int),
            decreases all_peers@.len() - i,
        {
            let c = all_peers[i].duplicate();
            let ghost cv = c@;
            let ghost before = known@;
            known.push(c);
            assert(known@ == before.push(c));
            assert(spec_apns_view(known@) =~= spec_apns_view(before).push(cv));
            assert(spec_apns_view(known@) =~= spec_apns_view(all_peers@).take(i + 1));
            i = i + 1;
        }
        assert(spec_apns_view(all_peers@).take(i as int) =~= spec_apns_view(all_peers@));
        AddrMan { known, to_check: all_peers }
    }

    /// Hands out the peers to check and forgets them.
    pub fn get_peers_to_check(&mut self) -> (r: Vec<AddressPortNetwork>)
        ensures
            r@ == old(self).to_check@,
            final(self).to_check@.len() == 0,
            final(self).known@ == old(self).known@,
    {
        let mut old_list: Vec<AddressPortNetwork> = Vec::new();
        std::mem::swap(&mut old_list, &mut self.to_check);
        old_list
    }

    /// Takes addresses just heard of: those not known yet become known and
    /// are queued to be checked. Returns them, in order, to be stored.
    pub fn peers_seen(&mut self, apns: Vec<AddressPortNetwork>) -> (r: Vec<AddressPortNetwork>)
        ensures
            spec_apn_set(final(self).known@) == spec_apn_set(old(self).known@).union(spec_apn_set(apns@)),
            spec_apns_view(final(self).to_check@) == spec_apns_view(old(self).to_check@) + spec_apns_view(r@),
            forall|i: int| 0 <= i < r@.len() ==> !spec_apn_set(old(self).known@).contains((#[trigger] r@[i])@),
            forall|i: int| 0 <= i < r@.len() ==> spec_apn_set(apns@).contains((#[trigger] r@[i])@),
            forall|i: int, j: int| 0 <= i < j < r@.len() ==> (#[trigger] r@[i])@ != (#[trigger] r@[j])@,
    {
        let mut fresh: Vec<AddressPortNetwork> = Vec::new();
        let mut i: usize = 0;
        while i < apns.len()
            invariant
                i <= apns@.len(),
                spec_apn_set(self.known@) == spec_apn_set(old(self).known@).union(spec_apn_set(apns@.take(i as int))),
                self.to_check@ == old(self).to_check@,
                forall|k: int| 0 <= k < fresh@.len() ==> !spec_apn_set(old(self).known@).contains((#[trigger] fresh@[k])@),
                forall|k: int| 0 <= k < fresh@.len() ==> spec_apn_set(apns@.take(i as int)).contains((#[trigger] fresh@[k])@),
                forall|k: int| 0 <= k < fresh@.len() ==> spec_apn_set(self.known@).contains((#[trigger] fresh@[k])@),
                forall|a: int, b: int| 0 <= a < b < fresh@.len() ==> (#[trigger] fresh@[a])@ != (#[trigger] fresh@[b])@,
            decreases apns@.len() - i,
        {
            let ghost known_before = self.known@;
            let ghost fresh_before = fresh@;
            let ghost m = apns@[i as int]@;
            proof {
                lemma_set_take_step(apns@, i as int);
            }
            if position_of(&self.known, &apns[i]).is_none() {
                let c1 = apns[i].duplicate();
                let c2 = apns[i].duplicate();
                self.known.push(c1);
                fresh.push(c2);
                proof {
                    lemma_set_push(known_before, self.known@, m);
                    assert(fresh@[fresh_before.len() as int]@ == m);
                    assert forall|k: int| 0 <= k < fresh@.len() implies spec_apn_set(self.known@).contains((#[trigger] fresh@[k])@) by {
                        if k < fresh_before.len() {
                            assert(fresh@[k] == fresh_before[k]);
                        }
                    }
                    assert forall|k: int| 0 <= k < fresh@.len() implies !spec_apn_set(old(self).known@).contains((#[trigger] fresh@[k])@) by {
                        if k < fresh_before.len() {
                            assert(fresh@[k] == fresh_before[k]);
                        }
                    }
                    assert forall|k: int| 0 <= k < fresh@.len() implies spec_apn_set(apns@.take(i + 1)).contains((#[trigger] fresh@[k])@) by {
                        if k < fresh_before.len() {
                            assert(fresh@[k] == fresh_before[k]);
                        }
                    }
                    assert forall|a: int, b: int| 0 <= a < b < fresh@.len() implies (#[trigger] fresh@[a])@ != (#[trigger] fresh@[b])@ by {
                        if b < fresh_before.len() {
                            assert(fresh@[a] == fresh_before[a] && fresh@[b] == fresh_before[b]);
                        } else {
                            assert(fresh@[a] == fresh_before[a]);
                            assert(spec_apn_set(known_before).contains(fresh_before[a]@));
                        }
                    }
                }
            } else {
                proof {
                    assert(spec_apn_set(apns@.take(i + 1)) == spec_apn_set(apns@.take(i as int)).insert(m));
                    assert(spec_apn_set(known_before).contains(m));
                    assert(spec_apn_set(self.known@) =~= spec_apn_set(old(self).known@).union(spec_apn_set(apns@.take(i + 1))));
                }
            }
            i = i + 1;
        }
        assert(apns@.take(i as int) =~= apns@);
        let ghost fresh_view = spec_apns_view(fresh@);
        let ghost r = fresh@;
        let mut j: usize = 0;
        while j < fresh.len()
            invariant
                j <= fresh@.len(),
                fresh@ == r,
                spec_apns_view(self.to_check@) == spec_apns_view(old(self).to_check@) + spec_apns_view(r.take(j as int)),
                spec_apn_set(self.known@) == spec_apn_set(old(self).known@).union(spec_apn_set(apns@)),
            decreases fresh@.len() - j,
        {
            let c = fresh[j].duplicate();
            let ghost cv = c@;
            let ghost before = self.to_check@;
            self.to_check.push(c);
            assert(spec_apns_view(self.to_check@) =~= spec_apns_view(before).push(cv));
            assert(spec_apns_view(r.take(j + 1)) =~= spec_apns_view(r.take(j as int)).push(cv));
            assert(spec_apns_view(self.to_check@) =~= spec_apns_view(old(self).to_check@) + spec_apns_view(r.take(j + 1)));
            j = j + 1;
        }
        assert(r.take(j as int) =~= r);
        fresh
    }
}

/// The set of a list one element longer.
proof fn lemma_set_take_step(v: Seq<AddressPortNetwork>, i: int)
    requires
        0 <= i < v.len(),
    ensures
        spec_apn_set(v.take(i + 1)) == spec_apn_set(v.take(i)).insert(v[i]@),
{
    assert forall|x: ApnModel| spec_apn_set(v.take(i + 1)).contains(x) <==> spec_apn_set(v.take(i)).insert(v[i]@).contains(x) by {
        if spec_apn_set(v.take(i + 1)).contains(x) {
            let k = choose|k: int| 0 <= k < v.take(i + 1).len() && (#[trigger] v.take(i + 1)[k])@ == x;
            if k < i {
                assert(v.take(i)[k] == v.take(i + 1)[k]);
            }
        }
        if spec_apn_set(v.take(i)).contains(x) {
            let k = choose|k: int| 0 <= k < v.take(i).len() && (#[trigger] v.take(i)[k])@ == x;
            assert(v.take(i)[k] == v.take(i + 1)[k]);
        }
        if x == v[i]@ {
            assert(v.take(i + 1)[i] == v[i]);
        }
    }
    assert(spec_apn_set(v.take(i + 1)) =~= spec_apn_set(v.take(i)).insert(v[i]@));
}

/// The set of a list after a push.
proof fn lemma_set_push(before: Seq<AddressPortNetwork>, after: Seq<AddressPortNetwork>, m: ApnModel)
    requires
        after.len() == before.len() + 1,
        forall|k: int| 0 <= k < before.len() ==> after[k] == before[k],
        after[before.len() as int]@ == m,
    ensures
        spec_apn_set(after) == spec_apn_set(before).insert(m),
{
    assert forall|x: ApnModel| spec_apn_set(after).contains(x) <==> spec_apn_set(before).insert(m).contains(x) by {
        if spec_apn_set(after).contains(x) {
            let k = choose|k: int| 0 <= k < after.len() && (#[trigger] after[k])@ == x;
            if k < before.len() {
                assert(after[k] == before[k]);
            }
        }
        if spec_apn_set(before).contains(x) {
            let k = choose|k: int| 0 <= k < before.len() && (#[trigger] before[k])@ == x;
            assert(after[k] == before[k]);
        }
    }
    assert(spec_apn_set(after) =~= spec_apn_set(before).insert(m));
}

} // verus!
