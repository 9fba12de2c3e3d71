//! One swarm: the peers of one torrent in the order in which they joined,
//! with the counts of seeders and leechers among them.

use crate::common::ConnectionMeta;
use crate::common::IpAddrBytes;
use crate::ordered::distinct_keys;
use crate::ordered::has_key;
use crate::ordered::key_index;
use crate::ordered::remove_key;
use crate::ordered::upsert;
use crate::ordered::value_of;
use crate::common::PeerId;
use crate::common::PeerStatus;
use crate::common::Port;
use crate::time::SecondsSinceServerStart;
use crate::time::ValidUntil;
use indexmap::IndexMap;
use rand::rngs::SmallRng;
use rand::Rng;
use vstd::prelude::*;

verus! {

#[verifier::external_type_specification]
#[verifier::external_body]
#[verifier::reject_recursive_types(K)]
#[verifier::reject_recursive_types(V)]
#[verifier::reject_recursive_types(S)]
pub struct ExIndexMap<K, V, S>(IndexMap<K, V, S>);

#[verifier::external_type_specification]
#[verifier::external_body]
pub struct ExSmallRng(SmallRng);

/// What the tracker keeps of a peer of a swarm.
#[derive(Clone, Copy, Debug)]
pub struct Peer {
    pub ip_address: IpAddrBytes,
    pub port: Port,
    pub status: PeerStatus,
    pub valid_until: ValidUntil,
    /// The connection over which the peer is reached, where it is
    /// reached over one.
    pub connection: Option<ConnectionMeta>,
}

/// A peer as an announce response lists it, with an address of type `I`.
#[derive(Clone, Copy, PartialEq, Debug)]
pub struct ProtocolResponsePeer<I> {
    pub ip_address: I,
    pub port: Port,
}

impl Peer {
    pub open spec fn spec_to_response_peer(&self) -> ProtocolResponsePeer<IpAddrBytes> {
        ProtocolResponsePeer { ip_address: self.ip_address, port: self.port }
    }

    /// The address and the port of the peer.
    #[verifier::when_used_as_spec(spec_to_response_peer)]
    pub fn to_response_peer(&self) -> (r: ProtocolResponsePeer<IpAddrBytes>)
        ensures
            r == self.spec_to_response_peer(),
    {
        ProtocolResponsePeer { ip_address: self.ip_address, port: self.port }
    }

    pub open spec fn spec_live_at(&self, now: SecondsSinceServerStart) -> bool {
        self.valid_until.spec_valid(now)
    }

    /// Whether the peer has announced recently enough to be kept at `now`.
    #[verifier::when_used_as_spec(spec_live_at)]
    pub fn live_at(&self, now: SecondsSinceServerStart) -> (r: bool)
        ensures
            r == self.spec_live_at(now),
    {
        self.valid_until.valid(now)
    }
}

/// The peers of a map with their ids, in the order of the map.
pub uninterp spec fn peer_map_entries(map: IndexMap<[u8; 20], Peer>) -> Seq<([u8; 20], Peer)>;

/// Number of peers of the list that have the given status.
pub open spec fn count_status(peers: Seq<([u8; 20], Peer)>, status: PeerStatus) -> nat
    decreases peers.len(),
{
    if peers.len() == 0 {
        0
    } else {
        count_status(peers.drop_last(), status) + if peers.last().1.status == status {
            1nat
        } else {
            0nat
        }
    }
}

/// The peers of the list that are live at `now`, in their order.
pub open spec fn live_peers(peers: Seq<([u8; 20], Peer)>, now: SecondsSinceServerStart) -> Seq<
    ([u8; 20], Peer),
>
    decreases peers.len(),
{
    if peers.len() == 0 {
        peers
    } else if peers.last().1.spec_live_at(now) {
        live_peers(peers.drop_last(), now).push(peers.last())
    } else {
        live_peers(peers.drop_last(), now)
    }
}

/// The peers of the list that do not have the id `key`, in their order.
pub open spec fn without_key(peers: Seq<([u8; 20], Peer)>, key: [u8; 20]) -> Seq<
    ([u8; 20], Peer),
>
    decreases peers.len(),
{
    if peers.len() == 0 {
        peers
    } else if peers.last().0 != key {
        without_key(peers.drop_last(), key).push(peers.last())
    } else {
        without_key(peers.drop_last(), key)
    }
}

/// `IndexMap::new` of indexmap: a map without entries.
#[verifier::external_body]
fn peer_map_new() -> (map: IndexMap<[u8; 20], Peer>)
    ensures
        peer_map_entries(map) == Seq::<([u8; 20], Peer)>::empty(),
{
    IndexMap::new()
}

/// `IndexMap::len` of indexmap: the number of entries.
#[verifier::external_body]
fn peer_map_len(map: &IndexMap<[u8; 20], Peer>) -> (len: usize)
    ensures
        len == peer_map_entries(*map).len(),
{
    map.len()
}

/// `IndexMap::get_index` of indexmap: the entry at a place in the order,
/// where the place is below the number of entries.
#[verifier::external_body]
fn peer_map_get_index(map: &IndexMap<[u8; 20], Peer>, index: usize) -> (entry: Option<
    ([u8; 20], Peer),
>)
    ensures
        index < peer_map_entries(*map).len() ==> entry == Some(
            peer_map_entries(*map)[index as int],
        ),
        index >= peer_map_entries(*map).len() ==> entry.is_none(),
{
    map.get_index(index).map(|(key, peer)| (*key, *peer))
}

/// `IndexMap::get` of indexmap: the value of the entry with the key,
/// or nothing where no entry has the key.
#[verifier::external_body]
fn peer_map_get(map: &IndexMap<[u8; 20], Peer>, key: &[u8; 20]) -> (peer: Option<Peer>)
    ensures
        peer == value_of(peer_map_entries(*map), *key),
{
    map.get(key).copied()
}

/// `IndexMap::insert` of indexmap. Where the key is in the map, its
/// entry keeps its place and gets the new value, and the old value is
/// returned. Where it is not, the entry is added behind all others and
/// nothing is returned.
#[verifier::external_body]
fn peer_map_insert(map: &mut IndexMap<[u8; 20], Peer>, key: [u8; 20], peer: Peer) -> (previous:
    Option<Peer>)
    ensures
        peer_map_entries(*final(map)) == upsert(peer_map_entries(*old(map)), key, peer),
        previous == value_of(peer_map_entries(*old(map)), key),
{
    map.insert(key, peer)
}

/// `IndexMap::shift_remove` of indexmap. Where the key is in the map,
/// its entry is taken out, the entries behind it move up by one place in
/// their order, and the value is returned. Where it is not, the map
/// stays as it is and nothing is returned.
#[verifier::external_body]
fn peer_map_shift_remove(map: &mut IndexMap<[u8; 20], Peer>, key: &[u8; 20]) -> (previous: Option<
    Peer,
>)
    ensures
        peer_map_entries(*final(map)) == remove_key(peer_map_entries(*old(map)), *key),
        previous == value_of(peer_map_entries(*old(map)), *key),
{
    map.shift_remove(key)
}

/// `IndexMap::retain` of indexmap, with the test whether a peer is live
/// at `now`: the entries that pass stay, in their order.
#[verifier::external_body]
fn peer_map_retain_live(map: &mut IndexMap<[u8; 20], Peer>, now: SecondsSinceServerStart)
    ensures
        peer_map_entries(*final(map)) == live_peers(peer_map_entries(*old(map)), now),
{
    map.retain(|_, peer| peer.live_at(now))
}

/// `IndexMap::shrink_to_fit` of indexmap: the entries stay as they are.
#[verifier::external_body]
fn peer_map_shrink_to_fit(map: &mut IndexMap<[u8; 20], Peer>)
    ensures
        peer_map_entries(*final(map)) == peer_map_entries(*old(map)),
{
    map.shrink_to_fit()
}

/// `Rng::gen_range` of rand on the range from zero up to but not
/// including `bound`: some number of that range. It panics on an empty
/// range.
#[verifier::external_body]
fn random_below(rng: &mut SmallRng, bound: usize) -> (r: usize)
    requires
        bound > 0,
    ensures
        r < bound,
{
    rng.gen_range(0..bound)
}

/// Whether no peer of the list has the status `Stopped`.
pub open spec fn no_stopped(peers: Seq<([u8; 20], Peer)>) -> bool {
    forall|i: int| 0 <= i < peers.len() ==> (#[trigger] peers[i]).1.status != PeerStatus::Stopped
}

/// The list after an announce of `peer` under the id `key`: a stopped
/// peer leaves the list, any other joins it or replaces what the list
/// held under its id.
pub open spec fn apply_announce(peers: Seq<([u8; 20], Peer)>, key: [u8; 20], peer: Peer) -> Seq<
    ([u8; 20], Peer),
> {
    if peer.status == PeerStatus::Stopped {
        remove_key(peers, key)
    } else {
        upsert(peers, key, peer)
    }
}

/// One if the two are the same status, zero if not.
pub open spec fn one_if(a: PeerStatus, b: PeerStatus) -> nat {
    if a == b {
        1
    } else {
        0
    }
}

pub proof fn lemma_count_le_len(peers: Seq<([u8; 20], Peer)>, status: PeerStatus)
    ensures
        count_status(peers, status) <= peers.len(),
    decreases peers.len(),
{
    if peers.len() > 0 {
        lemma_count_le_len(peers.drop_last(), status);
    }
}

pub proof fn lemma_count_push(
    peers: Seq<([u8; 20], Peer)>,
    entry: ([u8; 20], Peer),
    status: PeerStatus,
)
    ensures
        count_status(peers.push(entry), status) == count_status(peers, status) + one_if(
            entry.1.status,
            status,
        ),
{
    assert(peers.push(entry).drop_last() =~= peers);
}

pub proof fn lemma_count_update(
    peers: Seq<([u8; 20], Peer)>,
    i: int,
    entry: ([u8; 20], Peer),
    status: PeerStatus,
)
    requires
        0 <= i < peers.len(),
    ensures
        count_status(peers.update(i, entry), status) + one_if(peers[i].1.status, status)
            == count_status(peers, status) + one_if(entry.1.status, status),
    decreases peers.len(),
{
    let updated = peers.update(i, entry);
    if i == peers.len() - 1 {
        assert(updated.drop_last() =~= peers.drop_last());
    } else {
        assert(updated.drop_last() =~= peers.drop_last().update(i, entry));
        lemma_count_update(peers.drop_last(), i, entry, status);
    }
}

pub proof fn lemma_count_remove(peers: Seq<([u8; 20], Peer)>, i: int, status: PeerStatus)
    requires
        0 <= i < peers.len(),
    ensures
        count_status(peers.remove(i), status) + one_if(peers[i].1.status, status) == count_status(
            peers,
            status,
        ),
    decreases peers.len(),
{
    let removed = peers.remove(i);
    if i == peers.len() - 1 {
        assert(removed =~= peers.drop_last());
    } else {
        assert(removed.drop_last() =~= peers.drop_last().remove(i));
        assert(removed.last() == peers.last());
        lemma_count_remove(peers.drop_last(), i, status);
    }
}

/// What an announce does to the number of peers of a status: the peer
/// that the list held under the id leaves the count, and the announcing
/// peer enters it unless it has stopped.
pub proof fn lemma_count_apply_announce(
    peers: Seq<([u8; 20], Peer)>,
    key: [u8; 20],
    peer: Peer,
    status: PeerStatus,
)
    requires
        status != PeerStatus::Stopped,
    ensures
        count_status(apply_announce(peers, key, peer), status) + (match value_of(peers, key) {
            Some(previous) => one_if(previous.status, status),
            None => 0,
        }) == count_status(peers, status) + one_if(peer.status, status),
{
    if has_key(peers, key) {
        let i = key_index(peers, key);
        if peer.status == PeerStatus::Stopped {
            lemma_count_remove(peers, i, status);
        } else {
            lemma_count_update(peers, i, (key, peer), status);
        }
    } else {
        if peer.status != PeerStatus::Stopped {
            lemma_count_push(peers, (key, peer), status);
        }
    }
}

/// An announce keeps ids distinct and keeps stopped peers out.
pub proof fn lemma_apply_announce_keeps_order(
    peers: Seq<([u8; 20], Peer)>,
    key: [u8; 20],
    peer: Peer,
)
    requires
        distinct_keys(peers),
        no_stopped(peers),
    ensures
        distinct_keys(apply_announce(peers, key, peer)),
        no_stopped(apply_announce(peers, key, peer)),
{
    let after = apply_announce(peers, key, peer);
    if has_key(peers, key) {
        let k = key_index(peers, key);
        if peer.status == PeerStatus::Stopped {
            assert forall|i: int, j: int|
                0 <= i < after.len() && 0 <= j < after.len() && i != j implies (
            #[trigger] after[i]).0 != (#[trigger] after[j]).0 by {
                let oi = if i < k {
                    i
                } else {
                    i + 1
                };
                let oj = if j < k {
                    j
                } else {
                    j + 1
                };
                assert(after[i] == peers[oi]);
                assert(after[j] == peers[oj]);
            }
            assert forall|i: int| 0 <= i < after.len() implies (#[trigger] after[i]).1.status
                != PeerStatus::Stopped by {
                let oi = if i < k {
                    i
                } else {
                    i + 1
                };
                assert(after[i] == peers[oi]);
            }
        } else {
            assert forall|i: int, j: int|
                0 <= i < after.len() && 0 <= j < after.len() && i != j implies (
            #[trigger] after[i]).0 != (#[trigger] after[j]).0 by {
                assert(after[i].0 == peers[i].0);
                assert(after[j].0 == peers[j].0);
            }
            assert forall|i: int| 0 <= i < after.len() implies (#[trigger] after[i]).1.status
                != PeerStatus::Stopped by {
                if i != k {
                    assert(after[i] == peers[i]);
                }
            }
        }
    } else {
        if peer.status != PeerStatus::Stopped {
            assert forall|i: int, j: int|
                0 <= i < after.len() && 0 <= j < after.len() && i != j implies (
            #[trigger] after[i]).0 != (#[trigger] after[j]).0 by {
                if i < peers.len() {
                    assert(after[i] == peers[i]);
                }
                if j < peers.len() {
                    assert(after[j] == peers[j]);
                }
            }
            assert forall|i: int| 0 <= i < after.len() implies (#[trigger] after[i]).1.status
                != PeerStatus::Stopped by {
                if i < peers.len() {
                    assert(after[i] == peers[i]);
                }
            }
        }
    }
}

/// What the live peers of a list are: each of them is a peer of the
/// list that is live, each live peer of the list is among them, and they
/// are no more than the list holds.
pub proof fn lemma_live_peers_members(peers: Seq<([u8; 20], Peer)>, now: SecondsSinceServerStart)
    ensures
        live_peers(peers, now).len() <= peers.len(),
        forall|i: int|
            0 <= i < live_peers(peers, now).len() ==> (#[trigger] live_peers(
                peers,
                now,
            )[i]).1.spec_live_at(now) && peers.contains(live_peers(peers, now)[i]),
        forall|j: int|
            0 <= j < peers.len() && (#[trigger] peers[j]).1.spec_live_at(now) ==> live_peers(
                peers,
                now,
            ).contains(peers[j]),
    decreases peers.len(),
{
    let live = live_peers(peers, now);
    if peers.len() > 0 {
        let front = peers.drop_last();
        let last = peers.last();
        let live_front = live_peers(front, now);
        lemma_live_peers_members(front, now);
        assert forall|i: int| 0 <= i < live.len() implies (#[trigger] live[i]).1.spec_live_at(now)
            && peers.contains(live[i]) by {
            if i < live_front.len() {
                assert(live[i] == live_front[i]);
                let j = choose|j: int| 0 <= j < front.len() && front[j] == live_front[i];
                assert(peers[j] == live[i]);
            } else {
                assert(live[i] == last);
                assert(peers[peers.len() - 1] == last);
            }
        }
        assert forall|j: int| 0 <= j < peers.len() && (#[trigger] peers[j]).1.spec_live_at(
            now,
        ) implies live.contains(peers[j]) by {
            if j < front.len() {
                assert(front[j] == peers[j]);
                let i = choose|i: int| 0 <= i < live_front.len() && live_front[i] == front[j];
                assert(live[i] == peers[j]);
            } else {
                assert(live[live.len() - 1] == peers[j]);
            }
        }
    }
}

/// Dropping the peers that are not live keeps ids distinct and keeps
/// stopped peers out.
pub proof fn lemma_live_peers_keeps_order(
    peers: Seq<([u8; 20], Peer)>,
    now: SecondsSinceServerStart,
)
    requires
        distinct_keys(peers),
        no_stopped(peers),
    ensures
        distinct_keys(live_peers(peers, now)),
        no_stopped(live_peers(peers, now)),
    decreases peers.len(),
{
    let live = live_peers(peers, now);
    if peers.len() > 0 {
        let front = peers.drop_last();
        let last = peers.last();
        let live_front = live_peers(front, now);
        lemma_live_peers_keeps_order(front, now);
        lemma_live_peers_members(front, now);
        if last.1.spec_live_at(now) {
            assert forall|i: int, j: int|
                0 <= i < live.len() && 0 <= j < live.len() && i != j implies (
            #[trigger] live[i]).0 != (#[trigger] live[j]).0 by {
                if i < live_front.len() && j < live_front.len() {
                    assert(live[i] == live_front[i]);
                    assert(live[j] == live_front[j]);
                } else if i < live_front.len() {
                    let oi = choose|oi: int| 0 <= oi < front.len() && front[oi] == live_front[i];
                    assert(peers[oi] == live[i]);
                    assert(peers[peers.len() - 1] == live[j]);
                } else {
                    let oj = choose|oj: int| 0 <= oj < front.len() && front[oj] == live_front[j];
                    assert(peers[oj] == live[j]);
                    assert(peers[peers.len() - 1] == live[i]);
                }
            }
            assert forall|i: int| 0 <= i < live.len() implies (#[trigger] live[i]).1.status
                != PeerStatus::Stopped by {
                if i < live_front.len() {
                    assert(live[i] == live_front[i]);
                } else {
                    assert(peers[peers.len() - 1] == live[i]);
                }
            }
        }
    }
}

/// The place that lies `j` places behind `offset` in a list of `len`
/// entries, going on from the start after the last entry.
pub open spec fn wrap_index(len: int, offset: int, j: int) -> int {
    if offset + j < len {
        offset + j
    } else {
        offset + j - len
    }
}

/// The `count` peers that follow from the place `offset` on, going on
/// from the start of the list after its last peer.
pub open spec fn window(peers: Seq<([u8; 20], Peer)>, offset: int, count: int) -> Seq<
    ([u8; 20], Peer),
> {
    Seq::new(count as nat, |j: int| peers[wrap_index(peers.len() as int, offset, j)])
}

/// The peers that an announce of the peer with the id `sender` is
/// answered with, where it may be answered with `count` peers. A swarm of
/// at most `count + 1` peers gives all of them but the sender, in the
/// order in which they joined. A larger one gives the `count` peers from
/// the place `offset` on, without the sender where it is among them.
pub open spec fn selected_peers(
    peers: Seq<([u8; 20], Peer)>,
    count: int,
    sender: [u8; 20],
    offset: int,
) -> Seq<([u8; 20], Peer)> {
    if peers.len() <= count + 1 {
        without_key(peers, sender)
    } else {
        without_key(window(peers, offset, count), sender)
    }
}

/// The peers as a response lists them: the address and port of each.
pub open spec fn response_peers(peers: Seq<([u8; 20], Peer)>) -> Seq<
    ProtocolResponsePeer<IpAddrBytes>,
> {
    peers.map_values(|entry: ([u8; 20], Peer)| entry.1.spec_to_response_peer())
}

/// What a list without an id holds: peers of the list that do not
/// have the id, no more than the list holds.
pub proof fn lemma_without_key_members(peers: Seq<([u8; 20], Peer)>, key: [u8; 20])
    ensures
        without_key(peers, key).len() <= peers.len(),
        forall|i: int|
            0 <= i < without_key(peers, key).len() ==> (#[trigger] without_key(peers, key)[i]).0
                != key && peers.contains(without_key(peers, key)[i]),
    decreases peers.len(),
{
    let rest = without_key(peers, key);
    if peers.len() > 0 {
        let front = peers.drop_last();
        let rest_front = without_key(front, key);
        lemma_without_key_members(front, key);
        assert forall|i: int| 0 <= i < rest.len() implies (#[trigger] rest[i]).0 != key
            && peers.contains(rest[i]) by {
            if i < rest_front.len() {
                assert(rest[i] == rest_front[i]);
                let j = choose|j: int| 0 <= j < front.len() && front[j] == rest_front[i];
                assert(peers[j] == rest[i]);
            } else {
                assert(peers[peers.len() - 1] == rest[i]);
            }
        }
    }
}

/// Among peers with distinct ids, leaving out an id leaves out one
/// peer where the id is among them, and none where it is not; the ids of
/// those that are left are distinct.
pub proof fn lemma_without_key_len(peers: Seq<([u8; 20], Peer)>, key: [u8; 20])
    requires
        distinct_keys(peers),
    ensures
        has_key(peers, key) ==> without_key(peers, key).len() == peers.len() - 1,
        !has_key(peers, key) ==> without_key(peers, key) == peers,
        distinct_keys(without_key(peers, key)),
    decreases peers.len(),
{
    let rest = without_key(peers, key);
    if peers.len() > 0 {
        let front = peers.drop_last();
        let last = peers.last();
        let rest_front = without_key(front, key);
        lemma_without_key_len(front, key);
        lemma_without_key_members(front, key);
        if last.0 == key {
            assert(peers[peers.len() - 1].0 == key);
            if has_key(front, key) {
                let i = key_index(front, key);
                assert(peers[i].0 == key);
                assert(false);
            }
        } else {
            if has_key(peers, key) {
                let i = key_index(peers, key);
                assert(front[i].0 == key);
            }
            if has_key(front, key) {
                let i = key_index(front, key);
                assert(peers[i].0 == key);
            } else {
                assert(rest =~= peers);
            }
            assert forall|i: int, j: int|
                0 <= i < rest.len() && 0 <= j < rest.len() && i != j implies (
            #[trigger] rest[i]).0 != (#[trigger] rest[j]).0 by {
                if i < rest_front.len() && j < rest_front.len() {
                    assert(rest[i] == rest_front[i]);
                    assert(rest[j] == rest_front[j]);
                } else if i < rest_front.len() {
                    let oi = choose|oi: int| 0 <= oi < front.len() && front[oi] == rest_front[i];
                    assert(peers[oi] == rest[i]);
                    assert(peers[peers.len() - 1] == rest[j]);
                } else {
                    let oj = choose|oj: int| 0 <= oj < front.len() && front[oj] == rest_front[j];
                    assert(peers[oj] == rest[j]);
                    assert(peers[peers.len() - 1] == rest[i]);
                }
            }
        }
    }
}

/// A window of no more peers than the list holds takes each peer once.
pub proof fn lemma_window_distinct(peers: Seq<([u8; 20], Peer)>, offset: int, count: int)
    requires
        distinct_keys(peers),
        0 <= offset < peers.len(),
        0 <= count <= peers.len(),
    ensures
        window(peers, offset, count).len() == count,
        distinct_keys(window(peers, offset, count)),
        forall|j: int|
            0 <= j < count ==> peers.contains(#[trigger] window(peers, offset, count)[j]),
{
    let w = window(peers, offset, count);
    let len = peers.len() as int;
    assert forall|i: int, j: int| 0 <= i < w.len() && 0 <= j < w.len() && i != j implies (
    #[trigger] w[i]).0 != (#[trigger] w[j]).0 by {
        let oi = wrap_index(len, offset, i);
        let oj = wrap_index(len, offset, j);
        assert(oi != oj);
        assert(w[i] == peers[oi]);
        assert(w[j] == peers[oj]);
    }
    assert forall|j: int| 0 <= j < count implies peers.contains(#[trigger] w[j]) by {
        assert(w[j] == peers[wrap_index(len, offset, j)]);
    }
}

/// What holds of the peers that answer an announce, where the swarm is
/// at rest and the sender is in it or the swarm has not exactly one peer
/// more than may be given: they are at most `count`, the sender is not
/// among them, each is a peer of the swarm and none is given twice; and a
/// swarm of more than `count` peers gives `count` of them, or one less.
pub proof fn lemma_selected_peers(
    peers: Seq<([u8; 20], Peer)>,
    count: int,
    sender: [u8; 20],
    offset: int,
)
    requires
        distinct_keys(peers),
        0 <= count,
        peers.len() <= count + 1 || 0 <= offset < peers.len(),
        has_key(peers, sender) || peers.len() != count + 1,
    ensures
        selected_peers(peers, count, sender, offset).len() <= count,
        forall|i: int|
            0 <= i < selected_peers(peers, count, sender, offset).len() ==> (
            #[trigger] selected_peers(peers, count, sender, offset)[i]).0 != sender
                && peers.contains(selected_peers(peers, count, sender, offset)[i]),
        distinct_keys(selected_peers(peers, count, sender, offset)),
        peers.len() >= count + 1 ==> selected_peers(peers, count, sender, offset).len() == count
            || selected_peers(peers, count, sender, offset).len() == count - 1,
{
    let selected = selected_peers(peers, count, sender, offset);
    if peers.len() <= count + 1 {
        lemma_without_key_members(peers, sender);
        lemma_without_key_len(peers, sender);
    } else {
        let w = window(peers, offset, count);
        lemma_window_distinct(peers, offset, count);
        lemma_without_key_members(w, sender);
        lemma_without_key_len(w, sender);
        assert forall|i: int| 0 <= i < selected.len() implies peers.contains(
            #[trigger] selected[i],
        ) by {
            let j = choose|j: int| 0 <= j < w.len() && w[j] == selected[i];
            assert(peers.contains(w[j]));
        }
    }
}

/// One swarm: the peers of a torrent in the order in which they joined,
/// and how many of them seed and how many leech. A peer that has stopped
/// is never among them.
pub struct TorrentData {
    peers: IndexMap<[u8; 20], Peer>,
    num_seeders: usize,
    num_leechers: usize,
}

impl TorrentData {
    /// The peers with their ids, in the order in which they joined.
    pub closed spec fn peers(&self) -> Seq<([u8; 20], Peer)> {
        peer_map_entries(self.peers)
    }

    /// The count of seeders that the swarm keeps.
    pub closed spec fn spec_num_seeders(&self) -> nat {
        self.num_seeders as nat
    }

    /// The count of leechers that the swarm keeps.
    pub closed spec fn spec_num_leechers(&self) -> nat {
        self.num_leechers as nat
    }

    /// What holds of every swarm at rest: no two peers have the same
    /// id, none has stopped, and the two counts are the numbers of
    /// seeding and of leeching peers.
    pub closed spec fn wf(&self) -> bool {
        &&& distinct_keys(self.peers())
        &&& no_stopped(self.peers())
        &&& self.num_seeders == count_status(self.peers(), PeerStatus::Seeding)
        &&& self.num_leechers == count_status(self.peers(), PeerStatus::Leeching)
    }

    /// In a swarm at rest the kept counts are the numbers of peers that
    /// seed and that leech, every peer does one of the two, and no two
    /// peers share an id.
    pub proof fn lemma_counts(&self)
        requires
            self.wf(),
        ensures
            self.spec_num_seeders() == count_status(self.peers(), PeerStatus::Seeding),
            self.spec_num_leechers() == count_status(self.peers(), PeerStatus::Leeching),
            no_stopped(self.peers()),
            distinct_keys(self.peers()),
            count_status(self.peers(), PeerStatus::Stopped) == 0,
    {
        lemma_no_stopped_count(self.peers());
    }

    /// A swarm without peers.
    pub fn new() -> (swarm: Self)
        ensures
            swarm.wf(),
            swarm.peers() == Seq::<([u8; 20], Peer)>::empty(),
    {
        TorrentData { peers: peer_map_new(), num_seeders: 0, num_leechers: 0 }
    }

    /// Number of peers in the swarm.
    pub fn num_peers(&self) -> (n: usize)
        ensures
            n == self.peers().len(),
    {
        peer_map_len(&self.peers)
    }

    pub fn is_empty(&self) -> (r: bool)
        ensures
            r == (self.peers().len() == 0),
    {
        peer_map_len(&self.peers) == 0
    }

    /// Number of seeding peers in the swarm.
    pub fn num_seeders(&self) -> (n: usize)
        ensures
            n == self.spec_num_seeders(),
    {
        self.num_seeders
    }

    /// Number of leeching peers in the swarm.
    pub fn num_leechers(&self) -> (n: usize)
        ensures
            n == self.spec_num_leechers(),
    {
        self.num_leechers
    }

    /// The peer at a place in the order of joining, with its id.
    pub fn peer_at(&self, index: usize) -> (entry: Option<(PeerId, Peer)>)
        ensures
            index < self.peers().len() ==> entry == Some(
                (PeerId(self.peers()[index as int].0), self.peers()[index as int].1),
            ),
            index >= self.peers().len() ==> entry.is_none(),
    {
        match peer_map_get_index(&self.peers, index) {
            Some((key, peer)) => Some((PeerId(key), peer)),
            None => None,
        }
    }

    /// Takes in what a peer has announced. A peer that has stopped
    /// leaves the swarm; any other joins it behind all others, or
    /// replaces in its place what the swarm held under its id. The
    /// counts follow. Returns what the swarm held under the id before.
    pub fn update_peer(&mut self, peer_id: PeerId, peer: Peer) -> (previous: Option<Peer>)
        requires
            old(self).wf(),
        ensures
            final(self).wf(),
            final(self).peers() == apply_announce(old(self).peers(), peer_id.0, peer),
            previous == value_of(old(self).peers(), peer_id.0),
    {
        let ghost before = self.peers();
        let previous = match peer.status {
            PeerStatus::Stopped => peer_map_shift_remove(&mut self.peers, &peer_id.0),
            _ => peer_map_insert(&mut self.peers, peer_id.0, peer),
        };
        // The counts are no larger than the number of peers, which fits
        // in a usize: they cannot overflow.
        let num_peers = peer_map_len(&self.peers);
        proof {
            let after = self.peers();
            assert(num_peers == after.len());
            assert(after == apply_announce(before, peer_id.0, peer));
            lemma_apply_announce_keeps_order(before, peer_id.0, peer);
            lemma_count_apply_announce(before, peer_id.0, peer, PeerStatus::Seeding);
            lemma_count_apply_announce(before, peer_id.0, peer, PeerStatus::Leeching);
            lemma_count_le_len(after, PeerStatus::Seeding);
            lemma_count_le_len(after, PeerStatus::Leeching);
            if has_key(before, peer_id.0) {
                lemma_count_remove(before, key_index(before, peer_id.0), PeerStatus::Seeding);
                lemma_count_remove(before, key_index(before, peer_id.0), PeerStatus::Leeching);
            }
        }
        match previous {
            Some(previous_peer) => {
                match previous_peer.status {
                    PeerStatus::Seeding => {
                        self.num_seeders = self.num_seeders - 1;
                    },
                    PeerStatus::Leeching => {
                        self.num_leechers = self.num_leechers - 1;
                    },
                    PeerStatus::Stopped => {},
                }
            },
            None => {},
        }
        match peer.status {
            PeerStatus::Seeding => {
                self.num_seeders = self.num_seeders + 1;
            },
            PeerStatus::Leeching => {
                self.num_leechers = self.num_leechers + 1;
            },
            PeerStatus::Stopped => {},
        }
        previous
    }

    /// Drops the peers that are not live at `now` and sets the counts to
    /// what is left. Returns whether any peer is left.
    pub fn clean(&mut self, now: SecondsSinceServerStart) -> (keep: bool)
        requires
            old(self).wf(),
        ensures
            final(self).wf(),
            final(self).peers() == live_peers(old(self).peers(), now),
            forall|i: int|
                0 <= i < final(self).peers().len() ==> (#[trigger] final(self).peers()[i]).1.spec_live_at(
                    now,
                ),
            keep == (final(self).peers().len() > 0),
    {
        let ghost before = self.peers();
        peer_map_retain_live(&mut self.peers, now);
        peer_map_shrink_to_fit(&mut self.peers);
        proof {
            lemma_live_peers_keeps_order(before, now);
            lemma_live_peers_members(before, now);
        }
        let len = peer_map_len(&self.peers);
        let ghost after = self.peers();
        let mut seeders: usize = 0;
        let mut leechers: usize = 0;
        let mut i: usize = 0;
        while i < len
            invariant
                i <= len,
                len == after.len(),
                after == peer_map_entries(self.peers),
                seeders == count_status(after.take(i as int), PeerStatus::Seeding),
                leechers == count_status(after.take(i as int), PeerStatus::Leeching),
            decreases len - i,
        {
            let entry = peer_map_get_index(&self.peers, i);
            proof {
                assert(after.take(i + 1).drop_last() =~= after.take(i as int));
                lemma_count_le_len(after.take(i + 1), PeerStatus::Seeding);
                lemma_count_le_len(after.take(i + 1), PeerStatus::Leeching);
            }
            match entry {
                Some((_, peer)) => {
                    match peer.status {
                        PeerStatus::Seeding => {
                            seeders = seeders + 1;
                        },
                        PeerStatus::Leeching => {
                            leechers = leechers + 1;
                        },
                        PeerStatus::Stopped => {},
                    }
                },
                None => {},
            }
            i = i + 1;
        }
        assert(after.take(len as int) =~= after);
        self.num_seeders = seeders;
        self.num_leechers = leechers;
        len > 0
    }

    /// The peers that answer an announce of `sender`, with their ids,
    /// where a swarm of more than `max_num_peers_to_take + 1` peers gives
    /// those from the place `offset` on.
    pub fn select_peers_at(&self, max_num_peers_to_take: usize, sender: PeerId, offset: usize) -> (selected:
        Vec<([u8; 20], Peer)>)
        requires
            self.peers().len() <= max_num_peers_to_take + 1 || offset < self.peers().len(),
        ensures
            selected@ == selected_peers(
                self.peers(),
                max_num_peers_to_take as int,
                sender.0,
                offset as int,
            ),
    {
        let len = peer_map_len(&self.peers);
        let ghost all = self.peers();
        let mut selected: Vec<([u8; 20], Peer)> = Vec::new();
        if len == 0 || len - 1 <= max_num_peers_to_take {
            let mut i: usize = 0;
            while i < len
                invariant
                    i <= len,
                    len == all.len(),
                    all == peer_map_entries(self.peers),
                    selected@ == without_key(all.take(i as int), sender.0),
                decreases len - i,
            {
                let entry = peer_map_get_index(&self.peers, i);
                proof {
                    assert(all.take(i + 1).drop_last() =~= all.take(i as int));
                    assert(all.take(i + 1).last() == all[i as int]);
                    if all[i as int].0@ == sender.0@ {
                        assert(all[i as int].0 == sender.0);
                    }
                }
                match entry {
                    Some((key, peer)) => {
                        if !crate::common::bytes_equal(&key, &sender.0) {
                            selected.push((key, peer));
                        }
                    },
                    None => {},
                }
                i = i + 1;
            }
            assert(all.take(len as int) =~= all);
        } else {
            let ghost w = window(all, offset as int, max_num_peers_to_take as int);
            let mut index: usize = offset;
            let mut j: usize = 0;
            while j < max_num_peers_to_take
                invariant
                    j <= max_num_peers_to_take,
                    max_num_peers_to_take + 1 < len,
                    len == all.len(),
                    offset < len,
                    all == peer_map_entries(self.peers),
                    w == window(all, offset as int, max_num_peers_to_take as int),
                    index == wrap_index(len as int, offset as int, j as int),
                    selected@ == without_key(w.take(j as int), sender.0),
                decreases max_num_peers_to_take - j,
            {
                let entry = peer_map_get_index(&self.peers, index);
                proof {
                    assert(w.take(j + 1).drop_last() =~= w.take(j as int));
                    assert(w.take(j + 1).last() == all[index as int]);
                    if all[index as int].0@ == sender.0@ {
                        assert(all[index as int].0 == sender.0);
                    }
                }
                match entry {
                    Some((key, peer)) => {
                        if !crate::common::bytes_equal(&key, &sender.0) {
                            selected.push((key, peer));
                        }
                    },
                    None => {},
                }
                index = index + 1;
                if index == len {
                    index = 0;
                }
                j = j + 1;
            }
            assert(w.take(max_num_peers_to_take as int) =~= w);
        }
        selected
    }

    /// The peers that answer an announce of `sender`, with their ids:
    /// all others where the swarm has at most `max_num_peers_to_take + 1`
    /// peers, and else that many from a place chosen at random on, less
    /// the sender where it is among them.
    pub fn select_peers(&self, rng: &mut SmallRng, max_num_peers_to_take: usize, sender: PeerId) -> (selected:
        Vec<([u8; 20], Peer)>)
        ensures
            exists|offset: int|
                (self.peers().len() <= max_num_peers_to_take + 1 || 0 <= offset
                    < self.peers().len()) && selected@ == #[trigger] selected_peers(
                    self.peers(),
                    max_num_peers_to_take as int,
                    sender.0,
                    offset,
                ),
    {
        let len = peer_map_len(&self.peers);
        let offset = if len == 0 || len - 1 <= max_num_peers_to_take {
            0
        } else {
            random_below(rng, len)
        };
        let selected = self.select_peers_at(max_num_peers_to_take, sender, offset);
        assert(selected@ == selected_peers(
            self.peers(),
            max_num_peers_to_take as int,
            sender.0,
            offset as int,
        ));
        selected
    }

    /// The peers of [`TorrentData::select_peers_at`] as a response
    /// lists them.
    pub fn extract_response_peers_at(
        &self,
        max_num_peers_to_take: usize,
        sender: PeerId,
        offset: usize,
    ) -> (peers: Vec<ProtocolResponsePeer<IpAddrBytes>>)
        requires
            self.peers().len() <= max_num_peers_to_take + 1 || offset < self.peers().len(),
        ensures
            peers@ == response_peers(
                selected_peers(
                    self.peers(),
                    max_num_peers_to_take as int,
                    sender.0,
                    offset as int,
                ),
            ),
    {
        let selected = self.select_peers_at(max_num_peers_to_take, sender, offset);
        to_response_peers(&selected)
    }

    /// The peers of [`TorrentData::select_peers`] as a response lists
    /// them.
    pub fn extract_response_peers(
        &self,
        rng: &mut SmallRng,
        max_num_peers_to_take: usize,
        sender: PeerId,
    ) -> (peers: Vec<ProtocolResponsePeer<IpAddrBytes>>)
        ensures
            exists|offset: int|
                (self.peers().len() <= max_num_peers_to_take + 1 || 0 <= offset
                    < self.peers().len()) && peers@ == response_peers(
                    #[trigger] selected_peers(
                        self.peers(),
                        max_num_peers_to_take as int,
                        sender.0,
                        offset,
                    ),
                ),
    {
        let selected = self.select_peers(rng, max_num_peers_to_take, sender);
        to_response_peers(&selected)
    }

    /// The peer of the swarm that has the id, if there is one.
    pub fn peer(&self, peer_id: &PeerId) -> (peer: Option<Peer>)
        ensures
            peer == value_of(self.peers(), peer_id.0),
    {
        peer_map_get(&self.peers, &peer_id.0)
    }
}

/// The peers as a response lists them.
pub fn to_response_peers(selected: &Vec<([u8; 20], Peer)>) -> (peers: Vec<
    ProtocolResponsePeer<IpAddrBytes>,
>)
    ensures
        peers@ == response_peers(selected@),
{
    let mut peers: Vec<ProtocolResponsePeer<IpAddrBytes>> = Vec::new();
    let mut i: usize = 0;
    while i < selected.len()
        invariant
            i <= selected.len(),
            peers@.len() == i,
            forall|j: int| 0 <= j < i ==> peers@[j] == selected@[j].1.spec_to_response_peer(),
        decreases selected.len() - i,
    {
        peers.push(selected[i].1.to_response_peer());
        i = i + 1;
    }
    assert(peers@ =~= response_peers(selected@));
    peers
}

impl Default for TorrentData {
    fn default() -> (swarm: Self)
        ensures
            swarm.wf(),
            swarm.peers() == Seq::<([u8; 20], Peer)>::empty(),
    {
        TorrentData::new()
    }
}

/// Where no peer has stopped, none is counted as stopped.
pub proof fn lemma_no_stopped_count(peers: Seq<([u8; 20], Peer)>)
    requires
        no_stopped(peers),
    ensures
        count_status(peers, PeerStatus::Stopped) == 0,
    decreases peers.len(),
{
    if peers.len() > 0 {
        assert(peers[peers.len() - 1].1.status != PeerStatus::Stopped);
        lemma_no_stopped_count(peers.drop_last());
    }
}

/// A peer that announces again with the status of its last announce
/// leaves the number of peers and the number of peers of each status as
/// they were.
pub proof fn lemma_repeated_announce(
    peers: Seq<([u8; 20], Peer)>,
    key: [u8; 20],
    first: Peer,
    second: Peer,
    status: PeerStatus,
)
    requires
        distinct_keys(peers),
        first.status != PeerStatus::Stopped,
        second.status == first.status,
    ensures
        apply_announce(apply_announce(peers, key, first), key, second).len() == apply_announce(
            peers,
            key,
            first,
        ).len(),
        count_status(apply_announce(apply_announce(peers, key, first), key, second), status)
            == count_status(apply_announce(peers, key, first), status),
        first == second ==> apply_announce(apply_announce(peers, key, first), key, second)
            == apply_announce(peers, key, first),
{
    let once = apply_announce(peers, key, first);
    let i = if has_key(peers, key) {
        key_index(peers, key)
    } else {
        peers.len() as int
    };
    assert(once[i] == (key, first));
    assert(has_key(once, key));
    let k = key_index(once, key);
    lemma_count_update(once, k, (key, second), status);
    if first == second {
        assert(once[k].0 == key);
        if k != i {
            if has_key(peers, key) {
                assert(once[k].0 == peers[k].0);
                assert(peers[k].0 == peers[i].0);
            } else {
                assert(once[k] == peers[k]);
            }
            assert(false);
        }
        assert(once.update(k, (key, second)) =~= once);
    }
}

/// A peer of the swarm that announces that it has stopped leaves the
/// swarm: the swarm has one peer less, the count of the status that the
/// peer had is one less and the other count is as it was. A second such
/// announce changes nothing.
pub proof fn lemma_stopped_announce(
    peers: Seq<([u8; 20], Peer)>,
    key: [u8; 20],
    stopped: Peer,
    status: PeerStatus,
)
    requires
        distinct_keys(peers),
        stopped.status == PeerStatus::Stopped,
        has_key(peers, key),
    ensures
        !has_key(apply_announce(peers, key, stopped), key),
        apply_announce(peers, key, stopped).len() == peers.len() - 1,
        count_status(apply_announce(peers, key, stopped), status) + one_if(
            peers[key_index(peers, key)].1.status,
            status,
        ) == count_status(peers, status),
        apply_announce(apply_announce(peers, key, stopped), key, stopped) == apply_announce(
            peers,
            key,
            stopped,
        ),
{
    let k = key_index(peers, key);
    let after = apply_announce(peers, key, stopped);
    lemma_count_remove(peers, k, status);
    if has_key(after, key) {
        let j = key_index(after, key);
        let oj = if j < k {
            j
        } else {
            j + 1
        };
        assert(after[j] == peers[oj]);
        assert(peers[oj].0 == peers[k].0);
        assert(false);
    }
}

/// An announce that a peer has stopped changes nothing in a swarm
/// that does not hold the peer.
pub proof fn lemma_stopped_announce_of_stranger(
    peers: Seq<([u8; 20], Peer)>,
    key: [u8; 20],
    stopped: Peer,
)
    requires
        stopped.status == PeerStatus::Stopped,
        !has_key(peers, key),
    ensures
        apply_announce(peers, key, stopped) == peers,
{
}

/// Every peer of the list after an announce is the announcing peer or
/// was in the list before.
pub proof fn lemma_apply_announce_members(
    peers: Seq<([u8; 20], Peer)>,
    key: [u8; 20],
    peer: Peer,
)
    ensures
        forall|i: int|
            0 <= i < apply_announce(peers, key, peer).len() ==> (#[trigger] apply_announce(
                peers,
                key,
                peer,
            )[i]) == (key, peer) || peers.contains(apply_announce(peers, key, peer)[i]),
{
    let after = apply_announce(peers, key, peer);
    assert forall|i: int| 0 <= i < after.len() implies (#[trigger] after[i]) == (key, peer)
        || peers.contains(after[i]) by {
        if has_key(peers, key) {
            let k = key_index(peers, key);
            if peer.status == PeerStatus::Stopped {
                let oi = if i < k {
                    i
                } else {
                    i + 1
                };
                assert(after[i] == peers[oi]);
            } else if i != k {
                assert(after[i] == peers[i]);
            }
        } else if i < peers.len() {
            assert(after[i] == peers[i]);
        }
    }
}

} // verus!
