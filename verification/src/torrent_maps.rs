//! The swarms of one worker: for each address family, the swarm of
//! every torrent that has a peer of that family.

use crate::access_list::allowed;
use crate::access_list::AccessList;
use crate::access_list::AccessListMode;
use crate::common::InfoHash;
use crate::common::NumberOfDownloads;
use crate::common::NumberOfPeers;
use crate::common::PeerId;
use crate::common::PeerStatus;
use crate::ordered::distinct_keys;
use crate::ordered::has_key;
use crate::ordered::key_index;
use crate::ordered::lemma_key_index;
use crate::ordered::lemma_push_new_key;
use crate::ordered::lemma_swap_remove;
use crate::ordered::lemma_update_value;
use crate::ordered::swap_remove_at;
use crate::ordered::upsert;
use crate::ordered::value_of;
use crate::response::TorrentScrapeStatistics;
use crate::swarm::apply_announce;
use crate::config::Config;
use crate::swarm::count_status;
use crate::swarm::lemma_apply_announce_members;
use crate::swarm::lemma_live_peers_members;
use crate::time::ServerStartInstant;
use crate::swarm::live_peers;
use crate::swarm::selected_peers;
use crate::swarm::Peer;
use crate::swarm::TorrentData;
use crate::time::SecondsSinceServerStart;
use indexmap::IndexMap;
use rand::rngs::SmallRng;
use vstd::prelude::*;

verus! {

/// The swarms of a map with their info hashes, in the order of the map.
pub uninterp spec fn swarm_map_entries(map: IndexMap<[u8; 20], TorrentData>) -> Seq<
    ([u8; 20], TorrentData),
>;

/// `IndexMap::new` of indexmap: a map without entries.
#[verifier::external_body]
fn swarm_map_new() -> (map: IndexMap<[u8; 20], TorrentData>)
    ensures
        swarm_map_entries(map) == Seq::<([u8; 20], TorrentData)>::empty(),
{
    IndexMap::new()
}

/// `IndexMap::len` of indexmap: the number of entries.
#[verifier::external_body]
fn swarm_map_len(map: &IndexMap<[u8; 20], TorrentData>) -> (len: usize)
    ensures
        len == swarm_map_entries(*map).len(),
{
    map.len()
}

/// `IndexMap::get_index_of` of indexmap: the place of the entry with
/// the key in the order of the map, or nothing where no entry has the
/// key.
#[verifier::external_body]
fn swarm_map_get_index_of(map: &IndexMap<[u8; 20], TorrentData>, key: &[u8; 20]) -> (index:
    Option<usize>)
    ensures
        match index {
            Some(i) => i < swarm_map_entries(*map).len() && swarm_map_entries(*map)[i as int].0
                == *key,
            None => !has_key(swarm_map_entries(*map), *key),
        },
{
    map.get_index_of(key)
}

/// `IndexMap::get_index` of indexmap: the entry at a place in the order,
/// where the place is below the number of entries.
#[verifier::external_body]
fn swarm_map_get_index(map: &IndexMap<[u8; 20], TorrentData>, index: usize) -> (entry: Option<
    (&[u8; 20], &TorrentData),
>)
    ensures
        index < swarm_map_entries(*map).len() ==> entry == Some(
            (&swarm_map_entries(*map)[index as int].0, &swarm_map_entries(*map)[index as int].1),
        ),
        index >= swarm_map_entries(*map).len() ==> entry.is_none(),
{
    map.get_index(index)
}

/// `IndexMap::insert` of indexmap. Where the key is in the map, its
/// entry keeps its place and gets the new value, and the old value is
/// returned. Where it is not, the entry is added behind all others and
/// nothing is returned.
#[verifier::external_body]
fn swarm_map_insert(
    map: &mut IndexMap<[u8; 20], TorrentData>,
    key: [u8; 20],
    swarm: TorrentData,
) -> (previous: Option<TorrentData>)
    ensures
        swarm_map_entries(*final(map)) == upsert(swarm_map_entries(*old(map)), key, swarm),
        previous == value_of(swarm_map_entries(*old(map)), key),
{
    map.insert(key, swarm)
}

/// `IndexMut::index_mut` of indexmap's `IndexMap` with a place in the
/// order: the value of the entry at that place, to be changed where it
/// stands. It panics on a place that is not below the number of entries.
#[verifier::external_body]
fn swarm_map_index_mut(map: &mut IndexMap<[u8; 20], TorrentData>, index: usize) -> (swarm:
    &mut TorrentData)
    requires
        index < swarm_map_entries(*old(map)).len(),
    ensures
        *swarm == swarm_map_entries(*old(map))[index as int].1,
        swarm_map_entries(*final(map)) == swarm_map_entries(*old(map)).update(
            index as int,
            (swarm_map_entries(*old(map))[index as int].0, *final(swarm)),
        ),
{
    &mut map[index]
}

/// `IndexMap::swap_remove_index` of indexmap. The entry at a place
/// below the number of entries is taken out and returned, and the last
/// entry takes its place. For any other place the map stays as it is and
/// nothing is returned.
#[verifier::external_body]
fn swarm_map_swap_remove_index(map: &mut IndexMap<[u8; 20], TorrentData>, index: usize) -> (removed:
    Option<([u8; 20], TorrentData)>)
    ensures
        index < swarm_map_entries(*old(map)).len() ==> swarm_map_entries(*final(map))
            == swap_remove_at(swarm_map_entries(*old(map)), index as int) && removed == Some(
            swarm_map_entries(*old(map))[index as int],
        ),
        index >= swarm_map_entries(*old(map)).len() ==> swarm_map_entries(*final(map))
            == swarm_map_entries(*old(map)) && removed.is_none(),
{
    map.swap_remove_index(index)
}

/// `IndexMap::shrink_to_fit` of indexmap: the entries stay as they are.
#[verifier::external_body]
fn swarm_map_shrink_to_fit(map: &mut IndexMap<[u8; 20], TorrentData>)
    ensures
        swarm_map_entries(*final(map)) == swarm_map_entries(*old(map)),
{
    map.shrink_to_fit()
}

/// The peers of each swarm under the info hash of its torrent.
pub open spec fn swarms_of(entries: Seq<([u8; 20], TorrentData)>) -> Map<
    [u8; 20],
    Seq<([u8; 20], Peer)>,
> {
    Map::new(
        |key: [u8; 20]| has_key(entries, key),
        |key: [u8; 20]| entries[key_index(entries, key)].1.peers(),
    )
}

/// The peers of the torrent: those of its swarm, or none where the
/// torrent has no swarm.
pub open spec fn peers_of(
    swarms: Map<[u8; 20], Seq<([u8; 20], Peer)>>,
    info_hash: [u8; 20],
) -> Seq<([u8; 20], Peer)> {
    if swarms.contains_key(info_hash) {
        swarms[info_hash]
    } else {
        Seq::empty()
    }
}

/// The swarms after an announce of `peer` under the id `peer_id` for
/// the torrent: its swarm takes the announce in, and a swarm that is
/// left without peers is dropped.
pub open spec fn swarms_after_announce(
    swarms: Map<[u8; 20], Seq<([u8; 20], Peer)>>,
    info_hash: [u8; 20],
    peer_id: [u8; 20],
    peer: Peer,
) -> Map<[u8; 20], Seq<([u8; 20], Peer)>> {
    let after = apply_announce(peers_of(swarms, info_hash), peer_id, peer);
    if after.len() == 0 {
        swarms.remove(info_hash)
    } else {
        swarms.insert(info_hash, after)
    }
}

/// The swarms after cleaning at `now`: each swarm keeps its live
/// peers, and a swarm is dropped where none is left or where the access
/// list does not let its torrent be served.
pub open spec fn swarms_after_clean(
    swarms: Map<[u8; 20], Seq<([u8; 20], Peer)>>,
    list: Set<[u8; 20]>,
    mode: AccessListMode,
    now: SecondsSinceServerStart,
) -> Map<[u8; 20], Seq<([u8; 20], Peer)>> {
    Map::new(
        |key: [u8; 20]|
            swarms.contains_key(key) && allowed(list, mode, key) && live_peers(
                swarms[key],
                now,
            ).len() > 0,
        |key: [u8; 20]| live_peers(swarms[key], now),
    )
}

/// Whether every peer of every swarm has an address of the family.
pub open spec fn family_is(swarms: Map<[u8; 20], Seq<([u8; 20], Peer)>>, ipv4: bool) -> bool {
    forall|key: [u8; 20], i: int|
        swarms.contains_key(key) && 0 <= i < swarms[key].len() ==> (
        #[trigger] swarms[key][i]).1.ip_address.spec_is_ipv4() == ipv4
}

/// A count as a response holds it: the number itself, or the largest
/// that a response can hold where the number is larger.
pub open spec fn spec_count_to_i32(count: nat) -> i32 {
    if count > i32::MAX {
        i32::MAX
    } else {
        count as i32
    }
}

/// The counts that a scrape response gives for a torrent with these
/// peers. Completed downloads are not counted: their number is zero.
pub open spec fn scrape_statistics(peers: Seq<([u8; 20], Peer)>) -> TorrentScrapeStatistics {
    TorrentScrapeStatistics {
        seeders: NumberOfPeers(spec_count_to_i32(count_status(peers, PeerStatus::Seeding))),
        completed: NumberOfDownloads(0),
        leechers: NumberOfPeers(spec_count_to_i32(count_status(peers, PeerStatus::Leeching))),
    }
}

/// A count as a response holds it.
pub fn count_to_i32(count: usize) -> (r: i32)
    ensures
        r == spec_count_to_i32(count as nat),
{
    if count > i32::MAX as usize {
        i32::MAX
    } else {
        count as i32
    }
}

/// Counts for a scrape response with the given numbers of seeders and
/// leechers.
pub fn create_torrent_scrape_statistics(seeders: i32, leechers: i32) -> (stats:
    TorrentScrapeStatistics)
    ensures
        stats == (TorrentScrapeStatistics {
            seeders: NumberOfPeers(seeders),
            completed: NumberOfDownloads(0),
            leechers: NumberOfPeers(leechers),
        }),
{
    TorrentScrapeStatistics {
        seeders: NumberOfPeers(seeders),
        completed: NumberOfDownloads(0),  // No implementation planned
        leechers: NumberOfPeers(leechers),
    }
}

proof fn lemma_swarms_of_update(entries: Seq<([u8; 20], TorrentData)>, i: int, swarm: TorrentData)
    requires
        distinct_keys(entries),
        0 <= i < entries.len(),
    ensures
        swarms_of(entries.update(i, (entries[i].0, swarm))) == swarms_of(entries).insert(
            entries[i].0,
            swarm.peers(),
        ),
{
    let after = entries.update(i, (entries[i].0, swarm));
    lemma_update_value(entries, i, swarm);
    lemma_key_index(entries, entries[i].0, i);
    assert forall|key: [u8; 20]| has_key(entries, key) implies #[trigger] swarms_of(after)[key]
        == swarms_of(entries).insert(entries[i].0, swarm.peers())[key] by {
        let k = key_index(entries, key);
        assert(key_index(after, key) == k);
        if k != i {
            assert(entries[k].0 != entries[i].0);
        }
    }
    assert(swarms_of(after) =~= swarms_of(entries).insert(entries[i].0, swarm.peers()));
}

proof fn lemma_swarms_of_push(
    entries: Seq<([u8; 20], TorrentData)>,
    key: [u8; 20],
    swarm: TorrentData,
)
    requires
        distinct_keys(entries),
        !has_key(entries, key),
    ensures
        swarms_of(entries.push((key, swarm))) == swarms_of(entries).insert(key, swarm.peers()),
{
    let after = entries.push((key, swarm));
    lemma_push_new_key(entries, key, swarm);
    assert forall|other: [u8; 20]| has_key(after, other) implies #[trigger] swarms_of(after)[other]
        == swarms_of(entries).insert(key, swarm.peers())[other] by {
        if other != key {
            let k = key_index(entries, other);
            assert(key_index(after, other) == k);
            assert(after[k] == entries[k]);
        }
    }
    assert(swarms_of(after) =~= swarms_of(entries).insert(key, swarm.peers()));
}

proof fn lemma_swarms_of_swap_remove(entries: Seq<([u8; 20], TorrentData)>, i: int)
    requires
        distinct_keys(entries),
        0 <= i < entries.len(),
    ensures
        swarms_of(swap_remove_at(entries, i)) == swarms_of(entries).remove(entries[i].0),
{
    let after = swap_remove_at(entries, i);
    lemma_swap_remove(entries, i);
    assert forall|key: [u8; 20]| has_key(after, key) implies #[trigger] swarms_of(after)[key]
        == swarms_of(entries).remove(entries[i].0)[key] by {
        assert(key != entries[i].0);
        assert(has_key(entries, key));
        assert(value_of(after, key) == value_of(entries, key));
    }
    assert(swarms_of(after) =~= swarms_of(entries).remove(entries[i].0));
}

/// What an announce gives back: the counts of the swarm after the
/// announce, and the peers to answer with.
pub struct AnnounceOutcome {
    pub num_seeders: usize,
    pub num_leechers: usize,
    /// The peers to answer with, each with its id.
    pub selected: Vec<([u8; 20], Peer)>,
}

/// The swarms of the torrents that have peers of one address family.
pub struct TorrentMap {
    swarms: IndexMap<[u8; 20], TorrentData>,
}

impl View for TorrentMap {
    type V = Map<[u8; 20], Seq<([u8; 20], Peer)>>;

    /// The peers of each swarm under the info hash of its torrent.
    closed spec fn view(&self) -> Map<[u8; 20], Seq<([u8; 20], Peer)>> {
        swarms_of(swarm_map_entries(self.swarms))
    }
}

impl TorrentMap {
    closed spec fn entries(&self) -> Seq<([u8; 20], TorrentData)> {
        swarm_map_entries(self.swarms)
    }

    /// What holds of the swarms at rest: there is one swarm to a
    /// torrent, each swarm is at rest, and each has a peer.
    pub closed spec fn wf(&self) -> bool {
        &&& distinct_keys(self.entries())
        &&& forall|i: int|
            0 <= i < self.entries().len() ==> (#[trigger] self.entries()[i]).1.wf()
                && self.entries()[i].1.peers().len() > 0
    }

    /// At rest every swarm has a peer, no two of its peers have the
    /// same id, and none of its peers has stopped.
    pub proof fn lemma_swarms_at_rest(&self, info_hash: [u8; 20])
        requires
            self.wf(),
            self@.contains_key(info_hash),
        ensures
            self@[info_hash].len() > 0,
            distinct_keys(self@[info_hash]),
            crate::swarm::no_stopped(self@[info_hash]),
    {
        let i = key_index(self.entries(), info_hash);
        self.entries()[i].1.lemma_counts();
    }

    /// No swarms.
    pub fn new() -> (map: Self)
        ensures
            map.wf(),
            map@ == Map::<[u8; 20], Seq<([u8; 20], Peer)>>::empty(),
    {
        let map = TorrentMap { swarms: swarm_map_new() };
        assert(map@ =~= Map::<[u8; 20], Seq<([u8; 20], Peer)>>::empty());
        map
    }

    /// Number of swarms.
    pub fn len(&self) -> (n: usize)
        requires
            self.wf(),
        ensures
            n == self@.dom().len(),
            self@.dom().finite(),
    {
        let n = swarm_map_len(&self.swarms);
        proof {
            lemma_swarms_of_dom(self.entries());
        }
        n
    }

    /// The counts of one torrent for a scrape response: those of its
    /// swarm, or zeros where it has none.
    pub fn scrape(&self, info_hash: &InfoHash) -> (stats: TorrentScrapeStatistics)
        requires
            self.wf(),
        ensures
            stats == scrape_statistics(peers_of(self@, info_hash.0)),
    {
        match swarm_map_get_index_of(&self.swarms, &info_hash.0) {
            Some(index) => {
                match swarm_map_get_index(&self.swarms, index) {
                    Some((_, swarm)) => {
                        proof {
                            lemma_key_index(self.entries(), info_hash.0, index as int);
                            swarm.lemma_counts();
                        }
                        create_torrent_scrape_statistics(
                            count_to_i32(swarm.num_seeders()),
                            count_to_i32(swarm.num_leechers()),
                        )
                    },
                    None => create_torrent_scrape_statistics(0, 0),
                }
            },
            None => create_torrent_scrape_statistics(0, 0),
        }
    }

    /// The numbers of seeders and of leechers of the torrent, if it has
    /// a swarm.
    pub fn counts(&self, info_hash: &InfoHash) -> (counts: Option<(usize, usize)>)
        requires
            self.wf(),
        ensures
            counts.is_some() == self@.contains_key(info_hash.0),
            counts matches Some((seeders, leechers)) ==> seeders == count_status(
                self@[info_hash.0],
                PeerStatus::Seeding,
            ) && leechers == count_status(self@[info_hash.0], PeerStatus::Leeching),
    {
        match swarm_map_get_index_of(&self.swarms, &info_hash.0) {
            Some(index) => {
                match swarm_map_get_index(&self.swarms, index) {
                    Some((_, swarm)) => {
                        proof {
                            lemma_key_index(self.entries(), info_hash.0, index as int);
                            swarm.lemma_counts();
                        }
                        Some((swarm.num_seeders(), swarm.num_leechers()))
                    },
                    None => None,
                }
            },
            None => None,
        }
    }

    /// Whether the torrent has a swarm.
    pub fn contains(&self, info_hash: &InfoHash) -> (r: bool)
        ensures
            r == self@.contains_key(info_hash.0),
    {
        swarm_map_get_index_of(&self.swarms, &info_hash.0).is_some()
    }

    /// The peer with the id in the swarm of the torrent, if the torrent
    /// has a swarm and the swarm has such a peer.
    pub fn find_peer(&self, info_hash: &InfoHash, peer_id: &PeerId) -> (peer: Option<Peer>)
        requires
            self.wf(),
        ensures
            peer == value_of(peers_of(self@, info_hash.0), peer_id.0),
    {
        match swarm_map_get_index_of(&self.swarms, &info_hash.0) {
            Some(index) => {
                match swarm_map_get_index(&self.swarms, index) {
                    Some((_, swarm)) => {
                        proof {
                            lemma_key_index(self.entries(), info_hash.0, index as int);
                        }
                        swarm.peer(peer_id)
                    },
                    None => None,
                }
            },
            None => None,
        }
    }

    /// Takes in the announce of a peer for a torrent and picks the
    /// peers to answer with: see [`TorrentData::update_peer`] and
    /// [`TorrentData::extract_response_peers`]. A torrent without a swarm
    /// gets one, and a swarm that is left without peers is dropped.
    pub fn announce(
        &mut self,
        rng: &mut SmallRng,
        info_hash: InfoHash,
        peer_id: PeerId,
        peer: Peer,
        max_num_peers_to_take: usize,
    ) -> (outcome: AnnounceOutcome)
        requires
            old(self).wf(),
        ensures
            final(self).wf(),
            final(self)@ == swarms_after_announce(old(self)@, info_hash.0, peer_id.0, peer),
            outcome.num_seeders == count_status(
                apply_announce(peers_of(old(self)@, info_hash.0), peer_id.0, peer),
                PeerStatus::Seeding,
            ),
            outcome.num_leechers == count_status(
                apply_announce(peers_of(old(self)@, info_hash.0), peer_id.0, peer),
                PeerStatus::Leeching,
            ),
            exists|offset: int|
                (apply_announce(peers_of(old(self)@, info_hash.0), peer_id.0, peer).len()
                    <= max_num_peers_to_take + 1 || 0 <= offset < apply_announce(
                    peers_of(old(self)@, info_hash.0),
                    peer_id.0,
                    peer,
                ).len()) && outcome.selected@ == #[trigger] selected_peers(
                    apply_announce(peers_of(old(self)@, info_hash.0), peer_id.0, peer),
                    max_num_peers_to_take as int,
                    peer_id.0,
                    offset,
                ),
    {
        let ghost before = self.entries();
        let ghost key = info_hash.0;
        let found = swarm_map_get_index_of(&self.swarms, &info_hash.0);
        let index = match found {
            Some(i) => {
                proof {
                    lemma_key_index(before, key, i as int);
                }
                i
            },
            None => {
                let fresh = TorrentData::new();
                let ghost fresh_swarm = fresh;
                swarm_map_insert(&mut self.swarms, info_hash.0, fresh);
                proof {
                    lemma_push_new_key(before, key, fresh_swarm);
                    lemma_swarms_of_push(before, key, fresh_swarm);
                }
                swarm_map_len(&self.swarms) - 1
            },
        };
        let ghost mid = self.entries();
        proof {
            lemma_key_index(mid, key, index as int);
            assert(mid[index as int].1.peers() == peers_of(self@, key));
        }
        let ghost swarms_before = old(self)@;
        let ghost peers_before = peers_of(swarms_before, key);
        assert(mid[index as int].1.peers() == peers_before);
        let swarm = swarm_map_index_mut(&mut self.swarms, index);
        swarm.update_peer(peer_id, peer);
        let selected = swarm.select_peers(rng, max_num_peers_to_take, peer_id);
        let num_seeders = swarm.num_seeders();
        let num_leechers = swarm.num_leechers();
        let empty = swarm.is_empty();
        proof {
            swarm.lemma_counts();
        }
        let ghost changed = *swarm;
        let ghost updated = self.entries();
        proof {
            assert(updated == mid.update(index as int, (key, changed)));
            lemma_update_value(mid, index as int, changed);
            lemma_swarms_of_update(mid, index as int, changed);
            assert(swarms_of(updated) =~= swarms_before.insert(key, changed.peers()));
        }
        if empty {
            swarm_map_swap_remove_index(&mut self.swarms, index);
            proof {
                lemma_swap_remove(updated, index as int);
                lemma_swarms_of_swap_remove(updated, index as int);
                assert(self@ =~= swarms_before.remove(key));
            }
        }
        AnnounceOutcome { num_seeders, num_leechers, selected }
    }

    /// Removes the peers that are not live at `now`, then the swarms
    /// that are left without peers and those of torrents that the access
    /// list does not let be served.
    pub fn clean(
        &mut self,
        access_list: &AccessList,
        mode: AccessListMode,
        now: SecondsSinceServerStart,
    )
        requires
            old(self).wf(),
        ensures
            final(self).wf(),
            final(self)@ == swarms_after_clean(old(self)@, access_list@, mode, now),
    {
        let ghost initial = self@;
        let ghost list = access_list@;
        let mut len = swarm_map_len(&self.swarms);
        let mut i: usize = 0;
        proof {
            let entries = swarm_map_entries(self.swarms);
            assert forall|j: int| 0 <= j < entries.len() implies initial.contains_key(
                (#[trigger] entries[j]).0,
            ) && entries[j].1.wf() && entries[j].1.peers() == initial[entries[j].0] by {
                lemma_key_index(entries, entries[j].0, j);
            }
        }
        while i < len
            invariant
                i <= len,
                len == swarm_map_entries(self.swarms).len(),
                list == access_list@,
                distinct_keys(swarm_map_entries(self.swarms)),
                forall|j: int|
                    0 <= j < len ==> initial.contains_key(
                        (#[trigger] swarm_map_entries(self.swarms)[j]).0,
                    ) && swarm_map_entries(self.swarms)[j].1.wf(),
                forall|j: int|
                    0 <= j < i ==> (#[trigger] swarm_map_entries(self.swarms)[j]).1.peers().len()
                        > 0 && swarm_map_entries(self.swarms)[j].1.peers() == live_peers(
                        initial[swarm_map_entries(self.swarms)[j].0],
                        now,
                    ) && allowed(list, mode, swarm_map_entries(self.swarms)[j].0),
                forall|j: int|
                    i <= j < len ==> (#[trigger] swarm_map_entries(self.swarms)[j]).1.peers()
                        == initial[swarm_map_entries(self.swarms)[j].0],
                forall|key: [u8; 20]|
                    initial.contains_key(key) && allowed(list, mode, key) && live_peers(
                        initial[key],
                        now,
                    ).len() > 0 ==> #[trigger] has_key(swarm_map_entries(self.swarms), key),
            decreases len - i,
        {
            let ghost entries = swarm_map_entries(self.swarms);
            let key: [u8; 20] = match swarm_map_get_index(&self.swarms, i) {
                Some((key, _)) => *key,
                None => [0u8; 20],
            };
            assert(key == entries[i as int].0);
            let mut keep = false;
            if access_list.allows(mode, &key) {
                let swarm = swarm_map_index_mut(&mut self.swarms, i);
                keep = swarm.clean(now);
            }
            let ghost cleaned = swarm_map_entries(self.swarms);
            proof {
                if allowed(list, mode, key) {
                    lemma_update_value(entries, i as int, cleaned[i as int].1);
                    assert(cleaned == entries.update(i as int, (key, cleaned[i as int].1)));
                    assert forall|j: int| 0 <= j < len && j != i implies #[trigger] cleaned[j]
                        == entries[j] by {}
                } else {
                    assert(cleaned == entries);
                }
            }
            if keep {
                proof {
                    assert forall|other: [u8; 20]|
                        initial.contains_key(other) && allowed(list, mode, other) && live_peers(
                            initial[other],
                            now,
                        ).len() > 0 implies #[trigger] has_key(cleaned, other) by {
                        assert(has_key(entries, other));
                    }
                }
                i = i + 1;
            } else {
                swarm_map_swap_remove_index(&mut self.swarms, i);
                len = len - 1;
                proof {
                    let after = swarm_map_entries(self.swarms);
                    lemma_swap_remove(cleaned, i as int);
                    assert forall|j: int| 0 <= j < len implies initial.contains_key(
                        (#[trigger] after[j]).0,
                    ) && after[j].1.wf() by {
                        if j == i {
                            assert(after[j] == cleaned[len as int]);
                        } else {
                            assert(after[j] == cleaned[j]);
                        }
                    }
                    assert forall|j: int| 0 <= j < i implies (#[trigger] after[j]).1.peers().len()
                        > 0 && after[j].1.peers() == live_peers(initial[after[j].0], now)
                        && allowed(list, mode, after[j].0) by {
                        assert(after[j] == cleaned[j]);
                    }
                    assert forall|j: int| i <= j < len implies (#[trigger] after[j]).1.peers()
                        == initial[after[j].0] by {
                        if j == i {
                            assert(after[j] == cleaned[len as int]);
                        } else {
                            assert(after[j] == cleaned[j]);
                        }
                    }
                    assert forall|other: [u8; 20]|
                        initial.contains_key(other) && allowed(list, mode, other) && live_peers(
                            initial[other],
                            now,
                        ).len() > 0 implies #[trigger] has_key(after, other) by {
                        assert(has_key(entries, other));
                        assert(other != key);
                        assert(has_key(cleaned, other));
                    }
                }
            }
        }
        swarm_map_shrink_to_fit(&mut self.swarms);
        proof {
            let entries = swarm_map_entries(self.swarms);
            let wanted = swarms_after_clean(initial, list, mode, now);
            assert forall|key: [u8; 20]| has_key(entries, key) implies wanted.contains_key(key)
                && #[trigger] swarms_of(entries)[key] == wanted[key] by {
                let j = key_index(entries, key);
                assert(entries[j].0 == key);
            }
            assert(swarms_of(entries) =~= wanted);
        }
    }
}

/// There are as many swarms as entries with distinct info hashes.
proof fn lemma_swarms_of_dom(entries: Seq<([u8; 20], TorrentData)>)
    requires
        distinct_keys(entries),
    ensures
        swarms_of(entries).dom().finite(),
        swarms_of(entries).dom().len() == entries.len(),
    decreases entries.len(),
{
    if entries.len() == 0 {
        assert(swarms_of(entries).dom() =~= Set::<[u8; 20]>::empty());
    } else {
        let front = entries.drop_last();
        let last = entries.last();
        lemma_swarms_of_dom(front);
        assert(!has_key(front, last.0)) by {
            if has_key(front, last.0) {
                let i = key_index(front, last.0);
                assert(entries[i].0 == entries[entries.len() - 1].0);
            }
        }
        assert(entries =~= front.push(last));
        lemma_swarms_of_push(front, last.0, last.1);
        assert(swarms_of(entries).dom() =~= swarms_of(front).dom().insert(last.0));
        assert(!swarms_of(front).dom().contains(last.0));
    }
}

/// An announce of a peer with an address of the family of the swarms
/// leaves every peer with an address of that family.
pub proof fn lemma_family_after_announce(
    swarms: Map<[u8; 20], Seq<([u8; 20], Peer)>>,
    ipv4: bool,
    info_hash: [u8; 20],
    peer_id: [u8; 20],
    peer: Peer,
)
    requires
        family_is(swarms, ipv4),
        peer.ip_address.spec_is_ipv4() == ipv4,
    ensures
        family_is(swarms_after_announce(swarms, info_hash, peer_id, peer), ipv4),
        forall|i: int|
            0 <= i < apply_announce(peers_of(swarms, info_hash), peer_id, peer).len() ==> (
            #[trigger] apply_announce(
                peers_of(swarms, info_hash),
                peer_id,
                peer,
            )[i]).1.ip_address.spec_is_ipv4() == ipv4,
{
    let before = peers_of(swarms, info_hash);
    let after = apply_announce(before, peer_id, peer);
    let result = swarms_after_announce(swarms, info_hash, peer_id, peer);
    lemma_apply_announce_members(before, peer_id, peer);
    assert forall|i: int| 0 <= i < after.len() implies (
    #[trigger] after[i]).1.ip_address.spec_is_ipv4() == ipv4 by {
        if after[i] != (peer_id, peer) {
            let j = choose|j: int| 0 <= j < before.len() && before[j] == after[i];
            assert(swarms[info_hash][j].1.ip_address.spec_is_ipv4() == ipv4);
        }
    }
    assert forall|key: [u8; 20], i: int|
        result.contains_key(key) && 0 <= i < result[key].len() implies (
    #[trigger] result[key][i]).1.ip_address.spec_is_ipv4() == ipv4 by {
        if key == info_hash {
            assert(result[key][i] == after[i]);
        } else {
            assert(result[key][i] == swarms[key][i]);
        }
    }
}

/// Cleaning leaves every peer with an address of the family of the
/// swarms.
pub proof fn lemma_family_after_clean(
    swarms: Map<[u8; 20], Seq<([u8; 20], Peer)>>,
    ipv4: bool,
    list: Set<[u8; 20]>,
    mode: AccessListMode,
    now: SecondsSinceServerStart,
)
    requires
        family_is(swarms, ipv4),
    ensures
        family_is(swarms_after_clean(swarms, list, mode, now), ipv4),
{
    let result = swarms_after_clean(swarms, list, mode, now);
    assert forall|key: [u8; 20], i: int|
        result.contains_key(key) && 0 <= i < result[key].len() implies (
    #[trigger] result[key][i]).1.ip_address.spec_is_ipv4() == ipv4 by {
        lemma_live_peers_members(swarms[key], now);
        let live = live_peers(swarms[key], now);
        assert(swarms[key].contains(live[i]));
        let j = choose|j: int| 0 <= j < swarms[key].len() && swarms[key][j] == live[i];
        assert(swarms[key][j].1.ip_address.spec_is_ipv4() == ipv4);
    }
}

/// The swarms of one worker: those of the IPv4 peers and those of the
/// IPv6 peers, apart from each other.
pub struct TorrentMaps {
    pub ipv4: TorrentMap,
    pub ipv6: TorrentMap,
}

impl TorrentMaps {
    /// What holds of the swarms at rest: both maps are at rest, and no
    /// peer stands in the map of the other address family.
    pub open spec fn wf(&self) -> bool {
        &&& self.ipv4.wf()
        &&& self.ipv6.wf()
        &&& family_is(self.ipv4@, true)
        &&& family_is(self.ipv6@, false)
    }

    /// No swarms.
    pub fn new() -> (maps: Self)
        ensures
            maps.wf(),
            maps.ipv4@ == Map::<[u8; 20], Seq<([u8; 20], Peer)>>::empty(),
            maps.ipv6@ == Map::<[u8; 20], Seq<([u8; 20], Peer)>>::empty(),
    {
        TorrentMaps { ipv4: TorrentMap::new(), ipv6: TorrentMap::new() }
    }

    /// Returns true if torrent is to be kept
    pub fn clean_torrent_and_peers(now: SecondsSinceServerStart, torrent: &mut TorrentData) -> (keep:
        bool)
        requires
            old(torrent).wf(),
        ensures
            final(torrent).wf(),
            final(torrent).peers() == live_peers(old(torrent).peers(), now),
            keep == (final(torrent).peers().len() > 0),
    {
        torrent.clean(now)
    }

    /// Remove disallowed and inactive torrents, as cleaning at `now`
    /// leaves them.
    pub fn clean_at(
        &mut self,
        config: &Config,
        access_list: &AccessList,
        now: SecondsSinceServerStart,
    )
        requires
            old(self).wf(),
        ensures
            final(self).wf(),
            final(self).ipv4@ == swarms_after_clean(
                old(self).ipv4@,
                access_list@,
                config.access_list.mode,
                now,
            ),
            final(self).ipv6@ == swarms_after_clean(
                old(self).ipv6@,
                access_list@,
                config.access_list.mode,
                now,
            ),
    {
        let mode = config.access_list.mode;
        proof {
            lemma_family_after_clean(self.ipv4@, true, access_list@, mode, now);
            lemma_family_after_clean(self.ipv6@, false, access_list@, mode, now);
        }
        self.ipv4.clean(access_list, mode, now);
        self.ipv6.clean(access_list, mode, now);
    }

    /// Remove disallowed and inactive torrents, as cleaning at the
    /// moment of the call leaves them.
    pub fn clean(
        &mut self,
        config: &Config,
        access_list: &AccessList,
        server_start_instant: &ServerStartInstant,
    )
        requires
            old(self).wf(),
        ensures
            final(self).wf(),
            exists|now: SecondsSinceServerStart|
                final(self).ipv4@ == #[trigger] swarms_after_clean(
                    old(self).ipv4@,
                    access_list@,
                    config.access_list.mode,
                    now,
                ) && final(self).ipv6@ == swarms_after_clean(
                    old(self).ipv6@,
                    access_list@,
                    config.access_list.mode,
                    now,
                ),
    {
        let now = server_start_instant.seconds_elapsed();
        self.clean_at(config, access_list, now);
    }
}

impl Default for TorrentMaps {
    fn default() -> (maps: Self)
        ensures
            maps.wf(),
            maps.ipv4@ == Map::<[u8; 20], Seq<([u8; 20], Peer)>>::empty(),
            maps.ipv6@ == Map::<[u8; 20], Seq<([u8; 20], Peer)>>::empty(),
    {
        TorrentMaps::new()
    }
}

/// After cleaning at `now`, every peer of every swarm is live at `now`,
/// and every swarm has a peer and a torrent that the access list lets be
/// served.
pub proof fn lemma_clean_keeps_live(
    swarms: Map<[u8; 20], Seq<([u8; 20], Peer)>>,
    list: Set<[u8; 20]>,
    mode: AccessListMode,
    now: SecondsSinceServerStart,
)
    ensures
        forall|key: [u8; 20], i: int|
            swarms_after_clean(swarms, list, mode, now).contains_key(key) && 0 <= i
                < swarms_after_clean(swarms, list, mode, now)[key].len() ==> (
            #[trigger] swarms_after_clean(swarms, list, mode, now)[key][i]).1.valid_until.0
                >= now.0,
        forall|key: [u8; 20]|
            #[trigger] swarms_after_clean(swarms, list, mode, now).contains_key(key) ==> allowed(
                list,
                mode,
                key,
            ) && swarms_after_clean(swarms, list, mode, now)[key].len() > 0,
{
    let result = swarms_after_clean(swarms, list, mode, now);
    assert forall|key: [u8; 20], i: int|
        result.contains_key(key) && 0 <= i < result[key].len() implies (
    #[trigger] result[key][i]).1.valid_until.0 >= now.0 by {
        lemma_live_peers_members(swarms[key], now);
    }
}

/// A peer that announces again with the status of its last announce
/// leaves the torrents that have swarms as they were, and the number of
/// peers and the counts of each swarm.
pub proof fn lemma_repeated_announce_keeps_swarms(
    swarms: Map<[u8; 20], Seq<([u8; 20], Peer)>>,
    info_hash: [u8; 20],
    peer_id: [u8; 20],
    first: Peer,
    second: Peer,
    status: PeerStatus,
)
    requires
        first.status != PeerStatus::Stopped,
        second.status == first.status,
        swarms.contains_key(info_hash) ==> distinct_keys(swarms[info_hash]),
    ensures
        ({
            let once = swarms_after_announce(swarms, info_hash, peer_id, first);
            let twice = swarms_after_announce(once, info_hash, peer_id, second);
            &&& twice.dom() == once.dom()
            &&& twice[info_hash].len() == once[info_hash].len()
            &&& count_status(twice[info_hash], status) == count_status(once[info_hash], status)
            &&& forall|other: [u8; 20]|
                other != info_hash && once.contains_key(other) ==> #[trigger] twice[other]
                    == once[other]
        }),
{
    let before = peers_of(swarms, info_hash);
    let once = swarms_after_announce(swarms, info_hash, peer_id, first);
    let twice = swarms_after_announce(once, info_hash, peer_id, second);
    crate::swarm::lemma_repeated_announce(before, peer_id, first, second, status);
    let after_first = apply_announce(before, peer_id, first);
    assert(after_first.len() > 0);
    assert(once[info_hash] == after_first);
    assert(peers_of(once, info_hash) == after_first);
    assert(twice.dom() =~= once.dom());
}

} // verus!
