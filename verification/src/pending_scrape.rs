//! Scrape requests that are split over several request workers: which
//! worker gets which info hashes, and how the answers of the workers
//! become one response in the order of the request.

use crate::common::InfoHash;
use crate::common::TransactionId;
use crate::config::Config;
use crate::messages::PendingScrapeRequest;
use crate::messages::PendingScrapeResponse;
use crate::messages::RequestWorkerIndex;
use crate::ordered::distinct_keys;
use crate::ordered::entries_map;
use crate::ordered::has_key;
use crate::ordered::key_index;
use crate::ordered::lemma_entries_map_push;
use crate::ordered::lemma_entries_map_swap_remove;
use crate::ordered::lemma_key_index;
use crate::ordered::lemma_push_new_key;
use crate::ordered::lemma_swap_remove;
use crate::ordered::swap_remove_at;
use crate::request::ScrapeRequest;
use crate::response::ScrapeResponse;
use crate::response::TorrentScrapeStatistics;
use crate::time::SecondsSinceServerStart;
use crate::time::ValidUntil;
use vstd::prelude::*;

verus! {

/// Whether the counts stand in the order of their places in the
/// request, each place once.
pub open spec fn sorted_by_index(stats: Seq<(usize, TorrentScrapeStatistics)>) -> bool {
    forall|i: int, j: int|
        0 <= i < j < stats.len() ==> (#[trigger] stats[i]).0 < (#[trigger] stats[j]).0
}

/// The place in the list at which counts for the place `index` of the
/// request stand or are to be put: behind all counts for earlier places.
pub open spec fn insert_position(stats: Seq<(usize, TorrentScrapeStatistics)>, index: usize) -> int
    decreases stats.len(),
{
    if stats.len() == 0 {
        0
    } else if stats.last().0 < index {
        stats.len() as int
    } else {
        insert_position(stats.drop_last(), index)
    }
}

/// The list with the counts `stat` for the place `index` of the
/// request: in the place of what the list held for that place, or put in
/// so that the order of the places is kept.
pub open spec fn sorted_insert(
    stats: Seq<(usize, TorrentScrapeStatistics)>,
    index: usize,
    stat: TorrentScrapeStatistics,
) -> Seq<(usize, TorrentScrapeStatistics)> {
    let position = insert_position(stats, index);
    if position < stats.len() && stats[position].0 == index {
        stats.update(position, (index, stat))
    } else {
        stats.insert(position, (index, stat))
    }
}

/// The list after the counts of one answer have been put in, one after
/// the other.
pub open spec fn add_response(
    stats: Seq<(usize, TorrentScrapeStatistics)>,
    answer: Seq<(usize, TorrentScrapeStatistics)>,
) -> Seq<(usize, TorrentScrapeStatistics)>
    decreases answer.len(),
{
    if answer.len() == 0 {
        stats
    } else {
        sorted_insert(add_response(stats, answer.drop_last()), answer.last().0, answer.last().1)
    }
}

/// The list after the answers have been put in, in the order in which
/// they came.
pub open spec fn merge_responses(
    answers: Seq<Seq<(usize, TorrentScrapeStatistics)>>,
) -> Seq<(usize, TorrentScrapeStatistics)>
    decreases answers.len(),
{
    if answers.len() == 0 {
        Seq::empty()
    } else {
        add_response(merge_responses(answers.drop_last()), answers.last())
    }
}

/// The counts of the list without their places.
pub open spec fn stats_in_order(stats: Seq<(usize, TorrentScrapeStatistics)>) -> Seq<
    TorrentScrapeStatistics,
> {
    stats.map_values(|entry: (usize, TorrentScrapeStatistics)| entry.1)
}

/// Whether each of the counts is what `want` holds at its place.
pub open spec fn agrees_with(
    stats: Seq<(usize, TorrentScrapeStatistics)>,
    want: Seq<TorrentScrapeStatistics>,
) -> bool {
    forall|i: int|
        0 <= i < stats.len() ==> (#[trigger] stats[i]).0 < want.len() && stats[i].1
            == want[stats[i].0 as int]
}

/// Where a place stands in a list in the order of the places.
pub proof fn lemma_insert_position(
    stats: Seq<(usize, TorrentScrapeStatistics)>,
    index: usize,
    position: int,
)
    requires
        sorted_by_index(stats),
        0 <= position <= stats.len(),
        forall|j: int| 0 <= j < position ==> (#[trigger] stats[j]).0 < index,
        position == stats.len() || stats[position].0 >= index,
    ensures
        insert_position(stats, index) == position,
    decreases stats.len(),
{
    if stats.len() > 0 {
        if stats.last().0 < index {
            if position < stats.len() {
                assert(stats[position].0 <= stats[stats.len() - 1].0);
            }
        } else {
            assert(position < stats.len()) by {
                if position == stats.len() {
                    assert(stats[stats.len() - 1].0 < index);
                }
            }
            let front = stats.drop_last();
            assert(sorted_by_index(front)) by {
                assert forall|i: int, j: int| 0 <= i < j < front.len() implies (
                #[trigger] front[i]).0 < (#[trigger] front[j]).0 by {
                    assert(front[i] == stats[i]);
                    assert(front[j] == stats[j]);
                }
            }
            assert forall|j: int| 0 <= j < position implies (#[trigger] front[j]).0 < index by {
                assert(front[j] == stats[j]);
            }
            if position < front.len() {
                assert(front[position] == stats[position]);
            }
            lemma_insert_position(front, index, position);
        }
    }
}

/// The place at which counts stand or are to be put lies behind all
/// counts for earlier places and before all counts for later ones.
pub proof fn lemma_insert_position_bounds(
    stats: Seq<(usize, TorrentScrapeStatistics)>,
    index: usize,
)
    requires
        sorted_by_index(stats),
    ensures
        0 <= insert_position(stats, index) <= stats.len(),
        forall|j: int|
            0 <= j < insert_position(stats, index) ==> (#[trigger] stats[j]).0 < index,
        forall|j: int|
            insert_position(stats, index) <= j < stats.len() ==> (#[trigger] stats[j]).0 >= index,
    decreases stats.len(),
{
    if stats.len() > 0 {
        let last = stats.len() - 1;
        if stats.last().0 < index {
            assert forall|j: int| 0 <= j < stats.len() implies (#[trigger] stats[j]).0 < index by {
                if j < last {
                    assert(stats[j].0 < stats[last].0);
                }
            }
        } else {
            let front = stats.drop_last();
            assert(sorted_by_index(front)) by {
                assert forall|i: int, j: int| 0 <= i < j < front.len() implies (
                #[trigger] front[i]).0 < (#[trigger] front[j]).0 by {
                    assert(front[i] == stats[i]);
                    assert(front[j] == stats[j]);
                }
            }
            lemma_insert_position_bounds(front, index);
            let position = insert_position(front, index);
            assert forall|j: int| 0 <= j < position implies (#[trigger] stats[j]).0 < index by {
                assert(front[j] == stats[j]);
            }
            assert forall|j: int| position <= j < stats.len() implies (#[trigger] stats[j]).0
                >= index by {
                if j < last {
                    assert(front[j] == stats[j]);
                }
            }
        }
    }
}

/// Putting counts into a list in the order of the places keeps that
/// order; the list then holds the new counts for their place, and for
/// every other place what it held before.
pub proof fn lemma_sorted_insert(
    stats: Seq<(usize, TorrentScrapeStatistics)>,
    index: usize,
    stat: TorrentScrapeStatistics,
)
    requires
        sorted_by_index(stats),
    ensures
        sorted_by_index(sorted_insert(stats, index, stat)),
        forall|i: int|
            0 <= i < sorted_insert(stats, index, stat).len() ==> (#[trigger] sorted_insert(
                stats,
                index,
                stat,
            )[i]) == (index, stat) || stats.contains(sorted_insert(stats, index, stat)[i]),
        has_key(sorted_insert(stats, index, stat), index),
        forall|other: usize|
            has_key(stats, other) ==> #[trigger] has_key(sorted_insert(stats, index, stat), other),
{
    let after = sorted_insert(stats, index, stat);
    let position = insert_position(stats, index);
    lemma_insert_position_bounds(stats, index);
    if position < stats.len() && stats[position].0 == index {
        assert forall|i: int, j: int| 0 <= i < j < after.len() implies (#[trigger] after[i]).0 < (
        #[trigger] after[j]).0 by {
            assert(after[i].0 == stats[i].0);
            assert(after[j].0 == stats[j].0);
        }
        assert forall|i: int| 0 <= i < after.len() implies (#[trigger] after[i]) == (index, stat)
            || stats.contains(after[i]) by {
            if i != position {
                assert(after[i] == stats[i]);
            }
        }
        assert(after[position].0 == index);
        assert forall|other: usize| has_key(stats, other) implies #[trigger] has_key(
            after,
            other,
        ) by {
            let k = key_index(stats, other);
            assert(after[k].0 == other);
        }
    } else {
        assert forall|i: int, j: int| 0 <= i < j < after.len() implies (#[trigger] after[i]).0 < (
        #[trigger] after[j]).0 by {
            let oi = if i < position {
                i
            } else {
                i - 1
            };
            let oj = if j < position {
                j
            } else {
                j - 1
            };
            if i != position {
                assert(after[i] == stats[oi]);
            }
            if j != position {
                assert(after[j] == stats[oj]);
            }
        }
        assert forall|i: int| 0 <= i < after.len() implies (#[trigger] after[i]) == (index, stat)
            || stats.contains(after[i]) by {
            if i < position {
                assert(after[i] == stats[i]);
            } else if i > position {
                assert(after[i] == stats[i - 1]);
            }
        }
        assert(after[position].0 == index);
        assert forall|other: usize| has_key(stats, other) implies #[trigger] has_key(
            after,
            other,
        ) by {
            let k = key_index(stats, other);
            let nk = if k < position {
                k
            } else {
                k + 1
            };
            assert(after[nk] == stats[k]);
        }
    }
}

/// Putting the counts of an answer into a list keeps the order of the
/// places. Where the list and the answer agree with `want`, so does the
/// result, and it holds counts for every place that the list or the
/// answer holds counts for.
pub proof fn lemma_add_response(
    stats: Seq<(usize, TorrentScrapeStatistics)>,
    answer: Seq<(usize, TorrentScrapeStatistics)>,
    want: Seq<TorrentScrapeStatistics>,
)
    requires
        sorted_by_index(stats),
        agrees_with(stats, want),
        agrees_with(answer, want),
    ensures
        sorted_by_index(add_response(stats, answer)),
        agrees_with(add_response(stats, answer), want),
        forall|index: usize|
            has_key(stats, index) || has_key(answer, index) ==> #[trigger] has_key(
                add_response(stats, answer),
                index,
            ),
    decreases answer.len(),
{
    if answer.len() > 0 {
        let front = answer.drop_last();
        let last = answer.last();
        assert(agrees_with(front, want)) by {
            assert forall|i: int| 0 <= i < front.len() implies (#[trigger] front[i]).0 < want.len()
                && front[i].1 == want[front[i].0 as int] by {
                assert(front[i] == answer[i]);
            }
        }
        lemma_add_response(stats, front, want);
        let before = add_response(stats, front);
        let after = add_response(stats, answer);
        lemma_sorted_insert(before, last.0, last.1);
        assert(answer[answer.len() - 1] == last);
        assert forall|i: int| 0 <= i < after.len() implies (#[trigger] after[i]).0 < want.len()
            && after[i].1 == want[after[i].0 as int] by {
            if after[i] != (last.0, last.1) {
                let j = choose|j: int| 0 <= j < before.len() && before[j] == after[i];
                assert(before[j].0 < want.len());
            }
        }
        assert forall|index: usize|
            has_key(stats, index) || has_key(answer, index) implies #[trigger] has_key(
            after,
            index,
        ) by {
            if has_key(answer, index) && !has_key(stats, index) {
                let k = key_index(answer, index);
                if k < front.len() {
                    assert(front[k].0 == index);
                    assert(has_key(before, index));
                }
            } else {
                assert(has_key(before, index));
            }
        }
    }
}

/// Putting answers into an empty list, in whatever order they come,
/// keeps the order of the places. Where the answers agree with `want`, so
/// does the result, and it holds counts for every place that an answer
/// holds counts for.
pub proof fn lemma_merge_responses(
    answers: Seq<Seq<(usize, TorrentScrapeStatistics)>>,
    want: Seq<TorrentScrapeStatistics>,
)
    requires
        forall|r: int| 0 <= r < answers.len() ==> agrees_with(#[trigger] answers[r], want),
    ensures
        sorted_by_index(merge_responses(answers)),
        agrees_with(merge_responses(answers), want),
        forall|r: int, index: usize|
            0 <= r < answers.len() && has_key(#[trigger] answers[r], index) ==> #[trigger] has_key(
                merge_responses(answers),
                index,
            ),
    decreases answers.len(),
{
    if answers.len() > 0 {
        let front = answers.drop_last();
        let last = answers.last();
        assert forall|r: int| 0 <= r < front.len() implies agrees_with(
            #[trigger] front[r],
            want,
        ) by {
            assert(front[r] == answers[r]);
        }
        lemma_merge_responses(front, want);
        assert(answers[answers.len() - 1] == last);
        lemma_add_response(merge_responses(front), last, want);
        assert forall|r: int, index: usize|
            0 <= r < answers.len() && has_key(
                #[trigger] answers[r],
                index,
            ) implies #[trigger] has_key(merge_responses(answers), index) by {
            if r < front.len() {
                assert(front[r] == answers[r]);
                assert(has_key(merge_responses(front), index));
            }
        }
    }
}

/// A list in the order of the places that holds counts for each of the
/// first `want.len()` places, and for no other, holds them place by place.
/// (`want` is as long as a vector can be, at most.)
pub proof fn lemma_complete_listing(
    stats: Seq<(usize, TorrentScrapeStatistics)>,
    want: Seq<TorrentScrapeStatistics>,
)
    requires
        sorted_by_index(stats),
        agrees_with(stats, want),
        want.len() <= usize::MAX,
        forall|index: usize| index < want.len() ==> #[trigger] has_key(stats, index),
    ensures
        stats_in_order(stats) == want,
{
    assert forall|i: int| 0 <= i < stats.len() implies (#[trigger] stats[i]).0 == i by {
        lemma_place_by_place(stats, want, i);
    }
    if stats.len() < want.len() {
        let missing = stats.len() as usize;
        assert(has_key(stats, missing));
        let k = key_index(stats, missing);
        assert(stats[k].0 == k);
    }
    if stats.len() > want.len() {
        assert(stats[want.len() as int].0 == want.len());
    }
    assert(stats_in_order(stats) =~= want);
}

proof fn lemma_place_by_place(
    stats: Seq<(usize, TorrentScrapeStatistics)>,
    want: Seq<TorrentScrapeStatistics>,
    i: int,
)
    requires
        sorted_by_index(stats),
        agrees_with(stats, want),
        forall|index: usize| index < want.len() ==> #[trigger] has_key(stats, index),
        0 <= i < stats.len(),
    ensures
        stats[i].0 == i,
    decreases i,
{
    if i > 0 {
        lemma_place_by_place(stats, want, i - 1);
        assert(stats[i - 1].0 < stats[i].0);
    }
    if stats[i].0 > i {
        let skipped = i as usize;
        assert(skipped < want.len());
        assert(has_key(stats, skipped));
        let k = key_index(stats, skipped);
        if k < i {
            if k < i - 1 {
                assert(stats[k].0 < stats[i - 1].0);
            }
        } else if k > i {
            assert(stats[i].0 < stats[k].0);
        }
        assert(false);
    }
}

/// Whether one of the answers holds counts for the place `index` of
/// the request.
pub open spec fn covered(
    answers: Seq<Seq<(usize, TorrentScrapeStatistics)>>,
    index: usize,
) -> bool {
    exists|r: int| 0 <= r < answers.len() && has_key(#[trigger] answers[r], index)
}

/// The answers of the request workers to the parts of a scrape
/// request become the counts of its torrents in the order of the request,
/// in whatever order the answers come: where each answer gives for a
/// place of the request the counts of the torrent at that place, and the
/// answers between them cover every place.
pub proof fn lemma_scrape_assembly(
    answers: Seq<Seq<(usize, TorrentScrapeStatistics)>>,
    want: Seq<TorrentScrapeStatistics>,
)
    requires
        want.len() <= usize::MAX,
        forall|r: int| 0 <= r < answers.len() ==> agrees_with(#[trigger] answers[r], want),
        forall|index: usize| index < want.len() ==> #[trigger] covered(answers, index),
    ensures
        stats_in_order(merge_responses(answers)) == want,
{
    lemma_merge_responses(answers, want);
    let merged = merge_responses(answers);
    assert forall|index: usize| index < want.len() implies #[trigger] has_key(merged, index) by {
        assert(covered(answers, index));
        let r = choose|r: int| 0 <= r < answers.len() && has_key(#[trigger] answers[r], index);
        assert(has_key(answers[r], index));
    }
    lemma_complete_listing(merged, want);
}

/// What is known of a scrape request that has been split and is not
/// answered yet.
#[derive(Clone, Debug)]
pub struct PendingScrape {
    /// Number of request workers that have not answered yet.
    num_pending: usize,
    /// After this second the request counts as lost.
    valid_until: ValidUntil,
    /// The counts that have come in, each with the place that its info
    /// hash has in the request, in the order of those places.
    torrent_stats: Vec<(usize, TorrentScrapeStatistics)>,
}

/// A pending scrape request as plain values.
pub struct PendingScrapeView {
    pub num_pending: usize,
    pub valid_until: ValidUntil,
    pub torrent_stats: Seq<(usize, TorrentScrapeStatistics)>,
}

impl View for PendingScrape {
    type V = PendingScrapeView;

    closed spec fn view(&self) -> PendingScrapeView {
        PendingScrapeView {
            num_pending: self.num_pending,
            valid_until: self.valid_until,
            torrent_stats: self.torrent_stats@,
        }
    }
}

/// Puts counts for a place of the request into the list.
fn insert_stat(
    stats: &mut Vec<(usize, TorrentScrapeStatistics)>,
    index: usize,
    stat: TorrentScrapeStatistics,
)
    requires
        sorted_by_index(old(stats)@),
    ensures
        final(stats)@ == sorted_insert(old(stats)@, index, stat),
        sorted_by_index(final(stats)@),
{
    let mut position: usize = 0;
    while position < stats.len() && stats[position].0 < index
        invariant
            position <= stats.len(),
            forall|j: int| 0 <= j < position ==> (#[trigger] stats@[j]).0 < index,
        decreases stats.len() - position,
    {
        position = position + 1;
    }
    proof {
        lemma_insert_position(stats@, index, position as int);
        lemma_sorted_insert(stats@, index, stat);
    }
    if position < stats.len() && stats[position].0 == index {
        stats[position] = (index, stat);
    } else {
        stats.insert(position, (index, stat));
    }
}

/// Puts the counts of an answer into the list.
fn add_stats(
    stats: &mut Vec<(usize, TorrentScrapeStatistics)>,
    answer: &Vec<(usize, TorrentScrapeStatistics)>,
)
    requires
        sorted_by_index(old(stats)@),
    ensures
        final(stats)@ == add_response(old(stats)@, answer@),
        sorted_by_index(final(stats)@),
{
    let ghost before = stats@;
    let mut i: usize = 0;
    while i < answer.len()
        invariant
            i <= answer.len(),
            sorted_by_index(stats@),
            stats@ == add_response(before, answer@.take(i as int)),
        decreases answer.len() - i,
    {
        proof {
            assert(answer@.take(i + 1).drop_last() =~= answer@.take(i as int));
        }
        insert_stat(stats, answer[i].0, answer[i].1);
        i = i + 1;
    }
    assert(answer@.take(answer.len() as int) =~= answer@);
}

/// The pending scrape requests of a socket worker as plain values.
pub open spec fn pending_views(entries: Seq<(TransactionId, PendingScrape)>) -> Seq<
    (TransactionId, PendingScrapeView),
> {
    entries.map_values(|entry: (TransactionId, PendingScrape)| (entry.0, entry.1@))
}

/// The pending requests that are still valid at `now`.
pub open spec fn valid_pending(
    pending: Map<TransactionId, PendingScrapeView>,
    now: SecondsSinceServerStart,
) -> Map<TransactionId, PendingScrapeView> {
    Map::new(
        |id: TransactionId| pending.contains_key(id) && pending[id].valid_until.spec_valid(now),
        |id: TransactionId| pending[id],
    )
}

/// Whether `after` and `finished` are what taking in the answer of a
/// request worker leads to, from the pending requests `before`.
///
/// An answer to a request that is not pending changes nothing. Else the
/// counts of the answer are put in with those that have come before; with
/// the last answer that was waited for, the request is done: it is
/// forgotten, and its counts are returned in the order of the places in
/// the request.
pub open spec fn answer_taken(
    before: Map<TransactionId, PendingScrapeView>,
    after: Map<TransactionId, PendingScrapeView>,
    response: PendingScrapeResponse,
    finished: Option<ScrapeResponse>,
) -> bool {
    if !before.contains_key(response.transaction_id) {
        after == before && finished.is_none()
    } else {
        let pending = before[response.transaction_id];
        let stats = add_response(pending.torrent_stats, response.torrent_stats@);
        if pending.num_pending <= 1 {
            &&& after == before.remove(response.transaction_id)
            &&& finished matches Some(r) && r.transaction_id == response.transaction_id
                && r.torrent_stats@ == stats_in_order(stats)
        } else {
            &&& after == before.insert(
                response.transaction_id,
                (PendingScrapeView {
                    num_pending: (pending.num_pending - 1) as usize,
                    valid_until: pending.valid_until,
                    torrent_stats: stats,
                }),
            )
            &&& finished.is_none()
        }
    }
}

/// The scrape requests of a socket worker that have been split and
/// are not answered yet, by their transaction ids.
#[derive(Clone, Debug)]
pub struct PendingScrapeResponses {
    entries: Vec<(TransactionId, PendingScrape)>,
}

impl View for PendingScrapeResponses {
    type V = Map<TransactionId, PendingScrapeView>;

    closed spec fn view(&self) -> Map<TransactionId, PendingScrapeView> {
        entries_map(pending_views(self.entries@))
    }
}

impl PendingScrapeResponses {
    /// What holds of the pending requests at rest: there is one to a
    /// transaction id, and the counts of each stand in the order of
    /// their places in the request.
    pub closed spec fn wf(&self) -> bool {
        &&& distinct_keys(pending_views(self.entries@))
        &&& forall|i: int|
            0 <= i < self.entries@.len() ==> sorted_by_index(
                (#[trigger] self.entries@[i]).1.torrent_stats@,
            )
    }

    /// The counts of a pending request stand in the order of their
    /// places in the request.
    pub proof fn lemma_sorted(&self, transaction_id: TransactionId)
        requires
            self.wf(),
            self@.contains_key(transaction_id),
        ensures
            sorted_by_index(self@[transaction_id].torrent_stats),
    {
        let views = pending_views(self.entries@);
        let i = key_index(views, transaction_id);
        assert(views[i].1 == self.entries@[i].1@);
    }

    /// No pending requests.
    pub fn new() -> (pending: Self)
        ensures
            pending.wf(),
            pending@ == Map::<TransactionId, PendingScrapeView>::empty(),
    {
        let pending = PendingScrapeResponses { entries: Vec::new() };
        assert(pending@ =~= Map::<TransactionId, PendingScrapeView>::empty());
        pending
    }

    fn find(&self, transaction_id: TransactionId) -> (found: Option<usize>)
        ensures
            match found {
                Some(i) => i < self.entries@.len() && self.entries@[i as int].0 == transaction_id,
                None => !has_key(pending_views(self.entries@), transaction_id),
            },
    {
        let mut i: usize = 0;
        while i < self.entries.len()
            invariant
                i <= self.entries.len(),
                forall|j: int| 0 <= j < i ==> (#[trigger] self.entries@[j]).0 != transaction_id,
            decreases self.entries.len() - i,
        {
            if self.entries[i].0.0 == transaction_id.0 {
                return Some(i);
            }
            i = i + 1;
        }
        proof {
            let views = pending_views(self.entries@);
            if has_key(views, transaction_id) {
                let k = key_index(views, transaction_id);
                assert(self.entries@[k].0 == transaction_id);
            }
        }
        None
    }

    /// Notes that a scrape request with the transaction id has been
    /// split into parts for `num_pending` request workers. A pending
    /// request with the same transaction id is forgotten for it.
    pub fn prepare(
        &mut self,
        transaction_id: TransactionId,
        num_pending: usize,
        valid_until: ValidUntil,
    )
        requires
            old(self).wf(),
        ensures
            final(self).wf(),
            final(self)@ == old(self)@.insert(
                transaction_id,
                (PendingScrapeView {
                    num_pending,
                    valid_until,
                    torrent_stats: Seq::<(usize, TorrentScrapeStatistics)>::empty(),
                }),
            ),
    {
        let ghost before = self@;
        match self.find(transaction_id) {
            Some(i) => {
                proof {
                    let views = pending_views(self.entries@);
                    lemma_swap_remove(views, i as int);
                    lemma_entries_map_swap_remove(views, i as int);
                    assert(pending_views(swap_remove_at(self.entries@, i as int)) =~= swap_remove_at(
                        views,
                        i as int,
                    ));
                }
                self.entries.swap_remove(i);
                assert(self.entries@ =~= swap_remove_at(old(self).entries@, i as int));
            },
            None => {},
        }
        let pending = PendingScrape { num_pending, valid_until, torrent_stats: Vec::new() };
        proof {
            let views = pending_views(self.entries@);
            assert(self@ == before.remove(transaction_id));
            assert(!has_key(views, transaction_id));
            lemma_push_new_key(views, transaction_id, pending@);
            lemma_entries_map_push(views, transaction_id, pending@);
            assert(pending_views(self.entries@.push((transaction_id, pending))) =~= views.push(
                (transaction_id, pending@),
            ));
        }
        self.entries.push((transaction_id, pending));
        assert(self@ =~= before.insert(transaction_id, pending@));
    }

    /// Takes in the answer of a request worker to one part of a scrape
    /// request. An answer to a request that is not pending changes
    /// nothing. Else the counts of the answer are put in with those that
    /// have come before; with the last answer that was waited for, the
    /// request is done: it is forgotten, and its counts are returned in
    /// the order of the places in the request.
    pub fn add_and_get_finished(&mut self, response: PendingScrapeResponse) -> (finished: Option<
        ScrapeResponse,
    >)
        requires
            old(self).wf(),
        ensures
            final(self).wf(),
            answer_taken(old(self)@, final(self)@, response, finished),
    {
        let ghost before = self@;
        let ghost views = pending_views(self.entries@);
        let transaction_id = response.transaction_id;
        match self.find(transaction_id) {
            None => None,
            Some(i) => {
                proof {
                    lemma_key_index(views, transaction_id, i as int);
                    assert(views[i as int].1 == self.entries@[i as int].1@);
                }
                if self.entries[i].1.num_pending <= 1 {
                    proof {
                        lemma_swap_remove(views, i as int);
                        lemma_entries_map_swap_remove(views, i as int);
                        assert(pending_views(swap_remove_at(self.entries@, i as int))
                            =~= swap_remove_at(views, i as int));
                    }
                    let (_, pending) = self.entries.swap_remove(i);
                    assert(self.entries@ =~= swap_remove_at(old(self).entries@, i as int));
                    let mut stats = pending.torrent_stats;
                    add_stats(&mut stats, &response.torrent_stats);
                    let mut torrent_stats: Vec<TorrentScrapeStatistics> = Vec::new();
                    let mut j: usize = 0;
                    while j < stats.len()
                        invariant
                            j <= stats.len(),
                            torrent_stats@.len() == j,
                            forall|k: int| 0 <= k < j ==> torrent_stats@[k] == stats@[k].1,
                        decreases stats.len() - j,
                    {
                        torrent_stats.push(stats[j].1);
                        j = j + 1;
                    }
                    assert(torrent_stats@ =~= stats_in_order(stats@));
                    Some(ScrapeResponse { transaction_id, torrent_stats })
                } else {
                    add_stats(&mut self.entries[i].1.torrent_stats, &response.torrent_stats);
                    self.entries[i].1.num_pending = self.entries[i].1.num_pending - 1;
                    proof {
                        let changed = self.entries@[i as int].1@;
                        crate::ordered::lemma_update_value(views, i as int, changed);
                        crate::ordered::lemma_entries_map_update(views, i as int, changed);
                        assert(pending_views(self.entries@) =~= views.update(
                            i as int,
                            (transaction_id, changed),
                        ));
                    }
                    None
                }
            },
        }
    }

    /// Forgets the pending requests that are no longer valid at `now`.
    pub fn clean(&mut self, now: SecondsSinceServerStart)
        requires
            old(self).wf(),
        ensures
            final(self).wf(),
            final(self)@ == valid_pending(old(self)@, now),
    {
        let ghost initial = self@;
        let mut i: usize = 0;
        proof {
            let views = pending_views(self.entries@);
            assert forall|j: int| 0 <= j < views.len() implies initial.contains_key(
                (#[trigger] views[j]).0,
            ) && initial[views[j].0] == views[j].1 by {
                lemma_key_index(views, views[j].0, j);
            }
        }
        while i < self.entries.len()
            invariant
                i <= self.entries@.len(),
                self.wf(),
                forall|j: int|
                    0 <= j < self.entries@.len() ==> initial.contains_key(
                        (#[trigger] pending_views(self.entries@)[j]).0,
                    ) && initial[pending_views(self.entries@)[j].0] == pending_views(
                        self.entries@,
                    )[j].1,
                forall|j: int|
                    0 <= j < i ==> (#[trigger] pending_views(
                        self.entries@,
                    )[j]).1.valid_until.spec_valid(now),
                forall|id: TransactionId|
                    initial.contains_key(id) && initial[id].valid_until.spec_valid(now)
                        ==> #[trigger] has_key(pending_views(self.entries@), id),
            decreases self.entries@.len() - i,
        {
            let ghost views = pending_views(self.entries@);
            assert(views[i as int].1 == self.entries@[i as int].1@);
            if self.entries[i].1.valid_until.valid(now) {
                i = i + 1;
            } else {
                proof {
                    lemma_swap_remove(views, i as int);
                    assert(pending_views(swap_remove_at(self.entries@, i as int))
                        =~= swap_remove_at(views, i as int));
                }
                let ghost entries_before = self.entries@;
                self.entries.swap_remove(i);
                proof {
                    assert(self.entries@ =~= swap_remove_at(entries_before, i as int));
                    let after = pending_views(self.entries@);
                    let last = views.len() - 1;
                    assert forall|j: int| 0 <= j < after.len() implies initial.contains_key(
                        (#[trigger] after[j]).0,
                    ) && initial[after[j].0] == after[j].1 by {
                        if j == i {
                            assert(after[j] == views[last]);
                        } else {
                            assert(after[j] == views[j]);
                        }
                    }
                    assert forall|j: int| 0 <= j < i implies (
                    #[trigger] after[j]).1.valid_until.spec_valid(now) by {
                        assert(after[j] == views[j]);
                    }
                    assert forall|id: TransactionId|
                        initial.contains_key(id) && initial[id].valid_until.spec_valid(
                            now,
                        ) implies #[trigger] has_key(after, id) by {
                        assert(has_key(views, id));
                        assert(id != views[i as int].0);
                    }
                    assert forall|j: int| 0 <= j < self.entries@.len() implies sorted_by_index(
                        (#[trigger] self.entries@[j]).1.torrent_stats@,
                    ) by {
                        if j == i {
                            assert(self.entries@[j] == entries_before[last]);
                        } else {
                            assert(self.entries@[j] == entries_before[j]);
                        }
                    }
                }
            }
        }
        proof {
            let views = pending_views(self.entries@);
            let wanted = valid_pending(initial, now);
            assert forall|id: TransactionId| has_key(views, id) implies wanted.contains_key(id)
                && #[trigger] entries_map(views)[id] == wanted[id] by {
                let j = key_index(views, id);
                assert(views[j].0 == id);
            }
            assert(entries_map(views) =~= wanted);
        }
    }
}

impl Default for PendingScrapeResponses {
    fn default() -> (pending: Self)
        ensures
            pending.wf(),
            pending@ == Map::<TransactionId, PendingScrapeView>::empty(),
    {
        PendingScrapeResponses::new()
    }
}

/// Whether the parts are the split of the first `count` info hashes of
/// the scrape request over the request workers: each part goes to one
/// worker, no two to the same; a part holds the info hashes whose swarms
/// its worker owns, each with its place in the request, in the order of
/// those places; each of the first `count` places is in some part; and
/// the parts stand in the order of their first places.
pub open spec fn is_split(
    parts: Seq<(RequestWorkerIndex, PendingScrapeRequest)>,
    config: &Config,
    request: ScrapeRequest,
    count: int,
) -> bool {
    &&& forall|p: int|
        0 <= p < parts.len() ==> (#[trigger] parts[p]).1.transaction_id == request.transaction_id
            && parts[p].1.info_hashes@.len() > 0
    &&& forall|p: int, q: int|
        0 <= p < parts.len() && 0 <= q < parts[p].1.info_hashes@.len() ==> {
            let entry = #[trigger] parts[p].1.info_hashes@[q];
            &&& entry.0 < count
            &&& entry.1 == request.info_hashes@[entry.0 as int]
            &&& RequestWorkerIndex::spec_from_info_hash(config, entry.1) == parts[p].0
        }
    &&& forall|p: int, q1: int, q2: int|
        0 <= p < parts.len() && 0 <= q1 < q2 < parts[p].1.info_hashes@.len() ==> (
        #[trigger] parts[p].1.info_hashes@[q1]).0 < (#[trigger] parts[p].1.info_hashes@[q2]).0
    &&& forall|a: int, b: int|
        0 <= a < parts.len() && 0 <= b < parts.len() && a != b ==> (#[trigger] parts[a]).0 != (
        #[trigger] parts[b]).0
    &&& forall|i: int| 0 <= i < count ==> #[trigger] in_some_part(parts, i)
    &&& forall|a: int, b: int|
        0 <= a < b < parts.len() ==> (#[trigger] parts[a]).1.info_hashes@[0].0 < (
        #[trigger] parts[b]).1.info_hashes@[0].0
}

/// Whether some part holds the place `i` of the request.
pub open spec fn in_some_part(
    parts: Seq<(RequestWorkerIndex, PendingScrapeRequest)>,
    i: int,
) -> bool {
    exists|p: int, q: int|
        0 <= p < parts.len() && 0 <= q < parts[p].1.info_hashes@.len() && (
        #[trigger] parts[p].1.info_hashes@[q]).0 == i
}

/// Splits a scrape request into one part for each request worker that
/// owns the swarm of one of its torrents.
pub fn split_scrape_request(config: &Config, request: &ScrapeRequest) -> (parts: Vec<
    (RequestWorkerIndex, PendingScrapeRequest),
>)
    requires
        config.request_workers > 0,
    ensures
        is_split(parts@, config, *request, request.info_hashes@.len() as int),
{
    let mut parts: Vec<(RequestWorkerIndex, PendingScrapeRequest)> = Vec::new();
    let mut i: usize = 0;
    while i < request.info_hashes.len()
        invariant
            i <= request.info_hashes.len(),
            config.request_workers > 0,
            is_split(parts@, config, *request, i as int),
        decreases request.info_hashes.len() - i,
    {
        let info_hash = request.info_hashes[i];
        let worker = RequestWorkerIndex::from_info_hash(config, info_hash);
        let ghost before = parts@;
        let mut p: usize = 0;
        while p < parts.len() && parts[p].0.0 != worker.0
            invariant
                p <= parts.len(),
                forall|j: int| 0 <= j < p ==> (#[trigger] parts@[j]).0 != worker,
            decreases parts.len() - p,
        {
            p = p + 1;
        }
        if p < parts.len() {
            parts[p].1.info_hashes.push((i, info_hash));
            proof {
                let after = parts@;
                let hashes = after[p as int].1.info_hashes@;
                let old_hashes = before[p as int].1.info_hashes@;
                assert(hashes =~= old_hashes.push((i, info_hash)));
                assert forall|j: int| 0 <= j < after.len() && j != p implies #[trigger] after[j]
                    == before[j] by {}
                assert forall|a: int, q: int|
                    0 <= a < after.len() && 0 <= q < after[a].1.info_hashes@.len() implies {
                    let entry = #[trigger] after[a].1.info_hashes@[q];
                    &&& entry.0 < i + 1
                    &&& entry.1 == request.info_hashes@[entry.0 as int]
                    &&& RequestWorkerIndex::spec_from_info_hash(config, entry.1) == after[a].0
                } by {
                    if a == p {
                        if q < old_hashes.len() {
                            assert(hashes[q] == before[a].1.info_hashes@[q]);
                        }
                    } else {
                        assert(after[a].1.info_hashes@[q] == before[a].1.info_hashes@[q]);
                    }
                }
                assert forall|a: int, q1: int, q2: int|
                    0 <= a < after.len() && 0 <= q1 < q2 < after[a].1.info_hashes@.len() implies (
                #[trigger] after[a].1.info_hashes@[q1]).0 < (
                #[trigger] after[a].1.info_hashes@[q2]).0 by {
                    if a == p {
                        assert(hashes[q1] == before[a].1.info_hashes@[q1]);
                        if q2 < old_hashes.len() {
                            assert(hashes[q2] == before[a].1.info_hashes@[q2]);
                        }
                    } else {
                        assert(after[a].1.info_hashes@[q1] == before[a].1.info_hashes@[q1]);
                        assert(after[a].1.info_hashes@[q2] == before[a].1.info_hashes@[q2]);
                    }
                }
                assert forall|k: int| 0 <= k < i + 1 implies #[trigger] in_some_part(after, k) by {
                    if k < i {
                        assert(in_some_part(before, k));
                        let (a, q) = choose|a: int, q: int|
                            0 <= a < before.len() && 0 <= q < before[a].1.info_hashes@.len() && (
                            #[trigger] before[a].1.info_hashes@[q]).0 == k;
                        if a == p {
                            assert(hashes[q] == before[a].1.info_hashes@[q]);
                            assert(after[a].1.info_hashes@[q].0 == k);
                        } else {
                            assert(after[a].1.info_hashes@[q].0 == k);
                        }
                    } else {
                        assert(after[p as int].1.info_hashes@[old_hashes.len() as int].0 == k);
                    }
                }
                assert forall|a: int| 0 <= a < after.len() implies (
                #[trigger] after[a]).1.transaction_id == request.transaction_id
                    && after[a].1.info_hashes@.len() > 0 by {
                    if a != p {
                        assert(after[a] == before[a]);
                    }
                }
                assert forall|a: int, b: int|
                    0 <= a < after.len() && 0 <= b < after.len() && a != b implies (
                #[trigger] after[a]).0 != (#[trigger] after[b]).0 by {
                    assert(after[a].0 == before[a].0);
                    assert(after[b].0 == before[b].0);
                }
                assert forall|a: int, b: int| 0 <= a < b < after.len() implies (
                #[trigger] after[a]).1.info_hashes@[0].0 < (
                #[trigger] after[b]).1.info_hashes@[0].0 by {
                    assert(before[a].1.info_hashes@.len() > 0);
                    assert(before[b].1.info_hashes@.len() > 0);
                    assert(after[a].1.info_hashes@[0] == before[a].1.info_hashes@[0]);
                    assert(after[b].1.info_hashes@[0] == before[b].1.info_hashes@[0]);
                }
            }
        } else {
            let mut info_hashes: Vec<(usize, InfoHash)> = Vec::new();
            info_hashes.push((i, info_hash));
            let part = PendingScrapeRequest {
                transaction_id: request.transaction_id,
                info_hashes,
            };
            parts.push((worker, part));
            proof {
                let after = parts@;
                let fresh = before.len() as int;
                assert forall|j: int| 0 <= j < before.len() implies #[trigger] after[j]
                    == before[j] by {}
                assert forall|a: int, q: int|
                    0 <= a < after.len() && 0 <= q < after[a].1.info_hashes@.len() implies {
                    let entry = #[trigger] after[a].1.info_hashes@[q];
                    &&& entry.0 < i + 1
                    &&& entry.1 == request.info_hashes@[entry.0 as int]
                    &&& RequestWorkerIndex::spec_from_info_hash(config, entry.1) == after[a].0
                } by {
                    if a < fresh {
                        assert(after[a].1.info_hashes@[q] == before[a].1.info_hashes@[q]);
                    }
                }
                assert forall|a: int, q1: int, q2: int|
                    0 <= a < after.len() && 0 <= q1 < q2 < after[a].1.info_hashes@.len() implies (
                #[trigger] after[a].1.info_hashes@[q1]).0 < (
                #[trigger] after[a].1.info_hashes@[q2]).0 by {
                    if a < fresh {
                        assert(after[a].1.info_hashes@[q1] == before[a].1.info_hashes@[q1]);
                        assert(after[a].1.info_hashes@[q2] == before[a].1.info_hashes@[q2]);
                    }
                }
                assert forall|k: int| 0 <= k < i + 1 implies #[trigger] in_some_part(after, k) by {
                    if k < i {
                        assert(in_some_part(before, k));
                        let (a, q) = choose|a: int, q: int|
                            0 <= a < before.len() && 0 <= q < before[a].1.info_hashes@.len() && (
                            #[trigger] before[a].1.info_hashes@[q]).0 == k;
                        assert(after[a].1.info_hashes@[q].0 == k);
                    } else {
                        assert(after[fresh].1.info_hashes@[0].0 == k);
                    }
                }
                assert forall|a: int| 0 <= a < after.len() implies (
                #[trigger] after[a]).1.transaction_id == request.transaction_id
                    && after[a].1.info_hashes@.len() > 0 by {
                    if a < fresh {
                        assert(after[a] == before[a]);
                    }
                }
                assert forall|a: int, b: int|
                    0 <= a < after.len() && 0 <= b < after.len() && a != b implies (
                #[trigger] after[a]).0 != (#[trigger] after[b]).0 by {
                    if a < fresh {
                        assert(after[a] == before[a]);
                    }
                    if b < fresh {
                        assert(after[b] == before[b]);
                    }
                }
                assert forall|a: int, b: int| 0 <= a < b < after.len() implies (
                #[trigger] after[a]).1.info_hashes@[0].0 < (
                #[trigger] after[b]).1.info_hashes@[0].0 by {
                    assert(after[a] == before[a]);
                    assert(before[a].1.info_hashes@.len() > 0);
                    assert(before[a].1.info_hashes@[0].0 < i);
                    if b < fresh {
                        assert(after[b] == before[b]);
                    }
                }
            }
        }
        i = i + 1;
    }
    parts
}

impl PendingScrapeResponses {
    /// Splits a scrape request into one part for each request worker
    /// that owns the swarm of one of its torrents, and notes that answers
    /// to that many parts are waited for.
    pub fn prepare_split_requests(
        &mut self,
        config: &Config,
        request: ScrapeRequest,
        pending_scrape_valid_until: ValidUntil,
    ) -> (parts: Vec<(RequestWorkerIndex, PendingScrapeRequest)>)
        requires
            old(self).wf(),
            config.request_workers > 0,
        ensures
            final(self).wf(),
            is_split(parts@, config, request, request.info_hashes@.len() as int),
            final(self)@ == old(self)@.insert(
                request.transaction_id,
                (PendingScrapeView {
                    num_pending: parts@.len() as usize,
                    valid_until: pending_scrape_valid_until,
                    torrent_stats: Seq::<(usize, TorrentScrapeStatistics)>::empty(),
                }),
            ),
    {
        let parts = split_scrape_request(config, &request);
        self.prepare(request.transaction_id, parts.len(), pending_scrape_valid_until);
        parts
    }
}

/// Whether `answer` answers the part of a scrape request: for each
/// info hash of the part, in their order, it gives under the place of the
/// info hash what `want` holds at that place.
pub open spec fn answers_part(
    answer: Seq<(usize, TorrentScrapeStatistics)>,
    part: PendingScrapeRequest,
    want: Seq<TorrentScrapeStatistics>,
) -> bool {
    &&& answer.len() == part.info_hashes@.len()
    &&& forall|q: int|
        0 <= q < answer.len() ==> #[trigger] answer[q] == (
            part.info_hashes@[q].0,
            want[part.info_hashes@[q].0 as int],
        )
}

/// Whether `answer` answers one of the parts.
pub open spec fn answers_some_part(
    answer: Seq<(usize, TorrentScrapeStatistics)>,
    parts: Seq<(RequestWorkerIndex, PendingScrapeRequest)>,
    want: Seq<TorrentScrapeStatistics>,
) -> bool {
    exists|p: int| 0 <= p < parts.len() && answers_part(answer, (#[trigger] parts[p]).1, want)
}

/// Whether one of the answers answers the part.
pub open spec fn part_is_answered(
    answers: Seq<Seq<(usize, TorrentScrapeStatistics)>>,
    part: PendingScrapeRequest,
    want: Seq<TorrentScrapeStatistics>,
) -> bool {
    exists|r: int| 0 <= r < answers.len() && answers_part(#[trigger] answers[r], part, want)
}

/// A scrape request that is split over the request workers is
/// answered in its own order: where `want` holds the counts of the
/// torrents in the order of the request, and every part of the split is
/// answered from `want`, the answers put together, in whatever order they
/// come, are `want`.
pub proof fn lemma_split_scrape_assembly(
    parts: Seq<(RequestWorkerIndex, PendingScrapeRequest)>,
    config: &Config,
    request: ScrapeRequest,
    want: Seq<TorrentScrapeStatistics>,
    answers: Seq<Seq<(usize, TorrentScrapeStatistics)>>,
)
    requires
        is_split(parts, config, request, request.info_hashes@.len() as int),
        want.len() == request.info_hashes@.len(),
        forall|r: int|
            0 <= r < answers.len() ==> answers_some_part(#[trigger] answers[r], parts, want),
        forall|p: int|
            0 <= p < parts.len() ==> part_is_answered(answers, (#[trigger] parts[p]).1, want),
    ensures
        stats_in_order(merge_responses(answers)) == want,
{
    assert forall|r: int| 0 <= r < answers.len() implies agrees_with(
        #[trigger] answers[r],
        want,
    ) by {
        let answer = answers[r];
        assert(answers_some_part(answer, parts, want));
        let p = choose|p: int|
            0 <= p < parts.len() && answers_part(answer, (#[trigger] parts[p]).1, want);
        assert forall|q: int| 0 <= q < answer.len() implies (#[trigger] answer[q]).0 < want.len()
            && answer[q].1 == want[answer[q].0 as int] by {
            let entry = parts[p].1.info_hashes@[q];
            assert(entry.0 < want.len());
        }
    }
    assert forall|index: usize| index < want.len() implies #[trigger] covered(answers, index) by {
        assert(in_some_part(parts, index as int));
        let (p, q) = choose|p: int, q: int|
            0 <= p < parts.len() && 0 <= q < parts[p].1.info_hashes@.len() && (
            #[trigger] parts[p].1.info_hashes@[q]).0 == index;
        assert(part_is_answered(answers, parts[p].1, want));
        let r = choose|r: int|
            0 <= r < answers.len() && answers_part(#[trigger] answers[r], parts[p].1, want);
        assert(answers[r][q].0 == index);
        assert(has_key(answers[r], index));
    }
    assert(request.info_hashes@.len() == request.info_hashes.len());
    lemma_scrape_assembly(answers, want);
}

} // verus!
