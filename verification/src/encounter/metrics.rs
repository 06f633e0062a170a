//! Incoming damage bookkeeping for the local player.
//!
//! Timestamps are game times in milliseconds.

use std::collections::VecDeque;
use vstd::prelude::*;

verus! {

/// Sliding window length for "recent" incoming damage rates
pub const INCOMING_DAMAGE_WINDOW_SECS: i64 = 20;

/// The window length in milliseconds.
pub const INCOMING_DAMAGE_WINDOW_MS: i64 = 20_000;

/// One attacker row for the Incoming Damage overlay.
/// Live: rate is windowed DTPS; finalized summaries: rate is encounter-wide DTPS.
#[derive(Debug, Clone)]
pub struct IncomingDamageRow {
    pub entity_id: i64,
    pub name: String,
    /// Effective DTPS from this source
    pub rate: i64,
    /// Effective damage taken from this source over the whole encounter
    pub total: i64,
}

/// Damage sums keyed by source entity, held in a `hashbrown::HashMap`.
#[verifier::external_body]
#[derive(Debug)]
pub struct SumMap {
    inner: hashbrown::HashMap<i64, i64>,
}

/// What a [`SumMap`] holds.
pub uninterp spec fn sum_map_contents(m: SumMap) -> Map<i64, i64>;

impl SumMap {
    /// What the map holds.
    pub open spec fn contents(&self) -> Map<i64, i64> {
        sum_map_contents(*self)
    }

    /// An empty map (`hashbrown::HashMap::new`).
    #[verifier::external_body]
    pub(crate) fn new() -> (r: SumMap)
        ensures
            sum_map_contents(r).dom().is_empty(),
    {
        SumMap { inner: hashbrown::HashMap::new() }
    }

    /// Inserts or replaces the entry of `id` (`hashbrown::HashMap::insert`).
    #[verifier::external_body]
    pub(crate) fn insert(&mut self, id: i64, value: i64)
        ensures
            final(self).contents() == old(self).contents().insert(id, value),
    {
        self.inner.insert(id, value);
    }

    /// The entry of `id` (`hashbrown::HashMap::get`).
    #[verifier::external_body]
    pub(crate) fn get(&self, id: i64) -> (r: Option<i64>)
        ensures
            r == sum_map_contents(*self).get(id),
    {
        self.inner.get(&id).copied()
    }

    /// All entries, each key once, in the map's own order (`hashbrown::HashMap::iter`).
    #[verifier::external_body]
    pub(crate) fn entries(&self) -> (r: Vec<(i64, i64)>)
        ensures
            forall|i: int, j: int| 0 <= i < j < r@.len() ==> r@[i].0 != r@[j].0,
            forall|i: int|
                0 <= i < r@.len() ==> sum_map_contents(*self).contains_key(#[trigger] r@[i].0)
                    && sum_map_contents(*self)[r@[i].0] == r@[i].1,
            forall|id: i64|
                sum_map_contents(*self).contains_key(id) ==> exists|i: int|
                    0 <= i < r@.len() && (#[trigger] r@[i]).0 == id,
    {
        self.inner.iter().map(|(k, v)| (*k, *v)).collect()
    }
}

/// The hits left once those before `cutoff` are dropped from the front.
pub open spec fn trim_window(w: Seq<(i64, i64, i32)>, cutoff: int) -> Seq<(i64, i64, i32)>
    decreases w.len(),
{
    if w.len() > 0 && w[0].0 < cutoff {
        trim_window(w.drop_first(), cutoff)
    } else {
        w
    }
}

/// The damage from `source` among the hits at or after `cutoff`.
pub open spec fn window_sum(w: Seq<(i64, i64, i32)>, source: i64, cutoff: int) -> int
    decreases w.len(),
{
    if w.len() == 0 {
        0
    } else {
        let last = w.last();
        window_sum(w.drop_last(), source, cutoff) + if last.1 == source && last.0 >= cutoff {
            last.2 as int
        } else {
            0
        }
    }
}

/// Division rounding toward zero.
pub open spec fn trunc_div(x: int, d: int) -> int {
    if x >= 0 {
        x / d
    } else {
        -((-x) / d)
    }
}

/// Row `a` comes before row `b`: higher rate first, then higher total.
pub open spec fn ranks_before(a: (i64, i64, i64), b: (i64, i64, i64)) -> bool {
    a.1 > b.1 || (a.1 == b.1 && a.2 >= b.2)
}

/// `x / 20`, rounded toward zero.
fn div_window(x: i64) -> (r: i64)
    ensures
        r == trunc_div(x as int, INCOMING_DAMAGE_WINDOW_SECS as int),
{
    if x >= 0 {
        x / 20
    } else {
        let m = (-(x as i128)) as u64;
        let q = m / 20;
        assert(q <= 0x8000_0000_0000_0000u64 / 20);
        -(q as i64)
    }
}

/// Tracks damage taken by the local player, attributed per source entity.
/// Rate is computed over a short sliding window (who is on you *right now*),
/// totals accumulate for the whole encounter.
#[derive(Debug)]
pub struct IncomingDamageTracker {
    /// Encounter-total effective damage per source entity
    totals: SumMap,
    /// Recent hits: (timestamp, source entity id, effective damage)
    window: VecDeque<(i64, i64, i32)>,
}

impl IncomingDamageTracker {
    /// Encounter totals per source.
    pub closed spec fn total_view(&self) -> Map<i64, i64> {
        self.totals.contents()
    }

    /// The recent hits, oldest first.
    pub closed spec fn window_view(&self) -> Seq<(i64, i64, i32)> {
        self.window@
    }

    /// A tracker with nothing recorded.
    pub fn new() -> (r: Self)
        ensures
            r.total_view() == Map::<i64, i64>::empty(),
            r.window_view() == Seq::<(i64, i64, i32)>::empty(),
    {
        let r = IncomingDamageTracker { totals: SumMap::new(), window: VecDeque::new() };
        assert(r.total_view() =~= Map::<i64, i64>::empty());
        r
    }

    /// Records a hit of `effective` damage from `source_id` at `timestamp`.
    pub fn record(&mut self, timestamp: i64, source_id: i64, effective: i32)
        requires
            timestamp >= i64::MIN + INCOMING_DAMAGE_WINDOW_MS,
            i64::MIN <= (match old(self).total_view().get(source_id) {
                Some(t) => t as int,
                None => 0,
            }) + effective <= i64::MAX,
        ensures
            final(self).total_view() == old(self).total_view().insert(
                source_id,
                ((match old(self).total_view().get(source_id) {
                    Some(t) => t as int,
                    None => 0,
                }) + effective) as i64,
            ),
            final(self).window_view() == trim_window(
                old(self).window_view().push((timestamp, source_id, effective)),
                timestamp - INCOMING_DAMAGE_WINDOW_MS,
            ),
    {
        let current = match self.totals.get(source_id) {
            Some(t) => t,
            None => 0,
        };
        self.totals.insert(source_id, current + effective as i64);
        self.window.push_back((timestamp, source_id, effective));
        self.trim(timestamp);
    }

    fn trim(&mut self, now: i64)
        requires
            now >= i64::MIN + INCOMING_DAMAGE_WINDOW_MS,
        ensures
            final(self).total_view() == old(self).total_view(),
            final(self).window_view() == trim_window(
                old(self).window_view(),
                now - INCOMING_DAMAGE_WINDOW_MS,
            ),
    {
        let cutoff = now - INCOMING_DAMAGE_WINDOW_MS;
        while self.window.len() > 0 && self.window[0].0 < cutoff
            invariant
                self.total_view() == old(self).total_view(),
                trim_window(self.window_view(), cutoff as int) == trim_window(
                    old(self).window_view(),
                    cutoff as int,
                ),
            decreases self.window@.len(),
        {
            let ghost before = self.window@;
            self.window.pop_front();
            assert(self.window@ =~= before.drop_first());
        }
    }

    /// The row of a source: its windowed rate and its total.
    pub closed spec fn spec_row(&self, id: i64, now: i64) -> (i64, i64, i64) {
        (
            id,
            trunc_div(
                window_sum(self.window@, id, now - INCOMING_DAMAGE_WINDOW_MS),
                INCOMING_DAMAGE_WINDOW_SECS as int,
            ) as i64,
            self.totals.contents()[id],
        )
    }

    /// Per-source sums over the window never leave the `i64` range.
    pub closed spec fn window_sums_fit(&self, now: i64) -> bool {
        forall|id: i64, k: int|
            0 <= k <= self.window@.len() ==> i64::MIN <= #[trigger] window_sum(
                self.window@.take(k),
                id,
                now - INCOMING_DAMAGE_WINDOW_MS,
            ) <= i64::MAX
    }

    /// `rows` is a snapshot at `now`: one row per source with a total, each
    /// the source's windowed rate and total, ranked by rate then total,
    /// highest first.
    pub open spec fn is_snapshot(&self, now: i64, rows: Seq<(i64, i64, i64)>) -> bool {
        &&& rows.len() == self.total_view().len()
        &&& forall|i: int, j: int| 0 <= i < j < rows.len() ==> rows[i].0 != rows[j].0
        &&& forall|i: int|
            0 <= i < rows.len() ==> self.total_view().contains_key(#[trigger] rows[i].0) && rows[i]
                == self.spec_row(rows[i].0, now)
        &&& forall|id: i64|
            self.total_view().contains_key(id) ==> exists|i: int| 0 <= i < rows.len() && (#[trigger] rows[i]).0 == id
        &&& forall|i: int, j: int| 0 <= i < j < rows.len() ==> ranks_before(rows[i], rows[j])
    }

    /// Whether the per-source sums over the window stay in the `i64` range
    /// at every step of summing them.
    pub fn sums_fit(&self, now: i64) -> (r: bool)
        requires
            now >= i64::MIN + INCOMING_DAMAGE_WINDOW_MS,
        ensures
            r == self.window_sums_fit(now),
    {
        let cutoff = now - INCOMING_DAMAGE_WINDOW_MS;
        let mut sums = SumMap::new();
        let mut k: usize = 0;
        proof {
            assert forall|id: i64, j: int| 0 <= j <= 0 implies i64::MIN <= #[trigger] window_sum(
                self.window@.take(j),
                id,
                cutoff as int,
            ) <= i64::MAX by {
                assert(self.window@.take(j).len() == 0);
            }
        }
        while k < self.window.len()
            invariant
                k <= self.window@.len(),
                cutoff == now - INCOMING_DAMAGE_WINDOW_MS,
                forall|id: i64|
                    window_sum(self.window@.take(k as int), id, cutoff as int) == match sums.contents().get(id) {
                        Some(v) => v as int,
                        None => 0,
                    },
                forall|id: i64, j: int|
                    0 <= j <= k ==> i64::MIN <= #[trigger] window_sum(self.window@.take(j), id, cutoff as int)
                        <= i64::MAX,
            decreases self.window@.len() - k,
        {
            let (ts, source_id, effective) = self.window[k];
            let ghost before = sums.contents();
            proof {
                assert(self.window@.take(k + 1).drop_last() =~= self.window@.take(k as int));
                assert(self.window@.take(k + 1).last() == self.window@[k as int]);
            }
            if ts >= cutoff {
                let current = match sums.get(source_id) {
                    Some(v) => v,
                    None => 0,
                };
                proof {
                    assert(window_sum(self.window@.take(k as int), source_id, cutoff as int) == current);
                    assert(window_sum(self.window@.take(k + 1), source_id, cutoff as int) == current + effective);
                }
                match current.checked_add(effective as i64) {
                    Some(next) => {
                        sums.insert(source_id, next);
                    },
                    None => {
                        proof {
                            assert(!(i64::MIN <= window_sum(self.window@.take(k + 1), source_id, cutoff as int)
                                <= i64::MAX));
                        }
                        return false;
                    },
                }
            }
            proof {
                assert forall|id: i64|
                    #[trigger] window_sum(self.window@.take(k + 1), id, cutoff as int) == match sums.contents().get(id) {
                        Some(v) => v as int,
                        None => 0,
                    } by {
                    assert(window_sum(self.window@.take(k as int), id, cutoff as int) == match before.get(id) {
                        Some(v) => v as int,
                        None => 0,
                    });
                }
                assert forall|id: i64, j: int| 0 <= j <= k + 1 implies i64::MIN <= #[trigger] window_sum(
                    self.window@.take(j),
                    id,
                    cutoff as int,
                ) <= i64::MAX by {
                    if j == k + 1 {
                        assert(window_sum(self.window@.take(k + 1), id, cutoff as int) == match sums.contents().get(id) {
                            Some(v) => v as int,
                            None => 0,
                        });
                    }
                }
            }
            k = k + 1;
        }
        proof {
            assert(self.window@.take(self.window@.len() as int) =~= self.window@);
        }
        true
    }

    /// The snapshot at `now` (see `snapshot`), or `None` when `now` is too
    /// early to anchor the window or a per-source window sum leaves the
    /// `i64` range.
    pub fn try_snapshot(&self, now: i64) -> (r: Option<Vec<(i64, i64, i64)>>)
        ensures
            r is Some <==> (now >= i64::MIN + INCOMING_DAMAGE_WINDOW_MS && self.window_sums_fit(now)),
            r matches Some(rows) ==> self.is_snapshot(now, rows@),
    {
        if now < i64::MIN + INCOMING_DAMAGE_WINDOW_MS {
            return None;
        }
        if !self.sums_fit(now) {
            return None;
        }
        Some(self.snapshot(now))
    }

    /// Per-source (rate, total) sorted by rate then total, descending.
    /// `now` anchors the sliding window (game time, not wall clock).
    /// Sources of equal rate and total come in no particular order.
    pub fn snapshot(&self, now: i64) -> (r: Vec<(i64, i64, i64)>)
        requires
            now >= i64::MIN + INCOMING_DAMAGE_WINDOW_MS,
            self.window_sums_fit(now),
        ensures
            self.is_snapshot(now, r@),
    {
        let cutoff = now - INCOMING_DAMAGE_WINDOW_MS;
        let mut window_sums = SumMap::new();
        let mut k: usize = 0;
        while k < self.window.len()
            invariant
                k <= self.window@.len(),
                cutoff == now - INCOMING_DAMAGE_WINDOW_MS,
                self.window_sums_fit(now),
                forall|id: i64|
                    window_sum(self.window@.take(k as int), id, cutoff as int) == match window_sums.contents().get(id) {
                        Some(v) => v as int,
                        None => 0,
                    },
            decreases self.window@.len() - k,
        {
            let (ts, source_id, effective) = self.window[k];
            let ghost before = window_sums.contents();
            proof {
                assert(self.window@.take(k + 1).drop_last() =~= self.window@.take(k as int));
                assert(self.window@.take(k + 1).last() == self.window@[k as int]);
                assert(i64::MIN <= window_sum(
                    self.window@.take(k + 1),
                    source_id,
                    now - INCOMING_DAMAGE_WINDOW_MS,
                ) <= i64::MAX);
            }
            if ts >= cutoff {
                let current = match window_sums.get(source_id) {
                    Some(v) => v,
                    None => 0,
                };
                proof {
                    assert(window_sum(self.window@.take(k as int), source_id, cutoff as int) == current);
                    assert(window_sum(self.window@.take(k + 1), source_id, cutoff as int) == current + effective);
                }
                window_sums.insert(source_id, current + effective as i64);
            }
            proof {
                assert forall|id: i64|
                    #[trigger] window_sum(self.window@.take(k + 1), id, cutoff as int) == match window_sums.contents().get(id) {
                        Some(v) => v as int,
                        None => 0,
                    } by {
                    assert(window_sum(self.window@.take(k as int), id, cutoff as int) == match before.get(id) {
                        Some(v) => v as int,
                        None => 0,
                    });
                }
            }
            k = k + 1;
        }
        assert(self.window@.take(self.window@.len() as int) =~= self.window@);
        let totals = self.totals.entries();
        let mut rows: Vec<(i64, i64, i64)> = Vec::new();
        let mut t: usize = 0;
        while t < totals.len()
            invariant
                t <= totals@.len(),
                cutoff == now - INCOMING_DAMAGE_WINDOW_MS,
                forall|id: i64|
                    window_sum(self.window@, id, cutoff as int) == match window_sums.contents().get(id) {
                        Some(v) => v as int,
                        None => 0,
                    },
                forall|i: int|
                    0 <= i < totals@.len() ==> self.total_view().contains_key(#[trigger] totals@[i].0)
                        && self.total_view()[totals@[i].0] == totals@[i].1,
                rows@.len() == t,
                forall|i: int| 0 <= i < t ==> #[trigger] rows@[i] == self.spec_row(totals@[i].0, now),
            decreases totals@.len() - t,
        {
            let (id, total) = totals[t];
            let sum = match window_sums.get(id) {
                Some(v) => v,
                None => 0,
            };
            rows.push((id, div_window(sum), total));
            t = t + 1;
        }
        let ranked = rank_rows(&rows);
        proof {
            broadcast use vstd::seq_lib::group_to_multiset_ensures;

            assert(rows@.no_duplicates()) by {
                assert forall|i: int, j: int|
                    0 <= i < rows@.len() && 0 <= j < rows@.len() && i != j implies rows@[i] != rows@[j] by {
                    assert(rows@[i].0 == totals@[i].0);
                    assert(rows@[j].0 == totals@[j].0);
                    if i < j {
                        assert(totals@[i].0 != totals@[j].0);
                    } else {
                        assert(totals@[j].0 != totals@[i].0);
                    }
                }
            }
            rows@.lemma_multiset_has_no_duplicates();
            ranked@.lemma_multiset_has_no_duplicates_conv();
            assert forall|i: int|
                0 <= i < ranked@.len() implies self.total_view().contains_key(#[trigger] ranked@[i].0)
                    && ranked@[i] == self.spec_row(ranked@[i].0, now) by {
                assert(ranked@.contains(ranked@[i]));
                assert(ranked@.to_multiset().count(ranked@[i]) > 0);
                assert(rows@.contains(ranked@[i]));
                let j = choose|j: int| 0 <= j < rows@.len() && rows@[j] == ranked@[i];
                assert(rows@[j] == self.spec_row(totals@[j].0, now));
            }
            assert forall|i: int, j: int| 0 <= i < j < ranked@.len() implies ranked@[i].0 != ranked@[j].0 by {
                assert(ranked@.contains(ranked@[i]));
                assert(ranked@.to_multiset().count(ranked@[i]) > 0);
                assert(ranked@.contains(ranked@[j]));
                assert(ranked@.to_multiset().count(ranked@[j]) > 0);
                assert(rows@.contains(ranked@[i]));
                assert(rows@.contains(ranked@[j]));
                let a = choose|a: int| 0 <= a < rows@.len() && rows@[a] == ranked@[i];
                let b = choose|b: int| 0 <= b < rows@.len() && rows@[b] == ranked@[j];
                if a != b {
                    assert(rows@[a].0 == totals@[a].0);
                    assert(rows@[b].0 == totals@[b].0);
                    if a < b {
                        assert(totals@[a].0 != totals@[b].0);
                    } else {
                        assert(totals@[b].0 != totals@[a].0);
                    }
                }
            }
            assert forall|id: i64| self.total_view().contains_key(id) implies exists|i: int|
                0 <= i < ranked@.len() && (#[trigger] ranked@[i]).0 == id by {
                let j = choose|j: int| 0 <= j < totals@.len() && (#[trigger] totals@[j]).0 == id;
                assert(rows@[j].0 == id);
                assert(rows@.contains(rows@[j]));
                assert(rows@.to_multiset().count(rows@[j]) > 0);
                assert(ranked@.contains(rows@[j]));
                let i = choose|i: int| 0 <= i < ranked@.len() && ranked@[i] == rows@[j];
                assert(ranked@[i].0 == id);
            }
            lemma_rows_cover(self.total_view(), ranked@);
        }
        ranked
    }

    /// Encounter-total effective damage per source entity: each source once,
    /// with its total, in no particular order.
    pub fn totals(&self) -> (r: Vec<(i64, i64)>)
        ensures
            forall|i: int, j: int| 0 <= i < j < r@.len() ==> r@[i].0 != r@[j].0,
            forall|i: int|
                0 <= i < r@.len() ==> self.total_view().contains_key(#[trigger] r@[i].0)
                    && self.total_view()[r@[i].0] == r@[i].1,
            forall|id: i64|
                self.total_view().contains_key(id) ==> exists|i: int|
                    0 <= i < r@.len() && (#[trigger] r@[i]).0 == id,
    {
        self.totals.entries()
    }
}

/// Inserts `row` after every row that ranks at least as high, keeping the
/// list ordered.
fn insert_ranked(rows: &mut Vec<(i64, i64, i64)>, row: (i64, i64, i64)) -> (p: usize)
    requires
        forall|i: int, j: int| 0 <= i < j < old(rows)@.len() ==> ranks_before(old(rows)@[i], old(rows)@[j]),
    ensures
        p <= old(rows)@.len(),
        final(rows)@ == old(rows)@.insert(p as int, row),
        forall|i: int, j: int| 0 <= i < j < final(rows)@.len() ==> ranks_before(final(rows)@[i], final(rows)@[j]),
{
    let ghost old_rows = rows@;
    let mut p: usize = 0;
    while p < rows.len() && (rows[p].1 > row.1 || (rows[p].1 == row.1 && rows[p].2 >= row.2))
        invariant
            p <= rows@.len(),
            rows@ == old_rows,
            forall|i: int| 0 <= i < p ==> ranks_before(rows@[i], row),
        decreases rows@.len() - p,
    {
        p = p + 1;
    }
    proof {
        assert forall|i: int| p <= i < rows@.len() implies !ranks_before(rows@[i], row) by {
            assert(!ranks_before(rows@[p as int], row));
            if i > p {
                assert(ranks_before(rows@[p as int], rows@[i]));
            }
        }
    }
    rows.insert(p, row);
    proof {
        let nr = rows@;
        assert forall|i: int| 0 <= i < nr.len() implies nr[i] == (if i < p {
            old_rows[i]
        } else if i == p {
            row
        } else {
            old_rows[i - 1]
        }) by {}
    }
    p
}

/// The rows ordered by rank; rows of equal rank keep their relative order.
fn rank_rows(rows: &Vec<(i64, i64, i64)>) -> (r: Vec<(i64, i64, i64)>)
    ensures
        r@.to_multiset() == rows@.to_multiset(),
        forall|i: int, j: int| 0 <= i < j < r@.len() ==> ranks_before(r@[i], r@[j]),
{
    broadcast use vstd::seq_lib::group_to_multiset_ensures;

    let mut out: Vec<(i64, i64, i64)> = Vec::new();
    let mut t: usize = 0;
    while t < rows.len()
        invariant
            t <= rows@.len(),
            out@.to_multiset() == rows@.take(t as int).to_multiset(),
            forall|i: int, j: int| 0 <= i < j < out@.len() ==> ranks_before(out@[i], out@[j]),
        decreases rows@.len() - t,
    {
        let row = rows[t];
        let ghost before = out@;
        let p = insert_ranked(&mut out, row);
        assert(out@.to_multiset() == before.insert(p as int, row).to_multiset());
        assert(rows@.take(t + 1) =~= rows@.take(t as int).push(row));
        proof {
            vstd::seq_lib::to_multiset_build(rows@.take(t as int), row);
            vstd::seq_lib::to_multiset_insert(before, p as int, row);
        }
        t = t + 1;
    }
    assert(rows@.take(rows@.len() as int) =~= rows@);
    out
}

/// A duplicate-free list of rows covering exactly the map's keys has one row per key.
proof fn lemma_rows_cover(m: Map<i64, i64>, rows: Seq<(i64, i64, i64)>)
    requires
        forall|i: int, j: int| 0 <= i < j < rows.len() ==> rows[i].0 != rows[j].0,
        forall|i: int| 0 <= i < rows.len() ==> m.contains_key(#[trigger] rows[i].0),
        forall|id: i64| m.contains_key(id) ==> exists|i: int| 0 <= i < rows.len() && (#[trigger] rows[i]).0 == id,
    ensures
        m.dom().finite(),
        m.len() == rows.len(),
{
    let ids = rows.map_values(|r: (i64, i64, i64)| r.0);
    assert(ids.no_duplicates()) by {
        assert forall|i: int, j: int| 0 <= i < ids.len() && 0 <= j < ids.len() && i != j implies ids[i] != ids[j] by {
            if i < j {
                assert(rows[i].0 != rows[j].0);
            } else {
                assert(rows[j].0 != rows[i].0);
            }
        }
    }
    assert(ids.to_set() =~= m.dom()) by {
        assert forall|id: i64| ids.to_set().contains(id) <==> m.dom().contains(id) by {
            if m.dom().contains(id) {
                let i = choose|i: int| 0 <= i < rows.len() && (#[trigger] rows[i]).0 == id;
                assert(ids[i] == id);
            }
            if ids.to_set().contains(id) {
                let i = choose|i: int| 0 <= i < ids.len() && ids[i] == id;
                assert(rows[i].0 == id);
            }
        }
    }
    ids.unique_seq_to_set();
}

/// Hits are in time order.
pub open spec fn time_ordered(w: Seq<(i64, i64, i32)>) -> bool {
    forall|i: int, j: int| 0 <= i < j < w.len() ==> w[i].0 <= w[j].0
}

/// Trimming a time-ordered window keeps exactly its hits at or after the
/// cutoff: what is left is a suffix of the window, none of it older than
/// the cutoff, and every dropped hit is older.
pub proof fn law_trim_keeps_recent(w: Seq<(i64, i64, i32)>, cutoff: int)
    requires
        time_ordered(w),
    ensures
        ({
            let t = trim_window(w, cutoff);
            &&& t.len() <= w.len()
            &&& t == w.skip(w.len() - t.len())
            &&& forall|i: int| 0 <= i < t.len() ==> t[i].0 >= cutoff
            &&& forall|i: int| 0 <= i < w.len() - t.len() ==> w[i].0 < cutoff
        }),
    decreases w.len(),
{
    if w.len() > 0 && w[0].0 < cutoff {
        let d = w.drop_first();
        assert(time_ordered(d)) by {
            assert forall|i: int, j: int| 0 <= i < j < d.len() implies d[i].0 <= d[j].0 by {
                assert(d[i] == w[i + 1]);
                assert(d[j] == w[j + 1]);
            }
        }
        law_trim_keeps_recent(d, cutoff);
        let t = trim_window(d, cutoff);
        assert(d.skip(d.len() - t.len()) =~= w.skip(w.len() - t.len()));
        assert forall|i: int| 0 <= i < w.len() - t.len() implies w[i].0 < cutoff by {
            if i > 0 {
                assert(w[i] == d[i - 1]);
            }
        }
    } else {
        assert(w.skip(0) =~= w);
        if w.len() > 0 {
            assert forall|i: int| 0 <= i < w.len() implies w[i].0 >= cutoff by {
                if i > 0 {
                    assert(w[0].0 <= w[i].0);
                }
            }
        }
    }
}

/// Recording keeps the window in time order when hits arrive in time order.
pub proof fn law_record_keeps_order(w: Seq<(i64, i64, i32)>, hit: (i64, i64, i32), cutoff: int)
    requires
        time_ordered(w),
        forall|i: int| 0 <= i < w.len() ==> w[i].0 <= hit.0,
    ensures
        time_ordered(trim_window(w.push(hit), cutoff)),
    decreases w.len(),
{
    let p = w.push(hit);
    assert(time_ordered(p));
    lemma_trim_ordered(p, cutoff);
}

proof fn lemma_trim_ordered(w: Seq<(i64, i64, i32)>, cutoff: int)
    requires
        time_ordered(w),
    ensures
        time_ordered(trim_window(w, cutoff)),
    decreases w.len(),
{
    if w.len() > 0 && w[0].0 < cutoff {
        let d = w.drop_first();
        assert(time_ordered(d)) by {
            assert forall|i: int, j: int| 0 <= i < j < d.len() implies d[i].0 <= d[j].0 by {
                assert(d[i] == w[i + 1]);
                assert(d[j] == w[j + 1]);
            }
        }
        lemma_trim_ordered(d, cutoff);
    }
}

} // verus!
