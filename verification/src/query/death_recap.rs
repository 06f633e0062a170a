//! The death recap: damage and healing by source and ability, the killing
//! blow, and the caps on the ledger and the health sparkline.

use vstd::prelude::*;

use crate::overlay_metrics::{is_meter_order, meter_before, meter_order};

verus! {

/// Most points that the HP sparkline keeps.
pub const MAX_HP_POINTS: usize = 200;

/// The item that `find_or_push` hands out: the first item that `pred` accepts,
/// or else a new item made by `make` and pushed at the end.
pub fn find_or_push<T, P, M>(items: &mut Vec<T>, pred: P, make: M) -> (r: &mut T) where
    P: Fn(&T) -> bool,
    M: FnOnce() -> T,

    requires
        forall|i: int| 0 <= i < old(items).len() ==> pred.requires((&old(items)@[i],)),
        make.requires(()),
    ensures
        (exists|k: int|
            {
                &&& 0 <= k < old(items).len()
                &&& pred.ensures((&old(items)@[k],), true)
                &&& forall|j: int| 0 <= j < k ==> pred.ensures((&old(items)@[j],), false)
                &&& *r == old(items)@[k]
                &&& final(items)@ == old(items)@.update(k, *final(r))
            }) || ({
            &&& forall|j: int| 0 <= j < old(items).len() ==> pred.ensures((&old(items)@[j],), false)
            &&& make.ensures((), *r)
            &&& final(items)@ == old(items)@.push(*final(r))
        }),
{
    let n = items.len();
    let mut i: usize = 0;
    while i < n
        invariant
            n == items.len(),
            items@ == old(items)@,
            i <= n,
            forall|k: int| 0 <= k < old(items).len() ==> pred.requires((&old(items)@[k],)),
            forall|j: int| 0 <= j < i ==> pred.ensures((&old(items)@[j],), false),
        decreases n - i,
    {
        let hit = pred(&items[i]);
        if hit {
            return &mut items[i];
        }
        i = i + 1;
    }
    let made = make();
    items.push(made);
    let last = items.len() - 1;
    &mut items[last]
}

/// `n / d` rounded up.
pub open spec fn ceil_div(n: int, d: int) -> int {
    (n + d - 1) / d
}

/// Every `stride`-th item of `s`, starting with the first.
pub open spec fn strided<T>(s: Seq<T>, stride: int) -> Seq<T> {
    Seq::new(ceil_div(s.len() as int, stride) as nat, |k: int| s[k * stride])
}

/// The stride that `downsample` takes over the `n - 1` points before the
/// last one: the smallest that leaves room for the last point within
/// `MAX_HP_POINTS`.
pub open spec fn downsample_stride(n: int) -> int {
    ceil_div(n - 1, MAX_HP_POINTS - 1)
}

/// The sparkline after `downsample`: at most `MAX_HP_POINTS` points are kept
/// as they are; otherwise every `downsample_stride`-th point of those before
/// the last, and then the last point.
pub open spec fn spec_downsample<T>(s: Seq<T>) -> Seq<T> {
    if s.len() <= MAX_HP_POINTS {
        s
    } else {
        strided(s.drop_last(), downsample_stride(s.len() as int)).push(s.last())
    }
}

/// `pos` picks, for each item of `r`, a position of `s` that holds it, and
/// the positions strictly increase.
pub open spec fn picks_in_order<T>(r: Seq<T>, s: Seq<T>, pos: spec_fn(int) -> int) -> bool {
    &&& forall|i: int| 0 <= i < r.len() ==> 0 <= #[trigger] pos(i) < s.len() && r[i] == s[pos(i)]
    &&& forall|i: int, j: int| 0 <= i < j < r.len() ==> #[trigger] pos(i) < #[trigger] pos(j)
}

/// `r` is made of items of `s`, taken at strictly increasing positions.
pub open spec fn is_subsequence_of<T>(r: Seq<T>, s: Seq<T>) -> bool {
    exists|pos: spec_fn(int) -> int| #[trigger] picks_in_order(r, s, pos)
}

proof fn lemma_ceil_div(n: int, d: int, j: int)
    requires
        d > 0,
        n > 0,
        j >= 1,
        (j - 1) * d < n <= j * d,
    ensures
        ceil_div(n, d) == j,
{
    assert((n + d - 1) / d == j) by (nonlinear_arith)
        requires
            d > 0,
            (j - 1) * d < n <= j * d,
    {
        assert((j - 1) * d + d == j * d);
        assert(j * d <= n + d - 1 < (j + 1) * d);
        vstd::arithmetic::div_mod::lemma_fundamental_div_mod_converse(n + d - 1, d, j, n + d - 1 - j * d);
    }
}

/// Bounds on the stride and on how many points it keeps.
proof fn lemma_downsample_counts(n: int)
    requires
        n > MAX_HP_POINTS,
    ensures
        downsample_stride(n) >= 1,
        1 <= ceil_div(n - 1, downsample_stride(n)) <= MAX_HP_POINTS - 1,
        (ceil_div(n - 1, downsample_stride(n)) - 1) * downsample_stride(n) < n - 1,
{
    let m = n - 1;
    let d = (MAX_HP_POINTS - 1) as int;
    let stride = downsample_stride(n);
    assert(stride >= 1 && stride * d >= m) by (nonlinear_arith)
        requires
            m >= d,
            d == 199,
            stride == (m + d - 1) / d,
    {
        vstd::arithmetic::div_mod::lemma_fundamental_div_mod(m + d - 1, d);
    }
    let c = ceil_div(m, stride);
    assert(1 <= c <= d && (c - 1) * stride < m) by (nonlinear_arith)
        requires
            stride >= 1,
            stride * d >= m,
            m > 0,
            c == (m + stride - 1) / stride,
    {
        vstd::arithmetic::div_mod::lemma_fundamental_div_mod(m + stride - 1, stride);
    }
}

/// Caps the sparkline at `MAX_HP_POINTS` points by striding, keeping the
/// first and the last point.
pub fn downsample<T: Copy>(points: &mut Vec<T>)
    ensures
        final(points)@ == spec_downsample(old(points)@),
{
    let n = points.len();
    if n <= MAX_HP_POINTS {
        return;
    }
    let m = n - 1;
    let d = MAX_HP_POINTS - 1;
    let stride: usize = if m % d == 0 {
        m / d
    } else {
        m / d + 1
    };
    proof {
        lemma_ceil_div(m as int, d as int, stride as int);
    }
    let last = points[m];
    let mut kept: Vec<T> = Vec::new();
    let mut pos: usize = 0;
    assert(0 * (stride as int) == 0);
    loop
        invariant_except_break
            pos < m,
            pos == kept.len() * stride,
        invariant
            n == points.len(),
            m == n - 1,
            m > 0,
            stride >= 1,
            forall|k: int| 0 <= k < kept.len() ==> kept@[k] == points@[k * stride],
        ensures
            kept.len() >= 1,
            (kept.len() - 1) * stride < m <= kept.len() * stride,
            forall|k: int| 0 <= k < kept.len() ==> kept@[k] == points@[k * stride],
        decreases m - pos,
    {
        kept.push(points[pos]);
        assert((kept.len() as int) * (stride as int) == pos + stride) by (nonlinear_arith)
            requires
                pos == (kept.len() - 1) * stride;
        if m - pos <= stride {
            break;
        }
        pos = pos + stride;
    }
    proof {
        let j = kept.len() as int;
        lemma_ceil_div(m as int, stride as int, j);
        let body = points@.drop_last();
        assert forall|k: int| 0 <= k < kept.len() implies #[trigger] kept@[k] == body[k * stride] by {
            assert(k * stride <= (j - 1) * stride) by (nonlinear_arith)
                requires
                    0 <= k <= j - 1,
                    stride >= 1;
        }
        assert(kept@ =~= strided(body, stride as int));
    }
    kept.push(last);
    *points = kept;
}

/// Downsampling keeps at most `MAX_HP_POINTS` points, starts with the first
/// point, ends with the last one, and keeps the points it keeps in order.
pub proof fn law_downsample_keeps_ends<T>(s: Seq<T>)
    requires
        s.len() > 0,
    ensures
        spec_downsample(s).len() <= MAX_HP_POINTS,
        spec_downsample(s)[0] == s[0],
        spec_downsample(s).last() == s.last(),
        is_subsequence_of(spec_downsample(s), s),
{
    let r = spec_downsample(s);
    if s.len() <= MAX_HP_POINTS {
        let pos = |i: int| i;
        assert(picks_in_order(r, s, pos));
    } else {
        let n = s.len() as int;
        lemma_downsample_counts(n);
        let stride = downsample_stride(n);
        let c = ceil_div(n - 1, stride);
        let kept = strided(s.drop_last(), stride);
        assert(kept.len() == c);
        assert(kept[0] == s[0 * stride]);
        assert(0 * stride == 0);
        assert(r[0] == kept[0]);
        let pos = |i: int| if i < c { i * stride } else { n - 1 };
        assert forall|i: int| 0 <= i < r.len() implies 0 <= #[trigger] pos(i) < s.len() && r[i] == s[pos(i)] by {
            if i < c {
                assert(0 <= i * stride <= (c - 1) * stride) by (nonlinear_arith)
                    requires
                        0 <= i <= c - 1,
                        stride >= 1;
                assert(r[i] == kept[i]);
            }
        }
        assert forall|i: int, j: int| 0 <= i < j < r.len() implies #[trigger] pos(i) < #[trigger] pos(j) by {
            if j < c {
                assert(i * stride < j * stride) by (nonlinear_arith)
                    requires
                        0 <= i < j,
                        stride >= 1;
            } else {
                assert(i * stride <= (c - 1) * stride) by (nonlinear_arith)
                    requires
                        0 <= i <= c - 1,
                        stride >= 1;
            }
        }
        assert(picks_in_order(r, s, pos));
    }
}

/// What a recap row records.
#[derive(Debug, Clone, Copy, PartialEq, Eq, Structural)]
pub enum RecapKind {
    Damage,
    Heal,
    Death,
}

/// One damage, heal or death row of the recap window, in log order. `hp`
/// and `max_hp` are the player's health after the row (`max_hp` 0 when not
/// recorded).
#[derive(Debug, Clone)]
pub struct RecapHit {
    pub kind: RecapKind,
    pub source_name: String,
    pub source_id: i64,
    pub ability_name: String,
    pub dmg_effective: i32,
    pub dmg_absorbed: i32,
    pub is_crit: bool,
    pub dmg_type: String,
    pub heal_effective: i32,
    pub hp: i32,
    pub max_hp: i32,
}

/// What the event ledger shows of a hit.
#[derive(Debug, Clone, Copy, PartialEq, Eq, Structural)]
pub struct LedgerAmounts {
    pub value: i32,
    pub absorbed: i32,
    pub is_crit: bool,
    pub avoided: bool,
}

/// The ledger's amounts of a hit: the effective damage and the absorbed
/// amount of damage, the effective healing of a heal, nothing of a death;
/// crit and avoided marks for damage only.
pub fn ledger_amounts(h: &RecapHit, avoided: bool) -> (r: LedgerAmounts)
    ensures
        r.value == (match h.kind {
            RecapKind::Damage => h.dmg_effective,
            RecapKind::Heal => h.heal_effective,
            RecapKind::Death => 0,
        }),
        r.absorbed == (if h.kind is Damage {
            h.dmg_absorbed
        } else {
            0
        }),
        r.is_crit == (h.is_crit && h.kind is Damage),
        r.avoided == (avoided && h.kind is Damage),
{
    match h.kind {
        RecapKind::Damage => LedgerAmounts {
            value: h.dmg_effective,
            absorbed: h.dmg_absorbed,
            is_crit: h.is_crit,
            avoided,
        },
        RecapKind::Heal => LedgerAmounts { value: h.heal_effective, absorbed: 0, is_crit: false, avoided: false },
        RecapKind::Death => LedgerAmounts { value: 0, absorbed: 0, is_crit: false, avoided: false },
    }
}

/// The blow held responsible for a death.
#[derive(Debug, Clone, PartialEq, Eq)]
pub struct KillingBlow {
    pub ability_name: String,
    pub source_name: String,
    pub amount: i32,
    pub overkill: i32,
    pub is_crit: bool,
    pub damage_type: String,
}

/// What the killing-blow search has seen so far: the last recorded health,
/// the first hit that left recorded health at zero, and the last hit that
/// could have killed when health after it was not recorded; each hit as
/// (row, overkill).
pub struct BlowSearch {
    pub last_hp: Option<i32>,
    pub zeroed: Option<(int, int)>,
    pub last: Option<(int, int)>,
}

/// The overkill of a hit of `amount`: what exceeds the last recorded health.
pub open spec fn overkill(last_hp: Option<i32>, amount: i32) -> int {
    match last_hp {
        Some(hp) => if amount - hp > 0 {
            amount - hp
        } else {
            0
        },
        None => 0,
    }
}

/// The search after the rows `hits[..n]`. A damaging hit that leaves
/// recorded health at zero is the definitive killing blow (the first such
/// one); a damaging hit without recorded health after it is a candidate
/// (the last such one) when it was at least the last recorded health. Rows
/// with recorded health update the last health.
pub open spec fn blow_search(hits: Seq<RecapHit>, n: int) -> BlowSearch
    decreases n,
{
    if n <= 0 {
        BlowSearch { last_hp: None, zeroed: None, last: None }
    } else {
        let st = blow_search(hits, n - 1);
        let h = hits[n - 1];
        let ov = overkill(st.last_hp, h.dmg_effective);
        let zeroed = if h.kind == RecapKind::Damage && h.dmg_effective > 0 && h.max_hp > 0 && h.hp == 0
            && st.zeroed is None {
            Some((n - 1, ov))
        } else {
            st.zeroed
        };
        let last = if h.kind == RecapKind::Damage && h.dmg_effective > 0 && h.max_hp == 0 && match st.last_hp {
            Some(hp) => h.dmg_effective >= hp,
            None => true,
        } {
            Some((n - 1, ov))
        } else {
            st.last
        };
        BlowSearch {
            last_hp: if h.max_hp > 0 {
                Some(h.hp)
            } else {
                st.last_hp
            },
            zeroed,
            last,
        }
    }
}

/// The killing blow made from row `i` with the given overkill.
pub open spec fn blow_of(hits: Seq<RecapHit>, i: int, ov: int) -> KillingBlow {
    KillingBlow {
        ability_name: hits[i].ability_name,
        source_name: hits[i].source_name,
        amount: hits[i].dmg_effective,
        overkill: ov as i32,
        is_crit: hits[i].is_crit,
        damage_type: hits[i].dmg_type,
    }
}

/// The killing blow of the rows: the definitive one, else the candidate,
/// else none.
pub open spec fn spec_killing_blow(hits: Seq<RecapHit>) -> Option<KillingBlow> {
    let st = blow_search(hits, hits.len() as int);
    match st.zeroed {
        Some((i, ov)) => Some(blow_of(hits, i, ov)),
        None => match st.last {
            Some((i, ov)) => Some(blow_of(hits, i, ov)),
            None => None,
        },
    }
}

/// The overkill of every damaging hit fits in `i32`: its amount less the
/// last recorded health.
pub open spec fn overkill_fits(hits: Seq<RecapHit>) -> bool {
    forall|n: int|
        0 <= n < hits.len() && (#[trigger] hits[n]).kind == RecapKind::Damage && hits[n].dmg_effective > 0
            ==> match blow_search(hits, n).last_hp {
            Some(hp) => hits[n].dmg_effective - hp <= i32::MAX,
            None => true,
        }
}

proof fn lemma_blow_search_bounds(hits: Seq<RecapHit>, n: int)
    requires
        0 <= n <= hits.len(),
        overkill_fits(hits),
    ensures
        blow_search(hits, n).zeroed matches Some((i, ov)) ==> 0 <= i < n && 0 <= ov <= i32::MAX,
        blow_search(hits, n).last matches Some((i, ov)) ==> 0 <= i < n && 0 <= ov <= i32::MAX,
    decreases n,
{
    if n > 0 {
        lemma_blow_search_bounds(hits, n - 1);
        let h = hits[n - 1];
        if h.kind == RecapKind::Damage && h.dmg_effective > 0 {
            assert(hits[n - 1].kind == RecapKind::Damage);
        }
    }
}

/// The blow held responsible for the death, from the window's rows in log
/// order.
pub fn killing_blow(hits: &Vec<RecapHit>) -> (r: Option<KillingBlow>)
    requires
        overkill_fits(hits@),
    ensures
        r == spec_killing_blow(hits@),
{
    let mut last_hp: Option<i32> = None;
    let mut zeroed: Option<(usize, i32)> = None;
    let mut last: Option<(usize, i32)> = None;
    let mut n: usize = 0;
    while n < hits.len()
        invariant
            n <= hits.len(),
            overkill_fits(hits@),
            ({
                let st = blow_search(hits@, n as int);
                &&& last_hp == st.last_hp
                &&& match zeroed {
                    Some((i, ov)) => st.zeroed == Some((i as int, ov as int)),
                    None => st.zeroed is None,
                }
                &&& match last {
                    Some((i, ov)) => st.last == Some((i as int, ov as int)),
                    None => st.last is None,
                }
            }),
        decreases hits.len() - n,
    {
        proof {
            lemma_blow_search_bounds(hits@, n as int);
        }
        let h = &hits[n];
        if h.kind == RecapKind::Damage && h.dmg_effective > 0 {
            assert(hits@[n as int].kind == RecapKind::Damage);
            let ov: i32 = match last_hp {
                Some(hp) => if h.dmg_effective - hp > 0 {
                    h.dmg_effective - hp
                } else {
                    0
                },
                None => 0,
            };
            if h.max_hp > 0 && h.hp == 0 {
                if zeroed.is_none() {
                    zeroed = Some((n, ov));
                }
            } else if h.max_hp == 0 && match last_hp {
                Some(hp) => h.dmg_effective >= hp,
                None => true,
            } {
                last = Some((n, ov));
            }
        }
        if h.max_hp > 0 {
            last_hp = Some(h.hp);
        }
        n = n + 1;
    }
    proof {
        lemma_blow_search_bounds(hits@, n as int);
    }
    match zeroed {
        Some((i, ov)) => Some(
            KillingBlow {
                ability_name: hits[i].ability_name.clone(),
                source_name: hits[i].source_name.clone(),
                amount: hits[i].dmg_effective,
                overkill: ov,
                is_crit: hits[i].is_crit,
                damage_type: hits[i].dmg_type.clone(),
            },
        ),
        None => match last {
            Some((i, ov)) => Some(
                KillingBlow {
                    ability_name: hits[i].ability_name.clone(),
                    source_name: hits[i].source_name.clone(),
                    amount: hits[i].dmg_effective,
                    overkill: ov,
                    is_crit: hits[i].is_crit,
                    damage_type: hits[i].dmg_type.clone(),
                },
            ),
            None => None,
        },
    }
}

/// Damage from one ability of a source.
#[derive(Debug, Clone, PartialEq, Eq)]
pub struct DamageRow {
    pub ability_name: String,
    pub hits: u32,
    pub crits: u32,
    pub total: i64,
    pub max_hit: i32,
    pub absorbed: i64,
}

/// Damage from one source, by ability.
#[derive(Debug, PartialEq, Eq)]
pub struct DamageSource {
    pub source_name: String,
    pub source_id: i64,
    pub hits: u32,
    pub crits: u32,
    pub total: i64,
    pub max_hit: i32,
    pub absorbed: i64,
    pub abilities: Vec<DamageRow>,
}

/// The view of a damage source.
pub struct DamageSourceView {
    pub source_name: String,
    pub source_id: i64,
    pub hits: u32,
    pub crits: u32,
    pub total: i64,
    pub max_hit: i32,
    pub absorbed: i64,
    pub abilities: Seq<DamageRow>,
}

impl View for DamageSource {
    type V = DamageSourceView;

    open spec fn view(&self) -> DamageSourceView {
        DamageSourceView {
            source_name: self.source_name,
            source_id: self.source_id,
            hits: self.hits,
            crits: self.crits,
            total: self.total,
            max_hit: self.max_hit,
            absorbed: self.absorbed,
            abilities: self.abilities@,
        }
    }
}

/// The position of the first ability row named `name`, from `from` on.
pub open spec fn ability_index(rows: Seq<DamageRow>, name: Seq<char>, from: int) -> Option<int>
    decreases rows.len() - from,
{
    if from < 0 || from >= rows.len() {
        None
    } else if rows[from].ability_name@ == name {
        Some(from)
    } else {
        ability_index(rows, name, from + 1)
    }
}

/// The position of the first damage source with the ID, from `from` on.
pub open spec fn source_index(sources: Seq<DamageSourceView>, id: i64, from: int) -> Option<int>
    decreases sources.len() - from,
{
    if from < 0 || from >= sources.len() {
        None
    } else if sources[from].source_id == id {
        Some(from)
    } else {
        source_index(sources, id, from + 1)
    }
}

/// An ability row after one more hit.
pub open spec fn row_after_hit(row: DamageRow, h: RecapHit) -> DamageRow {
    DamageRow {
        ability_name: row.ability_name,
        hits: (row.hits + 1) as u32,
        crits: (row.crits + if h.is_crit {
            1int
        } else {
            0int
        }) as u32,
        total: (row.total + h.dmg_effective) as i64,
        max_hit: if h.dmg_effective > row.max_hit {
            h.dmg_effective
        } else {
            row.max_hit
        },
        absorbed: (row.absorbed + h.dmg_absorbed) as i64,
    }
}

/// A fresh ability row.
pub open spec fn empty_row(name: String) -> DamageRow {
    DamageRow { ability_name: name, hits: 0, crits: 0, total: 0, max_hit: 0, absorbed: 0 }
}

/// The ability rows after one more hit: the row of its ability is updated,
/// or a new row appended.
pub open spec fn rows_after_hit(rows: Seq<DamageRow>, h: RecapHit) -> Seq<DamageRow> {
    match ability_index(rows, h.ability_name@, 0) {
        Some(k) => rows.update(k, row_after_hit(rows[k], h)),
        None => rows.push(row_after_hit(empty_row(h.ability_name), h)),
    }
}

/// A damage source after one more hit.
pub open spec fn source_after_hit(src: DamageSourceView, h: RecapHit) -> DamageSourceView {
    DamageSourceView {
        source_name: src.source_name,
        source_id: src.source_id,
        hits: (src.hits + 1) as u32,
        crits: (src.crits + if h.is_crit {
            1int
        } else {
            0int
        }) as u32,
        total: (src.total + h.dmg_effective) as i64,
        max_hit: if h.dmg_effective > src.max_hit {
            h.dmg_effective
        } else {
            src.max_hit
        },
        absorbed: (src.absorbed + h.dmg_absorbed) as i64,
        abilities: rows_after_hit(src.abilities, h),
    }
}

/// A fresh damage source, named after its first hit.
pub open spec fn empty_source(h: RecapHit) -> DamageSourceView {
    DamageSourceView {
        source_name: h.source_name,
        source_id: h.source_id,
        hits: 0,
        crits: 0,
        total: 0,
        max_hit: 0,
        absorbed: 0,
        abilities: Seq::empty(),
    }
}

/// The damage sources after the rows `hits[..n]`, in order of first hit;
/// sources are told apart by ID, so same-named spawns stay separate.
pub open spec fn damage_sources(hits: Seq<RecapHit>, n: int) -> Seq<DamageSourceView>
    decreases n,
{
    if n <= 0 {
        Seq::empty()
    } else {
        let prev = damage_sources(hits, n - 1);
        let h = hits[n - 1];
        if h.kind != RecapKind::Damage {
            prev
        } else {
            match source_index(prev, h.source_id, 0) {
                Some(k) => prev.update(k, source_after_hit(prev[k], h)),
                None => prev.push(source_after_hit(empty_source(h), h)),
            }
        }
    }
}

proof fn lemma_ability_index(rows: Seq<DamageRow>, name: Seq<char>, from: int, k: Option<int>)
    requires
        0 <= from <= rows.len(),
        match k {
            Some(k) => from <= k < rows.len() && rows[k].ability_name@ == name && forall|j: int|
                from <= j < k ==> rows[j].ability_name@ != name,
            None => forall|j: int| from <= j < rows.len() ==> rows[j].ability_name@ != name,
        },
    ensures
        ability_index(rows, name, from) == k,
    decreases rows.len() - from,
{
    if from < rows.len() {
        if rows[from].ability_name@ != name {
            lemma_ability_index(rows, name, from + 1, k);
        }
    }
}

proof fn lemma_source_index(sources: Seq<DamageSourceView>, id: i64, from: int, k: Option<int>)
    requires
        0 <= from <= sources.len(),
        match k {
            Some(k) => from <= k < sources.len() && sources[k].source_id == id && forall|j: int|
                from <= j < k ==> sources[j].source_id != id,
            None => forall|j: int| from <= j < sources.len() ==> sources[j].source_id != id,
        },
    ensures
        source_index(sources, id, from) == k,
    decreases sources.len() - from,
{
    if from < sources.len() {
        if sources[from].source_id != id {
            lemma_source_index(sources, id, from + 1, k);
        }
    }
}

/// The largest share of damage one hit adds to a sum.
pub open spec fn hit_bound() -> int {
    0x8000_0000
}

/// An ability row after at most `n` hits.
pub open spec fn row_fits(r: DamageRow, n: int) -> bool {
    &&& r.hits <= n
    &&& r.crits <= n
    &&& -n * hit_bound() <= r.total <= n * hit_bound()
    &&& -n * hit_bound() <= r.absorbed <= n * hit_bound()
}

/// A damage source after at most `n` hits.
pub open spec fn source_fits(s: DamageSourceView, n: int) -> bool {
    &&& s.hits <= n
    &&& s.crits <= n
    &&& -n * hit_bound() <= s.total <= n * hit_bound()
    &&& -n * hit_bound() <= s.absorbed <= n * hit_bound()
    &&& forall|j: int| 0 <= j < s.abilities.len() ==> row_fits(#[trigger] s.abilities[j], n)
}

/// The views of a list of damage sources.
pub open spec fn damage_views(v: Seq<DamageSource>) -> Seq<DamageSourceView> {
    v.map_values(|s: DamageSource| s@)
}

/// Adds a hit to its ability row, appending the row when new.
fn add_to_rows(rows: &mut Vec<DamageRow>, h: &RecapHit, Ghost(n): Ghost<int>)
    requires
        0 <= n < u32::MAX,
        forall|j: int| 0 <= j < old(rows).len() ==> row_fits(#[trigger] old(rows)@[j], n),
    ensures
        final(rows)@ == rows_after_hit(old(rows)@, *h),
        forall|j: int| 0 <= j < final(rows).len() ==> row_fits(#[trigger] final(rows)@[j], n + 1),
{
    let ghost before = rows@;
    let name = &h.ability_name;
    let same_name = |a: &DamageRow| -> (b: bool)
        ensures
            b == (a.ability_name@ == name@),
        { a.ability_name == *name };
    let new_row = || -> (r: DamageRow)
        ensures
            r == empty_row(h.ability_name),
        {
            DamageRow { ability_name: h.ability_name.clone(), hits: 0, crits: 0, total: 0, max_hit: 0, absorbed: 0 }
        };
    let row = find_or_push(rows, same_name, new_row);
    let ghost found = exists|k: int|
        {
            &&& 0 <= k < before.len()
            &&& before[k].ability_name@ == name@
            &&& forall|j: int| 0 <= j < k ==> before[j].ability_name@ != name@
            &&& *row == before[k]
        };
    let ghost k = choose|k: int|
        {
            &&& 0 <= k < before.len()
            &&& before[k].ability_name@ == name@
            &&& forall|j: int| 0 <= j < k ==> before[j].ability_name@ != name@
            &&& *row == before[k]
        };
    proof {
        if found {
            lemma_ability_index(before, name@, 0, Some(k));
        } else {
            lemma_ability_index(before, name@, 0, None);
            assert(*row == empty_row(h.ability_name));
        }
    }
    let ghost row_before = *row;
    assert(row_fits(row_before, n));
    row.hits = row.hits + 1;
    if h.is_crit {
        row.crits = row.crits + 1;
    }
    row.total = row.total + h.dmg_effective as i64;
    if h.dmg_effective > row.max_hit {
        row.max_hit = h.dmg_effective;
    }
    row.absorbed = row.absorbed + h.dmg_absorbed as i64;
    let ghost row_after = *row;
    assert(row_after == row_after_hit(row_before, *h));
    proof {
        if found {
            assert(rows@ == before.update(k, row_after));
        } else {
            assert(rows@ == before.push(row_after));
        }
        assert forall|j: int| 0 <= j < rows.len() implies row_fits(#[trigger] rows@[j], n + 1) by {
            if found && j == k {
            } else if !found && j == before.len() {
            } else {
                assert(rows@[j] == before[j]);
                assert(row_fits(before[j], n));
            }
        }
    }
}

/// Adds a damage hit to its source, appending the source when new.
fn add_to_sources(sources: &mut Vec<DamageSource>, h: &RecapHit, Ghost(n): Ghost<int>)
    requires
        0 <= n < u32::MAX,
        forall|j: int| 0 <= j < old(sources).len() ==> source_fits(#[trigger] damage_views(old(sources)@)[j], n),
    ensures
        damage_views(final(sources)@) == match source_index(damage_views(old(sources)@), h.source_id, 0) {
            Some(k) => damage_views(old(sources)@).update(k, source_after_hit(damage_views(old(sources)@)[k], *h)),
            None => damage_views(old(sources)@).push(source_after_hit(empty_source(*h), *h)),
        },
        forall|j: int| 0 <= j < final(sources).len() ==> source_fits(#[trigger] damage_views(final(sources)@)[j], n + 1),
{
    let ghost before = sources@;
    let ghost bv = damage_views(before);
    let id = h.source_id;
    let same_source = |x: &DamageSource| -> (b: bool)
        ensures
            b == (x.source_id == id),
        { x.source_id == id };
    let new_source = || -> (r: DamageSource)
        ensures
            r@ == empty_source(*h),
        {
            DamageSource {
                source_name: h.source_name.clone(),
                source_id: h.source_id,
                hits: 0,
                crits: 0,
                total: 0,
                max_hit: 0,
                absorbed: 0,
                abilities: Vec::new(),
            }
        };
    let src = find_or_push(sources, same_source, new_source);
    let ghost found = exists|k: int|
        {
            &&& 0 <= k < before.len()
            &&& before[k].source_id == id
            &&& forall|j: int| 0 <= j < k ==> before[j].source_id != id
            &&& *src == before[k]
        };
    let ghost k = choose|k: int|
        {
            &&& 0 <= k < before.len()
            &&& before[k].source_id == id
            &&& forall|j: int| 0 <= j < k ==> before[j].source_id != id
            &&& *src == before[k]
        };
    proof {
        if found {
            assert(bv[k] == before[k]@);
            assert forall|j: int| 0 <= j < k implies bv[j].source_id != id by {
                assert(bv[j] == before[j]@);
            }
            lemma_source_index(bv, id, 0, Some(k));
            assert(source_fits(bv[k], n));
        } else {
            assert forall|j: int| 0 <= j < bv.len() implies bv[j].source_id != id by {
                assert(bv[j] == before[j]@);
            }
            lemma_source_index(bv, id, 0, None);
            assert(src@ == empty_source(*h));
        }
    }
    let ghost src_before = src@;
    assert(source_fits(src_before, n));
    src.hits = src.hits + 1;
    if h.is_crit {
        src.crits = src.crits + 1;
    }
    src.total = src.total + h.dmg_effective as i64;
    if h.dmg_effective > src.max_hit {
        src.max_hit = h.dmg_effective;
    }
    src.absorbed = src.absorbed + h.dmg_absorbed as i64;
    assert forall|j: int| 0 <= j < src.abilities.len() implies row_fits(#[trigger] src.abilities@[j], n) by {
        assert(src.abilities@[j] == src_before.abilities[j]);
    }
    add_to_rows(&mut src.abilities, h, Ghost(n));
    let ghost src_after = src@;
    assert(src_after == source_after_hit(src_before, *h));
    proof {
        if found {
            assert(sources@ == before.update(k, *src));
            assert(damage_views(sources@) =~= bv.update(k, src_after));
        } else {
            assert(sources@ == before.push(*src));
            assert(damage_views(sources@) =~= bv.push(src_after));
        }
        assert forall|j: int| 0 <= j < sources.len() implies source_fits(#[trigger] damage_views(sources@)[j], n + 1) by {
            if (found && j == k) || (!found && j == before.len()) {
            } else {
                assert(damage_views(sources@)[j] == bv[j]);
                assert(source_fits(bv[j], n));
            }
        }
    }
}

/// The damage sources of the rows, in order of first hit.
fn collect_damage(hits: &Vec<RecapHit>) -> (r: Vec<DamageSource>)
    requires
        hits.len() <= u32::MAX,
    ensures
        damage_views(r@) == damage_sources(hits@, hits.len() as int),
{
    let mut out: Vec<DamageSource> = Vec::new();
    let mut i: usize = 0;
    assert(damage_views(out@) =~= damage_sources(hits@, 0));
    while i < hits.len()
        invariant
            i <= hits.len() <= u32::MAX,
            damage_views(out@) == damage_sources(hits@, i as int),
            forall|j: int| 0 <= j < out.len() ==> source_fits(#[trigger] damage_views(out@)[j], i as int),
        decreases hits.len() - i,
    {
        let h = &hits[i];
        if h.kind == RecapKind::Damage {
            add_to_sources(&mut out, h, Ghost(i as int));
        } else {
            assert forall|j: int| 0 <= j < out.len() implies source_fits(#[trigger] damage_views(out@)[j], i + 1) by {
                assert(source_fits(damage_views(out@)[j], i as int));
            }
        }
        i = i + 1;
    }
    out
}

/// Healing from one ability of a source.
#[derive(Debug, Clone, PartialEq, Eq)]
pub struct HealRow {
    pub ability_name: String,
    pub casts: u32,
    pub effective: i64,
}

/// Healing from one source, by ability.
#[derive(Debug, PartialEq, Eq)]
pub struct HealSource {
    pub source_name: String,
    pub source_id: i64,
    pub casts: u32,
    pub effective: i64,
    pub abilities: Vec<HealRow>,
}

/// The view of a heal source.
pub struct HealSourceView {
    pub source_name: String,
    pub source_id: i64,
    pub casts: u32,
    pub effective: i64,
    pub abilities: Seq<HealRow>,
}

impl View for HealSource {
    type V = HealSourceView;

    open spec fn view(&self) -> HealSourceView {
        HealSourceView {
            source_name: self.source_name,
            source_id: self.source_id,
            casts: self.casts,
            effective: self.effective,
            abilities: self.abilities@,
        }
    }
}

/// The views of a list of heal sources.
pub open spec fn heal_views(v: Seq<HealSource>) -> Seq<HealSourceView> {
    v.map_values(|s: HealSource| s@)
}

/// The position of the first heal row named `name`, from `from` on.
pub open spec fn heal_row_index(rows: Seq<HealRow>, name: Seq<char>, from: int) -> Option<int>
    decreases rows.len() - from,
{
    if from < 0 || from >= rows.len() {
        None
    } else if rows[from].ability_name@ == name {
        Some(from)
    } else {
        heal_row_index(rows, name, from + 1)
    }
}

/// The position of the first heal source with the ID, from `from` on.
pub open spec fn heal_source_index(sources: Seq<HealSourceView>, id: i64, from: int) -> Option<int>
    decreases sources.len() - from,
{
    if from < 0 || from >= sources.len() {
        None
    } else if sources[from].source_id == id {
        Some(from)
    } else {
        heal_source_index(sources, id, from + 1)
    }
}

/// A heal row after one more cast.
pub open spec fn heal_row_after(row: HealRow, h: RecapHit) -> HealRow {
    HealRow {
        ability_name: row.ability_name,
        casts: (row.casts + 1) as u32,
        effective: (row.effective + h.heal_effective) as i64,
    }
}

/// The heal rows after one more cast.
pub open spec fn heal_rows_after(rows: Seq<HealRow>, h: RecapHit) -> Seq<HealRow> {
    match heal_row_index(rows, h.ability_name@, 0) {
        Some(k) => rows.update(k, heal_row_after(rows[k], h)),
        None => rows.push(heal_row_after(HealRow { ability_name: h.ability_name, casts: 0, effective: 0 }, h)),
    }
}

/// A heal source after one more cast.
pub open spec fn heal_source_after(src: HealSourceView, h: RecapHit) -> HealSourceView {
    HealSourceView {
        source_name: src.source_name,
        source_id: src.source_id,
        casts: (src.casts + 1) as u32,
        effective: (src.effective + h.heal_effective) as i64,
        abilities: heal_rows_after(src.abilities, h),
    }
}

/// A fresh heal source, named after its first cast.
pub open spec fn empty_heal_source(h: RecapHit) -> HealSourceView {
    HealSourceView { source_name: h.source_name, source_id: h.source_id, casts: 0, effective: 0, abilities: Seq::empty() }
}

/// The heal sources after the rows `hits[..n]`, in order of first cast.
pub open spec fn heal_sources(hits: Seq<RecapHit>, n: int) -> Seq<HealSourceView>
    decreases n,
{
    if n <= 0 {
        Seq::empty()
    } else {
        let prev = heal_sources(hits, n - 1);
        let h = hits[n - 1];
        if h.kind != RecapKind::Heal {
            prev
        } else {
            match heal_source_index(prev, h.source_id, 0) {
                Some(k) => prev.update(k, heal_source_after(prev[k], h)),
                None => prev.push(heal_source_after(empty_heal_source(h), h)),
            }
        }
    }
}

proof fn lemma_heal_row_index(rows: Seq<HealRow>, name: Seq<char>, from: int, k: Option<int>)
    requires
        0 <= from <= rows.len(),
        match k {
            Some(k) => from <= k < rows.len() && rows[k].ability_name@ == name && forall|j: int|
                from <= j < k ==> rows[j].ability_name@ != name,
            None => forall|j: int| from <= j < rows.len() ==> rows[j].ability_name@ != name,
        },
    ensures
        heal_row_index(rows, name, from) == k,
    decreases rows.len() - from,
{
    if from < rows.len() {
        if rows[from].ability_name@ != name {
            lemma_heal_row_index(rows, name, from + 1, k);
        }
    }
}

proof fn lemma_heal_source_index(sources: Seq<HealSourceView>, id: i64, from: int, k: Option<int>)
    requires
        0 <= from <= sources.len(),
        match k {
            Some(k) => from <= k < sources.len() && sources[k].source_id == id && forall|j: int|
                from <= j < k ==> sources[j].source_id != id,
            None => forall|j: int| from <= j < sources.len() ==> sources[j].source_id != id,
        },
    ensures
        heal_source_index(sources, id, from) == k,
    decreases sources.len() - from,
{
    if from < sources.len() {
        if sources[from].source_id != id {
            lemma_heal_source_index(sources, id, from + 1, k);
        }
    }
}

/// A heal row after at most `n` casts.
pub open spec fn heal_row_fits(r: HealRow, n: int) -> bool {
    &&& r.casts <= n
    &&& -n * hit_bound() <= r.effective <= n * hit_bound()
}

/// A heal source after at most `n` casts.
pub open spec fn heal_source_fits(s: HealSourceView, n: int) -> bool {
    &&& s.casts <= n
    &&& -n * hit_bound() <= s.effective <= n * hit_bound()
    &&& forall|j: int| 0 <= j < s.abilities.len() ==> heal_row_fits(#[trigger] s.abilities[j], n)
}

fn add_to_heal_rows(rows: &mut Vec<HealRow>, h: &RecapHit, Ghost(n): Ghost<int>)
    requires
        0 <= n < u32::MAX,
        forall|j: int| 0 <= j < old(rows).len() ==> heal_row_fits(#[trigger] old(rows)@[j], n),
    ensures
        final(rows)@ == heal_rows_after(old(rows)@, *h),
        forall|j: int| 0 <= j < final(rows).len() ==> heal_row_fits(#[trigger] final(rows)@[j], n + 1),
{
    let ghost before = rows@;
    let name = &h.ability_name;
    let same_name = |a: &HealRow| -> (b: bool)
        ensures
            b == (a.ability_name@ == name@),
        { a.ability_name == *name };
    let new_row = || -> (r: HealRow)
        ensures
            r == (HealRow { ability_name: h.ability_name, casts: 0, effective: 0 }),
        { HealRow { ability_name: h.ability_name.clone(), casts: 0, effective: 0 } };
    let row = find_or_push(rows, same_name, new_row);
    let ghost found = exists|k: int|
        {
            &&& 0 <= k < before.len()
            &&& before[k].ability_name@ == name@
            &&& forall|j: int| 0 <= j < k ==> before[j].ability_name@ != name@
            &&& *row == before[k]
        };
    let ghost k = choose|k: int|
        {
            &&& 0 <= k < before.len()
            &&& before[k].ability_name@ == name@
            &&& forall|j: int| 0 <= j < k ==> before[j].ability_name@ != name@
            &&& *row == before[k]
        };
    proof {
        if found {
            lemma_heal_row_index(before, name@, 0, Some(k));
        } else {
            lemma_heal_row_index(before, name@, 0, None);
        }
    }
    let ghost row_before = *row;
    assert(heal_row_fits(row_before, n));
    row.casts = row.casts + 1;
    row.effective = row.effective + h.heal_effective as i64;
    let ghost row_after = *row;
    assert(row_after == heal_row_after(row_before, *h));
    proof {
        if found {
            assert(rows@ == before.update(k, row_after));
        } else {
            assert(rows@ == before.push(row_after));
        }
        assert forall|j: int| 0 <= j < rows.len() implies heal_row_fits(#[trigger] rows@[j], n + 1) by {
            if (found && j == k) || (!found && j == before.len()) {
            } else {
                assert(rows@[j] == before[j]);
                assert(heal_row_fits(before[j], n));
            }
        }
    }
}

fn add_to_heal_sources(sources: &mut Vec<HealSource>, h: &RecapHit, Ghost(n): Ghost<int>)
    requires
        0 <= n < u32::MAX,
        forall|j: int| 0 <= j < old(sources).len() ==> heal_source_fits(#[trigger] heal_views(old(sources)@)[j], n),
    ensures
        heal_views(final(sources)@) == match heal_source_index(heal_views(old(sources)@), h.source_id, 0) {
            Some(k) => heal_views(old(sources)@).update(k, heal_source_after(heal_views(old(sources)@)[k], *h)),
            None => heal_views(old(sources)@).push(heal_source_after(empty_heal_source(*h), *h)),
        },
        forall|j: int| 0 <= j < final(sources).len() ==> heal_source_fits(#[trigger] heal_views(final(sources)@)[j], n + 1),
{
    let ghost before = sources@;
    let ghost bv = heal_views(before);
    let id = h.source_id;
    let same_source = |x: &HealSource| -> (b: bool)
        ensures
            b == (x.source_id == id),
        { x.source_id == id };
    let new_source = || -> (r: HealSource)
        ensures
            r@ == empty_heal_source(*h),
        {
            HealSource {
                source_name: h.source_name.clone(),
                source_id: h.source_id,
                casts: 0,
                effective: 0,
                abilities: Vec::new(),
            }
        };
    let src = find_or_push(sources, same_source, new_source);
    let ghost found = exists|k: int|
        {
            &&& 0 <= k < before.len()
            &&& before[k].source_id == id
            &&& forall|j: int| 0 <= j < k ==> before[j].source_id != id
            &&& *src == before[k]
        };
    let ghost k = choose|k: int|
        {
            &&& 0 <= k < before.len()
            &&& before[k].source_id == id
            &&& forall|j: int| 0 <= j < k ==> before[j].source_id != id
            &&& *src == before[k]
        };
    proof {
        if found {
            assert(bv[k] == before[k]@);
            assert forall|j: int| 0 <= j < k implies bv[j].source_id != id by {
                assert(bv[j] == before[j]@);
            }
            lemma_heal_source_index(bv, id, 0, Some(k));
            assert(heal_source_fits(bv[k], n));
        } else {
            assert forall|j: int| 0 <= j < bv.len() implies bv[j].source_id != id by {
                assert(bv[j] == before[j]@);
            }
            lemma_heal_source_index(bv, id, 0, None);
            assert(src@ == empty_heal_source(*h));
        }
    }
    let ghost src_before = src@;
    assert(heal_source_fits(src_before, n));
    src.casts = src.casts + 1;
    src.effective = src.effective + h.heal_effective as i64;
    assert forall|j: int| 0 <= j < src.abilities.len() implies heal_row_fits(#[trigger] src.abilities@[j], n) by {
        assert(src.abilities@[j] == src_before.abilities[j]);
    }
    add_to_heal_rows(&mut src.abilities, h, Ghost(n));
    let ghost src_after = src@;
    assert(src_after == heal_source_after(src_before, *h));
    proof {
        if found {
            assert(sources@ == before.update(k, *src));
            assert(heal_views(sources@) =~= bv.update(k, src_after));
        } else {
            assert(sources@ == before.push(*src));
            assert(heal_views(sources@) =~= bv.push(src_after));
        }
        assert forall|j: int| 0 <= j < sources.len() implies heal_source_fits(#[trigger] heal_views(sources@)[j], n + 1) by {
            if (found && j == k) || (!found && j == before.len()) {
            } else {
                assert(heal_views(sources@)[j] == bv[j]);
                assert(heal_source_fits(bv[j], n));
            }
        }
    }
}

/// The heal sources of the rows, in order of first cast.
fn collect_healing(hits: &Vec<RecapHit>) -> (r: Vec<HealSource>)
    requires
        hits.len() <= u32::MAX,
    ensures
        heal_views(r@) == heal_sources(hits@, hits.len() as int),
{
    let mut out: Vec<HealSource> = Vec::new();
    let mut i: usize = 0;
    assert(heal_views(out@) =~= heal_sources(hits@, 0));
    while i < hits.len()
        invariant
            i <= hits.len() <= u32::MAX,
            heal_views(out@) == heal_sources(hits@, i as int),
            forall|j: int| 0 <= j < out.len() ==> heal_source_fits(#[trigger] heal_views(out@)[j], i as int),
        decreases hits.len() - i,
    {
        let h = &hits[i];
        if h.kind == RecapKind::Heal {
            add_to_heal_sources(&mut out, h, Ghost(i as int));
        } else {
            assert forall|j: int| 0 <= j < out.len() implies heal_source_fits(#[trigger] heal_views(out@)[j], i + 1) by {
                assert(heal_source_fits(heal_views(out@)[j], i as int));
            }
        }
        i = i + 1;
    }
    out
}

/// The order keys of values sorted by `total`, highest first, ties in the
/// given order.
pub open spec fn desc_keys(totals: Seq<i64>) -> Seq<(bool, i64)> {
    Seq::new(totals.len(), |i: int| (false, totals[i]))
}

/// `out` holds the items of `input` sorted by their totals, highest first,
/// ties in the given order.
pub open spec fn sorted_desc_by<T>(out: Seq<T>, input: Seq<T>, totals: Seq<i64>) -> bool {
    exists|p: Seq<usize>|
        {
            &&& is_meter_order(desc_keys(totals), p)
            &&& out.len() == p.len()
            &&& forall|k: int| 0 <= k < out.len() ==> #[trigger] out[k] == input[p[k] as int]
        }
}

proof fn lemma_order_distinct(keys: Seq<(bool, i64)>, p: Seq<usize>)
    requires
        is_meter_order(keys, p),
    ensures
        forall|i: int, j: int| 0 <= i < j < p.len() ==> p[i] != p[j],
{
    assert forall|i: int, j: int| 0 <= i < j < p.len() implies p[i] != p[j] by {
        assert(meter_before(keys[p[i] as int], p[i] as int, keys[p[j] as int], p[j] as int));
    }
}

/// The items taken in the order `p`, a permutation of their positions.
fn permute<T>(items: Vec<T>, p: &Vec<usize>) -> (r: Vec<T>)
    requires
        p.len() == items.len(),
        forall|i: int| 0 <= i < p.len() ==> p@[i] < items.len(),
        forall|i: int, j: int| 0 <= i < j < p.len() ==> p@[i] != p@[j],
    ensures
        r.len() == p.len(),
        forall|k: int| 0 <= k < r.len() ==> #[trigger] r@[k] == items@[p@[k] as int],
{
    let ghost orig = items@;
    let n = items.len();
    let mut opts: Vec<Option<T>> = Vec::new();
    let mut rest = items;
    while rest.len() > 0
        invariant
            opts.len() + rest.len() == n,
            n == orig.len(),
            rest@ == orig.skip(opts.len() as int),
            forall|j: int| 0 <= j < opts.len() ==> #[trigger] opts@[j] == Some(orig[j]),
        decreases rest.len(),
    {
        let x = rest.remove(0);
        assert(x == orig[opts.len() as int]);
        assert(rest@ =~= orig.skip(opts.len() + 1));
        opts.push(Some(x));
    }
    let mut out: Vec<T> = Vec::new();
    let mut k: usize = 0;
    while k < p.len()
        invariant
            k <= p.len() == n == orig.len() == opts.len(),
            forall|i: int| 0 <= i < p.len() ==> p@[i] < n,
            forall|i: int, j: int| 0 <= i < j < p.len() ==> p@[i] != p@[j],
            out.len() == k,
            forall|a: int| 0 <= a < k ==> #[trigger] out@[a] == orig[p@[a] as int],
            forall|j: int|
                0 <= j < n ==> (#[trigger] opts@[j] == Some(orig[j]) || (exists|a: int| 0 <= a < k && p@[a] == j)),
        decreases p.len() - k,
    {
        let idx = p[k];
        let ghost before = opts@;
        assert(before[idx as int] == Some(orig[idx as int])) by {
            if before[idx as int] != Some(orig[idx as int]) {
                let a = choose|a: int| 0 <= a < k && p@[a] == idx;
                assert(p@[a] != p@[k as int]);
            }
        }
        let slot = opts.remove(idx);
        opts.insert(idx, None);
        proof {
            assert(opts@ =~= before.update(idx as int, None));
        }
        match slot {
            Some(v) => {
                out.push(v);
            },
            None => {
                assert(false);
            },
        }
        proof {
            assert forall|j: int| 0 <= j < n implies (#[trigger] opts@[j] == Some(orig[j]) || (exists|a: int|
                0 <= a < k + 1 && p@[a] == j)) by {
                if j == idx {
                    assert(p@[k as int] == j);
                } else {
                    assert(opts@[j] == before[j]);
                }
            }
        }
        k = k + 1;
    }
    out
}

/// The items sorted by their totals, highest first, ties in the given order.
fn sort_desc_by<T>(items: Vec<T>, totals: &Vec<i64>) -> (r: Vec<T>)
    requires
        totals.len() == items.len(),
    ensures
        sorted_desc_by(r@, items@, totals@),
{
    let mut keys: Vec<(bool, i64)> = Vec::new();
    let mut i: usize = 0;
    while i < totals.len()
        invariant
            i <= totals.len(),
            keys@ == desc_keys(totals@).take(i as int),
        decreases totals.len() - i,
    {
        keys.push((false, totals[i]));
        assert(keys@ =~= desc_keys(totals@).take(i + 1));
        i = i + 1;
    }
    assert(keys@ =~= desc_keys(totals@));
    let p = meter_order(&keys);
    proof {
        lemma_order_distinct(keys@, p@);
    }
    let ghost input = items@;
    let r = permute(items, &p);
    assert(forall|k: int| 0 <= k < r@.len() ==> #[trigger] r@[k] == input[p@[k] as int]);
    r
}

/// The totals of ability rows, in order.
pub open spec fn row_totals(rows: Seq<DamageRow>) -> Seq<i64> {
    Seq::new(rows.len(), |i: int| rows[i].total)
}

/// The totals of damage sources, in order.
pub open spec fn source_totals(sources: Seq<DamageSourceView>) -> Seq<i64> {
    Seq::new(sources.len(), |i: int| sources[i].total)
}

/// `out` is the source `input` with its ability rows sorted by total.
pub open spec fn with_rows_sorted(out: DamageSourceView, input: DamageSourceView) -> bool {
    &&& out.source_name == input.source_name
    &&& out.source_id == input.source_id
    &&& out.hits == input.hits
    &&& out.crits == input.crits
    &&& out.total == input.total
    &&& out.max_hit == input.max_hit
    &&& out.absorbed == input.absorbed
    &&& sorted_desc_by(out.abilities, input.abilities, row_totals(input.abilities))
}

/// `out` holds the damage sources `input` sorted by total, highest first,
/// each with its ability rows sorted by total.
pub open spec fn damage_rows_sorted(out: Seq<DamageSourceView>, input: Seq<DamageSourceView>) -> bool {
    exists|p: Seq<usize>|
        {
            &&& is_meter_order(desc_keys(source_totals(input)), p)
            &&& out.len() == p.len()
            &&& forall|k: int| 0 <= k < out.len() ==> with_rows_sorted(#[trigger] out[k], input[p[k] as int])
        }
}

fn sort_damage_sources(sources: Vec<DamageSource>) -> (r: Vec<DamageSource>)
    ensures
        damage_rows_sorted(damage_views(r@), damage_views(sources@)),
{
    let ghost input = damage_views(sources@);
    let n = sources.len();
    let mut mid: Vec<DamageSource> = Vec::new();
    let mut totals: Vec<i64> = Vec::new();
    let mut rest = sources;
    while rest.len() > 0
        invariant
            mid.len() + rest.len() == n == input.len(),
            damage_views(rest@) == input.skip(mid.len() as int),
            totals@ == source_totals(input).take(mid.len() as int),
            forall|j: int| 0 <= j < mid.len() ==> with_rows_sorted(#[trigger] damage_views(mid@)[j], input[j]),
        decreases rest.len(),
    {
        let ghost rv = damage_views(rest@);
        let src = rest.remove(0);
        proof {
            assert(src@ == rv[0]);
            assert(damage_views(rest@) =~= rv.drop_first());
        }
        let DamageSource { source_name, source_id, hits, crits, total, max_hit, absorbed, abilities } = src;
        let mut row_tot: Vec<i64> = Vec::new();
        let mut a: usize = 0;
        while a < abilities.len()
            invariant
                a <= abilities.len(),
                row_tot@ == row_totals(abilities@).take(a as int),
            decreases abilities.len() - a,
        {
            row_tot.push(abilities[a].total);
            assert(row_tot@ =~= row_totals(abilities@).take(a + 1));
            a = a + 1;
        }
        assert(row_tot@ =~= row_totals(abilities@));
        let sorted = sort_desc_by(abilities, &row_tot);
        let ghost before = damage_views(mid@);
        mid.push(DamageSource { source_name, source_id, hits, crits, total, max_hit, absorbed, abilities: sorted });
        totals.push(total);
        proof {
            assert(damage_views(mid@) =~= before.push(mid@[mid.len() - 1]@));
            assert(totals@ =~= source_totals(input).take(mid.len() as int));
        }
    }
    assert(totals@ =~= source_totals(input));
    let ghost mv = damage_views(mid@);
    let r = sort_desc_by(mid, &totals);
    proof {
        let p = choose|p: Seq<usize>|
            {
                &&& is_meter_order(desc_keys(totals@), p)
                &&& r@.len() == p.len()
                &&& forall|k: int| 0 <= k < r@.len() ==> #[trigger] r@[k] == mid@[p[k] as int]
            };
        assert forall|k: int| 0 <= k < r@.len() implies with_rows_sorted(#[trigger] damage_views(r@)[k], input[p[k] as int]) by {
            assert(r@[k] == mid@[p[k] as int]);
            assert(p[k] < n);
            assert(mv[p[k] as int] == mid@[p[k] as int]@);
        }
    }
    r
}

/// The effective healing of heal rows, in order.
pub open spec fn heal_row_totals(rows: Seq<HealRow>) -> Seq<i64> {
    Seq::new(rows.len(), |i: int| rows[i].effective)
}

/// The effective healing of heal sources, in order.
pub open spec fn heal_source_totals(sources: Seq<HealSourceView>) -> Seq<i64> {
    Seq::new(sources.len(), |i: int| sources[i].effective)
}

/// `out` is the heal source `input` with its rows sorted by healing.
pub open spec fn with_heal_rows_sorted(out: HealSourceView, input: HealSourceView) -> bool {
    &&& out.source_name == input.source_name
    &&& out.source_id == input.source_id
    &&& out.casts == input.casts
    &&& out.effective == input.effective
    &&& sorted_desc_by(out.abilities, input.abilities, heal_row_totals(input.abilities))
}

/// `out` holds the heal sources `input` sorted by effective healing,
/// highest first, each with its rows sorted the same way.
pub open spec fn heal_rows_sorted(out: Seq<HealSourceView>, input: Seq<HealSourceView>) -> bool {
    exists|p: Seq<usize>|
        {
            &&& is_meter_order(desc_keys(heal_source_totals(input)), p)
            &&& out.len() == p.len()
            &&& forall|k: int| 0 <= k < out.len() ==> with_heal_rows_sorted(#[trigger] out[k], input[p[k] as int])
        }
}

fn sort_heal_sources(sources: Vec<HealSource>) -> (r: Vec<HealSource>)
    ensures
        heal_rows_sorted(heal_views(r@), heal_views(sources@)),
{
    let ghost input = heal_views(sources@);
    let n = sources.len();
    let mut mid: Vec<HealSource> = Vec::new();
    let mut totals: Vec<i64> = Vec::new();
    let mut rest = sources;
    while rest.len() > 0
        invariant
            mid.len() + rest.len() == n == input.len(),
            heal_views(rest@) == input.skip(mid.len() as int),
            totals@ == heal_source_totals(input).take(mid.len() as int),
            forall|j: int| 0 <= j < mid.len() ==> with_heal_rows_sorted(#[trigger] heal_views(mid@)[j], input[j]),
        decreases rest.len(),
    {
        let ghost rv = heal_views(rest@);
        let src = rest.remove(0);
        proof {
            assert(src@ == rv[0]);
            assert(heal_views(rest@) =~= rv.drop_first());
        }
        let HealSource { source_name, source_id, casts, effective, abilities } = src;
        let mut row_tot: Vec<i64> = Vec::new();
        let mut a: usize = 0;
        while a < abilities.len()
            invariant
                a <= abilities.len(),
                row_tot@ == heal_row_totals(abilities@).take(a as int),
            decreases abilities.len() - a,
        {
            row_tot.push(abilities[a].effective);
            assert(row_tot@ =~= heal_row_totals(abilities@).take(a + 1));
            a = a + 1;
        }
        assert(row_tot@ =~= heal_row_totals(abilities@));
        let sorted = sort_desc_by(abilities, &row_tot);
        let ghost before = heal_views(mid@);
        mid.push(HealSource { source_name, source_id, casts, effective, abilities: sorted });
        totals.push(effective);
        proof {
            assert(heal_views(mid@) =~= before.push(mid@[mid.len() - 1]@));
            assert(totals@ =~= heal_source_totals(input).take(mid.len() as int));
        }
    }
    assert(totals@ =~= heal_source_totals(input));
    let ghost mv = heal_views(mid@);
    let r = sort_desc_by(mid, &totals);
    proof {
        let p = choose|p: Seq<usize>|
            {
                &&& is_meter_order(desc_keys(totals@), p)
                &&& r@.len() == p.len()
                &&& forall|k: int| 0 <= k < r@.len() ==> #[trigger] r@[k] == mid@[p[k] as int]
            };
        assert forall|k: int| 0 <= k < r@.len() implies with_heal_rows_sorted(#[trigger] heal_views(r@)[k], input[p[k] as int]) by {
            assert(r@[k] == mid@[p[k] as int]);
            assert(p[k] < n);
            assert(mv[p[k] as int] == mid@[p[k] as int]@);
        }
    }
    r
}

/// The sums over the rows `hits[..n]`: (damage, absorbed, healing).
pub open spec fn recap_sums(hits: Seq<RecapHit>, n: int) -> (int, int, int)
    decreases n,
{
    if n <= 0 {
        (0, 0, 0)
    } else {
        let prev = recap_sums(hits, n - 1);
        let h = hits[n - 1];
        if h.kind == RecapKind::Damage {
            (prev.0 + h.dmg_effective, prev.1 + h.dmg_absorbed, prev.2)
        } else if h.kind == RecapKind::Heal {
            (prev.0, prev.1, prev.2 + h.heal_effective)
        } else {
            prev
        }
    }
}

/// The totals of a recap: damage, absorbed, healing.
fn recap_totals(hits: &Vec<RecapHit>) -> (r: (i64, i64, i64))
    requires
        hits.len() <= u32::MAX,
    ensures
        (r.0 as int, r.1 as int, r.2 as int) == recap_sums(hits@, hits.len() as int),
{
    let mut dmg: i64 = 0;
    let mut abs: i64 = 0;
    let mut heal: i64 = 0;
    let mut i: usize = 0;
    while i < hits.len()
        invariant
            i <= hits.len() <= u32::MAX,
            (dmg as int, abs as int, heal as int) == recap_sums(hits@, i as int),
            -i * hit_bound() <= dmg <= i * hit_bound(),
            -i * hit_bound() <= abs <= i * hit_bound(),
            -i * hit_bound() <= heal <= i * hit_bound(),
        decreases hits.len() - i,
    {
        let h = &hits[i];
        if h.kind == RecapKind::Damage {
            dmg = dmg + h.dmg_effective as i64;
            abs = abs + h.dmg_absorbed as i64;
        } else if h.kind == RecapKind::Heal {
            heal = heal + h.heal_effective as i64;
        }
        i = i + 1;
    }
    (dmg, abs, heal)
}

/// What a death recap sums up of its window's rows.
#[derive(Debug)]
pub struct RecapSummary {
    /// Damage by source, highest total first, each by ability likewise.
    pub damage_rows: Vec<DamageSource>,
    /// Healing by source, highest first, each by ability likewise.
    pub healing_rows: Vec<HealSource>,
    pub damage_total: i64,
    pub absorbed_total: i64,
    pub healing_total: i64,
    pub killing_blow: Option<KillingBlow>,
}

/// Sums up the damage, heal and death rows of a recap window, in log order:
/// damage and healing by source (told apart by ID) and by ability, the
/// totals, and the killing blow.
pub fn summarize_recap(hits: &Vec<RecapHit>) -> (r: RecapSummary)
    requires
        hits.len() <= u32::MAX,
        overkill_fits(hits@),
    ensures
        damage_rows_sorted(damage_views(r.damage_rows@), damage_sources(hits@, hits.len() as int)),
        heal_rows_sorted(heal_views(r.healing_rows@), heal_sources(hits@, hits.len() as int)),
        (r.damage_total as int, r.absorbed_total as int, r.healing_total as int) == recap_sums(hits@, hits.len() as int),
        r.killing_blow == spec_killing_blow(hits@),
{
    let damage = collect_damage(hits);
    let healing = collect_healing(hits);
    let (damage_total, absorbed_total, healing_total) = recap_totals(hits);
    RecapSummary {
        damage_rows: sort_damage_sources(damage),
        healing_rows: sort_heal_sources(healing),
        damage_total,
        absorbed_total,
        healing_total,
        killing_blow: killing_blow(hits),
    }
}

/// Most entries the event ledger of a recap keeps.
pub const MAX_LEDGER_EVENTS: usize = 30;

/// Keeps the last `MAX_LEDGER_EVENTS` events of the ledger.
pub fn trim_ledger<T>(events: &mut Vec<T>)
    ensures
        final(events)@ == if old(events).len() > MAX_LEDGER_EVENTS {
            old(events)@.skip(old(events).len() - MAX_LEDGER_EVENTS)
        } else {
            old(events)@
        },
{
    let n = events.len();
    if n > MAX_LEDGER_EVENTS {
        let ghost before = events@;
        let tail = events.split_off(n - MAX_LEDGER_EVENTS);
        *events = tail;
        assert(events@ =~= before.skip(n - MAX_LEDGER_EVENTS));
    }
}

/// Whether the overkill of every damaging hit fits in `i32`, so that the
/// rows can be summed up.
pub fn overkill_fits_check(hits: &Vec<RecapHit>) -> (r: bool)
    ensures
        r == overkill_fits(hits@),
{
    let mut last_hp: Option<i32> = None;
    let mut n: usize = 0;
    while n < hits.len()
        invariant
            n <= hits.len(),
            last_hp == blow_search(hits@, n as int).last_hp,
            forall|m: int|
                0 <= m < n && (#[trigger] hits@[m]).kind == RecapKind::Damage && hits@[m].dmg_effective > 0
                    ==> match blow_search(hits@, m).last_hp {
                    Some(hp) => hits@[m].dmg_effective - hp <= i32::MAX,
                    None => true,
                },
        decreases hits.len() - n,
    {
        let h = &hits[n];
        if h.kind == RecapKind::Damage && h.dmg_effective > 0 {
            if let Some(hp) = last_hp {
                if h.dmg_effective as i64 - hp as i64 > i32::MAX as i64 {
                    assert(!overkill_fits(hits@)) by {
                        assert(hits@[n as int].kind == RecapKind::Damage);
                    }
                    return false;
                }
            }
        }
        if h.max_hp > 0 {
            last_hp = Some(h.hp);
        }
        n = n + 1;
    }
    true
}

/// A damaging hit that left recorded health at zero.
pub open spec fn is_zeroing(h: RecapHit) -> bool {
    h.kind == RecapKind::Damage && h.dmg_effective > 0 && h.max_hp > 0 && h.hp == 0
}

proof fn lemma_zeroed_is_first(hits: Seq<RecapHit>, i: int, n: int)
    requires
        0 <= i < hits.len(),
        is_zeroing(hits[i]),
        forall|j: int| 0 <= j < i ==> !is_zeroing(#[trigger] hits[j]),
        0 <= n <= hits.len(),
    ensures
        n <= i ==> blow_search(hits, n).zeroed is None,
        n > i ==> (blow_search(hits, n).zeroed matches Some((k, _)) && k == i),
    decreases n,
{
    if n > 0 {
        lemma_zeroed_is_first(hits, i, n - 1);
        if n - 1 < i {
            assert(!is_zeroing(hits[n - 1]));
        }
    }
}

/// The first damaging hit that left recorded health at zero is the killing
/// blow, whatever came after it.
pub proof fn law_first_zeroing_hit_kills(hits: Seq<RecapHit>, i: int)
    requires
        0 <= i < hits.len(),
        is_zeroing(hits[i]),
        forall|j: int| 0 <= j < i ==> !is_zeroing(#[trigger] hits[j]),
    ensures
        spec_killing_blow(hits) matches Some(kb) && kb.ability_name == hits[i].ability_name
            && kb.source_name == hits[i].source_name && kb.amount == hits[i].dmg_effective,
{
    lemma_zeroed_is_first(hits, i, hits.len() as int);
}


/// The health recorded before row `n`: that of the last earlier row with a
/// recorded maximum.
pub open spec fn hp_before(hits: Seq<RecapHit>, n: int) -> Option<i32>
    decreases n,
{
    if n <= 0 {
        None
    } else if hits[n - 1].max_hp > 0 {
        Some(hits[n - 1].hp)
    } else {
        hp_before(hits, n - 1)
    }
}

/// Row `i` could have killed without health recorded after it: a damaging
/// hit with no recorded maximum, at least as large as the health recorded
/// before it (if any).
pub open spec fn could_have_killed(hits: Seq<RecapHit>, i: int) -> bool {
    &&& hits[i].kind == RecapKind::Damage
    &&& hits[i].dmg_effective > 0
    &&& hits[i].max_hp == 0
    &&& match hp_before(hits, i) {
        Some(hp) => hits[i].dmg_effective >= hp,
        None => true,
    }
}

proof fn lemma_last_candidate(hits: Seq<RecapHit>, n: int)
    requires
        0 <= n <= hits.len(),
    ensures
        blow_search(hits, n).last_hp == hp_before(hits, n),
        blow_search(hits, n).last matches Some((i, _)) ==> 0 <= i < n && could_have_killed(hits, i) && forall|j: int|
            i < j < n ==> !could_have_killed(hits, j),
        blow_search(hits, n).last is None ==> forall|j: int| 0 <= j < n ==> !could_have_killed(hits, j),
        (forall|j: int| 0 <= j < n ==> !is_zeroing(#[trigger] hits[j])) ==> blow_search(hits, n).zeroed is None,
    decreases n,
{
    if n > 0 {
        lemma_last_candidate(hits, n - 1);
    }
}

/// Without a hit that left recorded health at zero, the killing blow is the
/// last hit that could have killed (see `could_have_killed`), and there is
/// none when no hit could have.
pub proof fn law_last_possible_hit_kills(hits: Seq<RecapHit>)
    requires
        forall|j: int| 0 <= j < hits.len() ==> !is_zeroing(#[trigger] hits[j]),
    ensures
        forall|i: int|
            0 <= i < hits.len() && could_have_killed(hits, i) && (forall|j: int|
                i < j < hits.len() ==> !could_have_killed(hits, j)) ==> (spec_killing_blow(hits) matches Some(kb)
                && kb.ability_name == hits[i].ability_name && kb.source_name == hits[i].source_name && kb.amount
                == hits[i].dmg_effective),
        (forall|j: int| 0 <= j < hits.len() ==> !could_have_killed(hits, j)) ==> spec_killing_blow(hits) is None,
{
    lemma_last_candidate(hits, hits.len() as int);
    assert forall|i: int|
        0 <= i < hits.len() && could_have_killed(hits, i) && (forall|j: int|
            i < j < hits.len() ==> !could_have_killed(hits, j)) implies (spec_killing_blow(hits) matches Some(kb)
        && kb.ability_name == hits[i].ability_name && kb.source_name == hits[i].source_name && kb.amount
        == hits[i].dmg_effective) by {
        let st = blow_search(hits, hits.len() as int);
        if st.last is None {
            assert(!could_have_killed(hits, i));
        }
        let k = match st.last {
            Some((x, _)) => x,
            None => 0,
        };
        if k < i {
            assert(!could_have_killed(hits, i));
        } else if k > i {
            assert(!could_have_killed(hits, k));
        }
    }
}

} // verus!
