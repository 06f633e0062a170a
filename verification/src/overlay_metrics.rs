//! Meter overlay entries built from player metrics: which values each meter
//! shows, and in which order the players come.

use vstd::prelude::*;

use crate::encounter::metrics::IncomingDamageRow;
use crate::encounter::pvp_faction::PvpFaction;
use crate::text::string_of;

verus! {

/// The meter overlays.
#[derive(Debug, Clone, Copy, PartialEq, Eq, Structural)]
pub enum MetricType {
    Dps,
    EDps,
    BossDps,
    Hps,
    EHps,
    Tps,
    Dtps,
    Htps,
    Apm,
    Interrupts,
    IncomingDamage,
}

/// A player's role, from the discipline.
#[derive(Debug, Clone, Copy, PartialEq, Eq, Structural)]
pub enum Role {
    Tank,
    Healer,
    Dps,
}

/// The role an overlay entry shows.
#[derive(Debug, Clone, Copy, PartialEq, Eq, Structural)]
pub enum OverlayRole {
    Tank,
    Healer,
    Damage,
}

/// The overlay role of a player role.
pub open spec fn spec_overlay_role(r: Role) -> OverlayRole {
    match r {
        Role::Tank => OverlayRole::Tank,
        Role::Healer => OverlayRole::Healer,
        Role::Dps => OverlayRole::Damage,
    }
}

/// The overlay role of a player role.
pub fn overlay_role(r: Role) -> (o: OverlayRole)
    ensures
        o == spec_overlay_role(r),
{
    match r {
        Role::Tank => OverlayRole::Tank,
        Role::Healer => OverlayRole::Healer,
        Role::Dps => OverlayRole::Damage,
    }
}

/// What the meters read of a player's metrics. The actions per minute come
/// as the whole number and the text (one decimal) that the meter shows.
#[derive(Debug, Clone)]
pub struct PlayerRates {
    pub entity_id: i64,
    pub name: String,
    pub dps: i64,
    pub bossdps: i64,
    pub total_damage: i64,
    pub total_damage_boss: i64,
    pub hps: i64,
    pub ehps: i64,
    pub total_healing: i64,
    pub total_healing_effective: i64,
    pub tps: i64,
    pub total_threat: i64,
    pub edtps: i64,
    pub total_damage_taken_effective: i64,
    pub abs: i64,
    pub total_shielding: i64,
    pub htps: i64,
    pub ehtps: i64,
    pub total_healing_received: i64,
    pub total_healing_received_effective: i64,
    pub apm_whole: i64,
    pub apm_text: String,
    pub interrupt_casts: u32,
    pub pvp_faction: Option<PvpFaction>,
    pub class_name: Option<String>,
    pub class_icon: Option<String>,
    pub discipline_icon: Option<String>,
    pub role: Option<Role>,
}

/// The steel blue of the shielding part of split bars (RGBA).
pub const SHIELD_BLUE: [u8; 4] = [70, 130, 180, 255];

/// The values one meter shows for a player.
#[derive(Debug, Clone, PartialEq, Eq)]
pub struct MetricValues {
    pub rate: i64,
    pub total: i64,
    pub split_rate: Option<i64>,
    pub split_total: Option<i64>,
    pub split_color: Option<[u8; 4]>,
    pub display_value: Option<String>,
    pub display_total: Option<String>,
}

/// The decimal digits of `n`.
pub open spec fn decimal(n: nat) -> Seq<char>
    decreases n,
{
    if n < 10 {
        seq![digit_char(n)]
    } else {
        decimal(n / 10).push(digit_char(n % 10))
    }
}

/// The digit character of `d` (below ten).
pub open spec fn digit_char(d: nat) -> char {
    ((d + 48) as u32) as char
}

/// `n` in decimal (`u32::to_string`).
pub fn u32_to_decimal(n: u32) -> (r: String)
    ensures
        r@ == decimal(n as nat),
{
    let mut digits: Vec<char> = Vec::new();
    let mut m: u32 = n;
    loop
        invariant_except_break
            decimal(n as nat) == decimal(m as nat) + digits@,
        ensures
            decimal(n as nat) == digits@,
        decreases m,
    {
        let d = m % 10;
        let c = ((d + 48) as u8) as char;
        assert(c == digit_char(d as nat));
        if m < 10 {
            let ghost rest = digits@;
            digits.insert(0, c);
            assert(decimal(m as nat) == seq![c]);
            assert(digits@ =~= seq![c] + rest);
            assert(decimal(n as nat) =~= digits@);
            break;
        }
        let ghost rest = digits@;
        digits.insert(0, c);
        assert(decimal(m as nat) == decimal((m / 10) as nat).push(c));
        assert(decimal(n as nat) =~= decimal((m / 10) as nat) + digits@);
        m = m / 10;
    }
    string_of(digits.as_slice())
}

/// The values that a meter shows for a player, as plain parts: (rate,
/// total, split rate, split total, split color, shown value, shown total).
pub open spec fn spec_values(m: PlayerRates, t: MetricType) -> (i64, i64, Option<int>, Option<int>, Option<[u8; 4]>, Option<Seq<char>>, Option<Seq<char>>) {
    match t {
        MetricType::Dps => (m.dps, m.total_damage, None, None, None, None, None),
        MetricType::EDps => (m.dps, m.total_damage, Some(m.bossdps as int), Some(m.total_damage_boss as int), None, None, None),
        MetricType::BossDps => (m.bossdps, m.total_damage_boss, None, None, None, None, None),
        MetricType::Hps => (m.hps, m.total_healing, Some(m.ehps as int), Some(m.total_healing_effective as int), None, None, None),
        MetricType::EHps => (
            m.ehps,
            m.total_healing_effective,
            Some(m.ehps - m.abs),
            Some(m.total_healing_effective - m.total_shielding),
            Some(SHIELD_BLUE),
            None,
            None,
        ),
        MetricType::Tps => (m.tps, m.total_threat, None, None, None, None, None),
        MetricType::Dtps => (m.edtps, m.total_damage_taken_effective, None, None, None, None, None),
        MetricType::Htps => (
            m.htps,
            m.total_healing_received,
            Some(m.ehtps as int),
            Some(m.total_healing_received_effective as int),
            None,
            None,
            None,
        ),
        MetricType::Apm => (m.apm_whole, 0, None, None, None, Some(m.apm_text@), Some("-"@)),
        MetricType::Interrupts => (
            m.interrupt_casts as i64,
            0,
            None,
            None,
            None,
            Some(decimal(m.interrupt_casts as nat)),
            Some("-"@),
        ),
        MetricType::IncomingDamage => (0, 0, None, None, None, None, None),
    }
}

/// The split parts of a meter fit in `i64`.
pub open spec fn values_fit(m: PlayerRates) -> bool {
    &&& i64::MIN <= m.ehps - m.abs <= i64::MAX
    &&& i64::MIN <= m.total_healing_effective - m.total_shielding <= i64::MAX
}

/// The parts of a `MetricValues`.
pub open spec fn values_parts(v: MetricValues) -> (i64, i64, Option<int>, Option<int>, Option<[u8; 4]>, Option<Seq<char>>, Option<Seq<char>>) {
    (
        v.rate,
        v.total,
        match v.split_rate {
            Some(x) => Some(x as int),
            None => None,
        },
        match v.split_total {
            Some(x) => Some(x as int),
            None => None,
        },
        v.split_color,
        match v.display_value {
            Some(s) => Some(s@),
            None => None,
        },
        match v.display_total {
            Some(s) => Some(s@),
            None => None,
        },
    )
}

fn dash() -> (r: String)
    ensures
        r@ == "-"@,
{
    "-".to_owned()
}

/// The values a meter of type `t` shows for the player. The Incoming Damage
/// meter is not built from player metrics and shows zeros here.
pub fn extract_values(m: &PlayerRates, t: MetricType) -> (r: MetricValues)
    requires
        t == MetricType::EHps ==> values_fit(*m),
    ensures
        values_parts(r) == spec_values(*m, t),
{
    match t {
        MetricType::Dps => MetricValues {
            rate: m.dps,
            total: m.total_damage,
            split_rate: None,
            split_total: None,
            split_color: None,
            display_value: None,
            display_total: None,
        },
        MetricType::EDps => MetricValues {
            rate: m.dps,
            total: m.total_damage,
            split_rate: Some(m.bossdps),
            split_total: Some(m.total_damage_boss),
            split_color: None,
            display_value: None,
            display_total: None,
        },
        MetricType::BossDps => MetricValues {
            rate: m.bossdps,
            total: m.total_damage_boss,
            split_rate: None,
            split_total: None,
            split_color: None,
            display_value: None,
            display_total: None,
        },
        MetricType::Hps => MetricValues {
            rate: m.hps,
            total: m.total_healing,
            split_rate: Some(m.ehps),
            split_total: Some(m.total_healing_effective),
            split_color: None,
            display_value: None,
            display_total: None,
        },
        MetricType::EHps => MetricValues {
            rate: m.ehps,
            total: m.total_healing_effective,
            split_rate: Some(m.ehps - m.abs),
            split_total: Some(m.total_healing_effective - m.total_shielding),
            split_color: Some(SHIELD_BLUE),
            display_value: None,
            display_total: None,
        },
        MetricType::Tps => MetricValues {
            rate: m.tps,
            total: m.total_threat,
            split_rate: None,
            split_total: None,
            split_color: None,
            display_value: None,
            display_total: None,
        },
        MetricType::Dtps => MetricValues {
            rate: m.edtps,
            total: m.total_damage_taken_effective,
            split_rate: None,
            split_total: None,
            split_color: None,
            display_value: None,
            display_total: None,
        },
        MetricType::Htps => MetricValues {
            rate: m.htps,
            total: m.total_healing_received,
            split_rate: Some(m.ehtps),
            split_total: Some(m.total_healing_received_effective),
            split_color: None,
            display_value: None,
            display_total: None,
        },
        MetricType::Apm => MetricValues {
            rate: m.apm_whole,
            total: 0,
            split_rate: None,
            split_total: None,
            split_color: None,
            display_value: Some(m.apm_text.clone()),
            display_total: Some(dash()),
        },
        MetricType::Interrupts => MetricValues {
            rate: m.interrupt_casts as i64,
            total: 0,
            split_rate: None,
            split_total: None,
            split_color: None,
            display_value: Some(u32_to_decimal(m.interrupt_casts)),
            display_total: Some(dash()),
        },
        MetricType::IncomingDamage => MetricValues {
            rate: 0,
            total: 0,
            split_rate: None,
            split_total: None,
            split_color: None,
            display_value: None,
            display_total: None,
        },
    }
}

/// Whether the row with key `ka` at position `ia` comes before the row with
/// key `kb` at `ib`: the friendly group before enemies, then the higher rate
/// first, then the given order.
pub open spec fn meter_before(ka: (bool, i64), ia: int, kb: (bool, i64), ib: int) -> bool {
    ||| !ka.0 && kb.0
    ||| ka.0 == kb.0 && ka.1 > kb.1
    ||| ka.0 == kb.0 && ka.1 == kb.1 && ia < ib
}

/// Whether row `k` is listed in `p`.
pub open spec fn lists_row(p: Seq<usize>, k: int) -> bool {
    exists|i: int| 0 <= i < p.len() && p[i] == k
}

/// `p` lists the rows `0..keys.len()`, each once, in meter order.
pub open spec fn is_meter_order(keys: Seq<(bool, i64)>, p: Seq<usize>) -> bool {
    &&& p.len() == keys.len()
    &&& forall|i: int| 0 <= i < p.len() ==> p[i] < keys.len()
    &&& forall|k: int| 0 <= k < keys.len() ==> #[trigger] lists_row(p, k)
    &&& forall|i: int, j: int|
        0 <= i < j < p.len() ==> meter_before(#[trigger] keys[p[i] as int], p[i] as int, #[trigger] keys[p[j] as int], p[j] as int)
}

proof fn lemma_meter_before(ka: (bool, i64), ia: int, kb: (bool, i64), ib: int, kc: (bool, i64), ic: int)
    ensures
        meter_before(ka, ia, kb, ib) && meter_before(kb, ib, kc, ic) ==> meter_before(ka, ia, kc, ic),
        ia != ib ==> meter_before(ka, ia, kb, ib) || meter_before(kb, ib, ka, ia),
        !meter_before(ka, ia, ka, ia),
{
}

fn before_exec(ka: (bool, i64), ia: usize, kb: (bool, i64), ib: usize) -> (r: bool)
    ensures
        r == meter_before(ka, ia as int, kb, ib as int),
{
    (!ka.0 && kb.0) || (ka.0 == kb.0 && ka.1 > kb.1) || (ka.0 == kb.0 && ka.1 == kb.1 && ia < ib)
}

/// The meter order of the rows with keys (is enemy, rate): friendly before
/// enemies, higher rate first, ties in the given order (a stable sort).
pub fn meter_order(keys: &Vec<(bool, i64)>) -> (p: Vec<usize>)
    ensures
        is_meter_order(keys@, p@),
{
    let n = keys.len();
    let mut out: Vec<usize> = Vec::new();
    let mut i: usize = 0;
    while i < n
        invariant
            n == keys.len(),
            i <= n,
            out.len() == i,
            forall|a: int| 0 <= a < out.len() ==> out@[a] < i,
            forall|k: int| 0 <= k < i ==> #[trigger] lists_row(out@, k),
            forall|a: int, b: int|
                0 <= a < b < out.len() ==> meter_before(#[trigger] keys@[out@[a] as int], out@[a] as int, #[trigger] keys@[out@[b] as int], out@[b] as int),
        decreases n - i,
    {
        let ki = keys[i];
        let mut pos: usize = 0;
        while pos < out.len() && !before_exec(ki, i, keys[out[pos]], out[pos])
            invariant
                n == keys.len(),
                i < n,
                ki == keys@[i as int],
                pos <= out.len(),
                forall|a: int| 0 <= a < out.len() ==> out@[a] < i,
                forall|a: int| 0 <= a < pos ==> !meter_before(ki, i as int, keys@[out@[a] as int], out@[a] as int),
            decreases out.len() - pos,
        {
            pos = pos + 1;
        }
        let ghost old_out = out@;
        out.insert(pos, i);
        proof {
            assert(out@ == old_out.insert(pos as int, i));
            assert forall|a: int, b: int|
                0 <= a < b < out.len() implies meter_before(#[trigger] keys@[out@[a] as int], out@[a] as int, #[trigger] keys@[out@[b] as int], out@[b] as int) by {
                let ka = keys@[out@[a] as int];
                let kb = keys@[out@[b] as int];
                if b < pos {
                    assert(out@[a] == old_out[a] && out@[b] == old_out[b]);
                } else if b == pos {
                    assert(out@[a] == old_out[a]);
                    assert(!meter_before(ki, i as int, keys@[old_out[a] as int], old_out[a] as int));
                    lemma_meter_before(ki, i as int, ka, out@[a] as int, ki, i as int);
                } else if a < pos {
                    assert(out@[a] == old_out[a] && out@[b] == old_out[b - 1]);
                } else if a == pos {
                    assert(out@[b] == old_out[b - 1]);
                    let m = old_out[pos as int];
                    assert(meter_before(ki, i as int, keys@[m as int], m as int));
                    if b - 1 > pos {
                        assert(meter_before(keys@[m as int], m as int, keys@[old_out[b - 1] as int], old_out[b - 1] as int));
                        lemma_meter_before(ki, i as int, keys@[m as int], m as int, kb, out@[b] as int);
                    }
                } else {
                    assert(out@[a] == old_out[a - 1] && out@[b] == old_out[b - 1]);
                }
            }
            assert forall|k: int| 0 <= k < i + 1 implies #[trigger] lists_row(out@, k) by {
                if k == i {
                    assert(out@[pos as int] == i);
                } else {
                    assert(lists_row(old_out, k));
                    let a = choose|a: int| 0 <= a < old_out.len() && old_out[a] == k;
                    if a < pos {
                        assert(out@[a] == k);
                    } else {
                        assert(out@[a + 1] == k);
                    }
                }
            }
        }
        i = i + 1;
    }
    out
}

proof fn lemma_same_at(keys: Seq<(bool, i64)>, p: Seq<usize>, q: Seq<usize>, i: int)
    requires
        is_meter_order(keys, p),
        is_meter_order(keys, q),
        0 <= i < p.len(),
        forall|g: int| 0 <= g < i ==> p[g] == q[g],
    ensures
        p[i] == q[i],
{
    if p[i] != q[i] {
        let a = p[i];
        let b = q[i];
        assert(lists_row(p, b as int));
        let j = choose|j: int| 0 <= j < p.len() && p[j] == b;
        if j < i {
            assert(q[j] == b);
            assert(meter_before(keys[q[j] as int], q[j] as int, keys[q[i] as int], q[i] as int));
            lemma_meter_before(keys[b as int], b as int, keys[b as int], b as int, keys[b as int], b as int);
        }
        assert(j != i);
        assert(meter_before(keys[p[i] as int], p[i] as int, keys[p[j] as int], p[j] as int));
        assert(lists_row(q, a as int));
        let j2 = choose|j2: int| 0 <= j2 < q.len() && q[j2] == a;
        if j2 < i {
            assert(p[j2] == a);
            assert(meter_before(keys[p[j2] as int], p[j2] as int, keys[p[i] as int], p[i] as int));
            lemma_meter_before(keys[a as int], a as int, keys[a as int], a as int, keys[a as int], a as int);
        }
        assert(j2 != i);
        assert(meter_before(keys[q[i] as int], q[i] as int, keys[q[j2] as int], q[j2] as int));
        lemma_meter_before(keys[a as int], a as int, keys[b as int], b as int, keys[a as int], a as int);
        lemma_meter_before(keys[a as int], a as int, keys[a as int], a as int, keys[a as int], a as int);
    }
}

proof fn lemma_same_prefix(keys: Seq<(bool, i64)>, p: Seq<usize>, q: Seq<usize>, n: int)
    requires
        is_meter_order(keys, p),
        is_meter_order(keys, q),
        0 <= n <= p.len(),
    ensures
        forall|g: int| 0 <= g < n ==> p[g] == q[g],
    decreases n,
{
    if n > 0 {
        lemma_same_prefix(keys, p, q, n - 1);
        lemma_same_at(keys, p, q, n - 1);
    }
}

/// The meter order of rows is unique: two listings in meter order agree.
pub proof fn law_meter_order_is_unique(keys: Seq<(bool, i64)>, p: Seq<usize>, q: Seq<usize>)
    requires
        is_meter_order(keys, p),
        is_meter_order(keys, q),
    ensures
        p == q,
{
    lemma_same_prefix(keys, p, q, p.len() as int);
    assert(p =~= q);
}

/// The icon of an entry: a class icon shown with the role, or a plain one.
#[derive(Debug, Clone, PartialEq, Eq)]
pub enum EntryIcon {
    Class(String, OverlayRole),
    Plain(String),
}

/// One row of a meter overlay.
#[derive(Debug, Clone, PartialEq, Eq)]
pub struct MeterEntry {
    pub name: String,
    pub value: i64,
    pub max_value: i64,
    pub total: i64,
    /// Text shown in place of the value and the total.
    pub display: Option<(String, String)>,
    pub is_local: bool,
    pub is_enemy: bool,
    /// The second part of a split bar: (rate, total).
    pub split: Option<(i64, i64)>,
    pub split_color: Option<[u8; 4]>,
    pub icon: Option<EntryIcon>,
    pub discipline_icon: Option<String>,
    pub class_name: Option<String>,
}

/// The view of an entry icon.
pub enum IconView {
    Class(Seq<char>, OverlayRole),
    Plain(Seq<char>),
}

/// The view of a meter entry.
pub struct MeterEntryView {
    pub name: Seq<char>,
    pub value: int,
    pub max_value: int,
    pub total: int,
    pub display: Option<(Seq<char>, Seq<char>)>,
    pub is_local: bool,
    pub is_enemy: bool,
    pub split: Option<(int, int)>,
    pub split_color: Option<[u8; 4]>,
    pub icon: Option<IconView>,
    pub discipline_icon: Option<Seq<char>>,
    pub class_name: Option<Seq<char>>,
}

/// The view of an optional string.
pub open spec fn opt_string_view(o: Option<String>) -> Option<Seq<char>> {
    match o {
        Some(s) => Some(s@),
        None => None,
    }
}

impl View for MeterEntry {
    type V = MeterEntryView;

    open spec fn view(&self) -> MeterEntryView {
        MeterEntryView {
            name: self.name@,
            value: self.value as int,
            max_value: self.max_value as int,
            total: self.total as int,
            display: match self.display {
                Some((a, b)) => Some((a@, b@)),
                None => None,
            },
            is_local: self.is_local,
            is_enemy: self.is_enemy,
            split: match self.split {
                Some((a, b)) => Some((a as int, b as int)),
                None => None,
            },
            split_color: self.split_color,
            icon: match self.icon {
                Some(EntryIcon::Class(s, r)) => Some(IconView::Class(s@, r)),
                Some(EntryIcon::Plain(s)) => Some(IconView::Plain(s@)),
                None => None,
            },
            discipline_icon: opt_string_view(self.discipline_icon),
            class_name: opt_string_view(self.class_name),
        }
    }
}

/// The views of a list of entries.
pub open spec fn entries_view(v: Seq<MeterEntry>) -> Seq<MeterEntryView> {
    v.map_values(|e: MeterEntry| e@)
}

/// The icon of a player: the class icon, with the role when it is known.
pub open spec fn spec_icon(class_icon: Option<String>, role: Option<Role>) -> Option<IconView> {
    match class_icon {
        Some(icon) => Some(
            match role {
                Some(r) => IconView::Class(icon@, spec_overlay_role(r)),
                None => IconView::Plain(icon@),
            },
        ),
        None => None,
    }
}

/// Whether the player is on the enemy side.
pub open spec fn is_enemy_faction(f: Option<PvpFaction>) -> bool {
    f == Some(PvpFaction::Enemy)
}

/// A player's entry on the meter of type `t`.
pub open spec fn player_entry(m: PlayerRates, t: MetricType, max_value: int, local_player_id: i64) -> MeterEntryView {
    let v = spec_values(m, t);
    MeterEntryView {
        name: m.name@,
        value: v.0 as int,
        max_value,
        total: v.1 as int,
        display: match (v.5, v.6) {
            (Some(a), Some(b)) => Some((a, b)),
            _ => None,
        },
        is_local: m.entity_id == local_player_id,
        is_enemy: is_enemy_faction(m.pvp_faction),
        split: match (v.2, v.3) {
            (Some(a), Some(b)) => Some((a, b)),
            _ => None,
        },
        split_color: if v.2 is Some && v.3 is Some {
            v.4
        } else {
            None
        },
        icon: spec_icon(m.class_icon, m.role),
        discipline_icon: opt_string_view(m.discipline_icon),
        class_name: opt_string_view(m.class_name),
    }
}

/// The sort keys of the players on the meter of type `t`.
pub open spec fn meter_keys(ms: Seq<PlayerRates>, t: MetricType) -> Seq<(bool, i64)> {
    Seq::new(ms.len(), |i: int| (is_enemy_faction(ms[i].pvp_faction), spec_values(ms[i], t).0))
}

/// The highest rate, or 1 when there is none.
pub open spec fn max_rate(keys: Seq<(bool, i64)>) -> int
    decreases keys.len(),
{
    if keys.len() == 0 {
        1
    } else if keys.len() == 1 {
        keys[0].1 as int
    } else {
        let m = max_rate(keys.drop_last());
        if keys.last().1 > m {
            keys.last().1 as int
        } else {
            m
        }
    }
}

fn max_rate_of(keys: &Vec<(bool, i64)>) -> (r: i64)
    ensures
        r == max_rate(keys@),
{
    let mut best: i64 = 1;
    let mut i: usize = 0;
    while i < keys.len()
        invariant
            i <= keys.len(),
            best == max_rate(keys@.take(i as int)),
        decreases keys.len() - i,
    {
        proof {
            assert(keys@.take(i + 1).drop_last() =~= keys@.take(i as int));
        }
        let r = keys[i].1;
        if i == 0 || r > best {
            best = r;
        }
        i = i + 1;
    }
    assert(keys@.take(keys.len() as int) =~= keys@);
    best
}

fn clone_opt(o: &Option<String>) -> (r: Option<String>)
    ensures
        opt_string_view(r) == opt_string_view(*o),
{
    match o {
        Some(s) => Some(s.clone()),
        None => None,
    }
}

fn icon_of(class_icon: &Option<String>, role: Option<Role>) -> (r: Option<EntryIcon>)
    ensures
        match r {
            Some(EntryIcon::Class(s, o)) => spec_icon(*class_icon, role) == Some(IconView::Class(s@, o)),
            Some(EntryIcon::Plain(s)) => spec_icon(*class_icon, role) == Some(IconView::Plain(s@)),
            None => spec_icon(*class_icon, role) is None,
        },
{
    match class_icon {
        Some(icon) => match role {
            Some(r) => Some(EntryIcon::Class(icon.clone(), overlay_role(r))),
            None => Some(EntryIcon::Plain(icon.clone())),
        },
        None => None,
    }
}

fn is_enemy_exec(f: Option<PvpFaction>) -> (r: bool)
    ensures
        r == is_enemy_faction(f),
{
    match f {
        Some(PvpFaction::Enemy) => true,
        _ => false,
    }
}

fn entry_for(m: &PlayerRates, t: MetricType, max_value: i64, local_player_id: i64) -> (r: MeterEntry)
    requires
        t == MetricType::EHps ==> values_fit(*m),
    ensures
        r@ == player_entry(*m, t, max_value as int, local_player_id),
{
    let v = extract_values(m, t);
    let display = match (v.display_value, v.display_total) {
        (Some(a), Some(b)) => Some((a, b)),
        _ => None,
    };
    let (split, split_color) = match (v.split_rate, v.split_total) {
        (Some(a), Some(b)) => (Some((a, b)), v.split_color),
        _ => (None, None),
    };
    MeterEntry {
        name: m.name.clone(),
        value: v.rate,
        max_value,
        total: v.total,
        display,
        is_local: m.entity_id == local_player_id,
        is_enemy: is_enemy_exec(m.pvp_faction),
        split,
        split_color,
        icon: icon_of(&m.class_icon, m.role),
        discipline_icon: clone_opt(&m.discipline_icon),
        class_name: clone_opt(&m.class_name),
    }
}

/// `entries` are the meter entries of type `t` for the players `ms`: one per
/// player, in meter order, each bar scaled to the highest rate.
pub open spec fn is_meter_entries(ms: Seq<PlayerRates>, t: MetricType, local_player_id: i64, entries: Seq<MeterEntry>) -> bool {
    exists|p: Seq<usize>|
        {
            &&& is_meter_order(meter_keys(ms, t), p)
            &&& entries.len() == p.len()
            &&& forall|k: int|
                0 <= k < entries.len() ==> (#[trigger] entries[k])@ == player_entry(
                    ms[p[k] as int],
                    t,
                    max_rate(meter_keys(ms, t)),
                    local_player_id,
                )
        }
}

/// Meter entries of the type for the players: friendly group first, then
/// enemies (PvP), highest rate first within each, ties in the given order;
/// each bar is scaled to the highest rate.
pub fn create_entries_for_type(overlay_type: MetricType, metrics: &Vec<PlayerRates>, local_player_id: i64) -> (r: Vec<MeterEntry>)
    requires
        overlay_type == MetricType::EHps ==> forall|i: int| 0 <= i < metrics.len() ==> values_fit(#[trigger] metrics@[i]),
    ensures
        is_meter_entries(metrics@, overlay_type, local_player_id, r@),
{
    let mut keys: Vec<(bool, i64)> = Vec::new();
    let mut i: usize = 0;
    while i < metrics.len()
        invariant
            i <= metrics.len(),
            overlay_type == MetricType::EHps ==> forall|j: int| 0 <= j < metrics.len() ==> values_fit(#[trigger] metrics@[j]),
            keys@ == meter_keys(metrics@, overlay_type).take(i as int),
        decreases metrics.len() - i,
    {
        let m = &metrics[i];
        let v = extract_values(m, overlay_type);
        keys.push((is_enemy_exec(m.pvp_faction), v.rate));
        assert(keys@ =~= meter_keys(metrics@, overlay_type).take(i + 1));
        i = i + 1;
    }
    assert(keys@ =~= meter_keys(metrics@, overlay_type));
    let order = meter_order(&keys);
    let max_value = max_rate_of(&keys);
    let mut out: Vec<MeterEntry> = Vec::new();
    let mut k: usize = 0;
    while k < order.len()
        invariant
            k <= order.len(),
            is_meter_order(keys@, order@),
            keys@ == meter_keys(metrics@, overlay_type),
            max_value == max_rate(keys@),
            overlay_type == MetricType::EHps ==> forall|j: int| 0 <= j < metrics.len() ==> values_fit(#[trigger] metrics@[j]),
            out.len() == k,
            forall|a: int|
                0 <= a < k ==> (#[trigger] out@[a])@ == player_entry(
                    metrics@[order@[a] as int],
                    overlay_type,
                    max_value as int,
                    local_player_id,
                ),
        decreases order.len() - k,
    {
        let idx = order[k];
        let e = entry_for(&metrics[idx], overlay_type, max_value, local_player_id);
        out.push(e);
        k = k + 1;
    }
    assert(is_meter_order(meter_keys(metrics@, overlay_type), order@));
    out
}

/// The sort keys of incoming damage rows: all on one side, by rate.
pub open spec fn row_keys(rows: Seq<IncomingDamageRow>) -> Seq<(bool, i64)> {
    Seq::new(rows.len(), |i: int| (false, rows[i].rate))
}

/// The first player with the entity ID, if any.
pub open spec fn first_player(ms: Seq<PlayerRates>, entity_id: i64) -> Option<int> {
    if exists|i: int| 0 <= i < ms.len() && ms[i].entity_id == entity_id {
        Some(choose|i: int| 0 <= i < ms.len() && ms[i].entity_id == entity_id && forall|j: int| 0 <= j < i ==> ms[j].entity_id != entity_id)
    } else {
        None
    }
}

/// The entry of an incoming damage row; icons and class come from the
/// attacker's player metrics when the attacker is a player.
pub open spec fn incoming_entry(row: IncomingDamageRow, m: Option<PlayerRates>, max_value: int) -> MeterEntryView {
    MeterEntryView {
        name: row.name@,
        value: row.rate as int,
        max_value,
        total: row.total as int,
        display: None,
        is_local: false,
        is_enemy: false,
        split: None,
        split_color: None,
        icon: match m {
            Some(p) => spec_icon(p.class_icon, p.role),
            None => None,
        },
        discipline_icon: match m {
            Some(p) => opt_string_view(p.discipline_icon),
            None => None,
        },
        class_name: match m {
            Some(p) => opt_string_view(p.class_name),
            None => None,
        },
    }
}

fn find_player(metrics: &Vec<PlayerRates>, entity_id: i64) -> (r: Option<usize>)
    ensures
        match r {
            Some(i) => first_player(metrics@, entity_id) == Some(i as int) && i < metrics.len(),
            None => first_player(metrics@, entity_id) is None,
        },
{
    let mut i: usize = 0;
    while i < metrics.len()
        invariant
            i <= metrics.len(),
            forall|j: int| 0 <= j < i ==> metrics@[j].entity_id != entity_id,
        decreases metrics.len() - i,
    {
        if metrics[i].entity_id == entity_id {
            proof {
                let ms = metrics@;
                assert(exists|k: int| 0 <= k < ms.len() && ms[k].entity_id == entity_id);
                let c = choose|k: int| 0 <= k < ms.len() && ms[k].entity_id == entity_id && forall|j: int| 0 <= j < k ==> ms[j].entity_id != entity_id;
                assert(ms[i as int].entity_id == entity_id && forall|j: int| 0 <= j < i ==> ms[j].entity_id != entity_id);
                if c < i {
                } else if c > i {
                    assert(ms[i as int].entity_id != entity_id);
                }
            }
            return Some(i);
        }
        i = i + 1;
    }
    None
}

/// Entries of the Incoming Damage overlay (the local player's damage taken
/// by source), in row order, each bar scaled to the highest rate; attackers
/// that are players get their icons and class from `metrics`.
pub fn create_incoming_damage_entries(rows: &Vec<IncomingDamageRow>, metrics: &Vec<PlayerRates>) -> (r: Vec<MeterEntry>)
    ensures
        r.len() == rows.len(),
        forall|k: int|
            0 <= k < r.len() ==> (#[trigger] r@[k])@ == incoming_entry(
                rows@[k],
                match first_player(metrics@, rows@[k].entity_id) {
                    Some(i) => Some(metrics@[i]),
                    None => None,
                },
                max_rate(row_keys(rows@)),
            ),
{
    let mut keys: Vec<(bool, i64)> = Vec::new();
    let mut i: usize = 0;
    while i < rows.len()
        invariant
            i <= rows.len(),
            keys@ == row_keys(rows@).take(i as int),
        decreases rows.len() - i,
    {
        keys.push((false, rows[i].rate));
        assert(keys@ =~= row_keys(rows@).take(i + 1));
        i = i + 1;
    }
    assert(keys@ =~= row_keys(rows@));
    let max_value = max_rate_of(&keys);
    let mut out: Vec<MeterEntry> = Vec::new();
    let mut k: usize = 0;
    while k < rows.len()
        invariant
            k <= rows.len(),
            max_value == max_rate(row_keys(rows@)),
            out.len() == k,
            forall|a: int|
                0 <= a < k ==> (#[trigger] out@[a])@ == incoming_entry(
                    rows@[a],
                    match first_player(metrics@, rows@[a].entity_id) {
                        Some(i) => Some(metrics@[i]),
                        None => None,
                    },
                    max_rate(row_keys(rows@)),
                ),
        decreases rows.len() - k,
    {
        let row = &rows[k];
        let (icon, discipline_icon, class_name) = match find_player(metrics, row.entity_id) {
            Some(idx) => {
                let m = &metrics[idx];
                (icon_of(&m.class_icon, m.role), clone_opt(&m.discipline_icon), clone_opt(&m.class_name))
            },
            None => (None, None, None),
        };
        let e = MeterEntry {
            name: row.name.clone(),
            value: row.rate,
            max_value,
            total: row.total,
            display: None,
            is_local: false,
            is_enemy: false,
            split: None,
            split_color: None,
            icon,
            discipline_icon,
            class_name,
        };
        out.push(e);
        k = k + 1;
    }
    out
}

/// The meter types in listing order.
pub open spec fn spec_all_types() -> Seq<MetricType> {
    seq![
        MetricType::Dps,
        MetricType::EDps,
        MetricType::BossDps,
        MetricType::Hps,
        MetricType::EHps,
        MetricType::Tps,
        MetricType::Dtps,
        MetricType::Htps,
        MetricType::Apm,
        MetricType::Interrupts,
        MetricType::IncomingDamage,
    ]
}

impl MetricType {
    /// Every meter type, in listing order.
    pub fn all() -> (r: &'static [MetricType])
        ensures
            r@ == spec_all_types(),
    {
        let r: &'static [MetricType] = &[
            MetricType::Dps,
            MetricType::EDps,
            MetricType::BossDps,
            MetricType::Hps,
            MetricType::EHps,
            MetricType::Tps,
            MetricType::Dtps,
            MetricType::Htps,
            MetricType::Apm,
            MetricType::Interrupts,
            MetricType::IncomingDamage,
        ];
        assert(r@ =~= spec_all_types());
        r
    }
}

/// Whether a meter is built from player metrics: all but Incoming Damage.
pub open spec fn from_player_metrics() -> spec_fn(MetricType) -> bool {
    |t: MetricType| t != MetricType::IncomingDamage
}

/// The meters built from player metrics, in listing order.
pub open spec fn player_meter_types() -> Seq<MetricType> {
    spec_all_types().filter(from_player_metrics())
}

/// Entries of every meter built from player metrics, one list per type in
/// listing order (Incoming Damage is built from the damage rows instead).
pub fn create_all_entries(metrics: &Vec<PlayerRates>, local_player_id: i64) -> (r: Vec<(MetricType, Vec<MeterEntry>)>)
    requires
        forall|i: int| 0 <= i < metrics.len() ==> values_fit(#[trigger] metrics@[i]),
    ensures
        r.len() == player_meter_types().len(),
        forall|k: int|
            0 <= k < r.len() ==> (#[trigger] r@[k]).0 == player_meter_types()[k] && is_meter_entries(
                metrics@,
                r@[k].0,
                local_player_id,
                r@[k].1@,
            ),
{
    let all = MetricType::all();
    let mut out: Vec<(MetricType, Vec<MeterEntry>)> = Vec::new();
    let mut i: usize = 0;
    while i < all.len()
        invariant
            i <= all.len(),
            all@ == spec_all_types(),
            forall|j: int| 0 <= j < metrics.len() ==> values_fit(#[trigger] metrics@[j]),
            out.len() == spec_all_types().take(i as int).filter(from_player_metrics()).len(),
            forall|k: int|
                0 <= k < out.len() ==> (#[trigger] out@[k]).0 == spec_all_types().take(i as int).filter(
                    from_player_metrics(),
                )[k] && is_meter_entries(metrics@, out@[k].0, local_player_id, out@[k].1@),
        decreases all.len() - i,
    {
        let t = all[i];
        let ghost before = spec_all_types().take(i as int).filter(from_player_metrics());
        proof {
            assert(spec_all_types().take(i + 1).drop_last() =~= spec_all_types().take(i as int));
        }
        if t != MetricType::IncomingDamage {
            let entries = create_entries_for_type(t, metrics, local_player_id);
            out.push((t, entries));
        }
        proof {
            let after = spec_all_types().take(i + 1).filter(from_player_metrics());
            reveal(Seq::filter);
            assert(spec_all_types().take(i + 1).last() == t);
            if t != MetricType::IncomingDamage {
                assert(after =~= before.push(t));
            } else {
                assert(after =~= before);
            }
        }
        i = i + 1;
    }
    assert(spec_all_types().take(all.len() as int) =~= spec_all_types());
    out
}


/// Each meter shows the player's own figures for what it measures: damage
/// (all, or on bosses), healing (raw, or effective with the shielding
/// split), threat, damage taken and healing received, as rate and total.
pub proof fn law_meters_show_their_own_figures(m: PlayerRates)
    ensures
        spec_values(m, MetricType::Dps).0 == m.dps && spec_values(m, MetricType::Dps).1 == m.total_damage,
        spec_values(m, MetricType::EDps).0 == m.dps && spec_values(m, MetricType::EDps).1 == m.total_damage,
        spec_values(m, MetricType::EDps).2 == Some(m.bossdps as int),
        spec_values(m, MetricType::BossDps).0 == m.bossdps && spec_values(m, MetricType::BossDps).1
            == m.total_damage_boss,
        spec_values(m, MetricType::Hps).0 == m.hps && spec_values(m, MetricType::Hps).1 == m.total_healing,
        spec_values(m, MetricType::Hps).2 == Some(m.ehps as int),
        spec_values(m, MetricType::EHps).0 == m.ehps && spec_values(m, MetricType::EHps).1
            == m.total_healing_effective,
        spec_values(m, MetricType::Tps).0 == m.tps && spec_values(m, MetricType::Tps).1 == m.total_threat,
        spec_values(m, MetricType::Dtps).0 == m.edtps && spec_values(m, MetricType::Dtps).1
            == m.total_damage_taken_effective,
        spec_values(m, MetricType::Htps).0 == m.htps && spec_values(m, MetricType::Htps).1
            == m.total_healing_received,
        spec_values(m, MetricType::Apm).0 == m.apm_whole,
        spec_values(m, MetricType::Interrupts).0 == m.interrupt_casts as i64,
{
}

/// The threat meter ranks by threat per second: within the friendly group
/// and within the enemies, a player listed earlier has at least the threat
/// per second of one listed later.
pub proof fn law_threat_meter_ranks_by_threat(ms: Seq<PlayerRates>, p: Seq<usize>)
    requires
        is_meter_order(meter_keys(ms, MetricType::Tps), p),
    ensures
        forall|i: int, j: int|
            0 <= i < j < p.len() && is_enemy_faction(ms[p[i] as int].pvp_faction) == is_enemy_faction(
                ms[p[j] as int].pvp_faction,
            ) ==> #[trigger] ms[p[i] as int].tps >= #[trigger] ms[p[j] as int].tps,
        forall|i: int, j: int|
            0 <= i < j < p.len() ==> !(is_enemy_faction(#[trigger] ms[p[i] as int].pvp_faction) && !is_enemy_faction(
                #[trigger] ms[p[j] as int].pvp_faction,
            )),
{
    let keys = meter_keys(ms, MetricType::Tps);
    assert forall|i: int, j: int|
        0 <= i < j < p.len() && is_enemy_faction(ms[p[i] as int].pvp_faction) == is_enemy_faction(
            ms[p[j] as int].pvp_faction,
        ) implies #[trigger] ms[p[i] as int].tps >= #[trigger] ms[p[j] as int].tps by {
        assert(meter_before(keys[p[i] as int], p[i] as int, keys[p[j] as int], p[j] as int));
    }
    assert forall|i: int, j: int| 0 <= i < j < p.len() implies !(is_enemy_faction(
        #[trigger] ms[p[i] as int].pvp_faction,
    ) && !is_enemy_faction(#[trigger] ms[p[j] as int].pvp_faction)) by {
        assert(meter_before(keys[p[i] as int], p[i] as int, keys[p[j] as int], p[j] as int));
    }
}

} // verus!
