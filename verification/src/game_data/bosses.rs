//! Boss and Encounter identification data
//!
//! Provides lookup from entity IDs to boss/encounter information.

use vstd::prelude::*;
use crate::game_data::difficulty_id;
use crate::text::{
    all_digits, is_digit, ascii_lower_seq, chars_eq, chars_of, parse_unsigned, parse_unsigned_range, rfind_before, rfind_char,
    slice, to_ascii_lowercase,
};

verus! {

#[derive(Debug, Clone, Copy, PartialEq, Eq, Hash, Structural)]
pub enum ContentType {
    Operation,
    Flashpoint,
    LairBoss,
    TrainingDummy,
    OpenWorld,
}

/// Difficulty mode
#[derive(Debug, Clone, Copy, PartialEq, Eq, Hash, Structural)]
pub enum Difficulty {
    // 4-man (Flashpoints)
    Veteran4,
    Master4,
    // 8-man
    Story8,
    Veteran8,
    Master8,
    // 16-man
    Story16,
    Veteran16,
    Master16,
}

/// The group size of a difficulty.
pub open spec fn spec_group_size(d: Difficulty) -> u8 {
    match d {
        Difficulty::Veteran4 | Difficulty::Master4 => 4,
        Difficulty::Story8 | Difficulty::Veteran8 | Difficulty::Master8 => 8,
        Difficulty::Story16 | Difficulty::Veteran16 | Difficulty::Master16 => 16,
    }
}

/// The difficulty that a game difficulty ID names.
pub open spec fn spec_from_difficulty_id(id: i64) -> Option<Difficulty> {
    if id == difficulty_id::STORY_8 {
        Some(Difficulty::Story8)
    } else if id == difficulty_id::VETERAN_8 {
        Some(Difficulty::Veteran8)
    } else if id == difficulty_id::STORY_16 {
        Some(Difficulty::Story16)
    } else if id == difficulty_id::VETERAN_16 {
        Some(Difficulty::Veteran16)
    } else if id == difficulty_id::MASTER_8 {
        Some(Difficulty::Master8)
    } else if id == difficulty_id::MASTER_16 {
        Some(Difficulty::Master16)
    } else if id == difficulty_id::VETERAN_4 {
        Some(Difficulty::Veteran4)
    } else if id == difficulty_id::MASTER_4 {
        Some(Difficulty::Master4)
    } else {
        None
    }
}

/// The tier word of a difficulty.
pub open spec fn spec_config_key(d: Difficulty) -> Seq<char> {
    match d {
        Difficulty::Story8 | Difficulty::Story16 => "story"@,
        Difficulty::Veteran4 | Difficulty::Veteran8 | Difficulty::Veteran16 => "veteran"@,
        Difficulty::Master4 | Difficulty::Master8 | Difficulty::Master16 => "master"@,
    }
}

/// Whether a difficulty matches a configuration key: a group-size-qualified
/// key `tier_N` (with `N` one of 4, 8, 16) matches that tier and size only;
/// any other key matches the tier word; both compared ignoring ASCII case.
pub open spec fn spec_matches_config_key(d: Difficulty, key: Seq<char>) -> bool {
    let k = ascii_lower_seq(key);
    let plain = spec_config_key(d) == k;
    match rfind_before(k, '_', k.len() as int) {
        Some(p) => match parse_unsigned(k.skip(p + 1), 255) {
            Some(n) => if n == 4 || n == 8 || n == 16 {
                spec_config_key(d) == k.take(p) && spec_group_size(d) == n
            } else {
                plain
            },
            None => plain,
        },
        None => plain,
    }
}

impl Difficulty {
    /// Returns the group size (4, 8, or 16)
    pub fn group_size(&self) -> (r: u8)
        ensures
            r == spec_group_size(*self),
    {
        match self {
            Difficulty::Veteran4 | Difficulty::Master4 => 4,
            Difficulty::Story8 | Difficulty::Veteran8 | Difficulty::Master8 => 8,
            Difficulty::Story16 | Difficulty::Veteran16 | Difficulty::Master16 => 16,
        }
    }

    /// Parse from game difficulty ID (language-independent, preferred method)
    pub fn from_difficulty_id(id: i64) -> (r: Option<Self>)
        ensures
            r == spec_from_difficulty_id(id),
    {
        match id {
            difficulty_id::STORY_8 => Some(Difficulty::Story8),
            difficulty_id::VETERAN_8 => Some(Difficulty::Veteran8),
            difficulty_id::STORY_16 => Some(Difficulty::Story16),
            difficulty_id::VETERAN_16 => Some(Difficulty::Veteran16),
            difficulty_id::MASTER_8 => Some(Difficulty::Master8),
            difficulty_id::MASTER_16 => Some(Difficulty::Master16),
            difficulty_id::VETERAN_4 => Some(Difficulty::Veteran4),
            difficulty_id::MASTER_4 => Some(Difficulty::Master4),
            _ => None,
        }
    }

    /// Config key for TOML serialization (e.g., "veteran", "master", "story")
    pub fn config_key(&self) -> (r: &'static str)
        ensures
            r@ == spec_config_key(*self),
    {
        match self {
            Difficulty::Story8 | Difficulty::Story16 => "story",
            Difficulty::Veteran4 | Difficulty::Veteran8 | Difficulty::Veteran16 => "veteran",
            Difficulty::Master4 | Difficulty::Master8 | Difficulty::Master16 => "master",
        }
    }

    /// Check if this difficulty matches a config key (case-insensitive)
    ///
    /// Supports both tier-only keys and group-size-qualified keys:
    /// - `"veteran"` → matches Veteran4, Veteran8, Veteran16
    /// - `"veteran_8"` → matches only Veteran8
    /// - `"veteran_16"` → matches only Veteran16
    /// - `"story_16"` → matches only Story16
    pub fn matches_config_key(&self, key: &str) -> (r: bool)
        ensures
            r == spec_matches_config_key(*self, key@),
    {
        let key_chars = chars_of(key);
        let key_lower = to_ascii_lowercase(&key_chars);
        let tier_word = chars_of(self.config_key());
        let n = key_lower.len();
        if let Some(p) = rfind_char(&key_lower, '_', n) {
            proof {
                assert(key_lower@.skip(p + 1) =~= key_lower@.subrange(p + 1, n as int));
            }
            if let Some(size) = parse_unsigned_range(&key_lower, p + 1, n, 255) {
                if size == 4 || size == 8 || size == 16 {
                    let tier = slice(&key_lower, 0, p);
                    proof {
                        assert(key_lower@.take(p as int) =~= key_lower@.subrange(0, p as int));
                    }
                    return chars_eq(&tier_word, &tier) && self.group_size() as u64 == size;
                }
            }
        }
        chars_eq(&tier_word, &key_lower)
    }
}

/// Information about a boss entity
#[derive(Debug)]
pub struct BossInfo {
    pub content_type: ContentType,
    pub operation: String,
    pub boss: String,
    pub difficulty: Option<Difficulty>,
    /// True if this entity's death marks the encounter as complete
    pub is_kill_target: bool,
}

/// The value of a [`BossInfo`], with its texts as character sequences.
pub struct BossInfoView {
    pub content_type: ContentType,
    pub operation: Seq<char>,
    pub boss: Seq<char>,
    pub difficulty: Option<Difficulty>,
    pub is_kill_target: bool,
}

impl View for BossInfo {
    type V = BossInfoView;

    open spec fn view(&self) -> BossInfoView {
        BossInfoView {
            content_type: self.content_type,
            operation: self.operation@,
            boss: self.boss@,
            difficulty: self.difficulty,
            is_kill_target: self.is_kill_target,
        }
    }
}

impl BossInfo {
    /// An equal copy of this entry.
    pub fn duplicate(&self) -> (r: BossInfo)
        ensures
            r@ == self@,
    {
        BossInfo {
            content_type: self.content_type,
            operation: self.operation.clone(),
            boss: self.boss.clone(),
            difficulty: self.difficulty,
            is_kill_target: self.is_kill_target,
        }
    }
}

/// Boss entries keyed by entity ID, held in a `hashbrown::HashMap`.
#[verifier::external_body]
#[derive(Debug)]
pub struct BossMap {
    inner: hashbrown::HashMap<i64, BossInfo>,
}

/// What a [`BossMap`] holds.
pub uninterp spec fn boss_map_contents(m: BossMap) -> Map<i64, BossInfoView>;

impl BossMap {
    /// What the map holds.
    pub open spec fn contents(&self) -> Map<i64, BossInfoView> {
        boss_map_contents(*self)
    }

    /// An empty map (`hashbrown::HashMap::new`).
    #[verifier::external_body]
    pub(crate) fn new() -> (r: BossMap)
        ensures
            r.contents().dom().is_empty(),
    {
        BossMap { inner: hashbrown::HashMap::new() }
    }

    /// Inserts or replaces the entry of `id` (`hashbrown::HashMap::insert`).
    #[verifier::external_body]
    pub(crate) fn insert(&mut self, id: i64, info: BossInfo)
        ensures
            final(self).contents() == old(self).contents().insert(id, info@),
    {
        self.inner.insert(id, info);
    }

    /// The entry of `id` (`hashbrown::HashMap::get`).
    #[verifier::external_body]
    pub(crate) fn get(&self, id: i64) -> (r: Option<&BossInfo>)
        ensures
            match r {
                Some(b) => boss_map_contents(*self).contains_key(id) && b@ == boss_map_contents(
                    *self,
                )[id],
                None => !boss_map_contents(*self).contains_key(id),
            },
    {
        self.inner.get(&id)
    }

    /// All keys, each once, in the map's own order (`hashbrown::HashMap::keys`).
    #[verifier::external_body]
    pub(crate) fn keys(&self) -> (r: Vec<i64>)
        ensures
            r@.no_duplicates(),
            r@.to_set() == boss_map_contents(*self).dom(),
    {
        self.inner.keys().copied().collect()
    }
}

/// Content types keyed by area name, held in a `hashbrown::HashMap`.
#[verifier::external_body]
#[derive(Debug)]
pub struct AreaContentMap {
    inner: hashbrown::HashMap<String, ContentType>,
}

/// What an [`AreaContentMap`] holds.
pub uninterp spec fn area_map_contents(m: AreaContentMap) -> Map<Seq<char>, ContentType>;

impl AreaContentMap {
    /// What the map holds.
    pub open spec fn contents(&self) -> Map<Seq<char>, ContentType> {
        area_map_contents(*self)
    }

    /// An empty map (`hashbrown::HashMap::new`).
    #[verifier::external_body]
    pub(crate) fn new() -> (r: AreaContentMap)
        ensures
            r.contents().dom().is_empty(),
    {
        AreaContentMap { inner: hashbrown::HashMap::new() }
    }

    /// Inserts or replaces the entry of `name` (`hashbrown::HashMap::insert`).
    #[verifier::external_body]
    pub(crate) fn insert(&mut self, name: String, content_type: ContentType)
        ensures
            final(self).contents() == old(self).contents().insert(name@, content_type),
    {
        self.inner.insert(name, content_type);
    }

    /// The entry of `name` (`hashbrown::HashMap::get` with a `&str` key).
    #[verifier::external_body]
    pub(crate) fn get(&self, name: &str) -> (r: Option<ContentType>)
        ensures
            r == area_map_contents(*self).get(name@),
    {
        self.inner.get(name).copied()
    }
}

/// The views of boss data entries.
pub open spec fn entries_view(es: Seq<(i64, BossInfo)>) -> Seq<(i64, BossInfoView)> {
    es.map_values(|e: (i64, BossInfo)| (e.0, e.1@))
}

/// `m` after inserting the entries in order (a later entry replaces an earlier one).
pub open spec fn insert_bosses(m: Map<i64, BossInfoView>, es: Seq<(i64, BossInfoView)>) -> Map<
    i64,
    BossInfoView,
>
    decreases es.len(),
{
    if es.len() == 0 {
        m
    } else {
        insert_bosses(m, es.drop_last()).insert(es.last().0, es.last().1)
    }
}

/// `m` after recording the content type of each entry's operation in order,
/// leaving out training dummies when `skip_dummy` holds.
pub open spec fn insert_areas(
    m: Map<Seq<char>, ContentType>,
    es: Seq<(i64, BossInfoView)>,
    skip_dummy: bool,
) -> Map<Seq<char>, ContentType>
    decreases es.len(),
{
    if es.len() == 0 {
        m
    } else {
        let prev = insert_areas(m, es.drop_last(), skip_dummy);
        let info = es.last().1;
        if skip_dummy && info.content_type == ContentType::TrainingDummy {
            prev
        } else {
            prev.insert(info.operation, info.content_type)
        }
    }
}

fn add_bosses(map: &mut BossMap, es: &[(i64, BossInfo)])
    ensures
        boss_map_contents(*final(map)) == insert_bosses(
            boss_map_contents(*old(map)),
            entries_view(es@),
        ),
{
    let ghost base = boss_map_contents(*map);
    let mut i: usize = 0;
    while i < es.len()
        invariant
            i <= es@.len(),
            boss_map_contents(*map) == insert_bosses(base, entries_view(es@).take(i as int)),
        decreases es@.len() - i,
    {
        let (id, info) = &es[i];
        map.insert(*id, info.duplicate());
        proof {
            let t = entries_view(es@).take(i + 1);
            assert(t.drop_last() =~= entries_view(es@).take(i as int));
            assert(t.last() == (es@[i as int].0, es@[i as int].1@));
        }
        i = i + 1;
    }
    assert(entries_view(es@).take(es@.len() as int) =~= entries_view(es@));
}

fn add_areas(map: &mut AreaContentMap, es: &[(i64, BossInfo)], skip_dummy: bool)
    ensures
        area_map_contents(*final(map)) == insert_areas(
            area_map_contents(*old(map)),
            entries_view(es@),
            skip_dummy,
        ),
{
    let ghost base = area_map_contents(*map);
    let mut i: usize = 0;
    while i < es.len()
        invariant
            i <= es@.len(),
            area_map_contents(*map) == insert_areas(
                base,
                entries_view(es@).take(i as int),
                skip_dummy,
            ),
        decreases es@.len() - i,
    {
        let info = &es[i].1;
        proof {
            let t = entries_view(es@).take(i + 1);
            assert(t.drop_last() =~= entries_view(es@).take(i as int));
            assert(t.last() == (es@[i as int].0, es@[i as int].1@));
        }
        if !(skip_dummy && info.content_type == ContentType::TrainingDummy) {
            map.insert(info.operation.clone(), info.content_type);
        }
        i = i + 1;
    }
    assert(entries_view(es@).take(es@.len() as int) =~= entries_view(es@));
}

/// The boss and area lookup tables, built from the boss data of each content kind.
#[derive(Debug)]
pub struct BossLookup {
    bosses: BossMap,
    areas: AreaContentMap,
}

impl BossLookup {
    /// Boss information by entity ID.
    pub closed spec fn boss_table(&self) -> Map<i64, BossInfoView> {
        boss_map_contents(self.bosses)
    }

    /// Content type by area (operation) name.
    pub closed spec fn area_table(&self) -> Map<Seq<char>, ContentType> {
        area_map_contents(self.areas)
    }

    /// Combines the raid, lair, flashpoint and world boss data into one
    /// lookup by entity ID (later sources replace earlier ones for the same ID),
    /// and records each source's operation names with their content type.
    /// Training dummies are left out of the area table, as "Parsing" is not
    /// a real area.
    pub fn new(
        raid: &[(i64, BossInfo)],
        lair: &[(i64, BossInfo)],
        flashpoint: &[(i64, BossInfo)],
        world: &[(i64, BossInfo)],
    ) -> (r: BossLookup)
        ensures
            r.boss_table() == insert_bosses(
                insert_bosses(
                    insert_bosses(
                        insert_bosses(Map::empty(), entries_view(raid@)),
                        entries_view(lair@),
                    ),
                    entries_view(flashpoint@),
                ),
                entries_view(world@),
            ),
            r.area_table() == insert_areas(
                insert_areas(
                    insert_areas(
                        insert_areas(Map::empty(), entries_view(raid@), true),
                        entries_view(lair@),
                        false,
                    ),
                    entries_view(flashpoint@),
                    false,
                ),
                entries_view(world@),
                true,
            ),
    {
        let mut bosses = BossMap::new();
        assert(bosses.contents() =~= Map::empty());
        add_bosses(&mut bosses, raid);
        add_bosses(&mut bosses, lair);
        add_bosses(&mut bosses, flashpoint);
        add_bosses(&mut bosses, world);
        let mut areas = AreaContentMap::new();
        assert(areas.contents() =~= Map::empty());
        add_areas(&mut areas, raid, true);
        add_areas(&mut areas, lair, false);
        add_areas(&mut areas, flashpoint, false);
        add_areas(&mut areas, world, true);
        BossLookup { bosses, areas }
    }
}

/// Lookup boss info by entity ID
pub fn lookup_boss(lookup: &BossLookup, entity_id: i64) -> (r: Option<&BossInfo>)
    ensures
        match r {
            Some(b) => lookup.boss_table().contains_key(entity_id) && b@ == lookup.boss_table()[entity_id],
            None => !lookup.boss_table().contains_key(entity_id),
        },
{
    lookup.bosses.get(entity_id)
}

/// Check if an entity ID is a known boss: either the registry of loaded
/// definitions says so (`registered`, its answer for this entity) or the
/// built-in data holds it.
pub fn is_boss(lookup: &BossLookup, registered: Option<bool>, entity_id: i64) -> (r: bool)
    ensures
        r == (registered == Some(true) || lookup.boss_table().contains_key(entity_id)),
{
    if registered == Some(true) {
        return true;
    }
    lookup.bosses.get(entity_id).is_some()
}

/// Whether two texts are equal.
fn str_eq(a: &str, b: &str) -> (r: bool)
    ensures
        r == (a@ == b@),
{
    let av = chars_of(a);
    let bv = chars_of(b);
    chars_eq(&av, &bv)
}

/// The entry belongs to this operation and boss.
pub open spec fn is_boss_of(info: BossInfoView, operation: Seq<char>, boss: Seq<char>) -> bool {
    info.operation == operation && info.boss == boss
}

/// Get all boss IDs for a specific operation and boss name
/// (each once, in no particular order).
pub fn get_boss_ids(lookup: &BossLookup, operation: &str, boss: &str) -> (r: Vec<i64>)
    ensures
        r@.no_duplicates(),
        forall|id: i64|
            #![trigger r@.contains(id)]
            #![trigger lookup.boss_table()[id]]
            r@.contains(id) <==> (lookup.boss_table().contains_key(id) && is_boss_of(
                lookup.boss_table()[id],
                operation@,
                boss@,
            )),
{
    let keys = lookup.bosses.keys();
    let mut out: Vec<i64> = Vec::new();
    let ghost mut idx: Seq<int> = Seq::empty();
    let mut i: usize = 0;
    while i < keys.len()
        invariant
            i <= keys.len(),
            keys@.no_duplicates(),
            keys@.to_set() == lookup.boss_table().dom(),
            idx.len() == out@.len(),
            forall|k: int|
                0 <= k < out@.len() ==> 0 <= #[trigger] idx[k] < i && out@[k] == keys@[idx[k]]
                    && is_boss_of(lookup.boss_table()[out@[k]], operation@, boss@),
            forall|k1: int, k2: int|
                0 <= k1 < k2 < out@.len() ==> #[trigger] idx[k1] < #[trigger] idx[k2],
            forall|j: int|
                0 <= j < i && is_boss_of(lookup.boss_table()[#[trigger] keys@[j]], operation@, boss@)
                    ==> out@.contains(keys@[j]),
        decreases keys.len() - i,
    {
        let id = keys[i];
        assert(keys@.to_set().contains(id));
        let info = lookup.bosses.get(id).unwrap();
        if str_eq(info.operation.as_str(), operation) && str_eq(info.boss.as_str(), boss) {
            let ghost prev = out@;
            out.push(id);
            proof {
                idx = idx.push(i as int);
                assert forall|j: int|
                    0 <= j < i + 1 && is_boss_of(
                        lookup.boss_table()[#[trigger] keys@[j]],
                        operation@,
                        boss@,
                    ) implies out@.contains(keys@[j]) by {
                    if j < i {
                        let k = choose|k: int| 0 <= k < prev.len() && prev[k] == keys@[j];
                        assert(out@[k] == keys@[j]);
                    } else {
                        assert(out@[out@.len() - 1] == keys@[j]);
                    }
                }
            }
        }
        i = i + 1;
    }
    proof {
        assert(out@.no_duplicates()) by {
            assert forall|k1: int, k2: int|
                0 <= k1 < out@.len() && 0 <= k2 < out@.len() && k1 != k2 implies out@[k1]
                != out@[k2] by {
                if k1 < k2 {
                    assert(idx[k1] < idx[k2]);
                } else {
                    assert(idx[k2] < idx[k1]);
                }
            }
        }
        assert forall|id: i64|
            #![trigger out@.contains(id)]
            #![trigger lookup.boss_table()[id]]
            out@.contains(id) <==> (lookup.boss_table().contains_key(id) && is_boss_of(
                lookup.boss_table()[id],
                operation@,
                boss@,
            )) by {
            if out@.contains(id) {
                let k = choose|k: int| 0 <= k < out@.len() && out@[k] == id;
                assert(0 <= idx[k] < keys@.len());
                assert(keys@[idx[k]] == id);
                assert(keys@.contains(id));
                assert(keys@.to_set().contains(id));
                assert(lookup.boss_table().contains_key(id));
                assert(is_boss_of(lookup.boss_table()[id], operation@, boss@));
            }
            if lookup.boss_table().contains_key(id) {
                assert(keys@.to_set().contains(id));
                assert(keys@.contains(id));
                let j = choose|j: int| 0 <= j < keys@.len() && keys@[j] == id;
                if is_boss_of(lookup.boss_table()[keys@[j]], operation@, boss@) {
                    assert(out@.contains(keys@[j]));
                }
            }
        }
    }
    out
}

/// Lookup content type by area/operation name
/// Returns Some(ContentType) if the area is a known operation/flashpoint/lair
pub fn lookup_area_content_type(lookup: &BossLookup, area_name: &str) -> (r: Option<ContentType>)
    ensures
        r == lookup.area_table().get(area_name@),
{
    lookup.areas.get(area_name)
}

/// Lowercasing twice changes nothing more.
proof fn lemma_ascii_lower_idempotent(k: Seq<char>)
    ensures
        ascii_lower_seq(ascii_lower_seq(k)) == ascii_lower_seq(k),
{
    assert(ascii_lower_seq(ascii_lower_seq(k)) =~= ascii_lower_seq(k));
}

/// Matching a configuration key ignores ASCII case.
pub proof fn law_config_key_ignores_case(d: Difficulty, key: Seq<char>)
    ensures
        spec_matches_config_key(d, key) == spec_matches_config_key(d, ascii_lower_seq(key)),
{
    lemma_ascii_lower_idempotent(key);
}

/// A tier word without a `_` matches exactly the difficulties of that tier,
/// whatever their group size.
pub proof fn law_plain_tier_key(d: Difficulty, key: Seq<char>)
    requires
        !key.contains('_'),
    ensures
        spec_matches_config_key(d, key) == (spec_config_key(d) == ascii_lower_seq(key)),
{
    let k = ascii_lower_seq(key);
    assert(!k.contains('_')) by {
        if k.contains('_') {
            let i = choose|i: int| 0 <= i < k.len() && k[i] == '_';
            assert(key[i] == '_' || (65 <= (key[i] as u32) <= 90));
            assert(key.contains(key[i]));
        }
    }
    lemma_rfind_absent(k, '_', k.len() as int);
}

/// With no `c` before `before`, `rfind_before` finds nothing.
proof fn lemma_rfind_absent(s: Seq<char>, c: char, before: int)
    requires
        0 <= before <= s.len(),
        !s.contains(c),
    ensures
        rfind_before(s, c, before) is None,
    decreases before,
{
    if before > 0 {
        assert(s[before - 1] != c) by {
            if s[before - 1] == c {
                assert(s.contains(c));
            }
        }
        lemma_rfind_absent(s, c, before - 1);
    }
}

/// Each difficulty ID names one difficulty: distinct IDs that both name a
/// difficulty name different ones.
pub proof fn law_difficulty_ids_distinct(a: i64, b: i64)
    requires
        a != b,
        spec_from_difficulty_id(a) is Some,
        spec_from_difficulty_id(b) is Some,
    ensures
        spec_from_difficulty_id(a) != spec_from_difficulty_id(b),
{
}

/// The last entry for an ID decides what the table holds for it; IDs
/// without an entry keep what the table held before.
pub proof fn law_last_entry_wins(
    m: Map<i64, BossInfoView>,
    es: Seq<(i64, BossInfoView)>,
    id: i64,
)
    ensures
        (forall|k: int| 0 <= k < es.len() ==> (#[trigger] es[k]).0 != id) ==> insert_bosses(m, es).get(id)
            == m.get(id),
        forall|k: int|
            0 <= k < es.len() && (#[trigger] es[k]).0 == id && (forall|j: int|
                k < j < es.len() ==> es[j].0 != id) ==> insert_bosses(m, es).get(id) == Some(es[k].1),
    decreases es.len(),
{
    if es.len() > 0 {
        let prev = es.drop_last();
        law_last_entry_wins(m, prev, id);
        assert forall|k: int|
            0 <= k < es.len() && (#[trigger] es[k]).0 == id && (forall|j: int|
                k < j < es.len() ==> es[j].0 != id) implies insert_bosses(m, es).get(id) == Some(
            es[k].1,
        ) by {
            if k < es.len() - 1 {
                assert(prev[k] == es[k]);
                assert forall|j: int| k < j < prev.len() implies prev[j].0 != id by {
                    assert(prev[j] == es[j]);
                }
            }
        }
        if forall|k: int| 0 <= k < es.len() ==> (#[trigger] es[k]).0 != id {
            assert forall|k: int| 0 <= k < prev.len() implies (#[trigger] prev[k]).0 != id by {
                assert(prev[k] == es[k]);
            }
        }
    }
}

/// A source read with `skip_dummy` adds no training dummy to the area table.
pub proof fn law_dummies_skipped(
    m: Map<Seq<char>, ContentType>,
    es: Seq<(i64, BossInfoView)>,
    name: Seq<char>,
)
    requires
        !(m.contains_key(name) && m[name] == ContentType::TrainingDummy),
    ensures
        !(insert_areas(m, es, true).contains_key(name) && insert_areas(m, es, true)[name]
            == ContentType::TrainingDummy),
    decreases es.len(),
{
    if es.len() > 0 {
        law_dummies_skipped(m, es.drop_last(), name);
    }
}

/// A key `tier_N`, where `N` is written in decimal digits and is 4, 8 or 16,
/// matches exactly the difficulty of that tier (ignoring ASCII case) and
/// that group size.
pub proof fn law_compound_key(d: Difficulty, tier: Seq<char>, size: Seq<char>, n: int)
    requires
        all_digits(size),
        parse_unsigned(size, 255) == Some(n),
        n == 4 || n == 8 || n == 16,
    ensures
        spec_matches_config_key(d, tier + "_"@ + size) == (spec_config_key(d) == ascii_lower_seq(tier)
            && spec_group_size(d) == n),
{
    reveal_strlit("_");
    let key = tier + "_"@ + size;
    let k = ascii_lower_seq(key);
    let p = tier.len() as int;
    assert(k[p] == '_');
    assert forall|j: int| p < j < k.len() implies k[j] != '_' by {
        assert(key[j] == size[j - p - 1]);
        assert(is_digit(size[j - p - 1]));
    }
    crate::text::lemma_rfind_before(k, '_', k.len() as int, Some(p));
    assert(k.skip(p + 1) =~= size) by {
        assert forall|j: int| 0 <= j < size.len() implies k.skip(p + 1)[j] == size[j] by {
            assert(key[p + 1 + j] == size[j]);
            assert(is_digit(size[j]));
        }
    }
    assert(k.take(p) =~= ascii_lower_seq(tier)) by {
        assert forall|j: int| 0 <= j < p implies k.take(p)[j] == ascii_lower_seq(tier)[j] by {
            assert(key[j] == tier[j]);
        }
    }
}

} // verus!
