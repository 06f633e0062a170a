//! Log file area indexing
//!
//! Lightweight indexing of AreaEntered events in combat log files.
//! Enables filtering log files by operation/area name in the file browser.

use std::collections::HashSet;
use std::time::SystemTime;
use vstd::prelude::*;

use crate::game_data::bosses::{
    spec_config_key, spec_from_difficulty_id, spec_group_size, Difficulty,
};
use crate::text::{
    contains_bytes, find_char, find_chars, find_from, find_sub, parse_i64, parse_i64_range,
    rfind_before, rfind_char, slice, trim, trimmed,
    chars_eq, chars_eq_ignore_ascii_case, chars_of, eq_ignore_ascii_case, extend_chars,
    extend_str, join_from, join_with, parse_unsigned, parse_unsigned_range, split_whitespace,
    split_ws, string_of, to_lowercase, unicode_lowercase, words_view,
};

verus! {

/// A single area visit entry extracted from a log file
#[derive(Debug, Clone)]
pub struct FileAreaEntry {
    pub area_id: i64,
    pub area_name: String,
    pub difficulty_id: i64,
    pub difficulty_name: String,
}

/// The value of a [`FileAreaEntry`], with its texts as character sequences.
pub struct FileAreaEntryView {
    pub area_id: i64,
    pub area_name: Seq<char>,
    pub difficulty_id: i64,
    pub difficulty_name: Seq<char>,
}

impl View for FileAreaEntry {
    type V = FileAreaEntryView;

    open spec fn view(&self) -> FileAreaEntryView {
        FileAreaEntryView {
            area_id: self.area_id,
            area_name: self.area_name@,
            difficulty_id: self.difficulty_id,
            difficulty_name: self.difficulty_name@,
        }
    }
}

/// Shorthand of a difficulty tier word for 8/16-player content.
pub open spec fn tier_shorthand(key: Seq<char>) -> Seq<char> {
    if key == "master"@ {
        "NiM"@
    } else if key == "veteran"@ {
        "HM"@
    } else {
        "SM"@
    }
}

/// The decimal text of a group size of 8 or 16.
pub open spec fn size_text(n: int) -> Seq<char> {
    if n == 8 {
        "8"@
    } else {
        "16"@
    }
}

/// The display name that the difficulty name alone gives (used when the
/// difficulty ID is unknown or names 4-player content): for
/// "N Player Tier..." with N of 8 or 16 and a tier of master, veteran or
/// story (any case), "Area NiM|HM|SM N"; otherwise "Area DifficultyName".
pub open spec fn display_from_text(area: Seq<char>, diff_name: Seq<char>) -> Seq<char> {
    let parts = split_ws(diff_name);
    let fallback = area + " "@ + diff_name;
    if parts.len() >= 3 && eq_ignore_ascii_case(parts[1], "Player"@) {
        match parse_unsigned(parts[0], 255) {
            Some(n) => if n == 8 || n == 16 {
                tier_display(area, fallback, n, unicode_lowercase(join_with(parts.skip(2), " "@)))
            } else {
                fallback
            },
            None => fallback,
        }
    } else {
        fallback
    }
}

/// The short display name for a group size and a lowercase tier word:
/// "Area NiM|HM|SM N" for master, veteran or story; otherwise `fallback`.
pub open spec fn tier_display(area: Seq<char>, fallback: Seq<char>, n: int, tier_lower: Seq<char>) -> Seq<char> {
    if tier_lower == "master"@ {
        area + " "@ + "NiM"@ + " "@ + size_text(n)
    } else if tier_lower == "veteran"@ {
        area + " "@ + "HM"@ + " "@ + size_text(n)
    } else if tier_lower == "story"@ {
        area + " "@ + "SM"@ + " "@ + size_text(n)
    } else {
        fallback
    }
}

/// The display name of an area entry.
pub open spec fn spec_display_name(e: FileAreaEntryView) -> Seq<char> {
    match spec_from_difficulty_id(e.difficulty_id) {
        Some(d) if spec_group_size(d) == 8 || spec_group_size(d) == 16 => e.area_name + " "@
            + tier_shorthand(spec_config_key(d)) + " "@ + size_text(spec_group_size(d) as int),
        _ => if e.difficulty_name.len() == 0 {
            e.area_name
        } else {
            display_from_text(e.area_name, e.difficulty_name)
        },
    }
}

/// The badge tier of an area entry.
pub open spec fn spec_difficulty_tier(e: FileAreaEntryView) -> Option<Seq<char>> {
    match spec_from_difficulty_id(e.difficulty_id) {
        Some(d) => Some(
            if spec_group_size(d) == 4 {
                "fp"@
            } else if spec_config_key(d) == "master"@ {
                "nim"@
            } else if spec_config_key(d) == "veteran"@ {
                "hm"@
            } else {
                "sm"@
            },
        ),
        None => None,
    }
}

/// "Area Short Size" for the shorthand forms.
fn short_form(area: &Vec<char>, short: &str, size: &str) -> (r: Vec<char>)
    ensures
        r@ == area@ + " "@ + short@ + " "@ + size@,
{
    let mut out: Vec<char> = Vec::new();
    extend_chars(&mut out, area);
    extend_str(&mut out, " ");
    extend_str(&mut out, short);
    extend_str(&mut out, " ");
    extend_str(&mut out, size);
    assert(out@ =~= area@ + " "@ + short@ + " "@ + size@);
    out
}

fn size_str(n: u64) -> (r: &'static str)
    requires
        n == 8 || n == 16,
    ensures
        r@ == size_text(n as int),
{
    if n == 8 {
        "8"
    } else {
        "16"
    }
}

/// `display_from_text` computed on character vectors.
fn display_name_from_text(area: &Vec<char>, diff_name: &Vec<char>) -> (r: Vec<char>)
    ensures
        r@ == display_from_text(area@, diff_name@),
{
    let parts = split_whitespace(diff_name);
    let mut fallback: Vec<char> = Vec::new();
    extend_chars(&mut fallback, area);
    extend_str(&mut fallback, " ");
    extend_chars(&mut fallback, diff_name);
    assert(fallback@ =~= area@ + " "@ + diff_name@);
    let ghost ps = words_view(parts@);
    assert(ps == split_ws(diff_name@));
    if parts.len() < 3 {
        return fallback;
    }
    assert(ps[1] == parts@[1]@);
    assert(ps[0] == parts@[0]@);
    let player = chars_of("Player");
    if !chars_eq_ignore_ascii_case(&parts[1], &player) {
        return fallback;
    }
    let first = &parts[0];
    proof {
        assert(first@.subrange(0, first@.len() as int) =~= first@);
    }
    let n = match parse_unsigned_range(first, 0, first.len(), 255) {
        Some(n) => n,
        None => {
            return fallback;
        },
    };
    if !(n == 8 || n == 16) {
        return fallback;
    }
    let sep = chars_of(" ");
    let joined = join_from(&parts, 2, &sep);
    let w = to_lowercase(joined.as_slice());
    tier_display_name(area, fallback, n, &w)
}

/// The short display name for a group size of 8 or 16 and the lowercased
/// tier words of a difficulty name (see `tier_display`).
pub fn tier_display_name(area: &Vec<char>, fallback: Vec<char>, n: u64, tier_lower: &Vec<char>) -> (r: Vec<char>)
    requires
        n == 8 || n == 16,
    ensures
        r@ == tier_display(area@, fallback@, n as int, tier_lower@),
{
    let size = size_str(n);
    if chars_eq(tier_lower, &chars_of("master")) {
        short_form(area, "NiM", size)
    } else if chars_eq(tier_lower, &chars_of("veteran")) {
        short_form(area, "HM", size)
    } else if chars_eq(tier_lower, &chars_of("story")) {
        short_form(area, "SM", size)
    } else {
        fallback
    }
}

impl FileAreaEntry {
    /// Format for display: "AreaName Difficulty" with shorthand for 8/16 player content
    /// Examples:
    /// - "8 Player Master" -> "Dread Palace NiM 8"
    /// - "16 Player Veteran" -> "Dxun HM 16"
    /// - "4 Player Veteran" -> "Hammer Station 4 Player Veteran" (kept as-is)
    pub fn display_name(&self) -> (r: String)
        ensures
            r@ == spec_display_name(self@),
    {
        let area = chars_of(self.area_name.as_str());
        // Language-independent path: derive shorthand from the difficulty ID
        if let Some(diff) = Difficulty::from_difficulty_id(self.difficulty_id) {
            let size = diff.group_size();
            if size == 8 || size == 16 {
                let key = chars_of(diff.config_key());
                let short = if chars_eq(&key, &chars_of("master")) {
                    "NiM"
                } else if chars_eq(&key, &chars_of("veteran")) {
                    "HM"
                } else {
                    "SM"
                };
                let out = short_form(&area, short, size_str(size as u64));
                return string_of(out.as_slice());
            }
        }
        let diff_name = chars_of(self.difficulty_name.as_str());
        if diff_name.len() == 0 {
            return self.area_name.clone();
        }
        // Fallback for unknown IDs: parse the (English) difficulty string
        let out = display_name_from_text(&area, &diff_name);
        string_of(out.as_slice())
    }

    /// Badge tier for the file browser, derived from the difficulty ID
    /// (language-independent): "fp" for 4-player, "nim"/"hm"/"sm" for 8/16.
    pub fn difficulty_tier(&self) -> (r: Option<&'static str>)
        ensures
            match r {
                Some(t) => spec_difficulty_tier(self@) == Some(t@),
                None => spec_difficulty_tier(self@) is None,
            },
    {
        let diff = Difficulty::from_difficulty_id(self.difficulty_id)?;
        Some(
            if diff.group_size() == 4 {
                "fp"
            } else {
                let key = chars_of(diff.config_key());
                if chars_eq(&key, &chars_of("master")) {
                    "nim"
                } else if chars_eq(&key, &chars_of("veteran")) {
                    "hm"
                } else {
                    "sm"
                }
            },
        )
    }
}

/// The AreaEntered effect type ID as it appears in a log line.
pub open spec fn area_entered_marker() -> Seq<char> {
    "{836045448953664}"@
}

/// The area entry that an AreaEntered line carries, if it parses.
///
/// The bracket segment holding the marker is `[Label {type}: Area {area_id}
/// Difficulty {difficulty_id}]`; the text after the first colon, trimmed, is
/// the content. The first `{..}` pair of the content is the area ID (the
/// trimmed text before it the area name); a second pair, when there is one,
/// is the difficulty ID (the trimmed text between the pairs its name).
pub open spec fn spec_parse_area_entered(line: Seq<char>) -> Option<FileAreaEntryView> {
    match find_sub(line, area_entered_marker(), 0) {
        None => None,
        Some(m) => match rfind_before(line, '[', m) {
            None => None,
            Some(seg_start) => match find_from(line, ']', m) {
                None => None,
                Some(seg_end) => {
                    let segment = line.subrange(seg_start + 1, seg_end);
                    match find_from(segment, ':', 0) {
                        None => None,
                        Some(colon) => parse_area_content(trim(segment.skip(colon + 1))),
                    }
                },
            },
        },
    }
}

/// The area entry that the content of an AreaEntered segment names.
pub open spec fn parse_area_content(content: Seq<char>) -> Option<FileAreaEntryView> {
    match find_from(content, '{', 0) {
        None => None,
        Some(b0) => match find_from(content, '}', b0) {
            None => None,
            Some(e0) => match parse_i64(content.subrange(b0 + 1, e0)) {
                None => None,
                Some(area_id) => {
                    let area_name = trim(content.take(b0));
                    let second = match find_from(content, '{', e0 + 1) {
                        Some(b1) => match find_from(content, '}', b1) {
                            Some(e1) => Some((b1, e1)),
                            None => None,
                        },
                        None => None,
                    };
                    match second {
                        Some((b1, e1)) => match parse_i64(content.subrange(b1 + 1, e1)) {
                            None => None,
                            Some(difficulty_id) => Some(
                                FileAreaEntryView {
                                    area_id: area_id as i64,
                                    area_name,
                                    difficulty_id: difficulty_id as i64,
                                    difficulty_name: trim(content.subrange(e0 + 1, b1)),
                                },
                            ),
                        },
                        None => Some(
                            FileAreaEntryView {
                                area_id: area_id as i64,
                                area_name,
                                difficulty_id: 0,
                                difficulty_name: Seq::empty(),
                            },
                        ),
                    }
                },
            },
        },
    }
}

/// Parses the content of an AreaEntered segment.
fn parse_content(content: &Vec<char>) -> (r: Option<FileAreaEntry>)
    ensures
        match r {
            Some(e) => parse_area_content(content@) == Some(e@),
            None => parse_area_content(content@) is None,
        },
{
    let b0 = find_char(content, '{', 0)?;
    let e0 = find_char(content, '}', b0)?;
    let area_id = parse_i64_range(content, b0 + 1, e0)?;
    let area_name = trimmed(content, 0, b0);
    proof {
        assert(content@.take(b0 as int) =~= content@.subrange(0, b0 as int));
    }
    let mut second: Option<(usize, usize)> = None;
    if let Some(b1) = find_char(content, '{', e0 + 1) {
        if let Some(e1) = find_char(content, '}', b1) {
            second = Some((b1, e1));
        }
    }
    match second {
        Some((b1, e1)) => {
            let difficulty_id = parse_i64_range(content, b1 + 1, e1)?;
            let difficulty_name = trimmed(content, e0 + 1, b1);
            Some(
                FileAreaEntry {
                    area_id,
                    area_name: string_of(area_name.as_slice()),
                    difficulty_id,
                    difficulty_name: string_of(difficulty_name.as_slice()),
                },
            )
        },
        None => {
            let empty: Vec<char> = Vec::new();
            Some(
                FileAreaEntry {
                    area_id,
                    area_name: string_of(area_name.as_slice()),
                    difficulty_id: 0,
                    difficulty_name: string_of(empty.as_slice()),
                },
            )
        },
    }
}

/// Parses the characters of an AreaEntered line.
fn parse_area_entered_chars(line: &Vec<char>) -> (r: Option<FileAreaEntry>)
    ensures
        match r {
            Some(e) => spec_parse_area_entered(line@) == Some(e@),
            None => spec_parse_area_entered(line@) is None,
        },
{
    let marker = chars_of("{836045448953664}");
    let marker_pos = find_chars(line, &marker)?;
    let segment_start = rfind_char(line, '[', marker_pos)?;
    let segment_end = find_char(line, ']', marker_pos)?;
    let segment = slice(line, segment_start + 1, segment_end);
    let colon = find_char(&segment, ':', 0)?;
    let content = trimmed(&segment, colon + 1, segment.len());
    proof {
        assert(segment@.skip(colon + 1) =~= segment@.subrange(colon + 1, segment@.len() as int));
    }
    parse_content(&content)
}

/// Parse an AreaEntered line to extract area information.
///
/// Line format example:
/// `[18:28:08.183] [@Player|...] [] [] [AreaEntered {836045448953664}: The Dread Palace {137438993410} 8 Player Master {836045448953655}] (he3000) <v7.0.0b>`
///
/// We need to extract:
/// - Area name and ID from the first name/ID pair after the colon
/// - Difficulty name and ID from the optional second name/ID pair
pub fn parse_area_entered_line(line: &str) -> (r: Option<FileAreaEntry>)
    ensures
        match r {
            Some(e) => spec_parse_area_entered(line@) == Some(e@),
            None => spec_parse_area_entered(line@) is None,
        },
{
    let chars = chars_of(line);
    parse_area_entered_chars(&chars)
}

broadcast use vstd::std_specs::hash::group_hash_axioms;

/// The AreaEntered effect type ID as bytes, for matching raw log lines.
pub const MARKER_BYTES: [u8; 17] = [
    0x7b, 0x38, 0x33, 0x36, 0x30, 0x34, 0x35, 0x34, 0x34, 0x38, 0x39, 0x35, 0x33, 0x36, 0x36,
    0x34, 0x7d,
];

/// What `encoding_rs::WINDOWS_1252.decode` yields for a line's bytes: the
/// Windows-1252 decoding, after the BOM sniffing that `Encoding::decode` does.
pub uninterp spec fn windows_1252_decode(bytes: Seq<u8>) -> Seq<char>;

/// Decodes a raw log line with `encoding_rs::WINDOWS_1252.decode`.
#[verifier::external_body]
fn decode_windows_1252(bytes: &[u8]) -> (r: Vec<char>)
    ensures
        r@ == windows_1252_decode(bytes@),
{
    let (text, _, _) = encoding_rs::WINDOWS_1252.decode(bytes);
    text.chars().collect()
}

/// The entry that one raw line contributes before deduplication: lines
/// without the marker bytes are skipped undecoded, and only areas with
/// definitions (`known`) count.
pub open spec fn line_area_entry(line: Seq<u8>, known: Set<i64>) -> Option<FileAreaEntryView> {
    if find_sub(line, MARKER_BYTES@, 0) is None {
        None
    } else {
        match spec_parse_area_entered(windows_1252_decode(line)) {
            Some(e) => if known.contains(e.area_id) {
                Some(e)
            } else {
                None
            },
            None => None,
        }
    }
}

/// Some entry of `es` has this area and difficulty.
pub open spec fn has_area_key(es: Seq<FileAreaEntryView>, area_id: i64, difficulty_id: i64) -> bool {
    exists|k: int| 0 <= k < es.len() && es[k].area_id == area_id && es[k].difficulty_id == difficulty_id
}

/// The areas visited in `lines`, in order of first visit, one entry per
/// (area ID, difficulty ID).
pub open spec fn areas_of_lines(lines: Seq<Seq<u8>>, known: Set<i64>) -> Seq<FileAreaEntryView>
    decreases lines.len(),
{
    if lines.len() == 0 {
        seq![]
    } else {
        let prev = areas_of_lines(lines.drop_last(), known);
        match line_area_entry(lines.last(), known) {
            Some(e) => if has_area_key(prev, e.area_id, e.difficulty_id) {
                prev
            } else {
                prev.push(e)
            },
            None => prev,
        }
    }
}

/// The views of a vector of entries.
pub open spec fn entries_view(es: Seq<FileAreaEntry>) -> Seq<FileAreaEntryView> {
    es.map_values(|e: FileAreaEntry| e@)
}

/// The views of a vector of lines.
pub open spec fn lines_view(ls: Seq<Vec<u8>>) -> Seq<Seq<u8>> {
    ls.map_values(|l: Vec<u8>| l@)
}

/// Whether an entry with this area and difficulty is already in `areas`.
fn contains_area_key(areas: &Vec<FileAreaEntry>, area_id: i64, difficulty_id: i64) -> (r: bool)
    ensures
        r == has_area_key(entries_view(areas@), area_id, difficulty_id),
{
    let mut k: usize = 0;
    while k < areas.len()
        invariant
            k <= areas.len(),
            forall|j: int|
                0 <= j < k ==> !(areas@[j].area_id == area_id && areas@[j].difficulty_id
                    == difficulty_id),
        decreases areas.len() - k,
    {
        if areas[k].area_id == area_id && areas[k].difficulty_id == difficulty_id {
            assert(entries_view(areas@)[k as int] == areas@[k as int]@);
            return true;
        }
        k = k + 1;
    }
    proof {
        if has_area_key(entries_view(areas@), area_id, difficulty_id) {
            let j = choose|j: int|
                0 <= j < entries_view(areas@).len() && entries_view(areas@)[j].area_id == area_id
                    && entries_view(areas@)[j].difficulty_id == difficulty_id;
            assert(entries_view(areas@)[j] == areas@[j]@);
        }
    }
    false
}

/// Extract AreaEntered events from the raw lines of a log file.
///
/// Pattern matches each line on the ASCII marker bytes, then decodes only
/// matching lines with Windows-1252 encoding. Only returns areas that exist
/// in `known_area_ids` (from definition files), deduplicated by
/// (area ID, difficulty ID) in order of first appearance.
pub fn extract_areas_from_lines(lines: &Vec<Vec<u8>>, known_area_ids: &HashSet<i64>) -> (r: Vec<
    FileAreaEntry,
>)
    ensures
        entries_view(r@) == areas_of_lines(lines_view(lines@), known_area_ids@),
{
    let mut areas: Vec<FileAreaEntry> = Vec::new();
    let mut i: usize = 0;
    while i < lines.len()
        invariant
            i <= lines.len(),
            entries_view(areas@) == areas_of_lines(
                lines_view(lines@).take(i as int),
                known_area_ids@,
            ),
        decreases lines.len() - i,
    {
        let line = &lines[i];
        let ghost prev = entries_view(areas@);
        proof {
            let t = lines_view(lines@).take(i + 1);
            assert(t.drop_last() =~= lines_view(lines@).take(i as int));
            assert(t.last() == lines@[i as int]@);
        }
        if contains_bytes(line, &MARKER_BYTES) {
            let decoded = decode_windows_1252(line.as_slice());
            if let Some(entry) = parse_area_entered_chars(&decoded) {
                if known_area_ids.contains(&entry.area_id) {
                    if !contains_area_key(&areas, entry.area_id, entry.difficulty_id) {
                        let ghost ev = entry@;
                        areas.push(entry);
                        assert(entries_view(areas@) =~= prev.push(ev));
                    }
                }
            }
        }
        i = i + 1;
    }
    assert(lines_view(lines@).take(lines.len() as int) =~= lines_view(lines@));
    areas
}

/// Indexed area information for a single log file
#[derive(Debug, Clone)]
pub struct FileAreaIndex {
    /// File modification time (seconds since epoch) for cache invalidation
    pub modified_secs: u64,
    /// Areas visited in this file (deduplicated by area_id + difficulty_id)
    pub areas: Vec<FileAreaEntry>,
}

/// The value of a [`FileAreaIndex`].
pub struct FileAreaIndexView {
    pub modified_secs: u64,
    pub areas: Seq<FileAreaEntryView>,
}

impl View for FileAreaIndex {
    type V = FileAreaIndexView;

    open spec fn view(&self) -> FileAreaIndexView {
        FileAreaIndexView { modified_secs: self.modified_secs, areas: entries_view(self.areas@) }
    }
}

/// Cache format version (increment when format changes)
pub const CACHE_VERSION: u32 = 1;

/// Cache of area indexes for all log files, keyed by file path.
pub struct LogAreaCache {
    version: u32,
    entries: Vec<(String, FileAreaIndex)>,
}

/// Some entry of `es` is for `path`.
pub open spec fn has_path(es: Seq<(String, FileAreaIndex)>, path: Seq<char>) -> bool {
    exists|k: int| 0 <= k < es.len() && (#[trigger] es[k]).0@ == path
}

/// Some entry of `es` from index `from` on is for `path`.
pub open spec fn has_path_from(es: Seq<(String, FileAreaIndex)>, from: int, path: Seq<char>) -> bool {
    exists|k: int| from <= k < es.len() && (#[trigger] es[k]).0@ == path
}

/// No entry after `k` is for the path of entry `k`.
pub open spec fn is_last_for(es: Seq<(String, FileAreaIndex)>, k: int) -> bool {
    forall|j: int| k < j < es.len() ==> (#[trigger] es[j]).0@ != es[k].0@
}

/// The entry list as a map from path to index.
pub open spec fn cache_map(es: Seq<(String, FileAreaIndex)>) -> Map<Seq<char>, FileAreaIndexView> {
    Map::new(
        |p: Seq<char>| has_path(es, p),
        |p: Seq<char>| es[choose|k: int| 0 <= k < es.len() && (#[trigger] es[k]).0@ == p].1@,
    )
}

/// No two entries are for the same path.
pub open spec fn paths_distinct(es: Seq<(String, FileAreaIndex)>) -> bool {
    forall|i: int, j: int|
        0 <= i < es.len() && 0 <= j < es.len() && i != j ==> (#[trigger] es[i]).0@ != (
        #[trigger] es[j]).0@
}

/// With distinct paths, the entry at `k` is the one the map holds for its path.
proof fn lemma_cache_map_at(es: Seq<(String, FileAreaIndex)>, k: int)
    requires
        paths_distinct(es),
        0 <= k < es.len(),
    ensures
        cache_map(es).contains_key(es[k].0@),
        cache_map(es)[es[k].0@] == es[k].1@,
{
    let p = es[k].0@;
    assert(has_path(es, p));
    let c = choose|c: int| 0 <= c < es.len() && (#[trigger] es[c]).0@ == p;
    assert(c == k);
}

/// A file modification time (`std::time::SystemTime`), carried through opaquely.
#[verifier::external_type_specification]
#[verifier::external_body]
pub struct ExSystemTime(SystemTime);

/// Some string of `names` is `p`.
pub open spec fn is_listed(names: Seq<String>, p: Seq<char>) -> bool {
    exists|k: int| 0 <= k < names.len() && (#[trigger] names[k])@ == p
}

/// Whether `path` is one of `names`.
fn listed(names: &Vec<String>, path: &str) -> (r: bool)
    ensures
        r == is_listed(names@, path@),
{
    let target = chars_of(path);
    let mut m: usize = 0;
    while m < names.len()
        invariant
            m <= names@.len(),
            target@ == path@,
            forall|k: int| 0 <= k < m ==> (#[trigger] names@[k])@ != path@,
        decreases names@.len() - m,
    {
        let name = chars_of(names[m].as_str());
        if chars_eq(&name, &target) {
            return true;
        }
        m = m + 1;
    }
    false
}

/// The whole seconds from the Unix epoch to a time, 0 for times before it:
/// what `SystemTime::duration_since(UNIX_EPOCH)` and `Duration::as_secs` give.
pub uninterp spec fn secs_since_epoch(t: SystemTime) -> u64;

/// Reads the seconds since the Unix epoch of a modification time with
/// `SystemTime::duration_since(UNIX_EPOCH)` and `Duration::as_secs`, 0 for
/// times before the epoch. The contract names the result
/// (`secs_since_epoch`): std computes it from the time alone, and nothing
/// more of it is stated.
#[verifier::external_body]
fn unix_secs(t: &SystemTime) -> (r: u64)
    ensures
        r == secs_since_epoch(*t),
{
    t.duration_since(SystemTime::UNIX_EPOCH).map(|d| d.as_secs()).unwrap_or(0)
}

impl LogAreaCache {
    /// The cached indexes by file path.
    pub closed spec fn contents(&self) -> Map<Seq<char>, FileAreaIndexView> {
        cache_map(self.entries@)
    }

    /// The cache format version.
    pub closed spec fn spec_version(&self) -> u32 {
        self.version
    }

    #[verifier::type_invariant]
    closed spec fn wf(&self) -> bool {
        paths_distinct(self.entries@)
    }

    pub fn new() -> (r: Self)
        ensures
            r.contents() == Map::<Seq<char>, FileAreaIndexView>::empty(),
            r.contents().dom().finite(),
            r.spec_version() == CACHE_VERSION,
    {
        let r = LogAreaCache { version: CACHE_VERSION, entries: Vec::new() };
        assert(r.contents() =~= Map::<Seq<char>, FileAreaIndexView>::empty());
        r
    }

    /// The cache that a stored document gives: its entries when it was
    /// written in this format version, else an empty cache.
    pub fn from_stored(version: u32, entries: Vec<(String, FileAreaIndex)>) -> (r: Self)
        ensures
            r.spec_version() == CACHE_VERSION,
            r.contents().dom().finite(),
            version != CACHE_VERSION ==> r.contents() == Map::<Seq<char>, FileAreaIndexView>::empty(),
            version == CACHE_VERSION ==> forall|p: Seq<char>|
                #[trigger] r.contents().contains_key(p) <==> has_path(entries@, p),
            version == CACHE_VERSION ==> forall|k: int|
                0 <= k < entries@.len() && is_last_for(entries@, k) ==> r.contents()[(
                #[trigger] entries@[k]).0@] == entries@[k].1@,
    {
        if version == CACHE_VERSION {
            Self::from_parts(version, entries)
        } else {
            Self::new()
        }
    }

    /// A cache of the given format version holding the entries
    /// (a later entry for the same path replaces an earlier one).
    pub fn from_parts(version: u32, entries: Vec<(String, FileAreaIndex)>) -> (r: Self)
        ensures
            r.spec_version() == version,
            r.contents().dom().finite(),
            forall|p: Seq<char>| #[trigger] r.contents().contains_key(p) <==> has_path(entries@, p),
            forall|k: int|
                0 <= k < entries@.len() && is_last_for(entries@, k) ==> r.contents()[(
                #[trigger] entries@[k]).0@] == entries@[k].1@,
    {
        let mut cache = LogAreaCache { version, entries: Vec::new() };
        assert(cache.contents() =~= Map::<Seq<char>, FileAreaIndexView>::empty());
        let ghost all = entries@;
        let mut rest = entries;
        while rest.len() > 0
            invariant
                cache.spec_version() == version,
                rest@.len() <= all.len(),
                rest@ == all.take(rest@.len() as int),
                forall|p: Seq<char>|
                    #[trigger] cache.contents().contains_key(p) <==> has_path_from(
                        all,
                        rest@.len() as int,
                        p,
                    ),
                forall|k: int|
                    rest@.len() <= k < all.len() && is_last_for(all, k) ==> cache.contents()[(
                    #[trigger] all[k]).0@] == all[k].1@,
            decreases rest.len(),
        {
            let ghost before = rest@;
            let ghost i = rest@.len() - 1;
            let (path, index) = rest.pop().unwrap();
            assert(before[i] == all[i]);
            assert(rest@ =~= all.take(i));
            let ghost pv = path@;
            let ghost iv = index@;
            let ghost before_map = cache.contents();
            let present = cache.contains_path(path.as_str());
            if !present {
                cache.insert(path, index);
            }
            proof {
                assert forall|p: Seq<char>| #[trigger] cache.contents().contains_key(p) <==> has_path_from(
                    all,
                    i,
                    p,
                ) by {
                    if has_path_from(all, i, p) && p != pv {
                        let k = choose|k: int| i <= k < all.len() && (#[trigger] all[k]).0@ == p;
                        assert(k != i);
                        assert(has_path_from(all, i + 1, p));
                    }
                    if has_path_from(all, i + 1, p) {
                        let k = choose|k: int| i + 1 <= k < all.len() && (#[trigger] all[k]).0@ == p;
                        assert(has_path_from(all, i, p));
                    }
                    if p == pv {
                        assert(all[i].0@ == p);
                    }
                }
                assert forall|k: int|
                    i <= k < all.len() && is_last_for(all, k) implies cache.contents()[(
                    #[trigger] all[k]).0@] == all[k].1@ by {
                    if k == i {
                        if present {
                            let j = choose|j: int| i + 1 <= j < all.len() && (#[trigger] all[j]).0@ == pv;
                            assert(all[j].0@ != all[k].0@);
                        }
                    } else {
                        if all[k].0@ == pv && !present {
                            assert(has_path_from(all, i + 1, pv));
                        }
                    }
                }
            }
        }
        proof {
            assert forall|p: Seq<char>| has_path_from(all, 0, p) <==> has_path(all, p) by {}
            use_type_invariant(&cache);
            lemma_cache_len(cache.entries@);
        }
        cache
    }

    /// The cache format version.
    pub fn version(&self) -> (r: u32)
        ensures
            r == self.spec_version(),
    {
        self.version
    }

    /// The index of the entry for `path`.
    fn position(&self, path: &str) -> (r: Option<usize>)
        ensures
            match r {
                Some(k) => k < self.entries@.len() && self.entries@[k as int].0@ == path@,
                None => !has_path(self.entries@, path@),
            },
    {
        let target = chars_of(path);
        let mut k: usize = 0;
        while k < self.entries.len()
            invariant
                k <= self.entries@.len(),
                target@ == path@,
                forall|j: int| 0 <= j < k ==> (#[trigger] self.entries@[j]).0@ != path@,
            decreases self.entries@.len() - k,
        {
            let name = chars_of(self.entries[k].0.as_str());
            if chars_eq(&name, &target) {
                return Some(k);
            }
            k = k + 1;
        }
        None
    }

    /// Whether an index is cached for `path`.
    fn contains_path(&self, path: &str) -> (r: bool)
        ensures
            r == self.contents().contains_key(path@),
    {
        self.position(path).is_some()
    }

    /// Get cached areas for a file path
    pub fn get(&self, path: &str) -> (r: Option<&FileAreaIndex>)
        ensures
            match r {
                Some(idx) => self.contents().contains_key(path@) && idx@ == self.contents()[path@],
                None => !self.contents().contains_key(path@),
            },
    {
        proof {
            use_type_invariant(self);
        }
        match self.position(path) {
            Some(k) => {
                proof {
                    lemma_cache_map_at(self.entries@, k as int);
                }
                Some(&self.entries[k].1)
            },
            None => None,
        }
    }

    /// Insert or update an entry
    pub fn insert(&mut self, path: String, index: FileAreaIndex)
        ensures
            final(self).contents() == old(self).contents().insert(path@, index@),
            final(self).spec_version() == old(self).spec_version(),
            final(self).contents().dom().finite(),
            final(self).contents().len() == old(self).contents().len() + if old(self).contents().contains_key(
                path@,
            ) {
                0int
            } else {
                1int
            },
    {
        proof {
            use_type_invariant(&*self);
        }
        let ghost old_es = self.entries@;
        let ghost pv = path@;
        let ghost iv = index@;
        let pos = self.position(path.as_str());
        let mut entries: Vec<(String, FileAreaIndex)> = Vec::new();
        std::mem::swap(&mut entries, &mut self.entries);
        match pos {
            Some(k) => {
                entries.set(k, (path, index));
            },
            None => {
                entries.push((path, index));
            },
        }
        proof {
            let es = entries@;
            assert(paths_distinct(es)) by {
                assert forall|i: int, j: int|
                    0 <= i < es.len() && 0 <= j < es.len() && i != j implies (#[trigger] es[i]).0@
                    != (#[trigger] es[j]).0@ by {
                    if i < old_es.len() && j < old_es.len() {
                        if pos is Some && (i == pos->0 || j == pos->0) {
                            let k = pos->0 as int;
                            let o = if i == k { j } else { i };
                            assert(old_es[o].0@ != old_es[k].0@);
                        }
                    } else if i >= old_es.len() {
                        assert(es[j] == old_es[j]);
                    } else {
                        assert(es[i] == old_es[i]);
                    }
                }
            }
            let m_old = cache_map(old_es);
            let m_new = cache_map(es);
            assert forall|p: Seq<char>| m_new.contains_key(p) <==> m_old.insert(pv, iv).contains_key(p) by {
                if has_path(es, p) && p != pv {
                    let k = choose|k: int| 0 <= k < es.len() && (#[trigger] es[k]).0@ == p;
                    assert(es[k] == old_es[k]);
                }
                if has_path(old_es, p) && p != pv {
                    let k = choose|k: int| 0 <= k < old_es.len() && (#[trigger] old_es[k]).0@ == p;
                    assert(es[k] == old_es[k]);
                }
                if p == pv {
                    let k = if pos is Some { pos->0 as int } else { old_es.len() as int };
                    assert(es[k].0@ == pv);
                }
            }
            assert forall|p: Seq<char>| #[trigger] m_new.contains_key(p) implies m_new[p]
                == m_old.insert(pv, iv)[p] by {
                let k = choose|k: int| 0 <= k < es.len() && (#[trigger] es[k]).0@ == p;
                lemma_cache_map_at(es, k);
                if p != pv {
                    assert(es[k] == old_es[k]);
                    lemma_cache_map_at(old_es, k);
                }
            }
            assert(m_new =~= m_old.insert(pv, iv));
            lemma_cache_len(old_es);
            lemma_cache_len(es);
        }
        self.entries = entries;
    }

    /// Check if a file needs to be (re)indexed
    /// Returns true if file is not in cache or has been modified since caching
    pub fn needs_update(&self, path: &str, current_modified: SystemTime) -> (r: bool)
        ensures
            r == spec_needs_update(self.contents(), path@, secs_since_epoch(current_modified)),
    {
        let current_secs = unix_secs(&current_modified);
        self.needs_update_secs(path, current_secs)
    }

    /// Whether the file at `path`, last modified `current_secs` seconds after
    /// the Unix epoch, is missing from the cache or cached with another time.
    pub fn needs_update_secs(&self, path: &str, current_secs: u64) -> (r: bool)
        ensures
            r == spec_needs_update(self.contents(), path@, current_secs),
    {
        match self.get(path) {
            Some(entry) => entry.modified_secs != current_secs,
            None => true,
        }
    }

    /// The cached file paths, each once.
    pub fn paths(&self) -> (r: Vec<String>)
        ensures
            forall|p: Seq<char>|
                self.contents().contains_key(p) <==> exists|k: int|
                    0 <= k < r@.len() && (#[trigger] r@[k])@ == p,
    {
        let mut out: Vec<String> = Vec::new();
        let mut k: usize = 0;
        while k < self.entries.len()
            invariant
                k <= self.entries@.len(),
                out@.len() == k,
                forall|j: int| 0 <= j < k ==> (#[trigger] out@[j])@ == self.entries@[j].0@,
            decreases self.entries@.len() - k,
        {
            out.push(self.entries[k].0.clone());
            k = k + 1;
        }
        proof {
            assert forall|p: Seq<char>|
                self.contents().contains_key(p) <==> exists|j: int|
                    0 <= j < out@.len() && (#[trigger] out@[j])@ == p by {
                if self.contents().contains_key(p) {
                    let j = choose|j: int|
                        0 <= j < self.entries@.len() && (#[trigger] self.entries@[j]).0@ == p;
                    assert(out@[j]@ == p);
                }
                if exists|j: int| 0 <= j < out@.len() && (#[trigger] out@[j])@ == p {
                    let j = choose|j: int| 0 <= j < out@.len() && (#[trigger] out@[j])@ == p;
                    assert(has_path(self.entries@, p)) by {
                        assert(self.entries@[j].0@ == p);
                    }
                }
            }
        }
        out
    }

    /// Remove the entries of files that no longer exist (`missing`).
    pub fn prune_missing(&mut self, missing: &Vec<String>)
        ensures
            final(self).spec_version() == old(self).spec_version(),
            final(self).contents().dom().finite(),
            forall|p: Seq<char>|
                #[trigger] final(self).contents().contains_key(p) <==> (old(self).contents().contains_key(p)
                    && !is_listed(missing@, p)),
            forall|p: Seq<char>|
                #[trigger] final(self).contents().contains_key(p) ==> final(self).contents()[p]
                    == old(self).contents()[p],
    {
        proof {
            use_type_invariant(&*self);
        }
        let ghost old_es = self.entries@;
        let mut entries: Vec<(String, FileAreaIndex)> = Vec::new();
        std::mem::swap(&mut entries, &mut self.entries);
        let mut kept: Vec<(String, FileAreaIndex)> = Vec::new();
        let ghost mut idx: Seq<int> = Seq::empty();
        let mut rest = entries;
        let ghost all = rest@;
        // walk the old entries back to front, keeping the ones still present
        while rest.len() > 0
            invariant
                rest@.len() <= all.len(),
                rest@ == all.take(rest@.len() as int),
                all == old_es,
                paths_distinct(old_es),
                idx.len() == kept@.len(),
                forall|k: int|
                    0 <= k < kept@.len() ==> rest@.len() <= #[trigger] idx[k] < old_es.len()
                        && kept@[k] == old_es[idx[k]],
                forall|k1: int, k2: int|
                    0 <= k1 < k2 < kept@.len() ==> #[trigger] idx[k1] > #[trigger] idx[k2],
                forall|j: int|
                    rest@.len() <= j < old_es.len() ==> (!is_listed(missing@, (#[trigger] old_es[j]).0@)
                        <==> idx.contains(j)),
            decreases rest.len(),
        {
            let ghost before_len = rest@.len();
            let ghost before = rest@;
            let (path, index) = rest.pop().unwrap();
            assert(before[before_len - 1] == all[before_len - 1]);
            assert(rest@ =~= all.take(rest@.len() as int));
            let gone = listed(missing, path.as_str());
            let ghost old_idx = idx;
            if !gone {
                kept.push((path, index));
                proof {
                    idx = idx.push(before_len - 1);
                }
            }
            proof {
                assert forall|j: int|
                    rest@.len() <= j < old_es.len() implies (!is_listed(
                        missing@,
                        (#[trigger] old_es[j]).0@,
                    ) <==> idx.contains(j)) by {
                    if j < before_len - 1 {
                    } else if j > before_len - 1 {
                        if old_idx.contains(j) {
                            let k = choose|k: int| 0 <= k < old_idx.len() && old_idx[k] == j;
                            assert(idx[k] == j);
                        }
                        if idx.contains(j) {
                            let k = choose|k: int| 0 <= k < idx.len() && idx[k] == j;
                            assert(k < old_idx.len());
                            assert(old_idx[k] == j);
                        }
                    } else {
                        if !gone {
                            assert(idx[idx.len() - 1] == j);
                        } else {
                            if idx.contains(j) {
                                let k = choose|k: int| 0 <= k < idx.len() && idx[k] == j;
                                assert(idx[k] >= before_len);
                            }
                        }
                    }
                }
            }
        }
        proof {
            let es = kept@;
            assert(paths_distinct(es)) by {
                assert forall|a: int, b: int|
                    0 <= a < es.len() && 0 <= b < es.len() && a != b implies (#[trigger] es[a]).0@
                    != (#[trigger] es[b]).0@ by {
                    if a < b {
                        assert(idx[a] > idx[b]);
                    } else {
                        assert(idx[b] > idx[a]);
                    }
                }
            }
            assert forall|p: Seq<char>|
                #[trigger] cache_map(es).contains_key(p) <==> (cache_map(old_es).contains_key(p)
                    && !is_listed(missing@, p)) by {
                if has_path(es, p) {
                    let a = choose|a: int| 0 <= a < es.len() && (#[trigger] es[a]).0@ == p;
                    assert(old_es[idx[a]].0@ == p);
                    assert(idx.contains(idx[a]));
                }
                if has_path(old_es, p) && !is_listed(missing@, p) {
                    let j = choose|j: int| 0 <= j < old_es.len() && (#[trigger] old_es[j]).0@ == p;
                    assert(idx.contains(j));
                    let a = choose|a: int| 0 <= a < idx.len() && idx[a] == j;
                    assert(es[a].0@ == p);
                }
            }
            assert forall|p: Seq<char>| #[trigger] cache_map(es).contains_key(p) implies cache_map(
                es,
            )[p] == cache_map(old_es)[p] by {
                let a = choose|a: int| 0 <= a < es.len() && (#[trigger] es[a]).0@ == p;
                lemma_cache_map_at(es, a);
                lemma_cache_map_at(old_es, idx[a]);
            }
            lemma_cache_len(es);
        }
        self.entries = kept;
    }

    /// Get the number of cached entries
    pub fn len(&self) -> (r: usize)
        ensures
            r == self.contents().len(),
            self.contents().dom().finite(),
    {
        proof {
            use_type_invariant(self);
            lemma_cache_len(self.entries@);
        }
        self.entries.len()
    }

    pub fn is_empty(&self) -> (r: bool)
        ensures
            r == (self.contents().len() == 0),
    {
        self.len() == 0
    }

    /// The cached entries, each path once.
    pub fn entry_list(&self) -> (r: &Vec<(String, FileAreaIndex)>)
        ensures
            paths_distinct(r@),
            cache_map(r@) == self.contents(),
    {
        proof {
            use_type_invariant(self);
        }
        &self.entries
    }
}

/// With distinct paths the map has one key per entry.
proof fn lemma_cache_len(es: Seq<(String, FileAreaIndex)>)
    requires
        paths_distinct(es),
    ensures
        cache_map(es).dom().finite(),
        cache_map(es).len() == es.len(),
    decreases es.len(),
{
    if es.len() == 0 {
        assert(cache_map(es).dom() =~= Set::<Seq<char>>::empty());
    } else {
        let prev = es.drop_last();
        assert(paths_distinct(prev)) by {
            assert forall|i: int, j: int|
                0 <= i < prev.len() && 0 <= j < prev.len() && i != j implies (#[trigger] prev[i]).0@
                != (#[trigger] prev[j]).0@ by {
                assert(prev[i] == es[i]);
                assert(prev[j] == es[j]);
            }
        }
        lemma_cache_len(prev);
        let last = es.last().0@;
        assert(cache_map(es).dom() =~= cache_map(prev).dom().insert(last)) by {
            assert forall|p: Seq<char>| #[trigger] cache_map(es).dom().contains(p) <==> cache_map(
                prev,
            ).dom().insert(last).contains(p) by {
                if has_path(es, p) && p != last {
                    let k = choose|k: int| 0 <= k < es.len() && (#[trigger] es[k]).0@ == p;
                    assert(prev[k] == es[k]);
                }
                if has_path(prev, p) {
                    let k = choose|k: int| 0 <= k < prev.len() && (#[trigger] prev[k]).0@ == p;
                    assert(prev[k] == es[k]);
                }
                if p == last {
                    assert(es[es.len() - 1].0@ == p);
                }
            }
        }
        assert(!has_path(prev, last)) by {
            if has_path(prev, last) {
                let k = choose|k: int| 0 <= k < prev.len() && (#[trigger] prev[k]).0@ == last;
                assert(prev[k] == es[k]);
            }
        }
    }
}

/// The extracted areas never repeat an (area ID, difficulty ID) pair, and
/// every one of them is a known area.
pub proof fn law_extracted_areas_distinct_and_known(lines: Seq<Seq<u8>>, known: Set<i64>)
    ensures
        ({
            let es = areas_of_lines(lines, known);
            &&& forall|i: int, j: int|
                0 <= i < j < es.len() ==> !(es[i].area_id == es[j].area_id && es[i].difficulty_id
                    == es[j].difficulty_id)
            &&& forall|i: int| 0 <= i < es.len() ==> known.contains(#[trigger] es[i].area_id)
        }),
    decreases lines.len(),
{
    if lines.len() > 0 {
        law_extracted_areas_distinct_and_known(lines.drop_last(), known);
        let prev = areas_of_lines(lines.drop_last(), known);
        let es = areas_of_lines(lines, known);
        match line_area_entry(lines.last(), known) {
            Some(e) => {
                if !has_area_key(prev, e.area_id, e.difficulty_id) {
                    assert(es == prev.push(e));
                    assert forall|i: int, j: int|
                        0 <= i < j < es.len() implies !(es[i].area_id == es[j].area_id
                            && es[i].difficulty_id == es[j].difficulty_id) by {
                        if j == es.len() - 1 {
                            assert(es[i] == prev[i]);
                        }
                    }
                }
            },
            None => {},
        }
    }
}

/// Whether the file at `path`, modified at `secs`, must be (re)indexed.
pub open spec fn spec_needs_update(cache: Map<Seq<char>, FileAreaIndexView>, path: Seq<char>, secs: u64) -> bool {
    !cache.contains_key(path) || cache[path].modified_secs != secs
}

/// A freshly stored index is read back as stored, so the file does not need
/// indexing again until its modification time changes; other files are
/// unaffected; the cache grows by one entry exactly when the path was new.
pub proof fn law_cache_read_after_insert(
    cache: Map<Seq<char>, FileAreaIndexView>,
    path: Seq<char>,
    index: FileAreaIndexView,
    other: Seq<char>,
    secs: u64,
)
    requires
        other != path,
        cache.dom().finite(),
    ensures
        cache.insert(path, index).get(path) == Some(index),
        cache.insert(path, index).len() == cache.len() + if cache.contains_key(path) {
            0int
        } else {
            1int
        },
        !spec_needs_update(cache.insert(path, index), path, index.modified_secs),
        spec_needs_update(cache.insert(path, index), path, secs) == (secs != index.modified_secs),
        spec_needs_update(cache.insert(path, index), other, secs) == spec_needs_update(cache, other, secs),
{
}

} // verus!
