//! Character-level text operations used by the parsers and formatters.
//!
//! Strings are handled as sequences of `char`s; each operation here is
//! stated over `Seq<char>` so that the callers' contracts can be exact.

use vstd::prelude::*;

verus! {

broadcast use vstd::string::group_string_axioms;

/// The characters of a string slice, in order.
pub fn chars_of(s: &str) -> (r: Vec<char>)
    ensures
        r@ == s@,
{
    let mut out: Vec<char> = Vec::new();
    for c in it: s.chars()
        invariant
            out@ == it.seq().take(it.index()),
            it.seq() == s@,
    {
        out.push(c);
    }
    out
}


/// The Unicode `White_Space` property, which `char::is_whitespace` tests.
pub open spec fn is_ws(c: char) -> bool {
    let u = c as u32;
    ||| 0x09 <= u <= 0x0d
    ||| u == 0x20
    ||| u == 0x85
    ||| u == 0xa0
    ||| u == 0x1680
    ||| 0x2000 <= u <= 0x200a
    ||| u == 0x2028
    ||| u == 0x2029
    ||| u == 0x202f
    ||| u == 0x205f
    ||| u == 0x3000
}

/// Whether `c` is a whitespace character (the `White_Space` property).
pub fn is_whitespace(c: char) -> (r: bool)
    ensures
        r == is_ws(c),
{
    let u = c as u32;
    (0x09 <= u && u <= 0x0d) || u == 0x20 || u == 0x85 || u == 0xa0 || u == 0x1680 || (0x2000
        <= u && u <= 0x200a) || u == 0x2028 || u == 0x2029 || u == 0x202f || u == 0x205f || u
        == 0x3000
}

/// Builds an owned string from its characters (`String: FromIterator<&char>`).
#[verifier::external_body]
pub(crate) fn string_of(v: &[char]) -> (r: String)
    ensures
        r@ == v@,
{
    v.iter().collect()
}

/// The characters of `v` from `lo` (inclusive) to `hi` (exclusive).
pub fn slice(v: &Vec<char>, lo: usize, hi: usize) -> (r: Vec<char>)
    requires
        lo <= hi <= v.len(),
    ensures
        r@ == v@.subrange(lo as int, hi as int),
{
    let mut out: Vec<char> = Vec::new();
    let mut i = lo;
    while i < hi
        invariant
            lo <= i <= hi <= v.len(),
            out@ == v@.subrange(lo as int, i as int),
        decreases hi - i,
    {
        out.push(v[i]);
        i = i + 1;
    }
    out
}

/// `s` without its leading whitespace.
pub open spec fn trim_start(s: Seq<char>) -> Seq<char>
    decreases s.len(),
{
    if s.len() > 0 && is_ws(s[0]) {
        trim_start(s.drop_first())
    } else {
        s
    }
}

/// `s` without its trailing whitespace.
pub open spec fn trim_end(s: Seq<char>) -> Seq<char>
    decreases s.len(),
{
    if s.len() > 0 && is_ws(s.last()) {
        trim_end(s.drop_last())
    } else {
        s
    }
}

/// `s` without leading and trailing whitespace (`str::trim`).
pub open spec fn trim(s: Seq<char>) -> Seq<char> {
    trim_end(trim_start(s))
}

/// Skipping a whitespace prefix does not change `trim_start`.
pub proof fn lemma_trim_start_skip(s: Seq<char>, i: int)
    requires
        0 <= i <= s.len(),
        forall|j: int| 0 <= j < i ==> is_ws(#[trigger] s[j]),
    ensures
        trim_start(s) == trim_start(s.skip(i)),
    decreases i,
{
    if i > 0 {
        lemma_trim_start_skip(s, i - 1);
        assert(s.skip(i - 1)[0] == s[i - 1]);
        assert(s.skip(i - 1).drop_first() =~= s.skip(i));
    } else {
        assert(s.skip(0) =~= s);
    }
}

/// Dropping a whitespace suffix does not change `trim_end`.
pub proof fn lemma_trim_end_take(s: Seq<char>, i: int)
    requires
        0 <= i <= s.len(),
        forall|j: int| i <= j < s.len() ==> is_ws(#[trigger] s[j]),
    ensures
        trim_end(s) == trim_end(s.take(i)),
    decreases s.len() - i,
{
    if i < s.len() {
        lemma_trim_end_take(s, i + 1);
        assert(s.take(i + 1).last() == s[i]);
        assert(s.take(i + 1).drop_last() =~= s.take(i));
    } else {
        assert(s.take(s.len() as int) =~= s);
    }
}

/// The index of the first non-whitespace character at or after `lo`
/// (or `hi` when there is none before `hi`).
pub fn skip_ws_forward(v: &Vec<char>, lo: usize, hi: usize) -> (r: usize)
    requires
        lo <= hi <= v.len(),
    ensures
        lo <= r <= hi,
        forall|j: int| lo <= j < r ==> is_ws(#[trigger] v@[j]),
        r < hi ==> !is_ws(v@[r as int]),
{
    let mut i = lo;
    while i < hi && is_whitespace(v[i])
        invariant
            lo <= i <= hi <= v.len(),
            forall|j: int| lo <= j < i ==> is_ws(#[trigger] v@[j]),
        decreases hi - i,
    {
        i = i + 1;
    }
    i
}

/// The end of the range `lo..hi` once its trailing whitespace is dropped.
pub fn skip_ws_backward(v: &Vec<char>, lo: usize, hi: usize) -> (r: usize)
    requires
        lo <= hi <= v.len(),
    ensures
        lo <= r <= hi,
        forall|j: int| r <= j < hi ==> is_ws(#[trigger] v@[j]),
        r > lo ==> !is_ws(v@[r - 1]),
{
    let mut i = hi;
    while i > lo && is_whitespace(v[i - 1])
        invariant
            lo <= i <= hi <= v.len(),
            forall|j: int| i <= j < hi ==> is_ws(#[trigger] v@[j]),
        decreases i - lo,
    {
        i = i - 1;
    }
    i
}

/// The bounds `(a, b)` with `v[a..b] == trim(v[lo..hi])`.
pub fn trim_bounds(v: &Vec<char>, lo: usize, hi: usize) -> (r: (usize, usize))
    requires
        lo <= hi <= v.len(),
    ensures
        lo <= r.0 <= r.1 <= hi,
        v@.subrange(r.0 as int, r.1 as int) == trim(v@.subrange(lo as int, hi as int)),
{
    let a = skip_ws_forward(v, lo, hi);
    let b = skip_ws_backward(v, a, hi);
    proof {
        let s = v@.subrange(lo as int, hi as int);
        assert forall|j: int| 0 <= j < a - lo implies is_ws(#[trigger] s[j]) by {
            assert(s[j] == v@[lo + j]);
        }
        lemma_trim_start_skip(s, a - lo);
        assert(s.skip(a - lo) =~= v@.subrange(a as int, hi as int));
        let t = v@.subrange(a as int, hi as int);
        if a < hi {
            assert(t[0] == v@[a as int]);
        }
        assert(trim_start(t) == t);
        assert forall|j: int| b - a <= j < t.len() implies is_ws(#[trigger] t[j]) by {
            assert(t[j] == v@[a + j]);
        }
        lemma_trim_end_take(t, b - a);
        let u = t.take(b - a);
        assert(u =~= v@.subrange(a as int, b as int));
        if b > a {
            assert(u.last() == v@[b - 1]);
        }
        assert(trim_end(u) == u);
    }
    (a, b)
}

/// `trim(v)` as a new vector.
pub fn trimmed(v: &Vec<char>, lo: usize, hi: usize) -> (r: Vec<char>)
    requires
        lo <= hi <= v.len(),
    ensures
        r@ == trim(v@.subrange(lo as int, hi as int)),
{
    let (a, b) = trim_bounds(v, lo, hi);
    slice(v, a, b)
}

/// Length of the run of non-whitespace characters at the start of `s`.
pub open spec fn word_len(s: Seq<char>) -> nat
    decreases s.len(),
{
    if s.len() == 0 || is_ws(s[0]) {
        0
    } else {
        1 + word_len(s.drop_first())
    }
}

/// A leading word is no longer than the text.
pub proof fn lemma_word_len_bound(s: Seq<char>)
    ensures
        word_len(s) <= s.len(),
    decreases s.len(),
{
    if s.len() > 0 && !is_ws(s[0]) {
        lemma_word_len_bound(s.drop_first());
    }
}

/// `trim_start` drops a prefix, and what is left starts with a non-whitespace.
pub proof fn lemma_trim_start_props(s: Seq<char>)
    ensures
        trim_start(s).len() <= s.len(),
        trim_start(s) == s.skip(s.len() - trim_start(s).len()),
        trim_start(s).len() > 0 ==> !is_ws(trim_start(s)[0]),
        forall|j: int| 0 <= j < s.len() - trim_start(s).len() ==> is_ws(#[trigger] s[j]),
    decreases s.len(),
{
    if s.len() > 0 && is_ws(s[0]) {
        lemma_trim_start_props(s.drop_first());
        let t = trim_start(s.drop_first());
        assert(s.drop_first().skip(s.drop_first().len() - t.len()) =~= s.skip(s.len() - t.len()));
        assert forall|j: int| 0 <= j < s.len() - t.len() implies is_ws(#[trigger] s[j]) by {
            if j > 0 {
                assert(s[j] == s.drop_first()[j - 1]);
            }
        }
    } else {
        assert(s.skip(0) =~= s);
    }
}

/// The run of non-whitespace at the start of `s` ends at a whitespace or at the end.
pub proof fn lemma_word_len(s: Seq<char>, k: int)
    requires
        0 <= k <= s.len(),
        forall|j: int| 0 <= j < k ==> !is_ws(#[trigger] s[j]),
        k == s.len() || is_ws(s[k]),
    ensures
        word_len(s) == k,
    decreases k,
{
    if k > 0 {
        assert forall|j: int| 0 <= j < k - 1 implies !is_ws(#[trigger] s.drop_first()[j]) by {
            assert(s.drop_first()[j] == s[j + 1]);
        }
        if k < s.len() {
            assert(s.drop_first()[k - 1] == s[k]);
        }
        lemma_word_len(s.drop_first(), k - 1);
    }
}

/// The whitespace-separated words of `s` (`str::split_whitespace`).
pub open spec fn split_ws(s: Seq<char>) -> Seq<Seq<char>>
    decreases s.len(),
{
    let t = trim_start(s);
    if t.len() == 0 {
        seq![]
    } else {
        let w = word_len(t);
        proof {
            lemma_trim_start_props(s);
            lemma_word_len_bound(t);
        }
        if w == 0 {
            seq![]
        } else {
            seq![t.take(w as int)] + split_ws(t.skip(w as int))
        }
    }
}

/// One step of the splitting: a word between `i` and `j` after a whitespace run.
proof fn lemma_split_step(s: Seq<char>, pos: int, i: int, j: int)
    requires
        0 <= pos <= i < j <= s.len(),
        forall|k: int| pos <= k < i ==> is_ws(#[trigger] s[k]),
        forall|k: int| i <= k < j ==> !is_ws(#[trigger] s[k]),
        j == s.len() || is_ws(s[j]),
    ensures
        split_ws(s.skip(pos)) == seq![s.subrange(i, j)] + split_ws(s.skip(j)),
{
    let u = s.skip(pos);
    assert forall|k: int| 0 <= k < i - pos implies is_ws(#[trigger] u[k]) by {
        assert(u[k] == s[pos + k]);
    }
    lemma_trim_start_skip(u, i - pos);
    let t = u.skip(i - pos);
    assert(t =~= s.skip(i));
    assert(t[0] == s[i]);
    assert(trim_start(t) == t);
    assert forall|k: int| 0 <= k < j - i implies !is_ws(#[trigger] t[k]) by {
        assert(t[k] == s[i + k]);
    }
    if j < s.len() {
        assert(t[j - i] == s[j]);
    }
    lemma_word_len(t, j - i);
    assert(t.take(j - i) =~= s.subrange(i, j));
    assert(t.skip(j - i) =~= s.skip(j));
}

/// When only whitespace is left, there are no more words.
proof fn lemma_split_done(s: Seq<char>, pos: int)
    requires
        0 <= pos <= s.len(),
        forall|k: int| pos <= k < s.len() ==> is_ws(#[trigger] s[k]),
    ensures
        split_ws(s.skip(pos)) == Seq::<Seq<char>>::empty(),
{
    let u = s.skip(pos);
    assert forall|k: int| 0 <= k < u.len() implies is_ws(#[trigger] u[k]) by {
        assert(u[k] == s[pos + k]);
    }
    lemma_trim_start_skip(u, u.len() as int);
    assert(u.skip(u.len() as int) =~= Seq::<char>::empty());
    assert(trim_start(Seq::<char>::empty()) == Seq::<char>::empty());
}

/// The views of a vector of words.
pub open spec fn words_view(ws: Seq<Vec<char>>) -> Seq<Seq<char>> {
    ws.map_values(|w: Vec<char>| w@)
}

/// The whitespace-separated words of `v` (`str::split_whitespace`).
pub fn split_whitespace(v: &Vec<char>) -> (r: Vec<Vec<char>>)
    ensures
        words_view(r@) == split_ws(v@),
{
    let n = v.len();
    let mut out: Vec<Vec<char>> = Vec::new();
    let mut pos: usize = 0;
    proof {
        assert(v@.skip(0) =~= v@);
    }
    while pos < n
        invariant
            n == v.len(),
            pos <= n,
            split_ws(v@) == words_view(out@) + split_ws(v@.skip(pos as int)),
        decreases n - pos,
    {
        let i = skip_ws_forward(v, pos, n);
        if i == n {
            proof {
                lemma_split_done(v@, pos as int);
                assert(words_view(out@) + Seq::<Seq<char>>::empty() =~= words_view(out@));
                assert(v@.skip(n as int) =~= Seq::<char>::empty());
                assert(trim_start(Seq::<char>::empty()) == Seq::<char>::empty());
            }
            pos = n;
        } else {
            let mut j = i + 1;
            while j < n && !is_whitespace(v[j])
                invariant
                    i < j <= n == v.len(),
                    forall|k: int| i <= k < j ==> !is_ws(#[trigger] v@[k]),
                decreases n - j,
            {
                j = j + 1;
            }
            let w = slice(v, i, j);
            proof {
                lemma_split_step(v@, pos as int, i as int, j as int);
            }
            let ghost prev = out@;
            out.push(w);
            proof {
                assert(words_view(out@) =~= words_view(prev) + seq![v@.subrange(i as int, j as int)]);
                assert(words_view(out@) + split_ws(v@.skip(j as int)) =~= words_view(prev) + (seq![
                    v@.subrange(i as int, j as int),
                ] + split_ws(v@.skip(j as int))));
            }
            pos = j;
        }
    }
    proof {
        assert(v@.skip(n as int) =~= Seq::<char>::empty());
        assert(trim_start(Seq::<char>::empty()) == Seq::<char>::empty());
        assert(split_ws(Seq::<char>::empty()) == Seq::<Seq<char>>::empty());
        assert(words_view(out@) + Seq::<Seq<char>>::empty() =~= words_view(out@));
    }
    out
}

/// `'0'..='9'`.
pub open spec fn is_digit(c: char) -> bool {
    48 <= (c as u32) <= 57
}

/// The value of a decimal digit.
pub open spec fn digit_value(c: char) -> int {
    (c as u32) - 48
}

/// Every character of `s` is a decimal digit.
pub open spec fn all_digits(s: Seq<char>) -> bool {
    forall|i: int| 0 <= i < s.len() ==> is_digit(#[trigger] s[i])
}

/// The number that the decimal digits `s` spell.
pub open spec fn digits_value(s: Seq<char>) -> int
    decreases s.len(),
{
    if s.len() == 0 {
        0
    } else {
        10 * digits_value(s.drop_last()) + digit_value(s.last())
    }
}

/// Parsing an unsigned integer no larger than `max` (`str::parse` for unsigned
/// types): an optional `+` sign, then one or more ASCII digits.
pub open spec fn parse_unsigned(s: Seq<char>, max: int) -> Option<int> {
    if s.len() == 0 {
        None
    } else {
        let d = if s[0] == '+' {
            s.drop_first()
        } else {
            s
        };
        if d.len() == 0 || !all_digits(d) || digits_value(d) > max {
            None
        } else {
            Some(digits_value(d))
        }
    }
}

/// Parsing an `i64` (`str::parse::<i64>`): an optional `+` or `-` sign,
/// then one or more ASCII digits, with the value in range.
pub open spec fn parse_i64(s: Seq<char>) -> Option<int> {
    if s.len() > 0 && s[0] == '-' {
        let d = s.drop_first();
        if d.len() == 0 || !all_digits(d) || digits_value(d) > 0x8000_0000_0000_0000 {
            None
        } else {
            Some(-digits_value(d))
        }
    } else {
        parse_unsigned(s, 0x7fff_ffff_ffff_ffff)
    }
}

/// A value of digits grows with every digit appended.
proof fn lemma_digits_prefix_le(s: Seq<char>, k: int)
    requires
        0 <= k <= s.len(),
        all_digits(s),
    ensures
        0 <= digits_value(s.take(k)) <= digits_value(s),
    decreases s.len() - k,
{
    if k < s.len() {
        lemma_digits_prefix_le(s, k + 1);
        assert(s.take(k + 1).drop_last() =~= s.take(k));
        assert(s.take(k + 1).last() == s[k]);
        assert(is_digit(s[k]));
        lemma_digits_nonneg(s.take(k));
    } else {
        assert(s.take(k) =~= s);
        lemma_digits_nonneg(s);
    }
}

proof fn lemma_digits_nonneg(s: Seq<char>)
    requires
        all_digits(s),
    ensures
        digits_value(s) >= 0,
    decreases s.len(),
{
    if s.len() > 0 {
        assert(all_digits(s.drop_last())) by {
            assert forall|i: int| 0 <= i < s.drop_last().len() implies is_digit(
                #[trigger] s.drop_last()[i],
            ) by {
                assert(s.drop_last()[i] == s[i]);
            }
        }
        lemma_digits_nonneg(s.drop_last());
        assert(is_digit(s[s.len() - 1]));
    }
}

/// The value of the digits `v[lo..hi]`, or `None` when one is not a digit,
/// the range is empty, or the value exceeds `max`.
fn digits_in_range(v: &Vec<char>, lo: usize, hi: usize, max: u64) -> (r: Option<u64>)
    requires
        lo <= hi <= v.len(),
    ensures
        ({
            let d = v@.subrange(lo as int, hi as int);
            match r {
                Some(x) => d.len() > 0 && all_digits(d) && digits_value(d) <= max && x
                    == digits_value(d),
                None => d.len() == 0 || !all_digits(d) || digits_value(d) > max,
            }
        }),
{
    let ghost d = v@.subrange(lo as int, hi as int);
    if lo == hi {
        return None;
    }
    let mut k = lo;
    while k < hi
        invariant
            lo <= k <= hi <= v.len(),
            d == v@.subrange(lo as int, hi as int),
            forall|j: int| lo <= j < k ==> is_digit(#[trigger] v@[j]),
        decreases hi - k,
    {
        let u = v[k] as u32;
        if u < 48 || u > 57 {
            assert(d[k - lo] == v@[k as int]);
            return None;
        }
        k = k + 1;
    }
    assert(all_digits(d)) by {
        assert forall|i: int| 0 <= i < d.len() implies is_digit(#[trigger] d[i]) by {
            assert(d[i] == v@[lo + i]);
        }
    }
    let mut acc: u128 = 0;
    let mut i = lo;
    while i < hi
        invariant
            lo <= i <= hi <= v.len(),
            d == v@.subrange(lo as int, hi as int),
            all_digits(d),
            acc == digits_value(d.take(i - lo)),
            acc <= max,
        decreases hi - i,
    {
        let c = v[i];
        assert(d[i - lo] == c);
        assert(is_digit(c));
        let dv = (c as u32 - 48) as u128;
        assert(d.take(i - lo + 1).drop_last() =~= d.take(i - lo));
        assert(d.take(i - lo + 1).last() == c);
        acc = acc * 10 + dv;
        if acc > max as u128 {
            proof {
                lemma_digits_prefix_le(d, i - lo + 1);
            }
            return None;
        }
        i = i + 1;
    }
    assert(d.take(hi - lo) =~= d);
    Some(acc as u64)
}

/// Parses `v[lo..hi]` as an unsigned integer no larger than `max`.
pub fn parse_unsigned_range(v: &Vec<char>, lo: usize, hi: usize, max: u64) -> (r: Option<u64>)
    requires
        lo <= hi <= v.len(),
    ensures
        r matches Some(x) ==> parse_unsigned(v@.subrange(lo as int, hi as int), max as int)
            == Some(x as int),
        r is None ==> parse_unsigned(v@.subrange(lo as int, hi as int), max as int) is None,
{
    let ghost s = v@.subrange(lo as int, hi as int);
    if lo == hi {
        return None;
    }
    assert(s[0] == v@[lo as int]);
    if v[lo] == '+' {
        assert(s.drop_first() =~= v@.subrange(lo + 1, hi as int));
        digits_in_range(v, lo + 1, hi, max)
    } else {
        digits_in_range(v, lo, hi, max)
    }
}

/// Parses `v[lo..hi]` as an `i64` (`str::parse::<i64>`).
pub fn parse_i64_range(v: &Vec<char>, lo: usize, hi: usize) -> (r: Option<i64>)
    requires
        lo <= hi <= v.len(),
    ensures
        r matches Some(x) ==> parse_i64(v@.subrange(lo as int, hi as int)) == Some(x as int),
        r is None ==> parse_i64(v@.subrange(lo as int, hi as int)) is None,
{
    let ghost s = v@.subrange(lo as int, hi as int);
    if lo < hi && v[lo] == '-' {
        assert(s[0] == v@[lo as int]);
        assert(s.drop_first() =~= v@.subrange(lo + 1, hi as int));
        match digits_in_range(v, lo + 1, hi, 0x8000_0000_0000_0000) {
            Some(m) => {
                if m == 0x8000_0000_0000_0000 {
                    Some(i64::MIN)
                } else {
                    Some(-(m as i64))
                }
            },
            None => None,
        }
    } else {
        if lo < hi {
            assert(s[0] == v@[lo as int]);
        }
        match parse_unsigned_range(v, lo, hi, 0x7fff_ffff_ffff_ffff) {
            Some(m) => Some(m as i64),
            None => None,
        }
    }
}

/// The first index `i >= from` with `s[i] == c`.
pub open spec fn find_from(s: Seq<char>, c: char, from: int) -> Option<int>
    decreases s.len() - from,
{
    if from < 0 || from >= s.len() {
        None
    } else if s[from] == c {
        Some(from)
    } else {
        find_from(s, c, from + 1)
    }
}

/// The last index `i < before` with `s[i] == c`.
pub open spec fn rfind_before(s: Seq<char>, c: char, before: int) -> Option<int>
    decreases before,
{
    if before <= 0 || before > s.len() {
        None
    } else if s[before - 1] == c {
        Some(before - 1)
    } else {
        rfind_before(s, c, before - 1)
    }
}

/// `find_from` is the first matching index.
pub proof fn lemma_find_from(s: Seq<char>, c: char, from: int, r: Option<int>)
    requires
        0 <= from <= s.len(),
        match r {
            Some(i) => from <= i < s.len() && s[i] == c && forall|j: int|
                from <= j < i ==> s[j] != c,
            None => forall|j: int| from <= j < s.len() ==> s[j] != c,
        },
    ensures
        find_from(s, c, from) == r,
    decreases s.len() - from,
{
    if from < s.len() {
        if s[from] != c {
            lemma_find_from(s, c, from + 1, r);
        }
    }
}

/// The first index at or after `from` holding `c`.
pub fn find_char(v: &Vec<char>, c: char, from: usize) -> (r: Option<usize>)
    requires
        from <= v.len(),
    ensures
        r matches Some(i) ==> find_from(v@, c, from as int) == Some(i as int),
        r is None ==> find_from(v@, c, from as int) is None,
        r matches Some(i) ==> from <= i < v.len() && v@[i as int] == c,
{
    let mut i = from;
    while i < v.len()
        invariant
            from <= i <= v.len(),
            forall|j: int| from <= j < i ==> v@[j] != c,
        decreases v.len() - i,
    {
        if v[i] == c {
            proof {
                lemma_find_from(v@, c, from as int, Some(i as int));
            }
            return Some(i);
        }
        i = i + 1;
    }
    proof {
        lemma_find_from(v@, c, from as int, None);
    }
    None
}

/// `rfind_before` is the last matching index.
pub proof fn lemma_rfind_before(s: Seq<char>, c: char, before: int, r: Option<int>)
    requires
        0 <= before <= s.len(),
        match r {
            Some(i) => 0 <= i < before && s[i] == c && forall|j: int| i < j < before ==> s[j] != c,
            None => forall|j: int| 0 <= j < before ==> s[j] != c,
        },
    ensures
        rfind_before(s, c, before) == r,
    decreases before,
{
    if before > 0 {
        if s[before - 1] != c {
            lemma_rfind_before(s, c, before - 1, r);
        }
    }
}

/// The last index before `before` holding `c`.
pub fn rfind_char(v: &Vec<char>, c: char, before: usize) -> (r: Option<usize>)
    requires
        before <= v.len(),
    ensures
        r matches Some(i) ==> rfind_before(v@, c, before as int) == Some(i as int),
        r is None ==> rfind_before(v@, c, before as int) is None,
        r matches Some(i) ==> i < before && v@[i as int] == c,
{
    let mut i = before;
    while i > 0
        invariant
            i <= before <= v.len(),
            forall|j: int| i <= j < before ==> v@[j] != c,
        decreases i,
    {
        if v[i - 1] == c {
            proof {
                lemma_rfind_before(v@, c, before as int, Some(i - 1));
            }
            return Some(i - 1);
        }
        i = i - 1;
    }
    proof {
        lemma_rfind_before(v@, c, before as int, None);
    }
    None
}

/// `pat` occurs in `s` at index `i`.
pub open spec fn occurs_at<T>(s: Seq<T>, pat: Seq<T>, i: int) -> bool {
    0 <= i && i + pat.len() <= s.len() && s.subrange(i, i + pat.len()) == pat
}

/// The first index at or after `from` where `pat` occurs in `s`.
pub open spec fn find_sub<T>(s: Seq<T>, pat: Seq<T>, from: int) -> Option<int>
    decreases s.len() + 1 - from,
{
    if from < 0 || from + pat.len() > s.len() {
        None
    } else if occurs_at(s, pat, from) {
        Some(from)
    } else {
        find_sub(s, pat, from + 1)
    }
}

/// `find_sub` is the first occurrence.
pub proof fn lemma_find_sub<T>(s: Seq<T>, pat: Seq<T>, from: int, r: Option<int>)
    requires
        0 <= from,
        match r {
            Some(i) => from <= i && occurs_at(s, pat, i) && forall|j: int|
                from <= j < i ==> !occurs_at(s, pat, j),
            None => forall|j: int| from <= j ==> !occurs_at(s, pat, j),
        },
    ensures
        find_sub(s, pat, from) == r,
    decreases s.len() + 1 - from,
{
    if from + pat.len() <= s.len() {
        if !occurs_at(s, pat, from) {
            lemma_find_sub(s, pat, from + 1, r);
        }
    } else {
        if let Some(i) = r {
            assert(false);
        }
    }
}

/// Whether `pat` occurs in `v` at `i`.
fn chars_occur_at(v: &Vec<char>, pat: &Vec<char>, i: usize) -> (r: bool)
    requires
        i + pat.len() <= v.len(),
    ensures
        r == occurs_at(v@, pat@, i as int),
{
    let mut k: usize = 0;
    while k < pat.len()
        invariant
            i + pat.len() <= v.len(),
            k <= pat.len(),
            forall|j: int| 0 <= j < k ==> v@[i + j] == pat@[j],
        decreases pat.len() - k,
    {
        if v[i + k] != pat[k] {
            assert(v@.subrange(i as int, i + pat.len())[k as int] == v@[i + k]);
            return false;
        }
        k = k + 1;
    }
    assert(v@.subrange(i as int, i + pat.len()) =~= pat@);
    true
}

/// The first occurrence of `pat` in `v` (`str::find` with a string pattern).
pub fn find_chars(v: &Vec<char>, pat: &Vec<char>) -> (r: Option<usize>)
    ensures
        r matches Some(i) ==> find_sub(v@, pat@, 0) == Some(i as int),
        r is None ==> find_sub(v@, pat@, 0) is None,
        r matches Some(i) ==> i + pat.len() <= v.len(),
{
    if pat.len() > v.len() {
        proof {
            lemma_find_sub(v@, pat@, 0, None);
        }
        return None;
    }
    let last = v.len() - pat.len();
    let mut i: usize = 0;
    while i < last
        invariant
            last + pat.len() == v.len(),
            i <= last,
            forall|j: int| 0 <= j < i ==> !occurs_at(v@, pat@, j),
        decreases last - i,
    {
        if chars_occur_at(v, pat, i) {
            proof {
                lemma_find_sub(v@, pat@, 0, Some(i as int));
            }
            return Some(i);
        }
        i = i + 1;
    }
    if chars_occur_at(v, pat, i) {
        proof {
            lemma_find_sub(v@, pat@, 0, Some(i as int));
        }
        return Some(i);
    }
    assert forall|j: int| 0 <= j implies !occurs_at(v@, pat@, j) by {
        if j > last {
            assert(j + pat@.len() > v@.len());
        }
    }
    proof {
        lemma_find_sub(v@, pat@, 0, None);
    }
    None
}

/// Whether `pat` occurs in the bytes `v` at `i`.
fn bytes_occur_at(v: &Vec<u8>, pat: &[u8], i: usize) -> (r: bool)
    requires
        i + pat@.len() <= v.len(),
    ensures
        r == occurs_at(v@, pat@, i as int),
{
    let mut k: usize = 0;
    while k < pat.len()
        invariant
            i + pat@.len() <= v.len(),
            k <= pat@.len(),
            forall|j: int| 0 <= j < k ==> v@[i + j] == pat@[j],
        decreases pat@.len() - k,
    {
        if v[i + k] != pat[k] {
            assert(v@.subrange(i as int, i + pat@.len())[k as int] == v@[i + k]);
            return false;
        }
        k = k + 1;
    }
    assert(v@.subrange(i as int, i + pat@.len()) =~= pat@);
    true
}

/// Whether the bytes `pat` occur anywhere in `v`
/// (`v.windows(pat.len()).any(|w| w == pat)`).
pub fn contains_bytes(v: &Vec<u8>, pat: &[u8]) -> (r: bool)
    ensures
        r == find_sub(v@, pat@, 0).is_some(),
{
    if pat.len() > v.len() {
        proof {
            lemma_find_sub(v@, pat@, 0, None);
        }
        return false;
    }
    let last = v.len() - pat.len();
    let mut i: usize = 0;
    while i < last
        invariant
            last + pat@.len() == v.len(),
            i <= last,
            forall|j: int| 0 <= j < i ==> !occurs_at(v@, pat@, j),
        decreases last - i,
    {
        if bytes_occur_at(v, pat, i) {
            proof {
                lemma_find_sub(v@, pat@, 0, Some(i as int));
            }
            return true;
        }
        i = i + 1;
    }
    if bytes_occur_at(v, pat, i) {
        proof {
            lemma_find_sub(v@, pat@, 0, Some(i as int));
        }
        return true;
    }
    assert forall|j: int| 0 <= j implies !occurs_at(v@, pat@, j) by {
        if j > last {
            assert(j + pat@.len() > v@.len());
        }
    }
    proof {
        lemma_find_sub(v@, pat@, 0, None);
    }
    false
}

/// ASCII lowercase of a character (`char::to_ascii_lowercase`).
pub open spec fn ascii_lower(c: char) -> char {
    if 65 <= (c as u32) <= 90 {
        ((c as u32) + 32) as char
    } else {
        c
    }
}

/// ASCII lowercase of every character (`str::to_ascii_lowercase`).
pub open spec fn ascii_lower_seq(s: Seq<char>) -> Seq<char> {
    s.map_values(|c: char| ascii_lower(c))
}

/// ASCII case-insensitive equality (`str::eq_ignore_ascii_case`).
pub open spec fn eq_ignore_ascii_case(a: Seq<char>, b: Seq<char>) -> bool {
    ascii_lower_seq(a) == ascii_lower_seq(b)
}

/// ASCII lowercase of a character.
pub fn to_ascii_lower(c: char) -> (r: char)
    ensures
        r == ascii_lower(c),
{
    if 'A' <= c && c <= 'Z' {
        let u = (c as u8) + 32;
        u as char
    } else {
        c
    }
}

/// ASCII lowercase of every character of `v`.
pub fn to_ascii_lowercase(v: &Vec<char>) -> (r: Vec<char>)
    ensures
        r@ == ascii_lower_seq(v@),
{
    let mut out: Vec<char> = Vec::new();
    let mut i: usize = 0;
    while i < v.len()
        invariant
            i <= v.len(),
            out@ == ascii_lower_seq(v@.take(i as int)),
        decreases v.len() - i,
    {
        out.push(to_ascii_lower(v[i]));
        assert(ascii_lower_seq(v@.take(i + 1)) =~= ascii_lower_seq(v@.take(i as int)).push(
            ascii_lower(v@[i as int]),
        ));
        i = i + 1;
    }
    assert(v@.take(v.len() as int) =~= v@);
    out
}

/// Whether `a` and `b` are equal ignoring ASCII case.
pub fn chars_eq_ignore_ascii_case(a: &Vec<char>, b: &Vec<char>) -> (r: bool)
    ensures
        r == eq_ignore_ascii_case(a@, b@),
{
    if a.len() != b.len() {
        assert(ascii_lower_seq(a@).len() != ascii_lower_seq(b@).len());
        return false;
    }
    let mut i: usize = 0;
    while i < a.len()
        invariant
            a.len() == b.len(),
            i <= a.len(),
            forall|j: int| 0 <= j < i ==> ascii_lower(a@[j]) == ascii_lower(b@[j]),
        decreases a.len() - i,
    {
        if to_ascii_lower(a[i]) != to_ascii_lower(b[i]) {
            assert(ascii_lower_seq(a@)[i as int] != ascii_lower_seq(b@)[i as int]);
            return false;
        }
        i = i + 1;
    }
    assert(ascii_lower_seq(a@) =~= ascii_lower_seq(b@));
    true
}

/// Whether two character vectors are equal.
pub fn chars_eq(a: &Vec<char>, b: &Vec<char>) -> (r: bool)
    ensures
        r == (a@ == b@),
{
    if a.len() != b.len() {
        return false;
    }
    let mut i: usize = 0;
    while i < a.len()
        invariant
            a.len() == b.len(),
            i <= a.len(),
            forall|j: int| 0 <= j < i ==> a@[j] == b@[j],
        decreases a.len() - i,
    {
        if a[i] != b[i] {
            return false;
        }
        i = i + 1;
    }
    assert(a@ =~= b@);
    true
}

/// The words joined with `sep` between them (`[&str]::join`).
pub open spec fn join_with(ws: Seq<Seq<char>>, sep: Seq<char>) -> Seq<char>
    decreases ws.len(),
{
    if ws.len() == 0 {
        seq![]
    } else if ws.len() == 1 {
        ws[0]
    } else {
        join_with(ws.drop_last(), sep) + sep + ws.last()
    }
}

/// The words `ws[from..]` joined with `sep`.
pub fn join_from(ws: &Vec<Vec<char>>, from: usize, sep: &Vec<char>) -> (r: Vec<char>)
    requires
        from <= ws.len(),
    ensures
        r@ == join_with(words_view(ws@).skip(from as int), sep@),
{
    let mut out: Vec<char> = Vec::new();
    let mut i = from;
    let ghost all = words_view(ws@).skip(from as int);
    while i < ws.len()
        invariant
            from <= i <= ws.len(),
            all == words_view(ws@).skip(from as int),
            out@ == join_with(all.take(i - from), sep@),
        decreases ws.len() - i,
    {
        let ghost before = out@;
        if i > from {
            let mut k: usize = 0;
            while k < sep.len()
                invariant
                    k <= sep.len(),
                    out@ == before + sep@.take(k as int),
                decreases sep.len() - k,
            {
                out.push(sep[k]);
                assert(sep@.take(k + 1) =~= sep@.take(k as int).push(sep@[k as int]));
                k = k + 1;
            }
            assert(sep@.take(sep.len() as int) =~= sep@);
        }
        let ghost mid = out@;
        let w = &ws[i];
        let mut k: usize = 0;
        while k < w.len()
            invariant
                k <= w.len(),
                out@ == mid + w@.take(k as int),
            decreases w.len() - k,
        {
            out.push(w[k]);
            assert(w@.take(k + 1) =~= w@.take(k as int).push(w@[k as int]));
            k = k + 1;
        }
        assert(w@.take(w.len() as int) =~= w@);
        proof {
            let t = all.take(i + 1 - from);
            assert(t.drop_last() =~= all.take(i - from));
            assert(t.last() == w@);
            if i == from {
                assert(t.len() == 1);
                assert(before =~= Seq::<char>::empty());
                assert(out@ =~= w@);
            } else {
                assert(out@ =~= before + sep@ + w@);
            }
        }
        i = i + 1;
    }
    assert(all.take(ws.len() - from) =~= all);
    out
}

/// What `str::to_lowercase` returns for a text: the full Unicode lowercase
/// mapping, which can change the number of characters.
pub uninterp spec fn unicode_lowercase(s: Seq<char>) -> Seq<char>;

/// Lowercases the text with `str::to_lowercase`.
#[verifier::external_body]
pub(crate) fn to_lowercase(v: &[char]) -> (r: Vec<char>)
    ensures
        r@ == unicode_lowercase(v@),
{
    let s: String = v.iter().collect();
    s.to_lowercase().chars().collect()
}

/// Appends the characters of `s` to `out`.
pub fn extend_chars(out: &mut Vec<char>, s: &Vec<char>)
    ensures
        final(out)@ == old(out)@ + s@,
{
    let ghost start = out@;
    let mut k: usize = 0;
    while k < s.len()
        invariant
            k <= s.len(),
            out@ == start + s@.take(k as int),
        decreases s.len() - k,
    {
        out.push(s[k]);
        assert(s@.take(k + 1) =~= s@.take(k as int).push(s@[k as int]));
        k = k + 1;
    }
    assert(s@.take(s.len() as int) =~= s@);
}

/// Appends the characters of `s` to `out`.
pub fn extend_str(out: &mut Vec<char>, s: &str)
    ensures
        final(out)@ == old(out)@ + s@,
{
    let v = chars_of(s);
    extend_chars(out, &v);
}

/// `find_sub` finds an occurrence at or after where it starts.
pub proof fn lemma_find_sub_bounds<T>(s: Seq<T>, pat: Seq<T>, from: int)
    ensures
        find_sub(s, pat, from) matches Some(i) ==> from <= i && occurs_at(s, pat, i),
    decreases s.len() + 1 - from,
{
    if from >= 0 && from + pat.len() <= s.len() && !occurs_at(s, pat, from) {
        lemma_find_sub_bounds(s, pat, from + 1);
    }
}

/// `s[from..]` with every occurrence of the non-empty `pat` replaced by
/// `rep`, scanning left to right without overlaps.
pub open spec fn replace_from(s: Seq<char>, pat: Seq<char>, rep: Seq<char>, from: int) -> Seq<char>
    decreases s.len() - from,
{
    if pat.len() == 0 || from < 0 || from > s.len() {
        s.skip(from)
    } else {
        match find_sub(s, pat, from) {
            None => s.skip(from),
            Some(i) => {
                proof {
                    lemma_find_sub_bounds(s, pat, from);
                }
                s.subrange(from, i) + rep + replace_from(s, pat, rep, i + pat.len())
            },
        }
    }
}

/// `str::replace` for a non-empty pattern.
pub open spec fn replace_all(s: Seq<char>, pat: Seq<char>, rep: Seq<char>) -> Seq<char> {
    replace_from(s, pat, rep, 0)
}

/// The first occurrence of `pat` in `v` at or after `from`.
pub fn find_chars_from(v: &Vec<char>, pat: &Vec<char>, from: usize) -> (r: Option<usize>)
    requires
        from <= v.len(),
    ensures
        r matches Some(i) ==> find_sub(v@, pat@, from as int) == Some(i as int),
        r is None ==> find_sub(v@, pat@, from as int) is None,
        r matches Some(i) ==> from <= i && i + pat.len() <= v.len(),
{
    if pat.len() > v.len() - from {
        proof {
            lemma_find_sub(v@, pat@, from as int, None);
        }
        return None;
    }
    let last = v.len() - pat.len();
    let mut i: usize = from;
    while i < last
        invariant
            last + pat.len() == v.len(),
            from <= i <= last,
            forall|j: int| from <= j < i ==> !occurs_at(v@, pat@, j),
        decreases last - i,
    {
        if chars_occur_at(v, pat, i) {
            proof {
                lemma_find_sub(v@, pat@, from as int, Some(i as int));
            }
            return Some(i);
        }
        i = i + 1;
    }
    if chars_occur_at(v, pat, i) {
        proof {
            lemma_find_sub(v@, pat@, from as int, Some(i as int));
        }
        return Some(i);
    }
    assert forall|j: int| from <= j implies !occurs_at(v@, pat@, j) by {
        if j > last {
            assert(j + pat@.len() > v@.len());
        }
    }
    proof {
        lemma_find_sub(v@, pat@, from as int, None);
    }
    None
}

/// Every occurrence of the non-empty `pat` in `v` replaced by `rep`
/// (`str::replace`).
pub fn replace_chars(v: &Vec<char>, pat: &Vec<char>, rep: &Vec<char>) -> (r: Vec<char>)
    requires
        pat.len() > 0,
    ensures
        r@ == replace_all(v@, pat@, rep@),
{
    let mut out: Vec<char> = Vec::new();
    let mut pos: usize = 0;
    assert(v@.skip(0) =~= v@);
    loop
        invariant
            pos <= v.len(),
            pat.len() > 0,
            replace_all(v@, pat@, rep@) == out@ + replace_from(v@, pat@, rep@, pos as int),
        decreases v.len() - pos,
    {
        match find_chars_from(v, pat, pos) {
            None => {
                let tail = slice(v, pos, v.len());
                let ghost before = out@;
                extend_chars(&mut out, &tail);
                assert(v@.skip(pos as int) =~= v@.subrange(pos as int, v@.len() as int));
                return out;
            },
            Some(i) => {
                let piece = slice(v, pos, i);
                let ghost before = out@;
                extend_chars(&mut out, &piece);
                extend_chars(&mut out, rep);
                assert(before + (v@.subrange(pos as int, i as int) + rep@ + replace_from(
                    v@,
                    pat@,
                    rep@,
                    i + pat@.len(),
                )) =~= out@ + replace_from(v@, pat@, rep@, i + pat@.len()));
                pos = i + pat.len();
            },
        }
    }
}

} // verus!
