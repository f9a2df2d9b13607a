//! Mapping of a raw query response into ordered time-series points.
//!
//! The store answers a query as annotated CSV text.  Each row is split at
//! commas; a row yields a point exactly when it has enough columns and its
//! value column parses as an integer — malformed rows are skipped, never
//! failing the whole response.  The surviving points are re-sorted ascending
//! by their timestamp column, whatever order the store claimed.

use vstd::prelude::*;
use vstd::multiset::Multiset;
use vstd::relations::{sorted_by, total_ordering};
use vstd::seq_lib::{group_to_multiset_ensures, lemma_sorted_unique};
use vstd::string::StrSliceExecFns;
use crate::model::{LastDowntime, LastDowntimeModel, TimeSeriesPoint, TimeSeriesPointModel};

verus! {

/// Lexicographic order on character sequences, by code point; the order in
/// which points are returned (their time column is compared as text).
pub open spec fn lex_le(a: Seq<char>, b: Seq<char>) -> bool
    decreases a.len(),
{
    if a.len() == 0 {
        true
    } else if b.len() == 0 {
        false
    } else if a[0] == b[0] {
        lex_le(a.drop_first(), b.drop_first())
    } else {
        (a[0] as int) < (b[0] as int)
    }
}

/// The lexicographic order is total.
pub proof fn lemma_lex_total(a: Seq<char>, b: Seq<char>)
    ensures
        lex_le(a, b) || lex_le(b, a),
    decreases a.len(),
{
    if a.len() == 0 {
    } else if b.len() == 0 {
    } else if a[0] == b[0] {
        lemma_lex_total(a.drop_first(), b.drop_first());
    }
}

/// The lexicographic order is transitive.
pub proof fn lemma_lex_trans(a: Seq<char>, b: Seq<char>, c: Seq<char>)
    requires
        lex_le(a, b),
        lex_le(b, c),
    ensures
        lex_le(a, c),
    decreases a.len(),
{
    if a.len() > 0 && b.len() > 0 && c.len() > 0 && a[0] == b[0] && b[0] == c[0] {
        lemma_lex_trans(a.drop_first(), b.drop_first(), c.drop_first());
    }
}

/// The lexicographic order is reflexive.
pub proof fn lemma_lex_refl(a: Seq<char>)
    ensures
        lex_le(a, a),
    decreases a.len(),
{
    if a.len() > 0 {
        lemma_lex_refl(a.drop_first());
    }
}

/// The lexicographic order is antisymmetric.
pub proof fn lemma_lex_antisym(a: Seq<char>, b: Seq<char>)
    requires
        lex_le(a, b),
        lex_le(b, a),
    ensures
        a == b,
    decreases a.len(),
{
    if a.len() == 0 {
        assert(b.len() == 0);
        assert(a =~= b);
    } else {
        assert(b.len() > 0);
        assert(a[0] == b[0]);
        lemma_lex_antisym(a.drop_first(), b.drop_first());
        assert forall|i: int| 0 <= i < a.len() implies a[i] == b[i] by {
            if i > 0 {
                assert(a.drop_first()[i - 1] == a[i]);
                assert(b.drop_first()[i - 1] == b[i]);
            }
        }
        assert(a =~= b);
    }
}

/// Compares two strings in the lexicographic order.
pub fn str_lex_le(a: &str, b: &str) -> (r: bool)
    ensures
        r == lex_le(a@, b@),
{
    let na = a.unicode_len();
    let nb = b.unicode_len();
    let mut i: usize = 0;
    proof {
        assert(a@.skip(0) =~= a@);
        assert(b@.skip(0) =~= b@);
    }
    while i < na && i < nb
        invariant
            i <= na,
            i <= nb,
            na == a@.len(),
            nb == b@.len(),
            lex_le(a@, b@) == lex_le(a@.skip(i as int), b@.skip(i as int)),
        decreases na - i,
    {
        let ca = a.get_char(i);
        let cb = b.get_char(i);
        if ca != cb {
            assert(a@.skip(i as int)[0] == ca);
            assert(b@.skip(i as int)[0] == cb);
            return (ca as u32) < (cb as u32);
        }
        proof {
            assert(a@.skip(i as int).drop_first() =~= a@.skip(i as int + 1));
            assert(b@.skip(i as int).drop_first() =~= b@.skip(i as int + 1));
        }
        i = i + 1;
    }
    if i == na {
        assert(a@.skip(i as int).len() == 0);
        true
    } else {
        assert(b@.skip(i as int).len() == 0);
        assert(a@.skip(i as int).len() > 0);
        false
    }
}

/// Index of the first occurrence of `c` in `s`, or -1 when `c` does not
/// occur.
pub open spec fn find_char(s: Seq<char>, c: char) -> int
    decreases s.len(),
{
    if s.len() == 0 {
        -1
    } else if s[0] == c {
        0
    } else {
        let r = find_char(s.drop_first(), c);
        if r < 0 {
            -1
        } else {
            r + 1
        }
    }
}

proof fn lemma_find_char_at(s: Seq<char>, c: char, k: int)
    requires
        0 <= k < s.len(),
        s[k] == c,
        forall|j: int| 0 <= j < k ==> s[j] != c,
    ensures
        find_char(s, c) == k,
    decreases k,
{
    if k > 0 {
        lemma_find_char_at(s.drop_first(), c, k - 1);
    }
}

proof fn lemma_find_char_none(s: Seq<char>, c: char)
    requires
        forall|j: int| 0 <= j < s.len() ==> s[j] != c,
    ensures
        find_char(s, c) == -1,
    decreases s.len(),
{
    if s.len() > 0 {
        lemma_find_char_none(s.drop_first(), c);
    }
}

/// The fields of `s` split at every occurrence of `c`; there is always at
/// least one field.
pub open spec fn split_char(s: Seq<char>, c: char) -> Seq<Seq<char>>
    decreases s.len(),
{
    let i = find_char(s, c);
    if i < 0 || i >= s.len() {
        seq![s]
    } else {
        seq![s.take(i)] + split_char(s.skip(i + 1), c)
    }
}

/// Character-sequence views of a vector of strings.
pub open spec fn strings_model(s: Seq<String>) -> Seq<Seq<char>> {
    s.map_values(|p: String| p@)
}

/// Models of a vector of points.
pub open spec fn points_model(s: Seq<TimeSeriesPoint>) -> Seq<TimeSeriesPointModel> {
    s.map_values(|p: TimeSeriesPoint| p@)
}

/// Splits a string at every occurrence of `c`.
pub fn split_str(s: &str, c: char) -> (parts: Vec<String>)
    ensures
        strings_model(parts@) == split_char(s@, c),
{
    let n = s.unicode_len();
    let mut parts: Vec<String> = Vec::new();
    let mut start: usize = 0;
    let mut i: usize = 0;
    proof {
        assert(s@.skip(0) =~= s@);
        assert(strings_model(parts@) =~= Seq::<Seq<char>>::empty());
    }
    while i < n
        invariant
            start <= i <= n,
            n == s@.len(),
            split_char(s@, c) == strings_model(parts@) + split_char(
                s@.skip(start as int),
                c,
            ),
            forall|j: int| start <= j < i ==> s@[j] != c,
        decreases n - i,
    {
        let ch = s.get_char(i);
        if ch == c {
            let ghost prev = strings_model(parts@);
            let field = s.substring_char(start, i).to_owned();
            parts.push(field);
            proof {
                let suf = s@.skip(start as int);
                assert forall|j: int| 0 <= j < i - start implies suf[j] != c by {
                    assert(suf[j] == s@[start + j]);
                }
                assert(suf[i - start] == c);
                lemma_find_char_at(suf, c, i - start);
                assert(suf.take(i - start) =~= s@.subrange(start as int, i as int));
                assert(suf.skip(i - start + 1) =~= s@.skip(i as int + 1));
                assert(split_char(suf, c) == seq![field@] + split_char(s@.skip(i as int + 1), c));
                assert(strings_model(parts@) =~= prev.push(field@));
                assert(prev.push(field@) + split_char(s@.skip(i as int + 1), c) =~= prev + (
                seq![field@] + split_char(s@.skip(i as int + 1), c)));
            }
            start = i + 1;
        }
        i = i + 1;
    }
    let ghost prev = strings_model(parts@);
    let field = s.substring_char(start, n).to_owned();
    parts.push(field);
    proof {
        let suf = s@.skip(start as int);
        assert forall|j: int| 0 <= j < suf.len() implies suf[j] != c by {
            assert(suf[j] == s@[start + j]);
        }
        lemma_find_char_none(suf, c);
        assert(split_char(suf, c) == seq![suf]);
        assert(suf =~= s@.subrange(start as int, n as int));
        assert(strings_model(parts@) =~= prev.push(field@));
        assert(prev.push(field@) =~= prev + seq![field@]);
    }
    parts
}

proof fn lemma_split_char_nonempty(s: Seq<char>, c: char)
    ensures
        split_char(s, c).len() >= 1,
{
}

proof fn lemma_find_char_contains(s: Seq<char>, c: char, k: int)
    requires
        0 <= k < s.len(),
        s[k] == c,
    ensures
        0 <= find_char(s, c) < s.len(),
    decreases s.len(),
{
    if s[0] != c {
        lemma_find_char_contains(s.drop_first(), c, k - 1);
    }
}

/// A line as `str::lines` yields it: split at every newline, a final line
/// ending optional, a trailing carriage return stripped.
pub open spec fn strip_cr(l: Seq<char>) -> Seq<char> {
    if l.len() > 0 && l.last() == '\r' {
        l.drop_last()
    } else {
        l
    }
}

/// Carriage-return stripping, line by line.
pub open spec fn strip_all(ls: Seq<Seq<char>>) -> Seq<Seq<char>> {
    ls.map_values(|l: Seq<char>| strip_cr(l))
}

/// The lines of a response text.
pub open spec fn spec_lines(s: Seq<char>) -> Seq<Seq<char>> {
    let raw = split_char(s, '\n');
    let trimmed = if s.len() > 0 && s.last() == '\n' {
        raw.drop_last()
    } else {
        raw
    };
    strip_all(trimmed)
}

proof fn lemma_spec_lines_nonempty(s: Seq<char>)
    ensures
        spec_lines(s).len() >= 1,
{
    let raw = split_char(s, '\n');
    lemma_split_char_nonempty(s, '\n');
    if s.len() > 0 && s.last() == '\n' {
        lemma_find_char_contains(s, '\n', s.len() - 1);
        let i = find_char(s, '\n');
        lemma_split_char_nonempty(s.skip(i + 1), '\n');
    }
}

/// Splits a response into its lines, as `str::lines` does.
pub fn split_lines(s: &str) -> (lines: Vec<String>)
    ensures
        strings_model(lines@) == spec_lines(s@),
{
    let mut raw = split_str(s, '\n');
    let n = s.unicode_len();
    let ghost raw0 = strings_model(raw@);
    if n > 0 && s.get_char(n - 1) == '\n' {
        proof {
            lemma_split_char_nonempty(s@, '\n');
        }
        let _ = raw.pop();
        proof {
            assert(strings_model(raw@) =~= raw0.drop_last());
        }
    }
    let ghost trimmed = strings_model(raw@);
    let mut out: Vec<String> = Vec::new();
    let m = raw.len();
    let mut i: usize = 0;
    proof {
        assert(strings_model(out@) =~= Seq::<Seq<char>>::empty());
        assert(strip_all(trimmed.take(0)) =~= Seq::<Seq<char>>::empty());
    }
    while i < m
        invariant
            i <= m,
            m == raw@.len(),
            trimmed == strings_model(raw@),
            strings_model(out@) == strip_all(trimmed.take(i as int)),
        decreases m - i,
    {
        let line = &raw[i];
        let k = line.as_str().unicode_len();
        let ghost prev = strings_model(out@);
        if k > 0 && line.as_str().get_char(k - 1) == '\r' {
            out.push(line.as_str().substring_char(0, k - 1).to_owned());
            proof {
                assert(line@.subrange(0, k - 1) =~= strip_cr(line@));
            }
        } else {
            out.push(line.clone());
            proof {
                assert(line@ =~= strip_cr(line@));
            }
        }
        proof {
            assert(strings_model(out@) =~= prev.push(strip_cr(trimmed[i as int])));
            assert(strip_all(trimmed.take(i + 1)) =~= strip_all(trimmed.take(i as int)).push(
                strip_cr(trimmed[i as int]),
            ));
        }
        i = i + 1;
    }
    proof {
        assert(trimmed.take(m as int) =~= trimmed);
        assert(strip_all(trimmed) =~= spec_lines(s@));
    }
    out
}

/// Decimal digits.
pub open spec fn is_digit(c: char) -> bool {
    ('0' as int) <= (c as int) <= ('9' as int)
}

/// Numeric value of one digit.
pub open spec fn digit_val(c: char) -> int {
    (c as int) - ('0' as int)
}

/// Every character of `s` is a decimal digit.
pub open spec fn all_digits(s: Seq<char>) -> bool {
    forall|i: int| 0 <= i < s.len() ==> is_digit(#[trigger] s[i])
}

/// Value of a digit string, most significant digit first.
pub open spec fn digits_val(s: Seq<char>) -> int
    decreases s.len(),
{
    if s.len() == 0 {
        0
    } else {
        digits_val(s.drop_last()) * 10 + digit_val(s.last())
    }
}

proof fn lemma_digits_val_nonneg(s: Seq<char>)
    requires
        all_digits(s),
    ensures
        digits_val(s) >= 0,
    decreases s.len(),
{
    if s.len() > 0 {
        assert(all_digits(s.drop_last()));
        lemma_digits_val_nonneg(s.drop_last());
    }
}

proof fn lemma_digits_val_prefix_le(s: Seq<char>, k: int)
    requires
        all_digits(s),
        0 <= k <= s.len(),
    ensures
        digits_val(s.take(k)) <= digits_val(s),
    decreases s.len(),
{
    if k < s.len() {
        assert(all_digits(s.drop_last()));
        lemma_digits_val_nonneg(s.drop_last());
        lemma_digits_val_prefix_le(s.drop_last(), k);
        assert(s.drop_last().take(k) =~= s.take(k));
    } else {
        assert(s.take(k) =~= s);
    }
}

/// Parse of an optionally signed decimal integer from a digit segment:
/// defined exactly when the segment is non-empty, all digits, and the value
/// fits in an `i64` with the given sign.
pub open spec fn spec_parse_digits(ds: Seq<char>, neg: bool) -> Option<i64> {
    let bound: int = if neg {
        0x8000_0000_0000_0000
    } else {
        0x7fff_ffff_ffff_ffff
    };
    if ds.len() > 0 && all_digits(ds) && digits_val(ds) <= bound {
        if neg {
            Option::Some((-digits_val(ds)) as i64)
        } else {
            Option::Some(digits_val(ds) as i64)
        }
    } else {
        Option::None
    }
}

/// Parse of an optionally signed decimal integer, the grammar of the value
/// column: `-?[0-9]+`, in `i64` range.  Everything else fails to parse.
pub open spec fn spec_parse_i64(s: Seq<char>) -> Option<i64> {
    if s.len() >= 1 && s[0] == '-' {
        spec_parse_digits(s.skip(1), true)
    } else {
        spec_parse_digits(s, false)
    }
}

/// Parses an optionally signed decimal integer, failing on any other shape
/// and on values out of `i64` range.
pub fn parse_i64(s: &str) -> (r: Option<i64>)
    ensures
        r == spec_parse_i64(s@),
{
    let n = s.unicode_len();
    if n == 0 {
        return Option::None;
    }
    let neg = s.get_char(0) == '-';
    let start: usize = if neg {
        1
    } else {
        0
    };
    let ghost dseg = s@.skip(start as int);
    proof {
        if !neg {
            assert(dseg =~= s@);
        }
    }
    if start == n {
        assert(dseg.len() == 0);
        return Option::None;
    }
    let bound: u64 = if neg {
        0x8000_0000_0000_0000
    } else {
        0x7fff_ffff_ffff_ffff
    };
    let mut acc: u64 = 0;
    let mut i: usize = start;
    proof {
        assert(dseg.take(0) =~= Seq::<char>::empty());
    }
    while i < n
        invariant
            start <= i <= n,
            n == s@.len(),
            start < n,
            dseg == s@.skip(start as int),
            start == if neg { 1int } else { 0int },
            neg == (s@[0] == '-'),
            !neg ==> dseg == s@,
            bound == if neg { 0x8000_0000_0000_0000u64 } else { 0x7fff_ffff_ffff_ffffu64 },
            all_digits(dseg.take(i - start)),
            acc == digits_val(dseg.take(i - start)),
            acc <= bound,
        decreases n - i,
    {
        let ghost k = i - start;
        let c = s.get_char(i);
        assert(dseg[k] == c);
        let u = c as u32;
        if !(48 <= u && u <= 57) {
            proof {
                assert(!is_digit(c));
                assert(!all_digits(dseg));
            }
            return Option::None;
        }
        let d: u64 = (u - 48) as u64;
        assert(digit_val(c) == d as int);
        let t: u64 = (bound - d) / 10;
        proof {
            assert(dseg.take(k + 1).drop_last() =~= dseg.take(k));
            assert(dseg.take(k + 1).last() == c);
            assert(digits_val(dseg.take(k + 1)) == acc * 10 + d);
        }
        if acc > t {
            proof {
                assert(bound - d == 10 * t + ((bound - d) as int % 10));
                assert(acc * 10 + d > bound);
                if all_digits(dseg) {
                    lemma_digits_val_prefix_le(dseg, k + 1);
                    assert(digits_val(dseg) > bound);
                }
            }
            return Option::None;
        }
        proof {
            assert(10 * acc <= 10 * t);
            assert(10 * t <= bound - d);
        }
        acc = acc * 10 + d;
        i = i + 1;
    }
    proof {
        assert(dseg.take(n - start) =~= dseg);
    }
    if neg {
        if acc == 0x8000_0000_0000_0000u64 {
            Option::Some(i64::MIN)
        } else {
            Option::Some(-(acc as i64))
        }
    } else {
        Option::Some(acc as i64)
    }
}

/// The point a row yields, if any: the row must split into at least 11
/// columns and column 6 must parse as an integer; the point is then
/// (column 5, that value).  Any other row is skipped.
pub open spec fn spec_parse_row(line: Seq<char>) -> Option<TimeSeriesPointModel> {
    let fields = split_char(line, ',');
    if fields.len() >= 11 {
        match spec_parse_i64(fields[6]) {
            Option::Some(v) => Option::Some(
                TimeSeriesPointModel { time: fields[5], value: v as int },
            ),
            Option::None => Option::None,
        }
    } else {
        Option::None
    }
}

/// Maps one response row to a point, skipping it when malformed.
pub fn parse_row(line: &str) -> (r: Option<TimeSeriesPoint>)
    ensures
        r is Some <==> spec_parse_row(line@) is Some,
        r is Some ==> r->0@ == spec_parse_row(line@)->0,
{
    let fields = split_str(line, ',');
    let ghost fm = split_char(line@, ',');
    if fields.len() >= 11 {
        assert(fields@[6]@ == fm[6]);
        assert(fields@[5]@ == fm[5]);
        let f6 = &fields[6];
        match parse_i64(f6.as_str()) {
            Option::Some(v) => {
                let f5 = &fields[5];
                Option::Some(TimeSeriesPoint { time: f5.clone(), value: v })
            },
            Option::None => Option::None,
        }
    } else {
        Option::None
    }
}

/// The points of a sequence of rows, in row order, malformed rows skipped.
pub open spec fn spec_points_of_lines(ls: Seq<Seq<char>>) -> Seq<TimeSeriesPointModel>
    decreases ls.len(),
{
    if ls.len() == 0 {
        Seq::empty()
    } else {
        let rest = spec_points_of_lines(ls.drop_last());
        match spec_parse_row(ls.last()) {
            Option::Some(p) => rest.push(p),
            Option::None => rest,
        }
    }
}

/// The points of a whole response text: its lines after the header line,
/// each mapped to a point where well formed.
pub open spec fn spec_response_points(text: Seq<char>) -> Seq<TimeSeriesPointModel> {
    spec_points_of_lines(spec_lines(text).skip(1))
}

/// The order in which points are answered: ascending by time, points with
/// equal times ordered by value.  A total order, so one input text has one
/// well-defined answer list.
pub open spec fn point_le(a: TimeSeriesPointModel, b: TimeSeriesPointModel) -> bool {
    if a.time == b.time {
        a.value <= b.value
    } else {
        lex_le(a.time, b.time)
    }
}

proof fn lemma_point_le_total(a: TimeSeriesPointModel, b: TimeSeriesPointModel)
    ensures
        point_le(a, b) || point_le(b, a),
{
    if a.time != b.time {
        lemma_lex_total(a.time, b.time);
    }
}

proof fn lemma_point_le_antisym(a: TimeSeriesPointModel, b: TimeSeriesPointModel)
    requires
        point_le(a, b),
        point_le(b, a),
    ensures
        a == b,
{
    if a.time == b.time {
        assert(a.value == b.value);
    } else {
        lemma_lex_antisym(a.time, b.time);
    }
}

proof fn lemma_point_le_trans(
    a: TimeSeriesPointModel,
    b: TimeSeriesPointModel,
    c: TimeSeriesPointModel,
)
    requires
        point_le(a, b),
        point_le(b, c),
    ensures
        point_le(a, c),
{
    if a.time != b.time && b.time != c.time {
        lemma_lex_trans(a.time, b.time, c.time);
        if a.time == c.time {
            lemma_lex_antisym(a.time, b.time);
        }
    }
}

/// Decides the answer order on two points.
fn point_le_exec(a: &TimeSeriesPoint, b: &TimeSeriesPoint) -> (r: bool)
    ensures
        r == point_le(a@, b@),
{
    if a.time == b.time {
        a.value <= b.value
    } else {
        str_lex_le(a.time.as_str(), b.time.as_str())
    }
}

/// Points in the answer order.
pub open spec fn points_sorted(s: Seq<TimeSeriesPointModel>) -> bool {
    forall|i: int, j: int| 0 <= i < j < s.len() ==> #[trigger] point_le(s[i], s[j])
}

/// The one list a given collection of points is answered as: sorted in the
/// answer order.
pub open spec fn canonical_points(s: Seq<TimeSeriesPointModel>) -> Seq<TimeSeriesPointModel> {
    s.sort_by(|a: TimeSeriesPointModel, b: TimeSeriesPointModel| point_le(a, b))
}

proof fn lemma_point_le_total_ordering()
    ensures
        total_ordering(|a: TimeSeriesPointModel, b: TimeSeriesPointModel| point_le(a, b)),
{
    let leq = |a: TimeSeriesPointModel, b: TimeSeriesPointModel| point_le(a, b);
    assert forall|x: TimeSeriesPointModel| #[trigger] leq(x, x) by {
        assert(point_le(x, x));
    }
    assert forall|x: TimeSeriesPointModel, y: TimeSeriesPointModel|
        #[trigger] leq(x, y) && #[trigger] leq(y, x) implies x == y by {
        lemma_point_le_antisym(x, y);
    }
    assert forall|x: TimeSeriesPointModel, y: TimeSeriesPointModel, z: TimeSeriesPointModel|
        #[trigger] leq(x, y) && #[trigger] leq(y, z) implies leq(x, z) by {
        lemma_point_le_trans(x, y, z);
    }
    assert forall|x: TimeSeriesPointModel, y: TimeSeriesPointModel|
        #[trigger] leq(x, y) || #[trigger] leq(y, x) by {
        lemma_point_le_total(x, y);
    }
}

pub(crate) proof fn lemma_insert_to_multiset<A>(s: Seq<A>, j: int, x: A)
    requires
        0 <= j <= s.len(),
    ensures
        s.insert(j, x).to_multiset() == s.to_multiset().insert(x),
{
    broadcast use group_to_multiset_ensures;
    broadcast use vstd::multiset::group_multiset_axioms;

    let t = s.insert(j, x);
    assert(t.remove(j) =~= s);
    assert(t[j] == x);
    assert(t.contains(x));
    assert(s.to_multiset() =~= t.to_multiset().remove(x));
    assert(t.to_multiset() =~= s.to_multiset().insert(x));
}

fn insert_sorted(out: &mut Vec<TimeSeriesPoint>, x: TimeSeriesPoint)
    requires
        points_sorted(points_model(old(out)@)),
    ensures
        points_sorted(points_model(final(out)@)),
        points_model(final(out)@).to_multiset() == points_model(old(out)@).to_multiset().insert(
            x@,
        ),
{
    let ghost s0 = points_model(out@);
    let n = out.len();
    let mut idx: usize = n;
    while idx > 0 && !point_le_exec(&out[idx - 1], &x)
        invariant
            idx <= n,
            n == out@.len(),
            out@ == old(out)@,
            s0 == points_model(out@),
            forall|k: int| idx <= k < n ==> !point_le(#[trigger] s0[k], x@),
        decreases idx,
    {
        idx = idx - 1;
    }
    proof {
        assert forall|k: int| 0 <= k < idx implies point_le(#[trigger] s0[k], x@) by {
            assert(point_le(s0[idx - 1], x@));
            if k < idx - 1 {
                assert(point_le(s0[k], s0[idx - 1]));
                lemma_point_le_trans(s0[k], s0[idx - 1], x@);
            }
        }
        assert forall|k: int| idx <= k < n implies point_le(x@, #[trigger] s0[k]) by {
            lemma_point_le_total(s0[k], x@);
        }
    }
    out.insert(idx, x);
    proof {
        let m = points_model(out@);
        assert(m =~= s0.insert(idx as int, x@));
        s0.insert_ensures(idx as int, x@);
        assert forall|i: int, j: int| 0 <= i < j < m.len() implies #[trigger] point_le(
            m[i],
            m[j],
        ) by {
            if j < idx {
                assert(point_le(s0[i], s0[j]));
            } else if i < idx && j == idx {
                assert(point_le(s0[i], x@));
            } else if i < idx && j > idx {
                assert(point_le(s0[i], x@));
                assert(point_le(x@, s0[j - 1]));
                lemma_point_le_trans(s0[i], x@, s0[j - 1]);
            } else if i == idx {
                assert(point_le(x@, s0[j - 1]));
            } else {
                assert(point_le(s0[i - 1], s0[j - 1]));
            }
        }
        lemma_insert_to_multiset(s0, idx as int, x@);
    }
}

/// Re-sorts points into the answer order (whatever order the store
/// claimed): the output is exactly the canonical list of the input's
/// points — same points, one well-defined order.
pub fn sort_points(pts: Vec<TimeSeriesPoint>) -> (out: Vec<TimeSeriesPoint>)
    ensures
        points_model(out@) == canonical_points(points_model(pts@)),
        points_model(out@).to_multiset() == points_model(pts@).to_multiset(),
        points_sorted(points_model(out@)),
{
    broadcast use group_to_multiset_ensures;
    broadcast use vstd::multiset::group_multiset_axioms;

    let mut rest = pts;
    let mut out: Vec<TimeSeriesPoint> = Vec::new();
    proof {
        assert(points_model(out@) =~= Seq::<TimeSeriesPointModel>::empty());
        assert(points_model(out@).to_multiset().add(points_model(rest@).to_multiset()) =~=
            points_model(pts@).to_multiset());
    }
    while rest.len() > 0
        invariant
            points_model(out@).to_multiset().add(points_model(rest@).to_multiset())
                == points_model(pts@).to_multiset(),
            points_sorted(points_model(out@)),
        decreases rest.len(),
    {
        let ghost restm = points_model(rest@);
        let ghost outm = points_model(out@);
        let x = rest.pop().unwrap();
        proof {
            assert(points_model(rest@) =~= restm.drop_last());
            assert(restm =~= restm.drop_last().push(x@));
            restm.drop_last().to_multiset_ensures();
            assert(restm.to_multiset() =~= restm.drop_last().to_multiset().insert(x@));
        }
        insert_sorted(&mut out, x);
        proof {
            assert(points_model(out@).to_multiset().add(points_model(rest@).to_multiset()) =~=
                outm.to_multiset().add(restm.to_multiset()));
        }
    }
    proof {
        assert(points_model(rest@).to_multiset() =~= Multiset::<TimeSeriesPointModel>::empty());
        let leq = |a: TimeSeriesPointModel, b: TimeSeriesPointModel| point_le(a, b);
        let outm = points_model(out@);
        let inm = points_model(pts@);
        lemma_point_le_total_ordering();
        inm.lemma_sort_by_ensures(leq);
        assert forall|i: int, j: int| 0 <= i < j < outm.len() implies #[trigger] leq(
            outm[i],
            outm[j],
        ) by {
            assert(point_le(outm[i], outm[j]));
        }
        assert(sorted_by(outm, leq));
        assert(total_ordering(leq));
        assert(sorted_by(inm.sort_by(leq), leq));
        assert(inm.sort_by(leq).to_multiset() == inm.to_multiset());
        assert(outm.to_multiset() == inm.to_multiset());
        lemma_sorted_unique(outm, inm.sort_by(leq), leq);
        assert(points_model(out@) =~= canonical_points(points_model(pts@)));
    }
    out
}

/// Maps a raw store response into the query's answer: the points of its
/// well-formed rows — malformed rows are skipped, never failing the whole
/// response — re-sorted into the answer order.  The answer is the one
/// canonical list of the text's points: a pure function of the text.
pub fn parse_query_response(text: &str) -> (pts: Vec<TimeSeriesPoint>)
    ensures
        points_model(pts@) == canonical_points(spec_response_points(text@)),
        points_model(pts@).to_multiset() == spec_response_points(text@).to_multiset(),
        points_sorted(points_model(pts@)),
{
    let lines = split_lines(text);
    let ghost lm = strings_model(lines@);
    let nl = lines.len();
    let mut raw_pts: Vec<TimeSeriesPoint> = Vec::new();
    let mut i: usize = 1;
    proof {
        lemma_spec_lines_nonempty(text@);
        assert(lm.skip(1).take(0) =~= Seq::<Seq<char>>::empty());
        assert(points_model(raw_pts@) =~= Seq::<TimeSeriesPointModel>::empty());
    }
    while i < nl
        invariant
            1 <= i <= nl || (i == 1 && nl <= 1),
            nl == lines@.len(),
            lm == strings_model(lines@),
            lm.len() >= 1,
            points_model(raw_pts@) == spec_points_of_lines(lm.skip(1).take(i - 1)),
        decreases nl - i,
    {
        let ghost prev = points_model(raw_pts@);
        let line = &lines[i];
        assert(line@ == lm[i as int]);
        let r = parse_row(line.as_str());
        match r {
            Option::Some(p) => {
                raw_pts.push(p);
                proof {
                    assert(points_model(raw_pts@) =~= prev.push(p@));
                }
            },
            Option::None => {},
        }
        proof {
            assert(lm.skip(1).take(i as int).drop_last() =~= lm.skip(1).take(i - 1));
            assert(lm.skip(1).take(i as int).last() == lm[i as int]);
        }
        i = i + 1;
    }
    proof {
        if nl >= 1 {
            assert(lm.skip(1).take(nl - 1) =~= lm.skip(1));
        }
    }
    sort_points(raw_pts)
}

/// The single most-recent downtime among the given points: the greatest
/// point in the answer order — in particular the latest time — or nothing
/// when the response held none.  When the store's `last()` yields one row
/// per series, the overall most recent of those candidates is returned.
pub fn last_downtime_of(pts: Vec<TimeSeriesPoint>) -> (r: Option<LastDowntime>)
    ensures
        r is Some <==> pts@.len() > 0,
        r is Some ==> ({
            let p = TimeSeriesPointModel { time: r->0@.time, value: r->0@.value };
            &&& points_model(pts@).contains(p)
            &&& forall|k: int|
                0 <= k < pts@.len() ==> point_le(#[trigger] points_model(pts@)[k], p)
        }),
{
    let ghost pm = points_model(pts@);
    let n = pts.len();
    if n == 0 {
        return Option::None;
    }
    let mut best: usize = 0;
    let mut i: usize = 1;
    proof {
        lemma_point_le_total(pm[0], pm[0]);
    }
    while i < n
        invariant
            1 <= i <= n,
            n == pts@.len(),
            pm == points_model(pts@),
            best < i,
            forall|k: int| 0 <= k < i ==> point_le(#[trigger] pm[k], pm[best as int]),
        decreases n - i,
    {
        let ghost old_best = best as int;
        if point_le_exec(&pts[best], &pts[i]) {
            best = i;
            proof {
                assert forall|k: int| 0 <= k < i + 1 implies point_le(
                    #[trigger] pm[k],
                    pm[best as int],
                ) by {
                    if k < i {
                        lemma_point_le_trans(pm[k], pm[old_best], pm[i as int]);
                    } else {
                        lemma_point_le_total(pm[k], pm[k]);
                    }
                }
            }
        } else {
            proof {
                lemma_point_le_total(pm[best as int], pm[i as int]);
            }
        }
        i = i + 1;
    }
    let p = &pts[best];
    proof {
        assert(pm[best as int] == p@);
        assert(pm.contains(pm[best as int]));
    }
    Option::Some(LastDowntime { time: p.time.clone(), value: p.value })
}

} // verus!
