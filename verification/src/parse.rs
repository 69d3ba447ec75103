//! Track-file parsing.
//!
//! A track file is plain text: its first non-blank line is a decimal count,
//! and every following line holds exactly three real numbers separated by
//! single spaces. Real numbers are read into fixed-point milli-units: the
//! integer part may carry at most [`MAX_INT_DIGITS`] digits, and fraction
//! digits beyond the third are truncated. The count is validated but treated
//! as informational; it is not checked against the number of coordinate
//! lines. Any malformed line aborts the whole file with a [`TrackError`]
//! naming the 1-based line number and the line's content.

use vstd::prelude::*;
use crate::TrackPoint;

verus! {

/// ASCII plus sign.
pub const BYTE_PLUS: u8 = 43;
/// ASCII minus sign.
pub const BYTE_MINUS: u8 = 45;
/// ASCII decimal point.
pub const BYTE_DOT: u8 = 46;
/// ASCII space, the field separator.
pub const BYTE_SPACE: u8 = 32;
/// ASCII zero digit.
pub const BYTE_ZERO: u8 = 48;

/// Most digits accepted in the integer part of a real number; keeps every
/// parsed coordinate well inside the `i64` fixed-point range.
pub const MAX_INT_DIGITS: usize = 15;

/// Largest magnitude a parsed coordinate can take in milli-units:
/// `(10^15 - 1) * 1000 + 999`.
pub const COORD_LIMIT: i64 = 999_999_999_999_999_999;

/// Why a track file failed to load.
#[derive(Clone, PartialEq, Eq, Debug)]
pub enum TrackError {
    /// The file could not be opened or read. Raised by the host application,
    /// which alone touches the filesystem; parsing never produces it.
    IoError,
    /// A line failed to parse: `line` is its 1-based number in the file and
    /// `content` is the offending line. When the file has no count line at
    /// all, `line` points one past the last line and `content` is empty.
    FormatError { line: usize, content: Vec<u8> },
}

/// True for ASCII decimal digits.
pub open spec fn is_digit(b: u8) -> bool {
    BYTE_ZERO <= b && b <= 57
}

/// Numeric value of an ASCII digit.
pub open spec fn digit_val(b: u8) -> int {
    b - BYTE_ZERO
}

/// Every byte of `s` is an ASCII digit.
pub open spec fn digits_only(s: Seq<u8>) -> bool {
    forall|i: int| 0 <= i < s.len() ==> is_digit(s[i])
}

/// Value of a digit string read in base 10.
pub open spec fn digits_val(s: Seq<u8>) -> int
    decreases s.len(),
{
    if s.len() == 0 {
        0
    } else {
        digits_val(s.drop_last()) * 10 + digit_val(s.last())
    }
}

/// The field starts with an explicit sign byte.
pub open spec fn has_sign(s: Seq<u8>) -> bool {
    s.len() > 0 && (s[0] == BYTE_PLUS || s[0] == BYTE_MINUS)
}

/// The field with any sign byte removed.
pub open spec fn body_of(s: Seq<u8>) -> Seq<u8> {
    if has_sign(s) {
        s.drop_first()
    } else {
        s
    }
}

/// `-1` for an explicit minus sign, `1` otherwise.
pub open spec fn sign_of(s: Seq<u8>) -> int {
    if s.len() > 0 && s[0] == BYTE_MINUS {
        -1
    } else {
        1
    }
}

/// Some byte of `t` is a decimal point.
pub open spec fn has_dot(t: Seq<u8>) -> bool {
    exists|i: int| 0 <= i < t.len() && t[i] == BYTE_DOT
}

/// Index of the first decimal point of `t`; `t.len()` when there is none.
pub open spec fn dot_pos(t: Seq<u8>) -> int
    decreases t.len(),
{
    if t.len() == 0 {
        0
    } else if t[0] == BYTE_DOT {
        0
    } else {
        1 + dot_pos(t.drop_first())
    }
}

/// Digits before the first decimal point of an unsigned body.
pub open spec fn int_digits(t: Seq<u8>) -> Seq<u8> {
    if has_dot(t) {
        t.take(dot_pos(t))
    } else {
        t
    }
}

/// Digits after the first decimal point of an unsigned body.
pub open spec fn frac_digits(t: Seq<u8>) -> Seq<u8> {
    if has_dot(t) {
        t.skip(dot_pos(t) + 1)
    } else {
        Seq::empty()
    }
}

/// An unsigned body is well formed: digits with at most one decimal point,
/// and at least one digit somewhere.
pub open spec fn real_body_ok(t: Seq<u8>) -> bool {
    &&& digits_only(int_digits(t))
    &&& digits_only(frac_digits(t))
    &&& int_digits(t).len() + frac_digits(t).len() >= 1
}

/// The whole field is a well-formed real number.
pub open spec fn is_real(s: Seq<u8>) -> bool {
    real_body_ok(body_of(s))
}

/// The integer part is short enough for the fixed-point range.
pub open spec fn real_in_range(s: Seq<u8>) -> bool {
    int_digits(body_of(s)).len() <= MAX_INT_DIGITS
}

/// Digit `i` of a fraction string, or zero past its end.
pub open spec fn fdig(f: Seq<u8>, i: int) -> int {
    if 0 <= i < f.len() {
        digit_val(f[i])
    } else {
        0
    }
}

/// Milli-unit value of a fraction string: its first three digits, padded
/// with zeros; later digits are truncated away.
pub open spec fn frac_milli(f: Seq<u8>) -> int {
    100 * fdig(f, 0) + 10 * fdig(f, 1) + fdig(f, 2)
}

/// Fixed-point milli-unit value of a well-formed real-number field.
pub open spec fn real_val(s: Seq<u8>) -> int {
    sign_of(s) * (digits_val(int_digits(body_of(s))) * 1000 + frac_milli(frac_digits(body_of(s))))
}

/// Powers of ten, for digit-count bounds.
pub open spec fn pow10(n: nat) -> int
    decreases n,
{
    if n == 0 {
        1
    } else {
        10 * pow10((n - 1) as nat)
    }
}

proof fn lemma_pow10_pos(n: nat)
    ensures
        pow10(n) >= 1,
    decreases n,
{
    if n > 0 {
        lemma_pow10_pos((n - 1) as nat);
    }
}

proof fn lemma_pow10_mono(a: nat, b: nat)
    requires
        a <= b,
    ensures
        pow10(a) <= pow10(b),
    decreases b,
{
    if a < b {
        lemma_pow10_mono(a, (b - 1) as nat);
        lemma_pow10_pos((b - 1) as nat);
    }
}

proof fn lemma_pow10_15()
    ensures
        pow10(15) == 1_000_000_000_000_000,
{
    assert(pow10(15) == 1_000_000_000_000_000) by {
        reveal_with_fuel(pow10, 16);
    }
}

/// A digit string's value is bounded by ten to its length.
proof fn lemma_digits_val_bound(s: Seq<u8>)
    requires
        digits_only(s),
    ensures
        0 <= digits_val(s) < pow10(s.len()),
    decreases s.len(),
{
    if s.len() > 0 {
        assert(digits_only(s.drop_last()));
        lemma_digits_val_bound(s.drop_last());
    }
}

/// `dot_pos` is the first decimal point: everything before it is dot-free.
proof fn lemma_dot_pos_first(t: Seq<u8>, p: int)
    requires
        0 <= p < t.len(),
        t[p] == BYTE_DOT,
        forall|k: int| 0 <= k < p ==> t[k] != BYTE_DOT,
    ensures
        has_dot(t),
        dot_pos(t) == p,
    decreases t.len(),
{
    if t[0] == BYTE_DOT {
        assert(p == 0);
    } else {
        assert(t.drop_first()[p - 1] == t[p]);
        assert(forall|k: int| 0 <= k < p - 1 ==> t.drop_first()[k] == t[k + 1]);
        lemma_dot_pos_first(t.drop_first(), p - 1);
    }
}

/// Whether every byte of `f[from..to]` is an ASCII digit.
fn check_digits(f: &Vec<u8>, from: usize, to: usize) -> (r: bool)
    requires
        from <= to <= f.len(),
    ensures
        r == digits_only(f@.subrange(from as int, to as int)),
{
    let mut i: usize = from;
    while i < to
        invariant
            from <= i <= to <= f.len(),
            forall|k: int| from <= k < i ==> is_digit(f@[k]),
        decreases to - i,
    {
        let b = f[i];
        if b < BYTE_ZERO || b > 57 {
            assert(!is_digit(f@.subrange(from as int, to as int)[i - from]));
            return false;
        }
        i += 1;
    }
    assert forall|k: int| 0 <= k < to - from implies is_digit(
        f@.subrange(from as int, to as int)[k],
    ) by {
        assert(f@.subrange(from as int, to as int)[k] == f@[from + k]);
    }
    true
}

/// Index of the first decimal point at or after `from`, if any.
fn find_dot(f: &Vec<u8>, from: usize) -> (r: Option<usize>)
    requires
        from <= f.len(),
    ensures
        match r {
            Some(d) => {
                &&& from <= d < f.len()
                &&& has_dot(f@.skip(from as int))
                &&& dot_pos(f@.skip(from as int)) == d - from
            },
            None => !has_dot(f@.skip(from as int)),
        },
{
    let ghost body = f@.skip(from as int);
    let mut i: usize = from;
    while i < f.len()
        invariant
            from <= i <= f.len(),
            body == f@.skip(from as int),
            forall|k: int| from <= k < i ==> f@[k] != BYTE_DOT,
        decreases f.len() - i,
    {
        if f[i] == BYTE_DOT {
            proof {
                assert(body[i - from] == f@[i as int]);
                assert forall|k: int| 0 <= k < i - from implies body[k] != BYTE_DOT by {
                    assert(body[k] == f@[from + k]);
                }
                lemma_dot_pos_first(body, i - from);
            }
            return Some(i);
        }
        i += 1;
    }
    proof {
        assert forall|k: int| 0 <= k < body.len() implies body[k] != BYTE_DOT by {
            assert(body[k] == f@[from + k]);
        }
    }
    None
}

/// Base-10 value of a digit substring of at most [`MAX_INT_DIGITS`] digits.
fn digits_to_val(f: &Vec<u8>, from: usize, to: usize) -> (r: i64)
    requires
        from <= to <= f.len(),
        to - from <= MAX_INT_DIGITS,
        digits_only(f@.subrange(from as int, to as int)),
    ensures
        r == digits_val(f@.subrange(from as int, to as int)),
        0 <= r <= 999_999_999_999_999,
{
    let mut acc: i64 = 0;
    let mut i: usize = from;
    proof {
        lemma_pow10_15();
    }
    while i < to
        invariant
            from <= i <= to <= f.len(),
            to - from <= MAX_INT_DIGITS,
            digits_only(f@.subrange(from as int, to as int)),
            acc == digits_val(f@.subrange(from as int, i as int)),
            0 <= acc < pow10((i - from) as nat),
            pow10(15) == 1_000_000_000_000_000,
        decreases to - i,
    {
        let ghost pre = f@.subrange(from as int, i as int);
        let b = f[i];
        proof {
            assert(f@.subrange(from as int, to as int)[i - from] == f@[i as int]);
            assert(is_digit(b));
            lemma_pow10_mono((i - from) as nat, 14);
            assert(pow10(14) * 10 == pow10(15));
            assert(f@.subrange(from as int, (i + 1) as int).drop_last() =~= pre);
            assert(f@.subrange(from as int, (i + 1) as int).last() == f@[i as int]);
        }
        acc = acc * 10 + ((b - BYTE_ZERO) as i64);
        i += 1;
    }
    proof {
        lemma_pow10_mono((to - from) as nat, 15);
    }
    acc
}

/// Parse one field as a fixed-point real number in milli-units.
///
/// Returns `Some` exactly when the field is a well-formed real number whose
/// integer part stays within [`MAX_INT_DIGITS`] digits; the value truncates
/// fraction digits beyond the third.
pub fn parse_real(f: &Vec<u8>) -> (r: Option<i64>)
    ensures
        r is Some <==> (is_real(f@) && real_in_range(f@)),
        r matches Some(v) ==> v == real_val(f@) && -COORD_LIMIT <= v <= COORD_LIMIT,
{
    let n = f.len();
    let mut start: usize = 0;
    let mut neg = false;
    if n > 0 && (f[0] == BYTE_PLUS || f[0] == BYTE_MINUS) {
        neg = f[0] == BYTE_MINUS;
        start = 1;
    }
    let ghost body = body_of(f@);
    proof {
        assert(body =~= f@.skip(start as int));
        assert(neg == (sign_of(f@) == -1));
    }
    match find_dot(f, start) {
        Some(d) => {
            let ghost ints = f@.subrange(start as int, d as int);
            let ghost fracs = f@.subrange(d + 1, n as int);
            proof {
                assert(int_digits(body) =~= ints);
                assert(frac_digits(body) =~= fracs);
            }
            if !check_digits(f, start, d) {
                return None;
            }
            if !check_digits(f, d + 1, n) {
                return None;
            }
            if d - start == 0 && n - d - 1 == 0 {
                return None;
            }
            if d - start > MAX_INT_DIGITS {
                return None;
            }
            let iv = digits_to_val(f, start, d);
            let f0: i64 = if d + 1 < n {
                proof {
                    assert(is_digit(fracs[0]));
                }
                (f[d + 1] - BYTE_ZERO) as i64
            } else {
                0
            };
            let f1: i64 = if d + 2 < n {
                proof {
                    assert(is_digit(fracs[1]));
                }
                (f[d + 2] - BYTE_ZERO) as i64
            } else {
                0
            };
            let f2: i64 = if d + 3 < n {
                proof {
                    assert(is_digit(fracs[2]));
                }
                (f[d + 3] - BYTE_ZERO) as i64
            } else {
                0
            };
            let fm: i64 = 100 * f0 + 10 * f1 + f2;
            proof {
                assert(fm == frac_milli(fracs));
            }
            let mag: i64 = iv * 1000 + fm;
            if neg {
                Some(-mag)
            } else {
                Some(mag)
            }
        },
        None => {
            if n - start == 0 {
                return None;
            }
            if !check_digits(f, start, n) {
                return None;
            }
            if n - start > MAX_INT_DIGITS {
                return None;
            }
            proof {
                assert(int_digits(body) =~= f@.subrange(start as int, n as int));
                assert(frac_digits(body) == Seq::<u8>::empty());
                assert(frac_milli(frac_digits(body)) == 0);
            }
            let iv = digits_to_val(f, start, n);
            let mag: i64 = iv * 1000;
            if neg {
                Some(-mag)
            } else {
                Some(mag)
            }
        },
    }
}

/// A line split at every single space byte; consecutive spaces produce
/// empty fields, and the empty line has one empty field.
pub open spec fn line_fields(l: Seq<u8>) -> Seq<Seq<u8>>
    decreases l.len(),
{
    if l.len() == 0 {
        seq![Seq::empty()]
    } else if l[0] == BYTE_SPACE {
        seq![Seq::<u8>::empty()] + line_fields(l.drop_first())
    } else {
        let rest = line_fields(l.drop_first());
        seq![seq![l[0]] + rest[0]] + rest.drop_first()
    }
}

proof fn lemma_line_fields_nonempty(l: Seq<u8>)
    ensures
        line_fields(l).len() >= 1,
    decreases l.len(),
{
    if l.len() > 0 {
        lemma_line_fields_nonempty(l.drop_first());
    }
}

/// Split a line into its space-separated fields.
pub fn split_line(l: &Vec<u8>) -> (r: Vec<Vec<u8>>)
    ensures
        r.deep_view() == line_fields(l@),
{
    let mut fields: Vec<Vec<u8>> = Vec::new();
    let mut cur: Vec<u8> = Vec::new();
    let mut i: usize = 0;
    proof {
        assert(l@.skip(0) =~= l@);
        lemma_line_fields_nonempty(l@);
        assert(cur@ + line_fields(l@)[0] =~= line_fields(l@)[0]);
        assert(fields.deep_view() + seq![line_fields(l@)[0]] + line_fields(l@).drop_first()
            =~= line_fields(l@));
    }
    while i < l.len()
        invariant
            i <= l.len(),
            line_fields(l@) == fields.deep_view() + seq![cur@ + line_fields(l@.skip(i as int))[0]]
                + line_fields(l@.skip(i as int)).drop_first(),
        decreases l.len() - i,
    {
        let ghost rem = l@.skip(i as int);
        let ghost rem1 = l@.skip(i + 1);
        proof {
            assert(rem.len() > 0);
            assert(rem[0] == l@[i as int]);
            assert(rem.drop_first() =~= rem1);
            lemma_line_fields_nonempty(rem1);
        }
        if l[i] == BYTE_SPACE {
            proof {
                assert(line_fields(rem) == seq![Seq::<u8>::empty()] + line_fields(rem1));
                assert(line_fields(rem)[0] == Seq::<u8>::empty());
                assert(line_fields(rem).drop_first() =~= line_fields(rem1));
                assert(cur@ + line_fields(rem)[0] == cur@);
                assert((seq![line_fields(rem1)[0]] + line_fields(rem1).drop_first()) =~= line_fields(
                    rem1,
                ));
                assert(fields.deep_view().push(cur@) =~= fields.deep_view() + seq![cur@]);
            }
            let ghost old_fields = fields.deep_view();
            let ghost prev_cur = cur@;
            fields.push(cur);
            cur = Vec::new();
            proof {
                assert(fields.deep_view() =~~= old_fields.push(prev_cur));
                assert(cur@ + line_fields(rem1)[0] =~= line_fields(rem1)[0]);
                assert(fields.deep_view() + seq![cur@ + line_fields(rem1)[0]] + line_fields(
                    rem1,
                ).drop_first() =~= line_fields(l@));
            }
        } else {
            proof {
                let rest = line_fields(rem1);
                assert(line_fields(rem) == seq![seq![rem[0]] + rest[0]] + rest.drop_first());
                assert(line_fields(rem)[0] == seq![rem[0]] + rest[0]);
                assert(line_fields(rem).drop_first() =~= rest.drop_first());
                assert(cur@.push(l@[i as int]) + rest[0] =~= cur@ + (seq![rem[0]] + rest[0]));
            }
            let x = l[i];
            cur.push(x);
            proof {
                assert(fields.deep_view() + seq![cur@ + line_fields(rem1)[0]] + line_fields(
                    rem1,
                ).drop_first() =~= line_fields(l@));
            }
        }
        i += 1;
    }
    proof {
        let ghost rem = l@.skip(i as int);
        assert(rem =~= Seq::<u8>::empty());
        assert(line_fields(rem) == seq![Seq::<u8>::empty()]);
        assert(cur@ + line_fields(rem)[0] == cur@);
        assert(line_fields(rem).drop_first() =~= Seq::<Seq<u8>>::empty());
        assert(fields.deep_view().push(cur@) =~= fields.deep_view() + seq![cur@]
            + Seq::<Seq<u8>>::empty());
    }
    let ghost old_fields = fields.deep_view();
    let ghost prev_cur = cur@;
    fields.push(cur);
    proof {
        assert(fields.deep_view() =~~= old_fields.push(prev_cur));
    }
    fields
}

/// The line is a well-formed coordinate line: exactly three fields, each a
/// real number within the fixed-point range.
pub open spec fn coord_line_ok(l: Seq<u8>) -> bool {
    &&& line_fields(l).len() == 3
    &&& forall|i: int|
        0 <= i < 3 ==> is_real(#[trigger] line_fields(l)[i]) && real_in_range(line_fields(l)[i])
}

/// The point a well-formed coordinate line denotes, in milli-units.
pub open spec fn coord_point(l: Seq<u8>) -> TrackPoint {
    TrackPoint {
        x: real_val(line_fields(l)[0]) as i64,
        y: real_val(line_fields(l)[1]) as i64,
        z: real_val(line_fields(l)[2]) as i64,
    }
}

/// Parse one coordinate line into a track point.
pub fn parse_coord_line(l: &Vec<u8>) -> (r: Option<TrackPoint>)
    ensures
        r is Some <==> coord_line_ok(l@),
        r matches Some(p) ==> p == coord_point(l@),
{
    let fields = split_line(l);
    if fields.len() != 3 {
        return None;
    }
    proof {
        assert(fields.deep_view()[0] == fields@[0].deep_view());
        assert(fields@[0].deep_view() =~= fields@[0]@);
        assert(fields.deep_view()[1] == fields@[1].deep_view());
        assert(fields@[1].deep_view() =~= fields@[1]@);
        assert(fields.deep_view()[2] == fields@[2].deep_view());
        assert(fields@[2].deep_view() =~= fields@[2]@);
    }
    let x = match parse_real(&fields[0]) {
        Some(v) => v,
        None => {
            return None;
        },
    };
    let y = match parse_real(&fields[1]) {
        Some(v) => v,
        None => {
            return None;
        },
    };
    let z = match parse_real(&fields[2]) {
        Some(v) => v,
        None => {
            return None;
        },
    };
    Some(TrackPoint { x, y, z })
}

/// Blank lines carry no bytes at all.
pub open spec fn is_blank(l: Seq<u8>) -> bool {
    l.len() == 0
}

/// The file has a non-blank line where a count could stand.
pub open spec fn has_count_line(lines: Seq<Seq<u8>>) -> bool {
    exists|i: int| 0 <= i < lines.len() && !is_blank(lines[i])
}

/// Index of the first non-blank line; `lines.len()` when all are blank.
pub open spec fn count_pos(lines: Seq<Seq<u8>>) -> int
    decreases lines.len(),
{
    if lines.len() == 0 {
        0
    } else if !is_blank(lines[0]) {
        0
    } else {
        1 + count_pos(lines.drop_first())
    }
}

/// A well-formed count line: one to nine decimal digits.
pub open spec fn is_count(l: Seq<u8>) -> bool {
    1 <= l.len() <= 9 && digits_only(l)
}

/// The declared point count. It is validated but informational: nothing
/// checks it against the number of coordinate lines that follow.
pub open spec fn count_value(l: Seq<u8>) -> int {
    digits_val(l)
}

/// Index of the first malformed coordinate line at or after `i`;
/// `lines.len()` when every one is well formed.
pub open spec fn first_bad_from(lines: Seq<Seq<u8>>, i: int) -> int
    decreases lines.len() - i,
{
    if i >= lines.len() {
        lines.len() as int
    } else if !coord_line_ok(lines[i]) {
        i
    } else {
        first_bad_from(lines, i + 1)
    }
}

/// The whole file parses: a count line after any leading blanks, then only
/// well-formed coordinate lines.
pub open spec fn file_ok(lines: Seq<Seq<u8>>) -> bool {
    &&& has_count_line(lines)
    &&& is_count(lines[count_pos(lines)])
    &&& forall|i: int| count_pos(lines) < i < lines.len() ==> coord_line_ok(#[trigger] lines[i])
}

/// The points a well-formed file denotes, one per coordinate line, in file
/// order.
pub open spec fn file_points(lines: Seq<Seq<u8>>) -> Seq<TrackPoint> {
    Seq::new(
        (lines.len() - count_pos(lines) - 1) as nat,
        |j: int| coord_point(lines[count_pos(lines) + 1 + j]),
    )
}

/// 1-based number of the line a malformed file fails on; one past the end
/// when no count line exists.
pub open spec fn file_err_line(lines: Seq<Seq<u8>>) -> int {
    if !has_count_line(lines) {
        lines.len() as int + 1
    } else if !is_count(lines[count_pos(lines)]) {
        count_pos(lines) + 1
    } else {
        first_bad_from(lines, count_pos(lines) + 1) + 1
    }
}

/// Content of the line a malformed file fails on; empty when no count line
/// exists.
pub open spec fn file_err_content(lines: Seq<Seq<u8>>) -> Seq<u8> {
    if !has_count_line(lines) {
        Seq::empty()
    } else if !is_count(lines[count_pos(lines)]) {
        lines[count_pos(lines)]
    } else {
        lines[first_bad_from(lines, count_pos(lines) + 1)]
    }
}

proof fn lemma_count_pos_at(lines: Seq<Seq<u8>>, p: int)
    requires
        0 <= p < lines.len(),
        !is_blank(lines[p]),
        forall|k: int| 0 <= k < p ==> is_blank(#[trigger] lines[k]),
    ensures
        has_count_line(lines),
        count_pos(lines) == p,
    decreases lines.len(),
{
    if is_blank(lines[0]) {
        assert(p != 0);
        assert(lines.drop_first()[p - 1] == lines[p]);
        assert(forall|k: int| 0 <= k < p - 1 ==> lines.drop_first()[k] == lines[k + 1]);
        lemma_count_pos_at(lines.drop_first(), p - 1);
    } else {
        assert(p == 0);
    }
}

proof fn lemma_count_pos_range(lines: Seq<Seq<u8>>)
    ensures
        0 <= count_pos(lines) <= lines.len(),
    decreases lines.len(),
{
    if lines.len() > 0 && is_blank(lines[0]) {
        lemma_count_pos_range(lines.drop_first());
    }
}

proof fn lemma_count_pos_found(lines: Seq<Seq<u8>>)
    requires
        has_count_line(lines),
    ensures
        0 <= count_pos(lines) < lines.len(),
        !is_blank(lines[count_pos(lines)]),
    decreases lines.len(),
{
    if is_blank(lines[0]) {
        let i = choose|i: int| 0 <= i < lines.len() && !is_blank(lines[i]);
        assert(lines.drop_first()[i - 1] == lines[i]);
        lemma_count_pos_found(lines.drop_first());
    }
}

proof fn lemma_first_bad_at(lines: Seq<Seq<u8>>, start: int, b: int)
    requires
        0 <= start <= b <= lines.len(),
        forall|k: int| start <= k < b ==> coord_line_ok(#[trigger] lines[k]),
        b < lines.len() ==> !coord_line_ok(lines[b]),
    ensures
        first_bad_from(lines, start) == b,
    decreases b - start,
{
    if start < b {
        lemma_first_bad_at(lines, start + 1, b);
    }
}

/// Whether the line is a well-formed count line.
fn check_count(l: &Vec<u8>) -> (r: bool)
    ensures
        r == is_count(l@),
{
    if l.len() < 1 || l.len() > 9 {
        false
    } else {
        proof {
            assert(l@.subrange(0, l@.len() as int) =~= l@);
        }
        check_digits(l, 0, l.len())
    }
}

/// Byte-for-byte copy of a line, used to report it in an error.
fn clone_bytes(v: &Vec<u8>) -> (r: Vec<u8>)
    ensures
        r@ == v@,
{
    let mut r: Vec<u8> = Vec::new();
    let mut i: usize = 0;
    while i < v.len()
        invariant
            i <= v.len(),
            r@ == v@.subrange(0, i as int),
        decreases v.len() - i,
    {
        let b = v[i];
        r.push(b);
        proof {
            assert(r@ =~= v@.subrange(0, i + 1));
        }
        i += 1;
    }
    proof {
        assert(r@ =~= v@);
    }
    r
}

/// Parse a whole track file, given as its lines without terminators.
///
/// Succeeds exactly on well-formed files and then yields one point per
/// coordinate line, in file order. On failure the error names the first
/// offending line (1-based) and carries its content; a file with no count
/// line at all fails with a line number one past the end. The declared
/// count is validated as a number but not compared with the number of
/// coordinate lines.
pub fn parse_track_file(lines: &Vec<Vec<u8>>) -> (r: Result<Vec<TrackPoint>, TrackError>)
    requires
        lines.len() < usize::MAX,
    ensures
        r is Ok <==> file_ok(lines.deep_view()),
        r matches Ok(pts) ==> pts@ == file_points(lines.deep_view()),
        r matches Err(e) ==> e matches TrackError::FormatError { line, content }
            && line == file_err_line(lines.deep_view()) && content@ == file_err_content(
            lines.deep_view(),
        ),
{
    let ghost ldv = lines.deep_view();
    let n = lines.len();
    let mut k: usize = 0;
    while k < n && lines[k].len() == 0
        invariant
            k <= n,
            n == lines.len(),
            ldv == lines.deep_view(),
            forall|j: int| 0 <= j < k ==> is_blank(#[trigger] ldv[j]),
        decreases n - k,
    {
        proof {
            assert(ldv[k as int] =~= lines@[k as int]@);
        }
        k += 1;
    }
    if k == n {
        proof {
            assert(forall|i: int| 0 <= i < ldv.len() ==> is_blank(#[trigger] ldv[i]));
            assert(!has_count_line(ldv));
        }
        return Err(TrackError::FormatError { line: n + 1, content: Vec::new() });
    }
    proof {
        assert(ldv[k as int] =~= lines@[k as int]@);
        lemma_count_pos_at(ldv, k as int);
    }
    if !check_count(&lines[k]) {
        return Err(TrackError::FormatError { line: k + 1, content: clone_bytes(&lines[k]) });
    }
    let mut pts: Vec<TrackPoint> = Vec::new();
    let mut i: usize = k + 1;
    while i < n
        invariant
            k < i <= n,
            k < n,
            n == lines.len(),
            n < usize::MAX,
            ldv == lines.deep_view(),
            has_count_line(ldv),
            count_pos(ldv) == k,
            is_count(ldv[k as int]),
            forall|j: int| k < j < i ==> coord_line_ok(#[trigger] ldv[j]),
            pts@.len() == i - k - 1,
            forall|j: int| 0 <= j < pts@.len() ==> pts@[j] == coord_point(#[trigger] ldv[k + 1 + j]),
        decreases n - i,
    {
        proof {
            assert(ldv[i as int] =~= lines@[i as int]@);
        }
        match parse_coord_line(&lines[i]) {
            Some(p) => {
                pts.push(p);
            },
            None => {
                proof {
                    lemma_first_bad_at(ldv, k + 1, i as int);
                }
                return Err(
                    TrackError::FormatError { line: i + 1, content: clone_bytes(&lines[i]) },
                );
            },
        }
        i += 1;
    }
    proof {
        assert(file_ok(ldv));
        assert(pts@ =~= file_points(ldv));
    }
    Ok(pts)
}

/// Parsing round-trip law: a well-formed file whose declared count equals
/// its number of coordinate lines yields exactly that many points, one per
/// coordinate line in file order, each the fixed-point value of its line's
/// numeric triple.
pub proof fn lemma_parse_round_trip(lines: Seq<Seq<u8>>)
    requires
        file_ok(lines),
        lines.len() - count_pos(lines) - 1 == count_value(lines[count_pos(lines)]),
    ensures
        file_points(lines).len() == count_value(lines[count_pos(lines)]),
        forall|j: int|
            0 <= j < file_points(lines).len() ==> file_points(lines)[j] == coord_point(
                lines[count_pos(lines) + 1 + j],
            ),
{
    lemma_count_pos_found(lines);
    lemma_digits_val_bound(lines[count_pos(lines)]);
}

/// Malformed-line law: when the count line is well formed but coordinate
/// line `i` (0-based) is the first that is not — too few or too many
/// fields, or a field that is not a numeric literal in range — the file is
/// rejected and the failure names exactly the 1-based line number `i + 1`
/// and that line's content.
pub proof fn lemma_malformed_line_reported(lines: Seq<Seq<u8>>, i: int)
    requires
        has_count_line(lines),
        is_count(lines[count_pos(lines)]),
        count_pos(lines) < i < lines.len(),
        !coord_line_ok(lines[i]),
        forall|k: int| count_pos(lines) < k < i ==> coord_line_ok(#[trigger] lines[k]),
    ensures
        !file_ok(lines),
        file_err_line(lines) == i + 1,
        file_err_content(lines) == lines[i],
{
    lemma_count_pos_range(lines);
    lemma_first_bad_at(lines, count_pos(lines) + 1, i);
}

} // verus!
