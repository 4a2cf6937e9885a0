//! Numbers as a model text spells them: whole numbers for indices, and
//! decimal numbers, with or without an exponent, for coordinates.

use vstd::prelude::*;
use vstd::slice::slice_subrange;
use crate::math::COORD_MAX;

verus! {

/// Whether a byte is a decimal digit.
pub open spec fn is_digit(b: u8) -> bool {
    48 <= b <= 57
}

/// Whether a byte starts an exponent: `e` or `E`.
pub open spec fn is_mark(b: u8) -> bool {
    b == 101 || b == 69
}

/// The first position at or after `pos` that holds `stop`, or the length
/// of `s` where there is none.
pub open spec fn find(s: Seq<u8>, pos: int, stop: u8) -> int
    decreases s.len() - pos,
{
    if 0 <= pos < s.len() && s[pos] != stop {
        find(s, pos + 1, stop)
    } else {
        pos
    }
}

/// The first position from `pos` on and before `end` that holds `stop`, or
/// `end` where there is none.
pub open spec fn find_before(s: Seq<u8>, pos: int, end: int, stop: u8) -> int
    decreases end - pos,
{
    if 0 <= pos < end && s[pos] != stop {
        find_before(s, pos + 1, end, stop)
    } else {
        pos
    }
}

/// The first position at or after `pos` that starts an exponent, or the
/// length of `s` where there is none.
pub open spec fn find_mark(s: Seq<u8>, pos: int) -> int
    decreases s.len() - pos,
{
    if 0 <= pos < s.len() && !is_mark(s[pos]) {
        find_mark(s, pos + 1)
    } else {
        pos
    }
}

/// Whether every byte from `a` to `b` (excluded) is a digit.
pub open spec fn all_digits(s: Seq<u8>, a: int, b: int) -> bool {
    forall|i: int| a <= i < b ==> is_digit(#[trigger] s[i])
}

/// The number that the digits from `a` to `b` (excluded) spell.
pub open spec fn number(s: Seq<u8>, a: int, b: int) -> int
    decreases b - a,
{
    if b <= a {
        0
    } else {
        10 * number(s, a, b - 1) + (s[b - 1] - 48)
    }
}

/// The length of a leading sign: one for `+` or `-`, else zero.
pub open spec fn sign_len(s: Seq<u8>) -> int {
    if s.len() > 0 && (s[0] == 43 || s[0] == 45) {
        1
    } else {
        0
    }
}

/// Whether a word starts with a minus sign.
pub open spec fn negative(s: Seq<u8>) -> bool {
    s.len() > 0 && s[0] == 45
}

/// The whole number that a word spells: an optional sign and one or more
/// digits. `None` for any other word.
pub open spec fn parse_whole(w: Seq<u8>) -> Option<int> {
    let from = sign_len(w);
    if from < w.len() && all_digits(w, from, w.len() as int) {
        Some(
            if negative(w) {
                -number(w, from, w.len() as int)
            } else {
                number(w, from, w.len() as int)
            },
        )
    } else {
        None
    }
}

/// The whole number that a word spells, where its magnitude is one that
/// thirty-one bits hold. `None` for any other word.
pub open spec fn parse_index(w: Seq<u8>) -> Option<int> {
    match parse_whole(w) {
        Some(v) => if -i32::MAX <= v <= i32::MAX {
            Some(v)
        } else {
            None
        },
        None => None,
    }
}

/// The index that a field spells, counted from zero; `-1` where the field
/// spells no number.
pub open spec fn index_or_none(w: Seq<u8>) -> i32 {
    match parse_index(w) {
        Some(v) => (v - 1) as i32,
        None => -1i32,
    }
}

/// A decimal number: its sign, its digits without the point, and how many
/// of the digits stand before the point. The point may lie left of the
/// first digit or right of the last; the places in between hold zeros.
pub ghost struct Decimal {
    pub negative: bool,
    pub digits: Seq<u8>,
    pub point: int,
}

/// Ten to the sixteenth: the weight of the first place after the point
/// where sixteen places are read.
pub const FRACTION_SCALE: u64 = 10_000_000_000_000_000;

impl Decimal {
    /// Every digit is one.
    pub open spec fn wf(self) -> bool {
        forall|i: int| 0 <= i < self.digits.len() ==> is_digit(#[trigger] self.digits[i])
    }

    /// The digit at place `i`, places counted from zero at the first digit;
    /// zero at a place that holds no digit.
    pub open spec fn digit(self, i: int) -> int {
        if 0 <= i < self.digits.len() {
            self.digits[i] - 48
        } else {
            0
        }
    }

    /// The number that the first `k` places spell.
    pub open spec fn whole(self, k: int) -> int
        decreases k,
    {
        if k <= 0 {
            0
        } else {
            10 * self.whole(k - 1) + self.digit(k - 1)
        }
    }

    /// The number that the first `j` places after the point spell.
    pub open spec fn part(self, j: nat) -> int
        decreases j,
    {
        if j == 0 {
            0
        } else {
            10 * self.part((j - 1) as nat) + self.digit(self.point + j - 1)
        }
    }

    /// The magnitude in raw fixed-point units, rounded toward zero: the
    /// places before the point, and the first sixteen places after it.
    pub open spec fn magnitude(self) -> int {
        self.whole(self.point) * 65536 + (self.part(16) * 65536) / (FRACTION_SCALE as int)
    }
}

/// The decimal number that a word spells: an optional sign; digits, with
/// or without a point among, before or after them; and optionally `e` or `E`
/// and a whole number, the power of ten that the digits are multiplied by.
/// `None` for any other word.
pub open spec fn decimal_of(w: Seq<u8>) -> Option<Decimal> {
    let from = sign_len(w);
    let mark = find_mark(w, from);
    let dot = find_before(w, from, mark, 46);
    let frac = if dot < mark {
        dot + 1
    } else {
        dot
    };
    let power = if mark < w.len() {
        parse_whole(w.subrange(mark + 1, w.len() as int))
    } else {
        Some(0int)
    };
    if all_digits(w, from, dot) && all_digits(w, frac, mark) && (dot - from) + (mark - frac) > 0
        && power is Some {
        Some(
            Decimal {
                negative: negative(w),
                digits: w.subrange(from, dot) + w.subrange(frac, mark),
                point: dot - from + power->Some_0,
            },
        )
    } else {
        None
    }
}

/// The raw fixed-point value that a word spells: that of its decimal
/// number, where the magnitude is at most `COORD_MAX`. `None` for any other
/// word.
pub open spec fn parse_fixed(w: Seq<u8>) -> Option<int> {
    match decimal_of(w) {
        Some(d) => if d.magnitude() <= COORD_MAX {
            Some(
                if d.negative {
                    -d.magnitude()
                } else {
                    d.magnitude()
                },
            )
        } else {
            None
        },
        None => None,
    }
}

/// The value of a number word, or zero where the word spells no number.
pub open spec fn fixed_or_zero(w: Seq<u8>) -> i32 {
    match parse_fixed(w) {
        Some(v) => v as i32,
        None => 0,
    }
}

/// Ten to the `k`, for `k` up to sixteen.
pub open spec fn power_of_ten(k: nat) -> int {
    if k == 0 {
        1
    } else if k == 1 {
        10
    } else if k == 2 {
        100
    } else if k == 3 {
        1_000
    } else if k == 4 {
        10_000
    } else if k == 5 {
        100_000
    } else if k == 6 {
        1_000_000
    } else if k == 7 {
        10_000_000
    } else if k == 8 {
        100_000_000
    } else if k == 9 {
        1_000_000_000
    } else if k == 10 {
        10_000_000_000
    } else if k == 11 {
        100_000_000_000
    } else if k == 12 {
        1_000_000_000_000
    } else if k == 13 {
        10_000_000_000_000
    } else if k == 14 {
        100_000_000_000_000
    } else if k == 15 {
        1_000_000_000_000_000
    } else {
        10_000_000_000_000_000
    }
}

/// Searching from beyond the end finds nothing.
pub proof fn lemma_find_from_beyond(s: Seq<u8>, pos: int, stop: u8)
    requires
        pos >= s.len(),
    ensures
        find(s, pos, stop) == pos,
{
}

/// The digits from `a` to `b` spell a number that is not negative, and one
/// more digit multiplies it by ten and adds the digit.
proof fn lemma_number_step(s: Seq<u8>, a: int, b: int)
    requires
        0 <= a <= b < s.len(),
        all_digits(s, a, b + 1),
    ensures
        number(s, a, b + 1) == 10 * number(s, a, b) + (s[b] - 48),
        0 <= number(s, a, b) <= number(s, a, b + 1),
    decreases b - a,
{
    if a < b {
        lemma_number_step(s, a, b - 1);
    }
    assert(is_digit(s[b]));
}

/// The places of a decimal number spell numbers that are not negative and
/// do not shrink from place to place; beyond the last digit each place
/// multiplies the number by ten.
proof fn lemma_whole_grows(d: Decimal, k: int)
    requires
        d.wf(),
    ensures
        0 <= d.whole(k) <= d.whole(k + 1),
        0 <= d.digit(k) <= 9,
        k >= 0 ==> d.whole(k + 1) == 10 * d.whole(k) + d.digit(k),
        k >= d.digits.len() ==> d.whole(k + 1) == 10 * d.whole(k),
    decreases k,
{
    if k > 0 {
        lemma_whole_grows(d, k - 1);
    }
    if 0 <= k < d.digits.len() {
        assert(is_digit(d.digits[k]));
    }
}

/// The number that the places of a decimal number spell does not shrink
/// with more places.
proof fn lemma_whole_monotone(d: Decimal, k: int, to: int)
    requires
        d.wf(),
        k <= to,
    ensures
        0 <= d.whole(k) <= d.whole(to),
    decreases to - k,
{
    lemma_whole_grows(d, k);
    if k < to {
        lemma_whole_monotone(d, k + 1, to);
    }
}

/// Where all digits of a decimal number spell zero, so do they with any
/// number of zeros behind.
proof fn lemma_whole_stays_zero(d: Decimal, k: int, to: int)
    requires
        d.wf(),
        d.digits.len() <= k <= to,
        d.whole(k) == 0,
    ensures
        d.whole(to) == 0,
    decreases to - k,
{
    if k < to {
        lemma_whole_grows(d, k);
        lemma_whole_stays_zero(d, k + 1, to);
    }
}

/// The first `j` places after the point spell a number below ten to the `j`.
proof fn lemma_part_step(d: Decimal, j: nat)
    requires
        d.wf(),
        j < 16,
    ensures
        d.part(j + 1) == 10 * d.part(j) + d.digit(d.point + j),
        0 <= d.part(j) < power_of_ten(j),
        0 <= d.part(j + 1) < power_of_ten(j + 1),
    decreases j,
{
    lemma_whole_grows(d, d.point + j);
    if j > 0 {
        lemma_part_step(d, (j - 1) as nat);
    }
}

/// The magnitude of a decimal number is not negative.
pub proof fn lemma_magnitude_positive(d: Decimal)
    requires
        d.wf(),
    ensures
        0 <= d.magnitude(),
{
    lemma_whole_monotone(d, d.point, d.point);
    lemma_part_step(d, 15);
    assert((d.part(16) * 65536) / (FRACTION_SCALE as int) >= 0) by (nonlinear_arith)
        requires
            d.part(16) >= 0,
            FRACTION_SCALE > 0,
    ;
}

/// The digits of the decimal number that a word spells are digits.
pub proof fn lemma_decimal_wf(w: Seq<u8>)
    requires
        decimal_of(w) is Some,
    ensures
        decimal_of(w)->Some_0.wf(),
{
    let from = sign_len(w);
    let mark = find_mark(w, from);
    lemma_mark_bounds(w, from);
    let dot = find_before(w, from, mark, 46);
    lemma_find_before_bounds(w, from, mark, 46);
    let frac = if dot < mark {
        dot + 1
    } else {
        dot
    };
    let d = decimal_of(w)->Some_0;
    assert forall|i: int| 0 <= i < d.digits.len() implies is_digit(#[trigger] d.digits[i]) by {
        if i < dot - from {
            assert(d.digits[i] == w[from + i]);
        } else {
            assert(d.digits[i] == w[frac + (i - (dot - from))]);
        }
    }
}

/// A word that spells a number spells one within the coordinate range.
pub proof fn lemma_fixed_in_range(w: Seq<u8>)
    ensures
        -COORD_MAX <= fixed_or_zero(w) <= COORD_MAX,
{
    if decimal_of(w) is Some {
        lemma_decimal_wf(w);
        lemma_magnitude_positive(decimal_of(w)->Some_0);
    }
}

/// A search for an exponent stops between where it starts and the end.
proof fn lemma_mark_bounds(s: Seq<u8>, pos: int)
    requires
        0 <= pos <= s.len(),
    ensures
        pos <= find_mark(s, pos) <= s.len(),
    decreases s.len() - pos,
{
    if pos < s.len() && !is_mark(s[pos]) {
        lemma_mark_bounds(s, pos + 1);
    }
}

/// A bounded search stops between where it starts and its bound.
proof fn lemma_find_before_bounds(s: Seq<u8>, pos: int, end: int, stop: u8)
    requires
        0 <= pos <= end,
    ensures
        pos <= find_before(s, pos, end, stop) <= end,
    decreases end - pos,
{
    if pos < end && s[pos] != stop {
        lemma_find_before_bounds(s, pos + 1, end, stop);
    }
}

/// The first position at or after `pos` that holds `stop`.
pub fn scan(s: &[u8], pos: usize, stop: u8) -> (r: usize)
    requires
        pos <= s.len(),
    ensures
        r == find(s@, pos as int, stop),
        pos <= r <= s.len(),
        r < s.len() ==> s@[r as int] == stop,
{
    let mut i: usize = pos;
    while i < s.len() && s[i] != stop
        invariant
            pos <= i <= s.len(),
            find(s@, pos as int, stop) == find(s@, i as int, stop),
        decreases s.len() - i,
    {
        i += 1;
    }
    i
}

/// The first position from `pos` on and before `end` that holds `stop`.
fn scan_before(s: &[u8], pos: usize, end: usize, stop: u8) -> (r: usize)
    requires
        pos <= end <= s.len(),
    ensures
        r == find_before(s@, pos as int, end as int, stop),
        pos <= r <= end,
{
    let mut i: usize = pos;
    while i < end && s[i] != stop
        invariant
            pos <= i <= end <= s.len(),
            find_before(s@, pos as int, end as int, stop) == find_before(
                s@,
                i as int,
                end as int,
                stop,
            ),
        decreases end - i,
    {
        i += 1;
    }
    i
}

/// The first position at or after `pos` that starts an exponent.
fn scan_mark(s: &[u8], pos: usize) -> (r: usize)
    requires
        pos <= s.len(),
    ensures
        r == find_mark(s@, pos as int),
        pos <= r <= s.len(),
{
    let mut i: usize = pos;
    while i < s.len() && s[i] != 101 && s[i] != 69
        invariant
            pos <= i <= s.len(),
            find_mark(s@, pos as int) == find_mark(s@, i as int),
        decreases s.len() - i,
    {
        i += 1;
    }
    i
}

/// Whether a byte is a decimal digit.
fn digit(b: u8) -> (r: bool)
    ensures
        r == is_digit(b),
{
    48 <= b && b <= 57
}

/// A bound that no whole number of interest reaches: numbers are held at
/// it once they get there.
const CEILING: i128 = 0x1_0000_0000_0000_0000_0000_0000;

/// The smaller of a number and the ceiling.
spec fn held(v: int) -> int {
    if v < CEILING {
        v
    } else {
        CEILING as int
    }
}

/// The whole number that a word spells, held at the ceiling from either
/// side; `None` where the word spells none.
fn read_whole(w: &[u8]) -> (r: Option<i128>)
    ensures
        match parse_whole(w@) {
            Some(v) => r is Some && -CEILING <= r->Some_0 <= CEILING && (r->Some_0 == v || (v
                > CEILING && r->Some_0 == CEILING) || (v < -CEILING && r->Some_0 == -CEILING)),
            None => r is None,
        },
{
    let n: usize = w.len();
    let from: usize = if n > 0 && (w[0] == 43 || w[0] == 45) {
        1
    } else {
        0
    };
    if from >= n {
        return None;
    }
    let mut v: i128 = 0;
    let mut i: usize = from;
    while i < n
        invariant
            from <= i <= n,
            n == w.len(),
            from == sign_len(w@),
            all_digits(w@, from as int, i as int),
            0 <= number(w@, from as int, i as int),
            v == held(number(w@, from as int, i as int)),
        decreases n - i,
    {
        if !digit(w[i]) {
            assert(!is_digit(w@[i as int]));
            return None;
        }
        proof {
            lemma_number_step(w@, from as int, i as int);
        }
        v = v * 10 + (w[i] - 48) as i128;
        if v > CEILING {
            v = CEILING;
        }
        i += 1;
    }
    if w[0] == 45 {
        Some(-v)
    } else {
        Some(v)
    }
}

/// The index that a field spells, counted from zero; `-1` where it spells none.
pub fn read_index(w: &[u8]) -> (r: i32)
    ensures
        r == index_or_none(w@),
{
    match read_whole(w) {
        Some(v) => {
            if -0x7fff_ffff <= v && v <= 0x7fff_ffff {
                (v - 1) as i32
            } else {
                -1
            }
        },
        None => -1,
    }
}

/// The digit at place `i` of the decimal number whose places before the
/// point run from `from` to `dot` and whose places after it from `frac` to
/// `mark`.
fn digit_at(
    w: &[u8],
    from: usize,
    dot: usize,
    frac: usize,
    mark: usize,
    i: i128,
    Ghost(d): Ghost<Decimal>,
) -> (r: i128)
    requires
        from <= dot <= frac <= mark <= w.len(),
        d.wf(),
        d.digits == w@.subrange(from as int, dot as int) + w@.subrange(frac as int, mark as int),
    ensures
        r == d.digit(i as int),
        0 <= r <= 9,
{
    let before: i128 = (dot - from) as i128;
    let after: i128 = (mark - frac) as i128;
    if 0 <= i && i < before {
        let at: usize = from + (i as usize);
        assert(d.digits[i as int] == w@[at as int]);
        assert(is_digit(d.digits[i as int]));
        (w[at] - 48) as i128
    } else if before <= i && i < before + after {
        let at: usize = frac + ((i - before) as usize);
        assert(d.digits[i as int] == w@[at as int]);
        assert(is_digit(d.digits[i as int]));
        (w[at] - 48) as i128
    } else {
        0
    }
}

/// Five places behind the last digit multiply the number by a hundred thousand.
proof fn lemma_whole_five(d: Decimal, k: int)
    requires
        d.wf(),
        k >= d.digits.len(),
    ensures
        d.whole(k + 5) == 100000 * d.whole(k),
{
    lemma_whole_grows(d, k);
    lemma_whole_grows(d, k + 1);
    lemma_whole_grows(d, k + 2);
    lemma_whole_grows(d, k + 3);
    lemma_whole_grows(d, k + 4);
}

/// Where the point stands behind the last digit or sixteen places before
/// the first, the places after the point spell zero.
proof fn lemma_part_zero(d: Decimal, j: nat)
    requires
        d.point >= d.digits.len() || d.point + 16 <= 0,
        j <= 16,
    ensures
        d.part(j) == 0,
    decreases j,
{
    if j > 0 {
        lemma_part_zero(d, (j - 1) as nat);
    }
}

/// The value of a number word, or zero where the word spells no number.
pub fn read_fixed(w: &[u8]) -> (r: i32)
    ensures
        r == fixed_or_zero(w@),
{
    let n: usize = w.len();
    let from: usize = if n > 0 && (w[0] == 43 || w[0] == 45) {
        1
    } else {
        0
    };
    let mark: usize = scan_mark(w, from);
    let dot: usize = scan_before(w, from, mark, 46);
    let frac: usize = if dot < mark {
        dot + 1
    } else {
        dot
    };
    if (dot - from) + (mark - frac) == 0 {
        return 0;
    }
    let mut i: usize = from;
    while i < dot
        invariant
            from <= i <= dot,
            dot <= w.len(),
            from == sign_len(w@),
            mark == find_mark(w@, from as int),
            dot == find_before(w@, from as int, mark as int, 46),
            all_digits(w@, from as int, i as int),
        decreases dot - i,
    {
        if !digit(w[i]) {
            assert(!is_digit(w@[i as int]));
            return 0;
        }
        i += 1;
    }
    let mut j: usize = frac;
    while j < mark
        invariant
            frac <= j <= mark,
            mark <= w.len(),
            from == sign_len(w@),
            mark == find_mark(w@, from as int),
            dot == find_before(w@, from as int, mark as int, 46),
            frac == if dot < mark {
                dot + 1
            } else {
                dot as int
            },
            all_digits(w@, frac as int, j as int),
        decreases mark - j,
    {
        if !digit(w[j]) {
            assert(!is_digit(w@[j as int]));
            return 0;
        }
        j += 1;
    }
    let power: i128 = if mark < n {
        match read_whole(slice_subrange(w, mark + 1, n)) {
            Some(p) => p,
            None => {
                return 0;
            },
        }
    } else {
        0
    };
    let ghost d: Decimal = decimal_of(w@)->Some_0;
    proof {
        lemma_decimal_wf(w@);
    }
    let count: i128 = (dot - from) as i128 + (mark - frac) as i128;
    let point: i128 = (dot - from) as i128 + power;
    // Whether the point stands more than five places behind the last digit:
    // then the number is zero or out of range, and five places decide which.
    let far: bool = point > count + 5;
    let last: i128 = if far {
        count + 5
    } else {
        point
    };
    assert(far ==> d.point > count + 5);
    assert(!far && -CEILING < power ==> d.point == point);
    assert(power <= -CEILING ==> d.point + 16 <= 0);
    // The places before the point, held at 16384 once they reach it.
    let mut whole: i128 = 0;
    let mut k: i128 = 0;
    while k < last
        invariant
            0 <= k,
            k <= last || k == 0,
            last <= count + 5,
            count == d.digits.len(),
            0 <= count <= 0x2_0000_0000_0000_0000,
            from <= dot <= frac <= mark <= w.len(),
            d.wf(),
            d.digits == w@.subrange(from as int, dot as int) + w@.subrange(
                frac as int,
                mark as int,
            ),
            0 <= d.whole(k as int),
            whole == if d.whole(k as int) < 16384 {
                d.whole(k as int)
            } else {
                16384
            },
        decreases last - k,
    {
        proof {
            lemma_whole_grows(d, k as int);
        }
        let digit: i128 = digit_at(w, from, dot, frac, mark, k, Ghost(d));
        whole = whole * 10 + digit;
        if whole > 16384 {
            whole = 16384;
        }
        k += 1;
    }
    proof {
        lemma_magnitude_positive(d);
        lemma_part_step(d, 15);
        assert((d.part(16) * 65536) / (FRACTION_SCALE as int) >= 0) by (nonlinear_arith)
            requires
                d.part(16) >= 0,
                FRACTION_SCALE > 0,
        ;
        if k <= d.point {
            lemma_whole_monotone(d, k as int, d.point);
        }
    }
    if whole >= 16384 {
        assert(d.whole(d.point) >= 16384);
        return 0;
    }
    if far {
        proof {
            lemma_whole_five(d, count as int);
            lemma_whole_monotone(d, count as int, count as int);
            assert(d.whole(count as int) == 0);
            lemma_whole_stays_zero(d, count as int, d.point);
            lemma_part_zero(d, 16);
        }
        return 0;
    }
    if power <= -CEILING {
        proof {
            lemma_part_zero(d, 16);
        }
        return 0;
    }
    // The first sixteen places after the point.
    let mut part: u64 = 0;
    let mut m: usize = 0;
    while m < 16
        invariant
            m <= 16,
            point == d.point,
            -CEILING - 0x2_0000_0000_0000_0000 <= point <= CEILING + 0x2_0000_0000_0000_0000,
            from <= dot <= frac <= mark <= w.len(),
            d.wf(),
            d.digits == w@.subrange(from as int, dot as int) + w@.subrange(
                frac as int,
                mark as int,
            ),
            part == d.part(m as nat),
            part < power_of_ten(m as nat),
        decreases 16 - m,
    {
        proof {
            lemma_part_step(d, m as nat);
        }
        let digit: i128 = digit_at(w, from, dot, frac, mark, point + m as i128, Ghost(d));
        part = part * 10 + digit as u64;
        m += 1;
    }
    let tail: u128 = ((part as u128) * 65536) / (FRACTION_SCALE as u128);
    assert(tail < 65536) by (nonlinear_arith)
        requires
            tail == (part * 65536) / (FRACTION_SCALE as int),
            part < FRACTION_SCALE,
            FRACTION_SCALE > 0,
    ;
    assert(d.whole(d.point) == whole);
    let magnitude: i128 = whole * 65536 + tail as i128;
    if n > 0 && w[0] == 45 {
        (-magnitude) as i32
    } else {
        magnitude as i32
    }
}

} // verus!
