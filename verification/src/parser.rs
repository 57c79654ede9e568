//! The textual authoring grammar: one declaration per non-empty line — a
//! frame header `# (x1,y1) (x2,y2)`, an open path `p [(x,y), ...]`, a
//! rectangle outline `r (x1,y1) (x2,y2)`, or a filled rectangle
//! `rf (x1,y1) (x2,y2) <color>` — each with an optional `{{label}}`.
//! Parsing is all-or-nothing: a line that matches no production, or
//! trailing input, fails the whole document.

pub mod color;

use vstd::prelude::*;
use crate::scene::{Pos, Color, Stroke, Shape, Path, UNIT, rect_from_two_pos, spec_rect_from_two_pos, Rect};
use crate::geometry::{
    PaintFrame, PaintFrameView, FrameElement, FrameElementView, ElementKind, ElementKindView,
    Hover, HoverView, HoverCondition, HoverConditionView,
};

verus! {

/// A grammar mismatch: where the parse stopped and what it wanted there.
#[derive(Clone, Debug, PartialEq, Eq)]
pub struct ParseError {
    pub position: usize,
    pub expected: &'static str,
}

/// Token separators: spaces and tabs.
pub open spec fn is_space(c: char) -> bool {
    c == ' ' || c == '\t'
}

/// An ASCII decimal digit.
pub open spec fn is_digit(c: char) -> bool {
    48 <= c as u32 <= 57
}

/// The first index at or after `i` that does not hold a separator.
pub open spec fn spec_skip_sp(s: Seq<char>, i: int) -> int
    decreases s.len() - i,
{
    if 0 <= i < s.len() && is_space(s[i]) {
        spec_skip_sp(s, i + 1)
    } else {
        i
    }
}

/// The first index at or after `i` that does not hold a digit.
pub open spec fn digits_end(s: Seq<char>, i: int) -> int
    decreases s.len() - i,
{
    if 0 <= i < s.len() && is_digit(s[i]) {
        digits_end(s, i + 1)
    } else {
        i
    }
}

/// The decimal value of the digit run `s[i..j]`.
pub open spec fn digits_val(s: Seq<char>, i: int, j: int) -> int
    decreases j - i,
{
    if j <= i {
        0
    } else {
        digits_val(s, i, j - 1) * 10 + (s[j - 1] as u32 - 48)
    }
}

/// Ten to the `k`.
pub open spec fn pow10(k: nat) -> int
    decreases k,
{
    if k == 0 {
        1
    } else {
        10 * pow10((k - 1) as nat)
    }
}

proof fn lemma_skip_sp_bounds(s: Seq<char>, i: int)
    requires
        0 <= i <= s.len(),
    ensures
        i <= spec_skip_sp(s, i) <= s.len(),
    decreases s.len() - i,
{
    if i < s.len() && is_space(s[i]) {
        lemma_skip_sp_bounds(s, i + 1);
    }
}

proof fn lemma_digits_end_bounds(s: Seq<char>, i: int)
    requires
        0 <= i <= s.len(),
    ensures
        i <= digits_end(s, i) <= s.len(),
    decreases s.len() - i,
{
    if i < s.len() && is_digit(s[i]) {
        lemma_digits_end_bounds(s, i + 1);
    }
}

/// A digit run's value is below ten to its length.
proof fn lemma_digits_val_bound(s: Seq<char>, i: int, j: int)
    requires
        i <= j,
        forall|m: int| i <= m < j ==> is_digit(#[trigger] s[m]),
    ensures
        0 <= digits_val(s, i, j) < pow10((j - i) as nat),
    decreases j - i,
{
    if j <= i {
    } else {
        lemma_digits_val_bound(s, i, j - 1);
        assert(is_digit(s[j - 1]));
        assert(pow10((j - i) as nat) == 10 * pow10((j - 1 - i) as nat));
    }
}

/// Tests one separator character.
fn sp_at(s: &str, n: usize, k: usize) -> (r: bool)
    requires
        n == s@.len(),
        k <= n,
    ensures
        r == (k < s@.len() && is_space(s@[k as int])),
{
    if k < n {
        let c = s.get_char(k);
        c == ' ' || c == '\t'
    } else {
        false
    }
}

/// Tests one digit character.
fn digit_at(s: &str, n: usize, k: usize) -> (r: bool)
    requires
        n == s@.len(),
        k <= n,
    ensures
        r == (k < s@.len() && is_digit(s@[k as int])),
{
    if k < n {
        let c = s.get_char(k);
        48 <= c as u32 && c as u32 <= 57
    } else {
        false
    }
}

/// Skips separators.
fn skip_sp(s: &str, n: usize, i: usize) -> (r: usize)
    requires
        n == s@.len(),
        i <= n,
    ensures
        r == spec_skip_sp(s@, i as int),
        i <= r <= n,
{
    let mut k = i;
    while sp_at(s, n, k)
        invariant
            n == s@.len(),
            i <= k <= n,
            spec_skip_sp(s@, i as int) == spec_skip_sp(s@, k as int),
        decreases n - k,
    {
        k = k + 1;
    }
    proof {
        lemma_skip_sp_bounds(s@, k as int);
    }
    k
}

/// Tests one expected character.
fn char_at_is(s: &str, n: usize, i: usize, c: char) -> (r: bool)
    requires
        n == s@.len(),
        i <= n,
    ensures
        r == (i < s@.len() && s@[i as int] == c),
{
    i < n && s.get_char(i) == c
}

/// The value and end of a digit run of at most 15 digits; a longer run
/// fails (the value would not fit the coordinate grid).
fn scan_digits(s: &str, n: usize, i: usize) -> (r: Option<(u64, usize)>)
    requires
        n == s@.len(),
        i <= n,
    ensures
        ({
            let j = digits_end(s@, i as int);
            match r {
                Some(p) => j - i <= 15 && p.0 == digits_val(s@, i as int, j) && p.1 == j && i <= j
                    <= n,
                None => j - i > 15,
            }
        }),
{
    proof {
        lemma_digits_end_bounds(s@, i as int);
    }
    let mut k = i;
    let mut acc: u64 = 0;
    while digit_at(s, n, k) && k - i < 15
        invariant
            n == s@.len(),
            i <= k <= n,
            k - i <= 15,
            forall|m: int| i <= m < k ==> is_digit(s@[m]),
            acc == digits_val(s@, i as int, k as int),
            acc < 0x38d7ea4c68000,
        decreases n - k,
    {
        let c = s.get_char(k);
        let d = (c as u32 - 48) as u64;
        proof {
            lemma_digits_val_bound(s@, i as int, k as int);
            lemma_pow10_15_bound((k - i) as nat);
        }
        acc = acc * 10 + d;
        k = k + 1;
        proof {
            lemma_digits_val_bound(s@, i as int, k as int);
            lemma_pow10_15_bound((k - i) as nat);
        }
    }
    let still_digit = digit_at(s, n, k);
    if still_digit {
        // Fifteen digits seen and more follow: the number is too long.
        proof {
            lemma_digits_end_at_least(s@, i as int, k as int);
        }
        None
    } else {
        proof {
            lemma_digits_end_exact(s@, i as int, k as int);
        }
        Some((acc, k))
    }
}

/// `pow10` of at most 15 is at most `10^15`.
proof fn lemma_pow10_15_bound(k: nat)
    requires
        k <= 15,
    ensures
        pow10(k) <= 0x38d7ea4c68000,
    decreases k,
{
    lemma_pow10_monotone(k, 15);
    assert(pow10(0nat) == 1);
    assert(pow10(1nat) == 10);
    assert(pow10(2nat) == 100);
    assert(pow10(3nat) == 1000);
    assert(pow10(4nat) == 10000);
    assert(pow10(5nat) == 100000);
    assert(pow10(6nat) == 1000000);
    assert(pow10(7nat) == 10000000);
    assert(pow10(8nat) == 100000000);
    assert(pow10(9nat) == 1000000000);
    assert(pow10(10nat) == 10000000000);
    assert(pow10(11nat) == 100000000000);
    assert(pow10(12nat) == 1000000000000);
    assert(pow10(13nat) == 10000000000000);
    assert(pow10(14nat) == 100000000000000);
    assert(pow10(15nat) == 1000000000000000);
}

/// `pow10` is monotone.
proof fn lemma_pow10_monotone(a: nat, b: nat)
    requires
        a <= b,
    ensures
        pow10(a) <= pow10(b),
        pow10(a) >= 1,
    decreases b,
{
    if a == b {
        lemma_pow10_pos(a);
    } else {
        lemma_pow10_monotone(a, (b - 1) as nat);
        lemma_pow10_pos((b - 1) as nat);
        assert(pow10(b) == 10 * pow10((b - 1) as nat));
    }
}

/// `pow10` is positive.
proof fn lemma_pow10_pos(k: nat)
    ensures
        pow10(k) >= 1,
    decreases k,
{
    if k > 0 {
        lemma_pow10_pos((k - 1) as nat);
    }
}

/// When every index in `[i, k)` holds a digit and `k` holds one too, the
/// digit run extends at least past `k`.
proof fn lemma_digits_end_at_least(s: Seq<char>, i: int, k: int)
    requires
        0 <= i <= k < s.len(),
        forall|m: int| i <= m < k ==> is_digit(s[m]),
        is_digit(s[k]),
    ensures
        digits_end(s, i) > k,
    decreases k - i,
{
    if i < k {
        lemma_digits_end_at_least(s, i + 1, k);
    } else {
        lemma_digits_end_bounds(s, i + 1);
    }
}

/// When every index in `[i, k)` holds a digit and `k` does not, the run
/// ends exactly at `k`.
proof fn lemma_digits_end_exact(s: Seq<char>, i: int, k: int)
    requires
        0 <= i <= k <= s.len(),
        forall|m: int| i <= m < k ==> is_digit(s[m]),
        k == s.len() || !is_digit(s[k]),
    ensures
        digits_end(s, i) == k,
    decreases k - i,
{
    if i < k {
        lemma_digits_end_exact(s, i + 1, k);
    }
}

/// The fixed-point value of a parsed decimal: sign, integer digits, and
/// the first (at most eight) fraction digits, rounded to the nearest
/// subunit.
pub open spec fn dec_units(neg: bool, ipv: int, fpv: int, f8: nat) -> int {
    let p = pow10(f8);
    let mag = ipv * UNIT + (fpv * UNIT + p / 2) / p;
    if neg {
        -mag
    } else {
        mag
    }
}

/// A number literal: optional sign, digits, optional decimal point and
/// fraction digits; at least one digit in all; at most 15 integer
/// digits; fraction digits beyond the eighth are read and ignored (they
/// lie far below the grid). Yields the value in coordinate subunits,
/// rounded to nearest.
pub open spec fn spec_parse_number(s: Seq<char>, i: int) -> Option<(i64, int)> {
    let neg = 0 <= i < s.len() && s[i] == '-';
    let signed = 0 <= i < s.len() && (s[i] == '-' || s[i] == '+');
    let i1 = if signed {
        i + 1
    } else {
        i
    };
    let j1 = digits_end(s, i1);
    let dot = j1 < s.len() && s[j1] == '.';
    let fstart = j1 + 1;
    let j2 = if dot {
        digits_end(s, fstart)
    } else {
        j1
    };
    let c1 = j1 - i1;
    let cf = if dot {
        j2 - fstart
    } else {
        0
    };
    if c1 + cf < 1 || c1 > 15 {
        None
    } else {
        let f8 = if cf > 8 {
            8
        } else {
            cf
        };
        let ipv = digits_val(s, i1, j1);
        let fpv = if dot {
            digits_val(s, fstart, fstart + f8)
        } else {
            0
        };
        Some((dec_units(neg, ipv, fpv, f8 as nat) as i64, j2))
    }
}

/// Ten to the `k`, executable for small `k`.
fn pow10_small(k: usize) -> (r: u64)
    requires
        k <= 8,
    ensures
        r == pow10(k as nat),
        1 <= r <= 100000000,
{
    proof {
        assert(pow10(0nat) == 1);
        assert(pow10(1nat) == 10);
        assert(pow10(2nat) == 100);
        assert(pow10(3nat) == 1000);
        assert(pow10(4nat) == 10000);
        assert(pow10(5nat) == 100000);
        assert(pow10(6nat) == 1000000);
        assert(pow10(7nat) == 10000000);
        assert(pow10(8nat) == 100000000);
    }
    if k == 0 {
        1
    } else if k == 1 {
        10
    } else if k == 2 {
        100
    } else if k == 3 {
        1000
    } else if k == 4 {
        10000
    } else if k == 5 {
        100000
    } else if k == 6 {
        1000000
    } else if k == 7 {
        10000000
    } else {
        100000000
    }
}

/// Parses one number literal into coordinate subunits.
fn parse_number(s: &str, n: usize, i: usize) -> (r: Option<(i64, usize)>)
    requires
        n == s@.len(),
        i <= n,
    ensures
        ({
            match r {
                Some(p) => spec_parse_number(s@, i as int) == Some((p.0, p.1 as int)) && i <= p.1
                    <= n,
                None => spec_parse_number(s@, i as int) is None,
            }
        }),
{
    let signed = i < n && {
        let c = s.get_char(i);
        c == '-' || c == '+'
    };
    let neg = i < n && s.get_char(i) == '-';
    let i1 = if signed {
        i + 1
    } else {
        i
    };
    let ip = scan_digits(s, n, i1);
    match ip {
        None => None,
        Some((ipv, j1)) => {
            let dot = j1 < n && s.get_char(j1) == '.';
            if dot {
                let fstart = j1 + 1;
                // The fraction may be arbitrarily long; only its first
                // eight digits carry value on the fixed-point grid.
                let fend = scan_all_digits(s, n, fstart);
                let cf = fend - fstart;
                if j1 - i1 == 0 && cf == 0 {
                    return None;
                }
                let f8 = if cf > 8 {
                    8
                } else {
                    cf
                };
                proof {
                    lemma_digits_run(s@, i1 as int, j1 as int);
                    lemma_digits_run(s@, fstart as int, digits_end(s@, fstart as int));
                }
                let fpv = digits_prefix_val(s, n, fstart, f8);
                let p = pow10_small(f8);
                proof {
                    lemma_digits_val_bound(s@, i1 as int, j1 as int);
                    lemma_pow10_15_bound((j1 - i1) as nat);
                    lemma_digits_val_bound(s@, fstart as int, fstart + f8);
                    lemma_pow10_monotone(f8 as nat, 8);
                    lemma_fpv_small(fpv as int, p as int, s@, fstart as int, f8 as int);
                    lemma_frac_units_bound(fpv as int, p as int);
                }
                let mag = ipv * 256 + (fpv * 256 + p / 2) / p;
                let v: i64 = if neg {
                    -(mag as i64)
                } else {
                    mag as i64
                };
                Some((v, fend))
            } else {
                if j1 - i1 == 0 {
                    return None;
                }
                proof {
                    lemma_digits_run(s@, i1 as int, j1 as int);
                    lemma_digits_val_bound(s@, i1 as int, j1 as int);
                    lemma_pow10_15_bound((j1 - i1) as nat);
                    assert(pow10(0nat) == 1);
                }
                let mag = ipv * 256;
                let v: i64 = if neg {
                    -(mag as i64)
                } else {
                    mag as i64
                };
                Some((v, j1))
            }
        }
    }
}

/// The fraction digits' value stays below the scale it is divided by.
proof fn lemma_fpv_small(fpv: int, p: int, s: Seq<char>, fstart: int, f8: int)
    requires
        0 <= f8,
        fpv == digits_val(s, fstart, fstart + f8),
        p == pow10(f8 as nat),
        forall|m: int| fstart <= m < fstart + f8 ==> is_digit(#[trigger] s[m]),
    ensures
        0 <= fpv < p,
{
    lemma_digits_val_bound(s, fstart, fstart + f8);
}

/// The rounded fraction contribution stays below one whole unit's worth
/// of headroom.
proof fn lemma_frac_units_bound(fpv: int, p: int)
    requires
        1 <= p,
        0 <= fpv < p,
    ensures
        0 <= (fpv * 256 + p / 2) / p <= 256,
{
    assert(0 <= fpv * 256) by (nonlinear_arith)
        requires
            0 <= fpv,
    ;
    vstd::arithmetic::div_mod::lemma_div_pos_is_pos(fpv * 256 + p / 2, p);
    assert(fpv * 256 + p / 2 <= p * 256 + p - 1) by (nonlinear_arith)
        requires
            fpv <= p - 1,
            1 <= p,
    ;
    assert((p * 256 + p - 1) / p <= 256) by (nonlinear_arith)
        requires
            1 <= p,
    ;
    vstd::arithmetic::div_mod::lemma_div_is_ordered(fpv * 256 + p / 2, p * 256 + p - 1, p);
}

/// The end of a digit run of any length.
fn scan_all_digits(s: &str, n: usize, i: usize) -> (r: usize)
    requires
        n == s@.len(),
        i <= n,
    ensures
        r == digits_end(s@, i as int),
        i <= r <= n,
{
    let mut k = i;
    while digit_at(s, n, k)
        invariant
            n == s@.len(),
            i <= k <= n,
            digits_end(s@, i as int) == digits_end(s@, k as int),
        decreases n - k,
    {
        k = k + 1;
    }
    k
}

/// The value of the first `cnt` digits of a digit run.
fn digits_prefix_val(s: &str, n: usize, i: usize, cnt: usize) -> (r: u64)
    requires
        n == s@.len(),
        i <= n,
        cnt <= 8,
        i + cnt <= digits_end(s@, i as int),
        digits_end(s@, i as int) <= n,
    ensures
        r == digits_val(s@, i as int, i + cnt),
        r < 100000000,
{
    let mut k: usize = 0;
    let mut acc: u64 = 0;
    proof {
        lemma_digits_run(s@, i as int, digits_end(s@, i as int));
    }
    while k < cnt
        invariant
            n == s@.len(),
            k <= cnt <= 8,
            i + cnt <= n,
            forall|m: int| i <= m < i + cnt ==> is_digit(s@[m]),
            acc == digits_val(s@, i as int, i + k),
            acc < pow10(k as nat),
        decreases cnt - k,
    {
        let c = s.get_char(i + k);
        let d = (c as u32 - 48) as u64;
        proof {
            lemma_pow10_15_bound(k as nat);
        }
        acc = acc * 10 + d;
        k = k + 1;
    }
    proof {
        lemma_pow10_monotone(cnt as nat, 8);
        assert(pow10(0nat) == 1);
        assert(pow10(1nat) == 10);
        assert(pow10(2nat) == 100);
        assert(pow10(3nat) == 1000);
        assert(pow10(4nat) == 10000);
        assert(pow10(5nat) == 100000);
        assert(pow10(6nat) == 1000000);
        assert(pow10(7nat) == 10000000);
        assert(pow10(8nat) == 100000000);
    }
    acc
}

// ---------------------------------------------------------------------------
// Points, vertex lists and labels.
// ---------------------------------------------------------------------------

/// `( x , y )`: one point literal.
pub open spec fn spec_parse_pos2(s: Seq<char>, i: int) -> Option<(Pos, int)> {
    if 0 <= i < s.len() && s[i] == '(' {
        let i1 = spec_skip_sp(s, i + 1);
        match spec_parse_number(s, i1) {
            Some((x, i2)) => {
                let i3 = spec_skip_sp(s, i2);
                if i3 < s.len() && s[i3] == ',' {
                    let i4 = spec_skip_sp(s, i3 + 1);
                    match spec_parse_number(s, i4) {
                        Some((y, i5)) => {
                            let i6 = spec_skip_sp(s, i5);
                            if i6 < s.len() && s[i6] == ')' {
                                Some((Pos { x, y }, i6 + 1))
                            } else {
                                None
                            }
                        },
                        None => None,
                    }
                } else {
                    None
                }
            },
            None => None,
        }
    } else {
        None
    }
}

/// Parses one point literal.
pub fn parse_pos2(s: &str, n: usize, i: usize) -> (r: Option<(Pos, usize)>)
    requires
        n == s@.len(),
        i <= n,
    ensures
        match r {
            Some(p) => spec_parse_pos2(s@, i as int) == Some((p.0, p.1 as int)) && i < p.1 <= n,
            None => spec_parse_pos2(s@, i as int) is None,
        },
{
    if char_at_is(s, n, i, '(') {
        let i1 = skip_sp(s, n, i + 1);
        match parse_number(s, n, i1) {
            Some((x, i2)) => {
                let i3 = skip_sp(s, n, i2);
                if char_at_is(s, n, i3, ',') {
                    let i4 = skip_sp(s, n, i3 + 1);
                    match parse_number(s, n, i4) {
                        Some((y, i5)) => {
                            let i6 = skip_sp(s, n, i5);
                            if char_at_is(s, n, i6, ')') {
                                Some((Pos { x, y }, i6 + 1))
                            } else {
                                None
                            }
                        }
                        None => None,
                    }
                } else {
                    None
                }
            }
            None => None,
        }
    } else {
        None
    }
}

/// The remaining `, (x,y)` groups of a vertex list, after one point.
pub open spec fn spec_pos_list_more(s: Seq<char>, i: int) -> (Seq<Pos>, int)
    decreases s.len() - i,
{
    let i1 = spec_skip_sp(s, i);
    if i1 < s.len() && s[i1] == ',' {
        let i2 = spec_skip_sp(s, i1 + 1);
        match spec_parse_pos2(s, i2) {
            Some((p, j)) => if i < j <= s.len() {
                let r = spec_pos_list_more(s, j);
                (seq![p] + r.0, r.1)
            } else {
                (Seq::<Pos>::empty(), i)
            },
            None => (Seq::<Pos>::empty(), i),
        }
    } else {
        (Seq::<Pos>::empty(), i)
    }
}

/// A comma-separated vertex list, possibly empty.
pub open spec fn spec_parse_pos_list(s: Seq<char>, i: int) -> (Seq<Pos>, int) {
    match spec_parse_pos2(s, i) {
        Some((p, j)) => if i < j <= s.len() {
            let r = spec_pos_list_more(s, j);
            (seq![p] + r.0, r.1)
        } else {
            (seq![p], j)
        },
        None => (Seq::<Pos>::empty(), i),
    }
}

/// Parses a comma-separated vertex list.
fn parse_pos_list(s: &str, n: usize, i: usize) -> (r: (Vec<Pos>, usize))
    requires
        n == s@.len(),
        i <= n,
    ensures
        ({
            let sp = spec_parse_pos_list(s@, i as int);
            r.0@ == sp.0 && r.1 as int == sp.1 && i <= r.1 <= n
        }),
{
    let mut acc: Vec<Pos> = Vec::new();
    let mut cur: usize;
    match parse_pos2(s, n, i) {
        None => {
            proof {
                assert(acc@ =~= spec_parse_pos_list(s@, i as int).0);
            }
            return (acc, i);
        }
        Some((p, j)) => {
            acc.push(p);
            cur = j;
        }
    }
    loop
        invariant
            n == s@.len(),
            i < cur <= n,
            acc@.len() >= 1,
            ({
                let sp = spec_parse_pos_list(s@, i as int);
                let more = spec_pos_list_more(s@, cur as int);
                sp.0 == acc@ + more.0 && sp.1 == more.1
            }),
        decreases n - cur,
    {
        let i1 = skip_sp(s, n, cur);
        if !char_at_is(s, n, i1, ',') {
            proof {
                assert(spec_pos_list_more(s@, cur as int).0 =~= Seq::<Pos>::empty());
                assert(acc@ + Seq::<Pos>::empty() =~= acc@);
            }
            return (acc, cur);
        }
        let i2 = skip_sp(s, n, i1 + 1);
        match parse_pos2(s, n, i2) {
            None => {
                proof {
                    assert(spec_pos_list_more(s@, cur as int).0 =~= Seq::<Pos>::empty());
                    assert(acc@ + Seq::<Pos>::empty() =~= acc@);
                }
                return (acc, cur);
            }
            Some((p, j)) => {
                let ghost prev = acc@;
                proof {
                    let more = spec_pos_list_more(s@, cur as int);
                    let rest = spec_pos_list_more(s@, j as int);
                    assert(more.0 == seq![p] + rest.0 && more.1 == rest.1);
                    assert(prev + (seq![p] + rest.0) =~= prev.push(p) + rest.0);
                }
                acc.push(p);
                cur = j;
            }
        }
    }
}

/// Where the closing `}}` of a label that starts at `i` begins.
pub open spec fn spec_msg_end(s: Seq<char>, i: int) -> Option<int>
    decreases s.len() - i,
{
    if i + 2 > s.len() || i < 0 {
        None
    } else if s[i] == '}' && s[i + 1] == '}' {
        Some(i)
    } else {
        spec_msg_end(s, i + 1)
    }
}

/// `{{ ... }}`: a label, capturing raw characters up to the first `}}`.
/// No escaping exists, so a label cannot itself contain `}}`.
pub open spec fn spec_parse_msg(s: Seq<char>, i: int) -> Option<(Seq<char>, int)> {
    if i + 2 <= s.len() && s[i] == '{' && s[i + 1] == '{' {
        match spec_msg_end(s, i + 2) {
            Some(e) => Some((s.subrange(i + 2, e), e + 2)),
            None => None,
        }
    } else {
        None
    }
}

proof fn lemma_msg_end_bounds(s: Seq<char>, i: int)
    requires
        0 <= i,
    ensures
        match spec_msg_end(s, i) {
            Some(e) => i <= e && e + 2 <= s.len(),
            None => true,
        },
    decreases s.len() - i,
{
    if i + 2 > s.len() {
    } else if s[i] == '}' && s[i + 1] == '}' {
    } else {
        lemma_msg_end_bounds(s, i + 1);
    }
}

/// Parses a label.
fn parse_msg(s: &str, n: usize, i: usize) -> (r: Option<(String, usize)>)
    requires
        n == s@.len(),
        i <= n,
    ensures
        match r {
            Some(p) => spec_parse_msg(s@, i as int) == Some((p.0@, p.1 as int)) && i < p.1 <= n,
            None => spec_parse_msg(s@, i as int) is None,
        },
{
    if n - i >= 2 && char_at_is(s, n, i, '{') && char_at_is(s, n, i + 1, '{') {
        let mut k = i + 2;
        loop
            invariant
                n == s@.len(),
                i + 2 <= k <= n,
                s@[i as int] == '{' && s@[i + 1] == '{',
                spec_msg_end(s@, (i + 2) as int) == spec_msg_end(s@, k as int),
            decreases n - k,
        {
            if n - k < 2 {
                return None;
            }
            if char_at_is(s, n, k, '}') && char_at_is(s, n, k + 1, '}') {
                proof {
                    assert(spec_msg_end(s@, k as int) == Some(k as int));
                }
                let m = s.substring_char(i + 2, k);
                let msg = m.to_owned();
                return Some((msg, k + 2));
            }
            k = k + 1;
        }
    } else {
        None
    }
}

// ---------------------------------------------------------------------------
// Elements, frames and whole documents.
// ---------------------------------------------------------------------------

/// The default stroke: black, one unit wide.
pub open spec fn spec_default_stroke() -> Stroke {
    Stroke { color: Color { r: 0u8, g: 0u8, b: 0u8, a: 255u8 }, width: UNIT }
}

/// The five-vertex outline of a rectangle, closing back on the first
/// corner.
pub open spec fn spec_rect_outline(r: Rect) -> Seq<Pos> {
    seq![
        r.min,
        Pos { x: r.max.x, y: r.min.y },
        r.max,
        Pos { x: r.min.x, y: r.max.y },
        r.min,
    ]
}

/// The four corners of a rectangle, closed by its fill.
pub open spec fn spec_rect_corners(r: Rect) -> Seq<Pos> {
    seq![r.min, Pos { x: r.max.x, y: r.min.y }, r.max, Pos { x: r.min.x, y: r.max.y }]
}

/// `p [(x,y), ...] {{label}}`: an open polyline with the default stroke;
/// a label makes its segments hoverable.
pub open spec fn spec_parse_path_elem(s: Seq<char>, i: int) -> Option<(FrameElementView, int)> {
    if i + 2 <= s.len() && s[i] == 'p' && s[i + 1] == ' ' {
        let i1 = spec_skip_sp(s, i + 2);
        if i1 < s.len() && s[i1] == '[' {
            let i2 = spec_skip_sp(s, i1 + 1);
            let lr = spec_parse_pos_list(s, i2);
            let j1 = spec_skip_sp(s, lr.1);
            if j1 < s.len() && s[j1] == ']' {
                let i3 = spec_skip_sp(s, j1 + 1);
                let shape = ElementKindView::Shape(
                    crate::scene::ShapeView::Path(
                        crate::scene::PathView { vp: lr.0, fill: None, stroke: spec_default_stroke() },
                    ),
                );
                match spec_parse_msg(s, i3) {
                    Some((m, j2)) => Some(
                        (
                            FrameElementView {
                                shape,
                                hover: Some(
                                    HoverView { hover_cond: HoverConditionView::Path(lr.0), msg: m },
                                ),
                            },
                            j2,
                        ),
                    ),
                    None => Some((FrameElementView { shape, hover: None }, i3)),
                }
            } else {
                None
            }
        } else {
            None
        }
    } else {
        None
    }
}

/// `r (x1,y1) (x2,y2) {{label}}`: an axis-aligned unfilled rectangle,
/// drawn as its closed five-vertex outline with the default stroke; a
/// label makes the whole rectangle hoverable.
pub open spec fn spec_parse_rect_elem(s: Seq<char>, i: int) -> Option<(FrameElementView, int)> {
    if 0 <= i < s.len() && s[i] == 'r' {
        let i1 = spec_skip_sp(s, i + 1);
        match spec_parse_pos2(s, i1) {
            Some((p1, j1)) => {
                let i2 = spec_skip_sp(s, j1);
                match spec_parse_pos2(s, i2) {
                    Some((p2, j2)) => {
                        let i3 = spec_skip_sp(s, j2);
                        let rect = spec_rect_from_two_pos(p1, p2);
                        let shape = ElementKindView::Shape(
                            crate::scene::ShapeView::Path(
                                crate::scene::PathView {
                                    vp: spec_rect_outline(rect),
                                    fill: None,
                                    stroke: spec_default_stroke(),
                                },
                            ),
                        );
                        match spec_parse_msg(s, i3) {
                            Some((m, j3)) => Some(
                                (
                                    FrameElementView {
                                        shape,
                                        hover: Some(
                                            HoverView {
                                                hover_cond: HoverConditionView::Rect(rect),
                                                msg: m,
                                            },
                                        ),
                                    },
                                    j3,
                                ),
                            ),
                            None => Some((FrameElementView { shape, hover: None }, i3)),
                        }
                    },
                    None => None,
                }
            },
            None => None,
        }
    } else {
        None
    }
}

/// `rf (x1,y1) (x2,y2) <color> {{label}}`: a filled rectangle, drawn as
/// its four corners closed by the fill, with no stroke.
pub open spec fn spec_parse_rect_fill_elem(s: Seq<char>, i: int) -> Option<
    (FrameElementView, int),
> {
    if i + 2 <= s.len() && s[i] == 'r' && s[i + 1] == 'f' {
        let i1 = spec_skip_sp(s, i + 2);
        match spec_parse_pos2(s, i1) {
            Some((p1, j1)) => {
                let i2 = spec_skip_sp(s, j1);
                match spec_parse_pos2(s, i2) {
                    Some((p2, j2)) => {
                        let i3 = spec_skip_sp(s, j2);
                        match crate::parser::color::spec_parse_color(s, i3) {
                            Some((c, j3)) => {
                                let i4 = spec_skip_sp(s, j3);
                                let rect = spec_rect_from_two_pos(p1, p2);
                                let shape = ElementKindView::Shape(
                                    crate::scene::ShapeView::Path(
                                        crate::scene::PathView {
                                            vp: spec_rect_corners(rect),
                                            fill: Some(c),
                                            stroke: Stroke {
                                                color: Color { r: 0u8, g: 0u8, b: 0u8, a: 0u8 },
                                                width: 0,
                                            },
                                        },
                                    ),
                                );
                                match spec_parse_msg(s, i4) {
                                    Some((m, j4)) => Some(
                                        (
                                            FrameElementView {
                                                shape,
                                                hover: Some(
                                                    HoverView {
                                                        hover_cond: HoverConditionView::Rect(rect),
                                                        msg: m,
                                                    },
                                                ),
                                            },
                                            j4,
                                        ),
                                    ),
                                    None => Some((FrameElementView { shape, hover: None }, i4)),
                                }
                            },
                            None => None,
                        }
                    },
                    None => None,
                }
            },
            None => None,
        }
    } else {
        None
    }
}

/// One element declaration: an open path, a filled rectangle, or a
/// rectangle outline, told apart by their leading tokens.
pub open spec fn spec_parse_element(s: Seq<char>, i: int) -> Option<(FrameElementView, int)> {
    if i + 2 <= s.len() && s[i] == 'p' && s[i + 1] == ' ' {
        spec_parse_path_elem(s, i)
    } else if i + 2 <= s.len() && s[i] == 'r' && s[i + 1] == 'f' {
        spec_parse_rect_fill_elem(s, i)
    } else if 0 <= i < s.len() && s[i] == 'r' {
        spec_parse_rect_elem(s, i)
    } else {
        None
    }
}

/// A run of element lines, each closed by a newline; it ends before the
/// first line that is not an element declaration.
pub open spec fn spec_parse_elems(s: Seq<char>, i: int) -> (Seq<FrameElementView>, int)
    decreases s.len() - i,
{
    match spec_parse_element(s, i) {
        Some((e, j)) => {
            let j1 = spec_skip_sp(s, j);
            if j1 < s.len() && s[j1] == '\n' && i < j1 + 1 {
                let r = spec_parse_elems(s, j1 + 1);
                (seq![e] + r.0, r.1)
            } else {
                (Seq::<FrameElementView>::empty(), i)
            }
        },
        None => (Seq::<FrameElementView>::empty(), i),
    }
}

/// `# (x1,y1) (x2,y2)` and its element lines: one frame with the
/// normalized bounds the header names.
pub open spec fn spec_parse_frame(s: Seq<char>, i: int) -> Option<(PaintFrameView, int)> {
    if i + 2 <= s.len() && s[i] == '#' && s[i + 1] == ' ' {
        let i1 = spec_skip_sp(s, i + 2);
        match spec_parse_pos2(s, i1) {
            Some((p1, j1)) => {
                let i2 = spec_skip_sp(s, j1);
                match spec_parse_pos2(s, i2) {
                    Some((p2, j2)) => {
                        let i3 = spec_skip_sp(s, j2);
                        if i3 < s.len() && s[i3] == '\n' {
                            let er = spec_parse_elems(s, i3 + 1);
                            Some(
                                (
                                    PaintFrameView {
                                        elems: er.0,
                                        rect: spec_rect_from_two_pos(p1, p2),
                                    },
                                    er.1,
                                ),
                            )
                        } else {
                            None
                        }
                    },
                    None => None,
                }
            },
            None => None,
        }
    } else {
        None
    }
}

/// A run of frames.
pub open spec fn spec_parse_frames(s: Seq<char>, i: int) -> (Seq<PaintFrameView>, int)
    decreases s.len() - i,
{
    match spec_parse_frame(s, i) {
        Some((f, j)) => if i < j <= s.len() {
            let r = spec_parse_frames(s, j);
            (seq![f] + r.0, r.1)
        } else {
            (seq![f], j)
        },
        None => (Seq::<PaintFrameView>::empty(), i),
    }
}

/// A whole document: either one or more headed frames, or — when no
/// header appears at all — a single implicit frame with sentinel bounds
/// holding the document's element lines. Trailing unconsumed input fails
/// the whole parse; nothing partial is kept.
pub open spec fn spec_multi_parse(s: Seq<char>) -> Option<Seq<PaintFrameView>> {
    let fr = spec_parse_frames(s, 0);
    if fr.0.len() > 0 {
        if fr.1 == s.len() {
            Some(fr.0)
        } else {
            None
        }
    } else {
        let er = spec_parse_elems(s, 0);
        if er.1 == s.len() {
            Some(
                seq![
                    PaintFrameView {
                        elems: er.0,
                        rect: Rect::spec_nothing(),
                    },
                ],
            )
        } else {
            None
        }
    }
}

/// Every index before a digit run's end holds a digit.
proof fn lemma_digits_run(s: Seq<char>, i: int, j: int)
    requires
        0 <= i,
        j == digits_end(s, i),
    ensures
        forall|m: int| i <= m < j ==> is_digit(s[m]),
    decreases j - i,
{
    if 0 <= i < s.len() && is_digit(s[i]) {
        if digits_end(s, i + 1) > i {
            lemma_digits_run(s, i + 1, j);
        }
    }
}

/// Parses one element declaration.
fn parse_element(s: &str, n: usize, i: usize) -> (r: Option<(FrameElement, usize)>)
    requires
        n == s@.len(),
        i <= n,
    ensures
        match r {
            Some(p) => spec_parse_element(s@, i as int) == Some((p.0@, p.1 as int)) && i < p.1
                <= n,
            None => spec_parse_element(s@, i as int) is None,
        },
{
    if n - i >= 2 && char_at_is(s, n, i, 'p') && char_at_is(s, n, i + 1, ' ') {
        parse_path_elem(s, n, i)
    } else if n - i >= 2 && char_at_is(s, n, i, 'r') && char_at_is(s, n, i + 1, 'f') {
        parse_rect_fill_elem(s, n, i)
    } else if char_at_is(s, n, i, 'r') {
        parse_rect_elem(s, n, i)
    } else {
        None
    }
}

/// The default stroke, executable.
fn default_stroke() -> (r: Stroke)
    ensures
        r == spec_default_stroke(),
{
    Stroke { color: Color { r: 0, g: 0, b: 0, a: 255 }, width: UNIT }
}

fn rect_outline(r: Rect) -> (v: Vec<Pos>)
    ensures
        v@ == spec_rect_outline(r),
{
    let mut v: Vec<Pos> = Vec::new();
    v.push(r.min);
    v.push(Pos { x: r.max.x, y: r.min.y });
    v.push(r.max);
    v.push(Pos { x: r.min.x, y: r.max.y });
    v.push(r.min);
    proof {
        assert(v@ =~= spec_rect_outline(r));
    }
    v
}

fn rect_corners(r: Rect) -> (v: Vec<Pos>)
    ensures
        v@ == spec_rect_corners(r),
{
    let mut v: Vec<Pos> = Vec::new();
    v.push(r.min);
    v.push(Pos { x: r.max.x, y: r.min.y });
    v.push(r.max);
    v.push(Pos { x: r.min.x, y: r.max.y });
    proof {
        assert(v@ =~= spec_rect_corners(r));
    }
    v
}

fn parse_path_elem(s: &str, n: usize, i: usize) -> (r: Option<(FrameElement, usize)>)
    requires
        n == s@.len(),
        i <= n,
        i + 2 <= s@.len() && s@[i as int] == 'p' && s@[i + 1] == ' ',
    ensures
        match r {
            Some(p) => spec_parse_path_elem(s@, i as int) == Some((p.0@, p.1 as int)) && i < p.1
                <= n,
            None => spec_parse_path_elem(s@, i as int) is None,
        },
{
    let i1 = skip_sp(s, n, i + 2);
    if char_at_is(s, n, i1, '[') {
        let i2 = skip_sp(s, n, i1 + 1);
        let (vp, lend) = parse_pos_list(s, n, i2);
        let j1 = skip_sp(s, n, lend);
        if char_at_is(s, n, j1, ']') {
            let i3 = skip_sp(s, n, j1 + 1);
            match parse_msg(s, n, i3) {
                Some((m, j2)) => {
                    let hover = Some(
                        Hover { hover_cond: HoverCondition::Path(vp.clone()), msg: m },
                    );
                    let shape = ElementKind::Shape(
                        Shape::Path(Path { vp, fill: None, stroke: default_stroke() }),
                    );
                    Some((FrameElement { shape, hover }, j2))
                }
                None => {
                    let shape = ElementKind::Shape(
                        Shape::Path(Path { vp, fill: None, stroke: default_stroke() }),
                    );
                    Some((FrameElement { shape, hover: None }, i3))
                }
            }
        } else {
            None
        }
    } else {
        None
    }
}

fn parse_rect_elem(s: &str, n: usize, i: usize) -> (r: Option<(FrameElement, usize)>)
    requires
        n == s@.len(),
        i <= n,
        i < s@.len() && s@[i as int] == 'r',
    ensures
        match r {
            Some(p) => spec_parse_rect_elem(s@, i as int) == Some((p.0@, p.1 as int)) && i < p.1
                <= n,
            None => spec_parse_rect_elem(s@, i as int) is None,
        },
{
    let i1 = skip_sp(s, n, i + 1);
    match parse_pos2(s, n, i1) {
        Some((p1, j1)) => {
            let i2 = skip_sp(s, n, j1);
            match parse_pos2(s, n, i2) {
                Some((p2, j2)) => {
                    let i3 = skip_sp(s, n, j2);
                    let rect = rect_from_two_pos(p1, p2);
                    match parse_msg(s, n, i3) {
                        Some((m, j3)) => {
                            let hover = Some(
                                Hover { hover_cond: HoverCondition::Rect(rect), msg: m },
                            );
                            let shape = ElementKind::Shape(
                                Shape::Path(
                                    Path {
                                        vp: rect_outline(rect),
                                        fill: None,
                                        stroke: default_stroke(),
                                    },
                                ),
                            );
                            Some((FrameElement { shape, hover }, j3))
                        }
                        None => {
                            let shape = ElementKind::Shape(
                                Shape::Path(
                                    Path {
                                        vp: rect_outline(rect),
                                        fill: None,
                                        stroke: default_stroke(),
                                    },
                                ),
                            );
                            Some((FrameElement { shape, hover: None }, i3))
                        }
                    }
                }
                None => None,
            }
        }
        None => None,
    }
}

fn parse_rect_fill_elem(s: &str, n: usize, i: usize) -> (r: Option<(FrameElement, usize)>)
    requires
        n == s@.len(),
        i <= n,
        i + 2 <= s@.len() && s@[i as int] == 'r' && s@[i + 1] == 'f',
    ensures
        match r {
            Some(p) => spec_parse_rect_fill_elem(s@, i as int) == Some((p.0@, p.1 as int)) && i
                < p.1 <= n,
            None => spec_parse_rect_fill_elem(s@, i as int) is None,
        },
{
    let i1 = skip_sp(s, n, i + 2);
    match parse_pos2(s, n, i1) {
        Some((p1, j1)) => {
            let i2 = skip_sp(s, n, j1);
            match parse_pos2(s, n, i2) {
                Some((p2, j2)) => {
                    let i3 = skip_sp(s, n, j2);
                    match crate::parser::color::parse_color(s, n, i3) {
                        Some((c, j3)) => {
                            let i4 = skip_sp(s, n, j3);
                            let rect = rect_from_two_pos(p1, p2);
                            let fill_stroke = Stroke {
                                color: Color { r: 0, g: 0, b: 0, a: 0 },
                                width: 0,
                            };
                            match parse_msg(s, n, i4) {
                                Some((m, j4)) => {
                                    let hover = Some(
                                        Hover { hover_cond: HoverCondition::Rect(rect), msg: m },
                                    );
                                    let shape = ElementKind::Shape(
                                        Shape::Path(
                                            Path {
                                                vp: rect_corners(rect),
                                                fill: Some(c),
                                                stroke: fill_stroke,
                                            },
                                        ),
                                    );
                                    Some((FrameElement { shape, hover }, j4))
                                }
                                None => {
                                    let shape = ElementKind::Shape(
                                        Shape::Path(
                                            Path {
                                                vp: rect_corners(rect),
                                                fill: Some(c),
                                                stroke: fill_stroke,
                                            },
                                        ),
                                    );
                                    Some((FrameElement { shape, hover: None }, i4))
                                }
                            }
                        }
                        None => None,
                    }
                }
                None => None,
            }
        }
        None => None,
    }
}

/// Parses a run of element lines.
fn parse_elems(s: &str, n: usize, i: usize) -> (r: (Vec<FrameElement>, usize))
    requires
        n == s@.len(),
        i <= n,
    ensures
        ({
            let sp = spec_parse_elems(s@, i as int);
            r.0.deep_view() == sp.0 && r.1 as int == sp.1 && i <= r.1 <= n
        }),
{
    let mut acc: Vec<FrameElement> = Vec::new();
    let mut cur: usize = i;
    loop
        invariant
            n == s@.len(),
            i <= cur <= n,
            ({
                let sp = spec_parse_elems(s@, i as int);
                let rest = spec_parse_elems(s@, cur as int);
                sp.0 == acc.deep_view() + rest.0 && sp.1 == rest.1
            }),
        decreases n - cur,
    {
        let saved = cur;
        match parse_element(s, n, cur) {
            None => {
                proof {
                    assert(spec_parse_elems(s@, cur as int).0
                        =~= Seq::<FrameElementView>::empty());
                    assert(acc.deep_view() + Seq::<FrameElementView>::empty()
                        =~= acc.deep_view());
                }
                return (acc, cur);
            }
            Some((e, j)) => {
                let j1 = skip_sp(s, n, j);
                if !char_at_is(s, n, j1, '\n') {
                    proof {
                        assert(spec_parse_elems(s@, cur as int).0
                            =~= Seq::<FrameElementView>::empty());
                        assert(acc.deep_view() + Seq::<FrameElementView>::empty()
                            =~= acc.deep_view());
                    }
                    return (acc, cur);
                }
                let ghost prev = acc.deep_view();
                let ghost ev = e.deep_view();
                proof {
                    let rest = spec_parse_elems(s@, (j1 + 1) as int);
                    assert(spec_parse_elems(s@, cur as int).0 == seq![ev] + rest.0);
                    assert(prev + (seq![ev] + rest.0) =~= prev.push(ev) + rest.0);
                }
                acc.push(e);
                proof {
                    assert(acc.deep_view() =~= prev.push(ev));
                }
                cur = j1 + 1;
            }
        }
    }
}

impl PaintFrame {
    /// Parses one headed frame from the start of `s`; on success yields
    /// the frame and how many characters it consumed.
    pub fn parse(s: &str) -> (r: Result<(PaintFrame, usize), ParseError>)
        ensures
            match r {
                Ok(p) => spec_parse_frame(s@, 0) == Some((p.0@, p.1 as int)) && p.1 <= s@.len(),
                Err(_) => spec_parse_frame(s@, 0) is None,
            },
    {
        let n = s.unicode_len();
        match parse_frame_at(s, n, 0) {
            Some(p) => Ok(p),
            None => Err(ParseError { position: 0, expected: "frame header" }),
        }
    }

    /// Parses a whole document: one or more headed frames, or — with no
    /// header at all — a single implicit frame with sentinel bounds.
    /// Trailing input that matches no production fails the whole parse.
    pub fn multi_parse(s: &str) -> (r: Result<Vec<PaintFrame>, ParseError>)
        ensures
            match r {
                Ok(v) => spec_multi_parse(s@) == Some(v.deep_view()),
                Err(e) => spec_multi_parse(s@) is None && e.position as int == ({
                    let fr = spec_parse_frames(s@, 0);
                    if fr.0.len() > 0 {
                        fr.1
                    } else {
                        spec_parse_elems(s@, 0).1
                    }
                }),
            },
    {
        let n = s.unicode_len();
        let (acc, cur) = parse_frames_run(s, n);
        if acc.len() > 0 {
            if cur == n {
                Ok(acc)
            } else {
                Err(ParseError { position: cur, expected: "frame header" })
            }
        } else {
            let (es, k) = parse_elems(s, n, 0);
            if k == n {
                let f = PaintFrame { elems: es, rect: Rect::nothing() };
                let mut v: Vec<PaintFrame> = Vec::new();
                let ghost fv = f.deep_view();
                v.push(f);
                proof {
                    assert(v.deep_view() =~= seq![fv]);
                }
                Ok(v)
            } else {
                Err(ParseError { position: k, expected: "statement" })
            }
        }
    }
}

/// Parses the run of headed frames at the start of the document.
fn parse_frames_run(s: &str, n: usize) -> (r: (Vec<PaintFrame>, usize))
    requires
        n == s@.len(),
    ensures
        ({
            let sp = spec_parse_frames(s@, 0);
            r.0.deep_view() == sp.0 && r.1 as int == sp.1 && r.1 <= n
        }),
{
    let mut acc: Vec<PaintFrame> = Vec::new();
    let mut cur: usize = 0;
    loop
        invariant
            n == s@.len(),
            cur <= n,
            ({
                let sp = spec_parse_frames(s@, 0);
                let rest = spec_parse_frames(s@, cur as int);
                sp.0 == acc.deep_view() + rest.0 && sp.1 == rest.1
            }),
        decreases n - cur,
    {
        match parse_frame_at(s, n, cur) {
            None => {
                proof {
                    assert(spec_parse_frames(s@, cur as int).0
                        =~= Seq::<PaintFrameView>::empty());
                    assert(acc.deep_view() + Seq::<PaintFrameView>::empty()
                        =~= acc.deep_view());
                }
                return (acc, cur);
            }
            Some((f, j)) => {
                let ghost prev = acc.deep_view();
                let ghost fv = f.deep_view();
                proof {
                    let rest = spec_parse_frames(s@, j as int);
                    assert(spec_parse_frames(s@, cur as int).0 == seq![fv] + rest.0);
                    assert(prev + (seq![fv] + rest.0) =~= prev.push(fv) + rest.0);
                }
                acc.push(f);
                proof {
                    assert(acc.deep_view() =~= prev.push(fv));
                }
                cur = j;
            }
        }
    }
}

/// Parses one headed frame at `i`.
fn parse_frame_at(s: &str, n: usize, i: usize) -> (r: Option<(PaintFrame, usize)>)
    requires
        n == s@.len(),
        i <= n,
    ensures
        match r {
            Some(p) => spec_parse_frame(s@, i as int) == Some((p.0@, p.1 as int)) && i < p.1 <= n,
            None => spec_parse_frame(s@, i as int) is None,
        },
{
    if n - i >= 2 && char_at_is(s, n, i, '#') && char_at_is(s, n, i + 1, ' ') {
        let i1 = skip_sp(s, n, i + 2);
        match parse_pos2(s, n, i1) {
            Some((p1, j1)) => {
                let i2 = skip_sp(s, n, j1);
                match parse_pos2(s, n, i2) {
                    Some((p2, j2)) => {
                        let i3 = skip_sp(s, n, j2);
                        if char_at_is(s, n, i3, '\n') {
                            let (elems, j) = parse_elems(s, n, i3 + 1);
                            let f = PaintFrame { elems, rect: rect_from_two_pos(p1, p2) };
                            proof {
                                assert(f@ =~= spec_parse_frame(s@, i as int).unwrap().0);
                            }
                            Some((f, j))
                        } else {
                            None
                        }
                    }
                    None => None,
                }
            }
            None => None,
        }
    } else {
        None
    }
}

} // verus!
