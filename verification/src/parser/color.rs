//! The color literal sub-grammar: `none()`, `named(NAME)`, `tag(N)` and
//! `turbo(T)`, usable wherever the main grammar wants a color.

use vstd::prelude::*;
use crate::scene::Color;
use crate::color::{spec_tag, spec_turbo};
use crate::parser::{
    spec_skip_sp, skip_sp, digits_end, digits_val, spec_parse_number, parse_number, is_digit,
    char_at_is, scan_digits,
};

verus! {

/// An ASCII letter.
pub open spec fn is_alpha(c: char) -> bool {
    (65 <= c as u32 <= 90) || (97 <= c as u32 <= 122)
}

/// The first index at or after `i` that does not hold a letter.
pub open spec fn alpha_end(s: Seq<char>, i: int) -> int
    decreases s.len() - i,
{
    if 0 <= i < s.len() && is_alpha(s[i]) {
        alpha_end(s, i + 1)
    } else {
        i
    }
}

/// What the fixed CSS color-name table yields for a name: the channel
/// triple, or nothing when the name is unknown.
pub uninterp spec fn named_color_of(name: Seq<char>) -> Option<(u8, u8, u8)>;

/// Relies on color_name's `css::Color::by_string`: a lookup in the
/// crate's fixed CSS color table, so the result depends on the name
/// alone. The name is a nonempty ASCII letter run, on which the lookup
/// cannot panic.
#[verifier::external_body]
fn lookup_named_color(name: &str) -> (r: Option<(u8, u8, u8)>)
    requires
        name@.len() > 0,
        forall|m: int| 0 <= m < name@.len() ==> is_alpha(#[trigger] name@[m]),
    ensures
        r == named_color_of(name@),
{
    match color_name::css::Color::val().by_string(name.to_string()) {
        Ok(c) => Some((c[0], c[1], c[2])),
        Err(_) => None,
    }
}

/// `tag ( N )`: the deterministic tag color of the integer `N`.
pub open spec fn spec_parse_tag_color(s: Seq<char>, i: int) -> Option<(Color, int)> {
    if i + 3 <= s.len() && s[i] == 't' && s[i + 1] == 'a' && s[i + 2] == 'g' {
        let i1 = spec_skip_sp(s, i + 3);
        if i1 < s.len() && s[i1] == '(' {
            let i2 = spec_skip_sp(s, i1 + 1);
            let j = digits_end(s, i2);
            let v = digits_val(s, i2, j);
            if j - i2 < 1 || j - i2 > 15 || v > usize::MAX {
                None
            } else {
                let i3 = spec_skip_sp(s, j);
                if i3 < s.len() && s[i3] == ')' {
                    Some((spec_tag(v as usize), i3 + 1))
                } else {
                    None
                }
            }
        } else {
            None
        }
    } else {
        None
    }
}

/// `none()`: the fully transparent color.
pub open spec fn spec_parse_none_color(s: Seq<char>, i: int) -> Option<(Color, int)> {
    if i + 6 <= s.len() && s[i] == 'n' && s[i + 1] == 'o' && s[i + 2] == 'n' && s[i + 3] == 'e'
        && s[i + 4] == '(' && s[i + 5] == ')' {
        Some((Color { r: 0u8, g: 0u8, b: 0u8, a: 0u8 }, i + 6))
    } else {
        None
    }
}

/// `named(NAME)`: the table color of the name, black when unknown.
pub open spec fn spec_parse_named_color(s: Seq<char>, i: int) -> Option<(Color, int)> {
    if i + 6 <= s.len() && s[i] == 'n' && s[i + 1] == 'a' && s[i + 2] == 'm' && s[i + 3] == 'e'
        && s[i + 4] == 'd' && s[i + 5] == '(' {
        let j = alpha_end(s, i + 6);
        if j - (i + 6) < 1 {
            None
        } else if j < s.len() && s[j] == ')' {
            let c = match named_color_of(s.subrange(i + 6, j)) {
                Some(t) => Color { r: t.0, g: t.1, b: t.2, a: 255u8 },
                None => Color { r: 0u8, g: 0u8, b: 0u8, a: 255u8 },
            };
            Some((c, j + 1))
        } else {
            None
        }
    } else {
        None
    }
}

/// `NAME ( T )` for a numeric-argument color function: yields the
/// argument in subunits and the cursor after the closing parenthesis.
/// The name itself must already have been matched by the caller.
pub open spec fn spec_parse_func_arg(s: Seq<char>, i: int) -> Option<(i64, int)> {
    if i < s.len() && s[i] == '(' {
        let i1 = spec_skip_sp(s, i + 1);
        match spec_parse_number(s, i1) {
            Some((v, j)) => {
                let j1 = spec_skip_sp(s, j);
                if j1 < s.len() && s[j1] == ')' {
                    Some((v, j1 + 1))
                } else {
                    None
                }
            },
            None => None,
        }
    } else {
        None
    }
}

/// `turbo ( T )`: the fixed gradient sampled at `T`.
pub open spec fn spec_parse_turbo_color(s: Seq<char>, i: int) -> Option<(Color, int)> {
    if i + 5 <= s.len() && s[i] == 't' && s[i + 1] == 'u' && s[i + 2] == 'r' && s[i + 3] == 'b'
        && s[i + 4] == 'o' {
        match spec_parse_func_arg(s, i + 5) {
            Some((v, j)) => Some((spec_turbo(v), j)),
            None => None,
        }
    } else {
        None
    }
}

/// A color literal: `tag(N)`, `none()`, `named(NAME)` or `turbo(T)`,
/// tried in that order.
pub open spec fn spec_parse_color(s: Seq<char>, i: int) -> Option<(Color, int)> {
    match spec_parse_tag_color(s, i) {
        Some(r) => Some(r),
        None => match spec_parse_none_color(s, i) {
            Some(r) => Some(r),
            None => match spec_parse_named_color(s, i) {
                Some(r) => Some(r),
                None => spec_parse_turbo_color(s, i),
            },
        },
    }
}

/// Tests one letter character.
fn alpha_at(s: &str, n: usize, k: usize) -> (r: bool)
    requires
        n == s@.len(),
        k <= n,
    ensures
        r == (k < s@.len() && is_alpha(s@[k as int])),
{
    if k < n {
        let c = s.get_char(k);
        (65 <= c as u32 && c as u32 <= 90) || (97 <= c as u32 && c as u32 <= 122)
    } else {
        false
    }
}

/// The end of a letter run.
fn scan_alpha(s: &str, n: usize, i: usize) -> (r: usize)
    requires
        n == s@.len(),
        i <= n,
    ensures
        r == alpha_end(s@, i as int),
        i <= r <= n,
        forall|m: int| i <= m < r ==> is_alpha(#[trigger] s@[m]),
{
    let mut k = i;
    while alpha_at(s, n, k)
        invariant
            n == s@.len(),
            i <= k <= n,
            alpha_end(s@, i as int) == alpha_end(s@, k as int),
            forall|m: int| i <= m < k ==> is_alpha(#[trigger] s@[m]),
        decreases n - k,
    {
        k = k + 1;
    }
    k
}

/// Parses `tag ( N )`.
pub fn parse_tag_color(s: &str, n: usize, i: usize) -> (r: Option<(Color, usize)>)
    requires
        n == s@.len(),
        i <= n,
    ensures
        match r {
            Some(p) => spec_parse_tag_color(s@, i as int) == Some((p.0, p.1 as int)) && i < p.1
                <= n,
            None => spec_parse_tag_color(s@, i as int) is None,
        },
{
    if char_at_is(s, n, i, 't') && n - i > 2 && char_at_is(s, n, i + 1, 'a') && char_at_is(
        s,
        n,
        i + 2,
        'g',
    ) {
        let i1 = skip_sp(s, n, i + 3);
        if char_at_is(s, n, i1, '(') {
            let i2 = skip_sp(s, n, i1 + 1);
            match scan_digits(s, n, i2) {
                Some((v, j)) => {
                    if j == i2 {
                        return None;
                    }
                    if v > usize::MAX as u64 {
                        return None;
                    }
                    let i3 = skip_sp(s, n, j);
                    if char_at_is(s, n, i3, ')') {
                        Some((Color::tag(v as usize), i3 + 1))
                    } else {
                        None
                    }
                }
                None => None,
            }
        } else {
            None
        }
    } else {
        None
    }
}

/// Parses `none()`.
pub fn parse_none_color(s: &str, n: usize, i: usize) -> (r: Option<(Color, usize)>)
    requires
        n == s@.len(),
        i <= n,
    ensures
        match r {
            Some(p) => spec_parse_none_color(s@, i as int) == Some((p.0, p.1 as int)) && i < p.1
                <= n,
            None => spec_parse_none_color(s@, i as int) is None,
        },
{
    if n - i >= 6 && char_at_is(s, n, i, 'n') && char_at_is(s, n, i + 1, 'o') && char_at_is(
        s,
        n,
        i + 2,
        'n',
    ) && char_at_is(s, n, i + 3, 'e') && char_at_is(s, n, i + 4, '(') && char_at_is(
        s,
        n,
        i + 5,
        ')',
    ) {
        Some((Color::none(), i + 6))
    } else {
        None
    }
}

/// Parses `named(NAME)`; an unknown name yields black.
pub fn parse_named_color(s: &str, n: usize, i: usize) -> (r: Option<(Color, usize)>)
    requires
        n == s@.len(),
        i <= n,
    ensures
        match r {
            Some(p) => spec_parse_named_color(s@, i as int) == Some((p.0, p.1 as int)) && i < p.1
                <= n,
            None => spec_parse_named_color(s@, i as int) is None,
        },
{
    if n - i >= 6 && char_at_is(s, n, i, 'n') && char_at_is(s, n, i + 1, 'a') && char_at_is(
        s,
        n,
        i + 2,
        'm',
    ) && char_at_is(s, n, i + 3, 'e') && char_at_is(s, n, i + 4, 'd') && char_at_is(
        s,
        n,
        i + 5,
        '(',
    ) {
        let j = scan_alpha(s, n, i + 6);
        if j == i + 6 {
            return None;
        }
        if char_at_is(s, n, j, ')') {
            let name = s.substring_char(i + 6, j);
            let c = match lookup_named_color(name) {
                Some(t) => Color { r: t.0, g: t.1, b: t.2, a: 255 },
                None => Color { r: 0, g: 0, b: 0, a: 255 },
            };
            Some((c, j + 1))
        } else {
            None
        }
    } else {
        None
    }
}

/// Parses the parenthesized numeric argument of a color function whose
/// name the caller already matched.
pub fn parse_func_color(s: &str, n: usize, i: usize) -> (r: Option<(i64, usize)>)
    requires
        n == s@.len(),
        i <= n,
    ensures
        match r {
            Some(p) => spec_parse_func_arg(s@, i as int) == Some((p.0, p.1 as int)) && i < p.1
                <= n,
            None => spec_parse_func_arg(s@, i as int) is None,
        },
{
    if char_at_is(s, n, i, '(') {
        let i1 = skip_sp(s, n, i + 1);
        match parse_number(s, n, i1) {
            Some((v, j)) => {
                let j1 = skip_sp(s, n, j);
                if char_at_is(s, n, j1, ')') {
                    Some((v, j1 + 1))
                } else {
                    None
                }
            }
            None => None,
        }
    } else {
        None
    }
}

/// Parses any color literal.
pub fn parse_color(s: &str, n: usize, i: usize) -> (r: Option<(Color, usize)>)
    requires
        n == s@.len(),
        i <= n,
    ensures
        match r {
            Some(p) => spec_parse_color(s@, i as int) == Some((p.0, p.1 as int)) && i < p.1 <= n,
            None => spec_parse_color(s@, i as int) is None,
        },
{
    match parse_tag_color(s, n, i) {
        Some(r) => Some(r),
        None => match parse_none_color(s, n, i) {
            Some(r) => Some(r),
            None => match parse_named_color(s, n, i) {
                Some(r) => Some(r),
                None => {
                    if n - i >= 5 && char_at_is(s, n, i, 't') && char_at_is(s, n, i + 1, 'u')
                        && char_at_is(s, n, i + 2, 'r') && char_at_is(s, n, i + 3, 'b')
                        && char_at_is(s, n, i + 4, 'o') {
                        match parse_func_color(s, n, i + 5) {
                            Some((v, j)) => Some((Color::turbo(v), j)),
                            None => None,
                        }
                    } else {
                        None
                    }
                }
            },
        },
    }
}

} // verus!
