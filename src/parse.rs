//! Recognising a color notation and reading its components.
use vstd::prelude::*;
use vstd::string::*;
use crate::color::{ColorModel, ColorValue, FilterError};
use crate::scan::{
    alpha_in_range, alpha_in_range_at, capped, hex_value, is_digit, hex_value_of, is_hex_digit,
    is_hex_digit_char, lemma_skip_skip, lemma_skip_step, scan_alpha, scan_alpha_at, scan_number,
    scan_number_at,
};

verus! {

/// What reading a text as a color gives.
pub enum Scan {
    /// The text has none of the recognised shapes.
    NoMatch,
    /// The text has a color's shape, but a component is out of range.
    Malformed,
    /// The color the text denotes.
    Color(ColorModel),
}

pub open spec fn all_hex(h: Seq<char>) -> bool {
    forall|i: int| 0 <= i < h.len() ==> is_hex_digit(h[i])
}

/// The byte written by the hex digits at positions `2k` and `2k + 1`.
pub open spec fn hex_byte(h: Seq<char>, k: int) -> u8 {
    (hex_value(h[2 * k]) * 16 + hex_value(h[2 * k + 1])) as u8
}

/// Six or eight hex digits: the channels, and the opacity byte if there are eight.
pub open spec fn hex_digits(h: Seq<char>) -> Option<(u8, u8, u8, Option<u8>)> {
    if (h.len() == 6 || h.len() == 8) && all_hex(h) {
        Some(
            (
                hex_byte(h, 0),
                hex_byte(h, 1),
                hex_byte(h, 2),
                if h.len() == 8 {
                    Some(hex_byte(h, 3))
                } else {
                    None
                },
            ),
        )
    }
    else {
        None
    }
}

/// Three comma-separated number fields; the second and third carry `%` where `pct`.
pub open spec fn scan_triple(u: Seq<char>, pct: bool) -> Option<(nat, nat, nat, Seq<char>)> {
    match scan_number(u, false) {
        None => None,
        Some((a, u1)) => if u1.len() > 0 && u1[0] == ',' {
            match scan_number(u1.skip(1), pct) {
                None => None,
                Some((b, u2)) => if u2.len() > 0 && u2[0] == ',' {
                    match scan_number(u2.skip(1), pct) {
                        None => None,
                        Some((c, u3)) => Some((a, b, c, u3)),
                    }
                } else {
                    None
                },
            }
        } else {
            None
        },
    }
}

/// `name(a, b, c)`, or `name(a, b, c, alpha)` where `with_alpha`: the
/// components, with an empty opacity where there is none.
#[verifier::opaque]
pub open spec fn scan_call(t: Seq<char>, name: Seq<char>, pct: bool, with_alpha: bool) -> Option<
    (nat, nat, nat, Seq<char>),
> {
    if t.len() > name.len() && t.take(name.len() as int) == name && t[name.len() as int] == '(' {
        match scan_triple(t.skip(name.len() as int + 1), pct) {
            None => None,
            Some((a, b, c, u)) => if with_alpha {
                if u.len() > 0 && u[0] == ',' {
                    match scan_alpha(u.skip(1)) {
                        None => None,
                        Some((al, v)) => if v == seq![')'] {
                            Some((a, b, c, al))
                        } else {
                            None
                        },
                    }
                } else {
                    None
                }
            } else if u == seq![')'] {
                Some((a, b, c, Seq::empty()))
            } else {
                None
            },
        }
    } else {
        None
    }
}

/// Only a text that starts with `name(` has the shape of that call.
pub proof fn lemma_scan_call_needs_prefix(t: Seq<char>, name: Seq<char>, pct: bool, with_alpha: bool)
    requires
        !(t.len() > name.len() && t.take(name.len() as int) == name && t[name.len() as int] == '('),
    ensures
        scan_call(t, name, pct, with_alpha) is None,
{
    reveal(scan_call);
}

/// Reads a trimmed text as a color. The notations are tried in this order:
/// `#` and hex digits, bare hex digits, `rgb(..)`, `rgba(..)`, `hsl(..)`, `hsla(..)`.
pub open spec fn classify(t: Seq<char>) -> Scan {
    if t.len() > 0 && t[0] == '#' && hex_digits(t.skip(1)) is Some {
        let (r, g, b, a) = hex_digits(t.skip(1))->0;
        Scan::Color(ColorModel::Hex { red: r, green: g, blue: b, alpha: a })
    } else if hex_digits(t) is Some {
        let (r, g, b, a) = hex_digits(t)->0;
        Scan::Color(ColorModel::HexStripped { red: r, green: g, blue: b, alpha: a })
    } else if scan_call(t, "rgb"@, false, false) is Some {
        let (r, g, b, _a) = scan_call(t, "rgb"@, false, false)->0;
        if r <= 255 && g <= 255 && b <= 255 {
            Scan::Color(ColorModel::Rgb { red: r as u8, green: g as u8, blue: b as u8 })
        } else {
            Scan::Malformed
        }
    } else if scan_call(t, "rgba"@, false, true) is Some {
        let (r, g, b, a) = scan_call(t, "rgba"@, false, true)->0;
        if r <= 255 && g <= 255 && b <= 255 && alpha_in_range(a) {
            Scan::Color(ColorModel::Rgba { red: r as u8, green: g as u8, blue: b as u8, alpha: a })
        } else {
            Scan::Malformed
        }
    } else if scan_call(t, "hsl"@, true, false) is Some {
        let (h, s, l, _a) = scan_call(t, "hsl"@, true, false)->0;
        if h <= 360 && s <= 100 && l <= 100 {
            Scan::Color(ColorModel::Hsl { hue: h as u16, saturation: s as u8, lightness: l as u8 })
        } else {
            Scan::Malformed
        }
    } else if scan_call(t, "hsla"@, true, true) is Some {
        let (h, s, l, a) = scan_call(t, "hsla"@, true, true)->0;
        if h <= 360 && s <= 100 && l <= 100 && alpha_in_range(a) {
            Scan::Color(
                ColorModel::Hsla {
                    hue: h as u16,
                    saturation: s as u8,
                    lightness: l as u8,
                    alpha: a,
                },
            )
        } else {
            Scan::Malformed
        }
    } else {
        Scan::NoMatch
    }
}


/// Reads six or eight hex digits that run from `i` to the end.
pub fn hex_digits_at(t: &str, n: usize, i: usize) -> (r: Option<(u8, u8, u8, Option<u8>)>)
    requires
        n == t@.len(),
        i <= n,
    ensures
        r == hex_digits(t@.skip(i as int)),
{
    let ghost h = t@.skip(i as int);
    let len = n - i;
    if len != 6 && len != 8 {
        return None;
    }
    let mut j: usize = 0;
    while j < len
        invariant
            n == t@.len(),
            i + len == n,
            h == t@.skip(i as int),
            j <= len,
            forall|m: int| 0 <= m < j ==> is_hex_digit(h[m]),
        decreases len - j,
    {
        if !is_hex_digit_char(t.get_char(i + j)) {
            assert(!is_hex_digit(h[j as int]));
            return None;
        }
        j = j + 1;
    }
    let mut v: [u8; 8] = [0u8; 8];
    let mut k: usize = 0;
    while k < len
        invariant
            n == t@.len(),
            i + len == n,
            h == t@.skip(i as int),
            len == 6 || len == 8,
            k <= len,
            all_hex(h),
            forall|m: int| 0 <= m < k ==> v[m] == hex_value(h[m]),
        decreases len - k,
    {
        assert(is_hex_digit(h[k as int]));
        assert(h[k as int] == t@[i + k]);
        v[k] = hex_value_of(t.get_char(i + k));
        k = k + 1;
    }
    let alpha = if len == 8 {
        Some(v[6] * 16 + v[7])
    } else {
        None
    };
    Some((v[0] * 16 + v[1], v[2] * 16 + v[3], v[4] * 16 + v[5], alpha))
}

/// Whether `t` starts with `name(`.
pub fn has_call_prefix(t: &str, n: usize, name: &str) -> (r: bool)
    requires
        n == t@.len(),
    ensures
        r == (t@.len() > name@.len() && t@.take(name@.len() as int) == name@ && t@[name@.len() as int]
            == '('),
{
    let k = name.unicode_len();
    if n <= k {
        return false;
    }
    let mut j: usize = 0;
    while j < k
        invariant
            n == t@.len(),
            k == name@.len(),
            k < n,
            j <= k,
            forall|m: int| 0 <= m < j ==> t@[m] == name@[m],
        decreases k - j,
    {
        if t.get_char(j) != name.get_char(j) {
            assert(t@.take(k as int)[j as int] != name@[j as int]);
            return false;
        }
        j = j + 1;
    }
    assert(t@.take(k as int) =~= name@);
    t.get_char(k) == '('
}

/// Reads three comma-separated number fields from `i`: their values, capped,
/// and the position after the third.
pub fn scan_triple_at(t: &str, n: usize, i: usize, pct: bool) -> (r: Option<(u32, u32, u32, usize)>)
    requires
        n == t@.len(),
        i <= n,
    ensures
        match scan_triple(t@.skip(i as int), pct) {
            None => r is None,
            Some((a, b, c, rest)) => match r {
                Some((ra, rb, rc, p)) => p <= n && t@.skip(p as int) == rest && ra == capped(a)
                    && rb == capped(b) && rc == capped(c),
                None => false,
            },
        },
{
    let (a, pa) = match scan_number_at(t, n, i, false) {
        None => return None,
        Some(x) => x,
    };
    if !(pa < n && t.get_char(pa) == ',') {
        proof {
            if pa < n {
                lemma_skip_step(t@, pa as int);
            }
        }
        return None;
    }
    proof {
        lemma_skip_step(t@, pa as int);
        lemma_skip_skip(t@, pa as int, 1);
    }
    let (b, pb) = match scan_number_at(t, n, pa + 1, pct) {
        None => return None,
        Some(x) => x,
    };
    if !(pb < n && t.get_char(pb) == ',') {
        proof {
            if pb < n {
                lemma_skip_step(t@, pb as int);
            }
        }
        return None;
    }
    proof {
        lemma_skip_step(t@, pb as int);
        lemma_skip_skip(t@, pb as int, 1);
    }
    let (c, pc) = match scan_number_at(t, n, pb + 1, pct) {
        None => return None,
        Some(x) => x,
    };
    Some((a, b, c, pc))
}


/// Reads `name(a, b, c)`, or `name(a, b, c, alpha)` where `with_alpha`: the
/// components, capped, and where the opacity literal lies.
pub fn scan_call_at(t: &str, n: usize, name: &str, pct: bool, with_alpha: bool) -> (r: Option<
    (u32, u32, u32, usize, usize),
>)
    requires
        n == t@.len(),
    ensures
        match scan_call(t@, name@, pct, with_alpha) {
            None => r is None,
            Some((a, b, c, al)) => match r {
                Some((ra, rb, rc, s, e)) => s <= e <= n && t@.subrange(s as int, e as int) == al
                    && ra == capped(a) && rb == capped(b) && rc == capped(c) && (e < n
                    ==> !is_digit(t@[e as int])),
                None => false,
            },
        },
{
    reveal(scan_call);
    if !has_call_prefix(t, n, name) {
        return None;
    }
    let k = name.unicode_len();
    let (a, b, c, p) = match scan_triple_at(t, n, k + 1, pct) {
        None => return None,
        Some(x) => x,
    };
    if with_alpha {
        if !(p < n && t.get_char(p) == ',') {
            proof {
                if p < n {
                    lemma_skip_step(t@, p as int);
                }
            }
            return None;
        }
        proof {
            lemma_skip_step(t@, p as int);
            lemma_skip_skip(t@, p as int, 1);
        }
        let (s, e, q) = match scan_alpha_at(t, n, p + 1) {
            None => return None,
            Some(x) => x,
        };
        if q < n && q + 1 == n && t.get_char(q) == ')' {
            proof {
                assert(t@.skip(q as int) =~= seq![')']);
            }
            Some((a, b, c, s, e))
        } else {
            proof {
                if q < n {
                    assert(t@.skip(q as int)[0] == t@[q as int]);
                }
                assert(t@.skip(q as int).len() == n - q);
            }
            None
        }
    } else if p < n && p + 1 == n && t.get_char(p) == ')' {
        proof {
            assert(t@.skip(p as int) =~= seq![')']);
            assert(t@.subrange(n as int, n as int) =~= Seq::<char>::empty());
        }
        Some((a, b, c, n, n))
    } else {
        proof {
            if p < n {
                assert(t@.skip(p as int)[0] == t@[p as int]);
            }
            assert(t@.skip(p as int).len() == n - p);
        }
        None
    }
}

/// Reads a trimmed text as a color: `Ok(None)` where it has none of the
/// recognised shapes, an error where a component is out of range.
pub fn classify_text(t: &str) -> (r: Result<Option<ColorValue>, FilterError>)
    ensures
        match classify(t@) {
            Scan::NoMatch => r == Ok::<Option<ColorValue>, FilterError>(None),
            Scan::Malformed => r == Err::<Option<ColorValue>, FilterError>(
                FilterError::MalformedColorLiteral,
            ),
            Scan::Color(m) => match r {
                Ok(Some(v)) => v@ == m,
                _ => false,
            },
        },
{
    let n = t.unicode_len();
    if n > 0 && t.get_char(0) == '#' {
        if let Some((r, g, b, a)) = hex_digits_at(t, n, 1) {
            return Ok(Some(ColorValue::Hex { red: r, green: g, blue: b, alpha: a }));
        }
    }
    if let Some((r, g, b, a)) = hex_digits_at(t, n, 0) {
        proof {
            assert(t@.skip(0) =~= t@);
        }
        return Ok(Some(ColorValue::HexStripped { red: r, green: g, blue: b, alpha: a }));
    }
    proof {
        assert(t@.skip(0) =~= t@);
    }
    if let Some((r, g, b, _s, _e)) = scan_call_at(t, n, "rgb", false, false) {
        if r <= 255 && g <= 255 && b <= 255 {
            return Ok(Some(ColorValue::Rgb { red: r as u8, green: g as u8, blue: b as u8 }));
        }
        return Err(FilterError::MalformedColorLiteral);
    }
    if let Some((r, g, b, s, e)) = scan_call_at(t, n, "rgba", false, true) {
        if r <= 255 && g <= 255 && b <= 255 && alpha_in_range_at(t, n, s, e) {
            let alpha = String::from_str(t.substring_char(s, e));
            return Ok(Some(ColorValue::Rgba { red: r as u8, green: g as u8, blue: b as u8, alpha }));
        }
        return Err(FilterError::MalformedColorLiteral);
    }
    if let Some((h, sat, l, _s, _e)) = scan_call_at(t, n, "hsl", true, false) {
        if h <= 360 && sat <= 100 && l <= 100 {
            return Ok(
                Some(
                    ColorValue::Hsl { hue: h as u16, saturation: sat as u8, lightness: l as u8 },
                ),
            );
        }
        return Err(FilterError::MalformedColorLiteral);
    }
    if let Some((h, sat, l, s, e)) = scan_call_at(t, n, "hsla", true, true) {
        if h <= 360 && sat <= 100 && l <= 100 && alpha_in_range_at(t, n, s, e) {
            let alpha = String::from_str(t.substring_char(s, e));
            return Ok(
                Some(
                    ColorValue::Hsla {
                        hue: h as u16,
                        saturation: sat as u8,
                        lightness: l as u8,
                        alpha,
                    },
                ),
            );
        }
        return Err(FilterError::MalformedColorLiteral);
    }
    Ok(None)
}

} // verus!
