//! Writing a color back in its notation, and inverting it.
use vstd::prelude::*;
use crate::color::{ColorModel, ColorValue};
use crate::scan::{alpha_in_range, is_alpha_literal};

verus! {

pub open spec fn decimal_digits() -> Seq<char> {
    seq!['0', '1', '2', '3', '4', '5', '6', '7', '8', '9']
}

pub open spec fn hex_chars() -> Seq<char> {
    seq!['0', '1', '2', '3', '4', '5', '6', '7', '8', '9', 'a', 'b', 'c', 'd', 'e', 'f']
}

/// The decimal writing of `n`, without leading zeros.
pub open spec fn decimal(n: nat) -> Seq<char>
    decreases n,
{
    if n < 10 {
        seq![decimal_digits()[n as int]]
    } else {
        decimal(n / 10).push(decimal_digits()[(n % 10) as int])
    }
}

/// Two lowercase hex digits for a byte.
pub open spec fn hex_pair(b: u8) -> Seq<char> {
    seq![hex_chars()[(b / 16) as int], hex_chars()[(b % 16) as int]]
}

pub open spec fn hex_body(r: u8, g: u8, b: u8, a: Option<u8>) -> Seq<char> {
    hex_pair(r) + hex_pair(g) + hex_pair(b) + match a {
        Some(x) => hex_pair(x),
        None => Seq::empty(),
    }
}

/// `name(a, b, c)` or `name(a, b, c, alpha)`, with `%` after `b` and `c` where `pct`.
pub open spec fn call_text(name: Seq<char>, a: nat, b: nat, c: nat, pct: bool, alpha: Option<Seq<char>>) -> Seq<char> {
    let unit = if pct { seq!['%'] } else { Seq::empty() };
    name + seq!['('] + decimal(a) + seq![',', ' '] + decimal(b) + unit + seq![',', ' '] + decimal(c) + unit
        + match alpha {
        Some(al) => seq![',', ' '] + al,
        None => Seq::empty(),
    } + seq![')']
}

/// The text of a color in its notation: lowercase hex digits; `, ` between components.
pub open spec fn render(m: ColorModel) -> Seq<char> {
    match m {
        ColorModel::Hex { red, green, blue, alpha } => seq!['#'] + hex_body(red, green, blue, alpha),
        ColorModel::HexStripped { red, green, blue, alpha } => hex_body(red, green, blue, alpha),
        ColorModel::Rgb { red, green, blue } => call_text(seq!['r', 'g', 'b'], red as nat, green as nat, blue as nat, false, None),
        ColorModel::Rgba { red, green, blue, alpha } => call_text(seq!['r', 'g', 'b', 'a'], red as nat, green as nat, blue as nat, false, Some(alpha)),
        ColorModel::Hsl { hue, saturation, lightness } => call_text(seq!['h', 's', 'l'], hue as nat, saturation as nat, lightness as nat, true, None),
        ColorModel::Hsla { hue, saturation, lightness, alpha } => call_text(seq!['h', 's', 'l', 'a'], hue as nat, saturation as nat, lightness as nat, true, Some(alpha)),
    }
}

/// Hue at most 360 degrees, saturation and lightness at most 100 percent.
pub open spec fn in_range(m: ColorModel) -> bool {
    match m {
        ColorModel::Hsl { hue, saturation, lightness } => hue <= 360 && saturation <= 100 && lightness <= 100,
        ColorModel::Hsla { hue, saturation, lightness, .. } => hue <= 360 && saturation <= 100 && lightness <= 100,
        _ => true,
    }
}

/// Components within range, and each opacity a literal that denotes a value in [0, 1].
pub open spec fn well_formed(m: ColorModel) -> bool {
    in_range(m) && match m {
        ColorModel::Rgba { alpha, .. } => is_alpha_literal(alpha) && alpha_in_range(alpha),
        ColorModel::Hsla { alpha, .. } => is_alpha_literal(alpha) && alpha_in_range(alpha),
        _ => true,
    }
}

pub open spec fn complement(c: u8) -> u8 {
    (255 - c) as u8
}

pub open spec fn turned_hue(h: u16) -> u16 {
    ((h + 180) % 360) as u16
}

/// The inverse color: each RGB channel complemented, or the hue turned half
/// a circle; opacity, saturation and lightness are kept.
pub open spec fn invert_model(m: ColorModel) -> ColorModel {
    match m {
        ColorModel::Hex { red, green, blue, alpha } => ColorModel::Hex { red: complement(red), green: complement(green), blue: complement(blue), alpha },
        ColorModel::HexStripped { red, green, blue, alpha } => ColorModel::HexStripped { red: complement(red), green: complement(green), blue: complement(blue), alpha },
        ColorModel::Rgb { red, green, blue } => ColorModel::Rgb { red: complement(red), green: complement(green), blue: complement(blue) },
        ColorModel::Rgba { red, green, blue, alpha } => ColorModel::Rgba { red: complement(red), green: complement(green), blue: complement(blue), alpha },
        ColorModel::Hsl { hue, saturation, lightness } => ColorModel::Hsl { hue: turned_hue(hue), saturation, lightness },
        ColorModel::Hsla { hue, saturation, lightness, alpha } => ColorModel::Hsla { hue: turned_hue(hue), saturation, lightness, alpha },
    }
}

/// Relies on colorsys's `ColorTransform::invert` for `Rgb`, which sets each
/// channel to 255 minus itself; the conversions from and to `[u8; 3]` are
/// exact on whole channel values.
#[verifier::external_body]
fn complement_channels(red: u8, green: u8, blue: u8) -> (r: (u8, u8, u8))
    ensures
        r.0 == 255 - red,
        r.1 == 255 - green,
        r.2 == 255 - blue,
{
    let mut c = colorsys::Rgb::from([red, green, blue]);
    colorsys::ColorTransform::invert(&mut c);
    let [r, g, b]: [u8; 3] = c.into();
    (r, g, b)
}

/// Relies on colorsys's `ColorTransform::invert` for `Hsl`, which turns the
/// hue by 180 degrees modulo 360 and keeps saturation and lightness;
/// `Hsl::new` keeps values within their ranges, and the conversion to
/// `[u16; 3]` is exact on whole values.
#[verifier::external_body]
fn complement_hue(hue: u16, saturation: u8, lightness: u8) -> (r: (u16, u8, u8))
    requires
        hue <= 360,
        saturation <= 100,
        lightness <= 100,
    ensures
        r.0 == (hue + 180) % 360,
        r.1 == saturation,
        r.2 == lightness,
{
    let mut c = colorsys::Hsl::new(hue.into(), saturation.into(), lightness.into(), None);
    colorsys::ColorTransform::invert(&mut c);
    let [h, s, l]: [u16; 3] = c.into();
    (h, s as u8, l as u8)
}

/// The inverse of a color, in the same notation.
pub fn invert_color(v: ColorValue) -> (r: ColorValue)
    requires
        in_range(v@),
    ensures
        r@ == invert_model(v@),
{
    match v {
        ColorValue::Hex { red, green, blue, alpha } => {
            let (r, g, b) = complement_channels(red, green, blue);
            ColorValue::Hex { red: r, green: g, blue: b, alpha }
        },
        ColorValue::HexStripped { red, green, blue, alpha } => {
            let (r, g, b) = complement_channels(red, green, blue);
            ColorValue::HexStripped { red: r, green: g, blue: b, alpha }
        },
        ColorValue::Rgb { red, green, blue } => {
            let (r, g, b) = complement_channels(red, green, blue);
            ColorValue::Rgb { red: r, green: g, blue: b }
        },
        ColorValue::Rgba { red, green, blue, alpha } => {
            let (r, g, b) = complement_channels(red, green, blue);
            ColorValue::Rgba { red: r, green: g, blue: b, alpha }
        },
        ColorValue::Hsl { hue, saturation, lightness } => {
            let (h, s, l) = complement_hue(hue, saturation, lightness);
            ColorValue::Hsl { hue: h, saturation: s, lightness: l }
        },
        ColorValue::Hsla { hue, saturation, lightness, alpha } => {
            let (h, s, l) = complement_hue(hue, saturation, lightness);
            ColorValue::Hsla { hue: h, saturation: s, lightness: l, alpha }
        },
    }
}


fn digit_char(d: u16) -> (c: char)
    requires
        d < 10,
    ensures
        c == decimal_digits()[d as int],
{
    match d {
        0 => '0',
        1 => '1',
        2 => '2',
        3 => '3',
        4 => '4',
        5 => '5',
        6 => '6',
        7 => '7',
        8 => '8',
        _ => '9',
    }
}

fn hex_char(d: u8) -> (c: char)
    requires
        d < 16,
    ensures
        c == hex_chars()[d as int],
{
    match d {
        0 => '0',
        1 => '1',
        2 => '2',
        3 => '3',
        4 => '4',
        5 => '5',
        6 => '6',
        7 => '7',
        8 => '8',
        9 => '9',
        10 => 'a',
        11 => 'b',
        12 => 'c',
        13 => 'd',
        14 => 'e',
        _ => 'f',
    }
}

fn push_decimal(out: &mut Vec<char>, n: u16)
    ensures
        final(out)@ == old(out)@ + decimal(n as nat),
    decreases n,
{
    if n < 10 {
        out.push(digit_char(n));
        assert(final(out)@ =~= old(out)@ + decimal(n as nat));
    } else {
        push_decimal(out, n / 10);
        out.push(digit_char(n % 10));
        assert(final(out)@ =~= old(out)@ + decimal(n as nat));
    }
}

fn push_hex_pair(out: &mut Vec<char>, b: u8)
    ensures
        final(out)@ == old(out)@ + hex_pair(b),
{
    out.push(hex_char(b / 16));
    out.push(hex_char(b % 16));
    assert(final(out)@ =~= old(out)@ + hex_pair(b));
}

fn push_str(out: &mut Vec<char>, s: &str)
    ensures
        final(out)@ == old(out)@ + s@,
{
    let n = s.unicode_len();
    let mut i: usize = 0;
    while i < n
        invariant
            n == s@.len(),
            i <= n,
            out@ == old(out)@ + s@.take(i as int),
        decreases n - i,
    {
        out.push(s.get_char(i));
        assert(s@.take(i + 1) =~= s@.take(i as int).push(s@[i as int]));
        i = i + 1;
    }
    assert(s@.take(n as int) =~= s@);
}

fn push_hex_body(out: &mut Vec<char>, r: u8, g: u8, b: u8, a: Option<u8>)
    ensures
        final(out)@ == old(out)@ + hex_body(r, g, b, a),
{
    push_hex_pair(out, r);
    push_hex_pair(out, g);
    push_hex_pair(out, b);
    if let Some(x) = a {
        push_hex_pair(out, x);
    }
    assert(final(out)@ =~= old(out)@ + hex_body(r, g, b, a));
}

fn push_call(out: &mut Vec<char>, name: &str, a: u16, b: u16, c: u16, pct: bool, alpha: Option<&String>)
    ensures
        final(out)@ == old(out)@ + call_text(name@, a as nat, b as nat, c as nat, pct, match alpha {
            Some(al) => Some(al@),
            None => None,
        }),
{
    let ghost start = old(out)@;
    let ghost unit = if pct { seq!['%'] } else { Seq::<char>::empty() };
    push_str(out, name);
    out.push('(');
    push_decimal(out, a);
    out.push(',');
    out.push(' ');
    let ghost pa = name@ + seq!['('] + decimal(a as nat) + seq![',', ' '];
    assert(out@ =~= start + pa);
    push_decimal(out, b);
    if pct {
        out.push('%');
    }
    out.push(',');
    out.push(' ');
    let ghost pb = pa + decimal(b as nat) + unit + seq![',', ' '];
    assert(out@ =~= start + pb);
    push_decimal(out, c);
    if pct {
        out.push('%');
    }
    let ghost pc = pb + decimal(c as nat) + unit;
    assert(out@ =~= start + pc);
    let ghost tail = match alpha {
        Some(al) => seq![',', ' '] + al@,
        None => Seq::<char>::empty(),
    };
    if let Some(al) = alpha {
        out.push(',');
        out.push(' ');
        push_str(out, al.as_str());
    }
    assert(out@ =~= start + pc + tail);
    out.push(')');
    assert(out@ =~= start + (pc + tail + seq![')']));
}

/// Relies on `String`'s `FromIterator<char>`: the string holds the chars in order.
#[verifier::external_body]
fn string_from_chars(cs: &Vec<char>) -> (r: String)
    ensures
        r@ == cs@,
{
    cs.iter().collect()
}

/// The text of a color in its notation.
pub fn render_color(v: &ColorValue) -> (r: String)
    ensures
        r@ == render(v@),
{
    let mut out: Vec<char> = Vec::new();
    match v {
        ColorValue::Hex { red, green, blue, alpha } => {
            out.push('#');
            push_hex_body(&mut out, *red, *green, *blue, *alpha);
        },
        ColorValue::HexStripped { red, green, blue, alpha } => {
            push_hex_body(&mut out, *red, *green, *blue, *alpha);
        },
        ColorValue::Rgb { red, green, blue } => {
            proof { reveal_strlit("rgb"); }
            push_call(&mut out, "rgb", *red as u16, *green as u16, *blue as u16, false, None);
        },
        ColorValue::Rgba { red, green, blue, alpha } => {
            proof { reveal_strlit("rgba"); }
            push_call(&mut out, "rgba", *red as u16, *green as u16, *blue as u16, false, Some(alpha));
        },
        ColorValue::Hsl { hue, saturation, lightness } => {
            proof { reveal_strlit("hsl"); }
            push_call(&mut out, "hsl", *hue, *saturation as u16, *lightness as u16, true, None);
        },
        ColorValue::Hsla { hue, saturation, lightness, alpha } => {
            proof { reveal_strlit("hsla"); }
            push_call(&mut out, "hsla", *hue, *saturation as u16, *lightness as u16, true, Some(alpha));
        },
    }
    proof {
        assert(Seq::<char>::empty() + render(v@) =~= render(v@));
    }
    string_from_chars(&out)
}

} // verus!
