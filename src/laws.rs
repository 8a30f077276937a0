//! What holds of the filter over all inputs, proved from the grammar and the
//! rendering.
use vstd::prelude::*;
use crate::color::{ColorModel, FilterError};
use crate::filter::{inverted, leading_blanks, trailing_blanks, trim};
use crate::parse::{
    all_hex, classify, hex_byte, hex_digits, lemma_scan_call_needs_prefix, scan_call, scan_triple, Scan,
};
use crate::render::{
    call_text, decimal, decimal_digits, hex_body, hex_chars, hex_pair, invert_model,
    render, well_formed,
};
use crate::scan::{
    alpha_in_range, alpha_literal_len, decimal_value, digit_run, digit_value, hex_value, is_alpha_literal,
    is_blank, is_digit, is_hex_digit, lemma_digit_run_take, scan_alpha, scan_number, space_run,
};

verus! {

proof fn lemma_digit_run_bound(a: Seq<char>)
    ensures
        digit_run(a) <= a.len(),
        forall|i: int| 0 <= i < digit_run(a) ==> is_digit(a[i]),
        digit_run(a) < a.len() ==> !is_digit(a[digit_run(a) as int]),
    decreases a.len(),
{
    if a.len() > 0 && is_digit(a[0]) {
        lemma_digit_run_bound(a.drop_first());
        assert forall|i: int| 0 <= i < digit_run(a) implies is_digit(a[i]) by {
            if i > 0 {
                assert(a[i] == a.drop_first()[i - 1]);
            }
        }
    }
}

proof fn lemma_all_digits(a: Seq<char>)
    requires
        forall|i: int| 0 <= i < a.len() ==> is_digit(a[i]),
    ensures
        digit_run(a) == a.len(),
    decreases a.len(),
{
    if a.len() > 0 {
        lemma_all_digits(a.drop_first());
    }
}

proof fn lemma_digit_run_append(a: Seq<char>, q: Seq<char>)
    ensures
        digit_run(a) < a.len() ==> digit_run(a + q) == digit_run(a),
        digit_run(a) == a.len() && (q.len() == 0 || !is_digit(q[0])) ==> digit_run(a + q) == a.len(),
    decreases a.len(),
{
    lemma_digit_run_bound(a);
    if a.len() > 0 {
        assert((a + q).drop_first() =~= a.drop_first() + q);
        lemma_digit_run_append(a.drop_first(), q);
    } else {
        assert(a + q =~= q);
    }
}

proof fn lemma_space_run_append(sp: Seq<char>, q: Seq<char>)
    requires
        forall|i: int| 0 <= i < sp.len() ==> sp[i] == ' ',
        q.len() == 0 || q[0] != ' ',
    ensures
        space_run(sp + q) == sp.len(),
    decreases sp.len(),
{
    if sp.len() > 0 {
        assert((sp + q).drop_first() =~= sp.drop_first() + q);
        lemma_space_run_append(sp.drop_first(), q);
    } else {
        assert(sp + q =~= q);
    }
}

proof fn lemma_decimal(n: nat)
    ensures
        decimal(n).len() >= 1,
        forall|i: int| 0 <= i < decimal(n).len() ==> is_digit(#[trigger] decimal(n)[i]),
        decimal_value(decimal(n)) == n,
    decreases n,
{
    assert(forall|d: int| 0 <= d < 10 ==> digit_value(#[trigger] decimal_digits()[d]) == d
        && is_digit(decimal_digits()[d])) by {
        assert(decimal_digits()[0] == '0');
        assert(decimal_digits()[1] == '1');
        assert(decimal_digits()[2] == '2');
        assert(decimal_digits()[3] == '3');
        assert(decimal_digits()[4] == '4');
        assert(decimal_digits()[5] == '5');
        assert(decimal_digits()[6] == '6');
        assert(decimal_digits()[7] == '7');
        assert(decimal_digits()[8] == '8');
        assert(decimal_digits()[9] == '9');
    }
    if n >= 10 {
        lemma_decimal(n / 10);
        assert(decimal(n).drop_last() =~= decimal(n / 10));
        assert(decimal(n).last() == decimal_digits()[(n % 10) as int]);
        assert(decimal_value(decimal(n)) == n / 10 * 10 + n % 10);
        assert(n / 10 * 10 + n % 10 == n) by (nonlinear_arith);
    } else {
        assert(seq![decimal_digits()[n as int]].drop_last() =~= Seq::<char>::empty());
        assert(decimal_value(Seq::<char>::empty()) == 0);
    }
}


pub open spec fn unit_text(pct: bool) -> Seq<char> {
    if pct {
        seq!['%']
    } else {
        Seq::empty()
    }
}

proof fn lemma_scan_number_rendered(sp: Seq<char>, n: nat, pct: bool, q: Seq<char>)
    requires
        forall|i: int| 0 <= i < sp.len() ==> sp[i] == ' ',
        q.len() > 0,
        q[0] == ',' || q[0] == ')',
    ensures
        scan_number(sp + decimal(n) + unit_text(pct) + q, pct) == Some((n, q)),
{
    let d = decimal(n);
    let w = d + unit_text(pct) + q;
    let u = sp + decimal(n) + unit_text(pct) + q;
    lemma_decimal(n);
    assert(u =~= sp + w);
    assert(w[0] == d[0]);
    lemma_space_run_append(sp, w);
    assert(u.skip(sp.len() as int) =~= w);
    lemma_all_digits(d);
    assert(w =~= d + (unit_text(pct) + q));
    lemma_digit_run_append(d, unit_text(pct) + q);
    assert(w.take(d.len() as int) =~= d);
    assert(w.skip(d.len() as int) =~= unit_text(pct) + q);
    if pct {
        assert((unit_text(pct) + q).skip(1) =~= q);
    } else {
        assert(unit_text(pct) + q =~= q);
    }
    assert(space_run(q) == 0);
    assert(q.skip(0) =~= q);
}

/// A literal that the scanner reads as an opacity is a whole opacity literal.
proof fn lemma_scanned_alpha_literal(u: Seq<char>)
    requires
        alpha_literal_len(u) > 0,
    ensures
        is_alpha_literal(u.take(alpha_literal_len(u) as int)),
{
    let m = alpha_literal_len(u);
    let k = digit_run(u);
    let lit = u.take(m as int);
    lemma_digit_run_bound(u);
    if k < u.len() {
        lemma_digit_run_bound(u.skip(k as int + 1));
    }
    lemma_digit_run_take(u, m as int);
    assert(digit_run(lit) == k);
    if m > k {
        let j = digit_run(u.skip(k as int + 1));
        lemma_digit_run_bound(u.skip(k as int + 1));
        assert(lit.skip(k as int + 1) =~= u.skip(k as int + 1).take(j as int));
        lemma_digit_run_take(u.skip(k as int + 1), j as int);
    }
}

proof fn lemma_scan_alpha_rendered(sp: Seq<char>, al: Seq<char>, q: Seq<char>)
    requires
        forall|i: int| 0 <= i < sp.len() ==> sp[i] == ' ',
        is_alpha_literal(al),
        q.len() > 0,
        q[0] == ')',
    ensures
        scan_alpha(sp + al + q) == Some((al, q)),
{
    let w = al + q;
    let u = sp + al + q;
    assert(u =~= sp + w);
    let k = digit_run(al);
    lemma_digit_run_bound(al);
    assert(k > 0);
    assert(w[0] == al[0]);
    lemma_space_run_append(sp, w);
    assert(u.skip(sp.len() as int) =~= w);
    lemma_digit_run_append(al, q);
    assert(digit_run(w) == k);
    if k < al.len() {
        let b = al.skip(k as int + 1);
        assert(w.skip(k as int + 1) =~= b + q);
        lemma_digit_run_bound(b);
        lemma_digit_run_append(b, q);
        assert(w[k as int] == al[k as int]);
    } else {
        assert(w[k as int] == q[0]);
    }
    assert(alpha_literal_len(w) == al.len());
    assert(w.take(al.len() as int) =~= al);
    assert(w.skip(al.len() as int) =~= q);
    assert(space_run(q) == 0);
    assert(q.skip(0) =~= q);
}


#[verifier::opaque]
pub open spec fn triple_text(a: nat, b: nat, c: nat, pct: bool, q3: Seq<char>) -> Seq<char> {
    decimal(a) + seq![',', ' '] + decimal(b) + unit_text(pct) + seq![',', ' '] + decimal(c) + unit_text(pct)
        + q3
}

proof fn lemma_triple_rendered(a: nat, b: nat, c: nat, pct: bool, q3: Seq<char>)
    requires
        q3.len() > 0,
        q3[0] == ',' || q3[0] == ')',
    ensures
        scan_triple(triple_text(a, b, c, pct, q3), pct) == Some((a, b, c, q3)),
{
    let unit = unit_text(pct);
    let e = Seq::<char>::empty();
    let q2 = seq![',', ' '] + decimal(c) + unit + q3;
    let q1 = seq![',', ' '] + decimal(b) + unit + q2;
    let rest = triple_text(a, b, c, pct, q3);
    reveal(triple_text);
    assert(rest =~= e + decimal(a) + unit_text(false) + q1);
    lemma_scan_number_rendered(e, a, false, q1);
    assert(q1.skip(1) =~= seq![' '] + decimal(b) + unit + q2);
    lemma_scan_number_rendered(seq![' '], b, pct, q2);
    assert(q2.skip(1) =~= seq![' '] + decimal(c) + unit + q3);
    lemma_scan_number_rendered(seq![' '], c, pct, q3);
}

pub open spec fn alpha_tail(alpha: Option<Seq<char>>) -> Seq<char> {
    let tail = match alpha {
        Some(al) => seq![',', ' '] + al,
        None => Seq::<char>::empty(),
    };
    tail + seq![')']
}

proof fn lemma_call_text_shape(name: Seq<char>, a: nat, b: nat, c: nat, pct: bool, alpha: Option<Seq<char>>)
    ensures
        call_text(name, a, b, c, pct, alpha) == name + seq!['('] + triple_text(a, b, c, pct, alpha_tail(alpha)),
{
    reveal(triple_text);
    assert(call_text(name, a, b, c, pct, alpha) =~= name + seq!['('] + triple_text(a, b, c, pct, alpha_tail(alpha)));
}

proof fn lemma_call_text_scans(
    name: Seq<char>,
    a: nat,
    b: nat,
    c: nat,
    pct: bool,
    alpha: Option<Seq<char>>,
)
    requires
        alpha is Some ==> is_alpha_literal(alpha->0),
    ensures
        scan_call(call_text(name, a, b, c, pct, alpha), name, pct, alpha is Some) == Some(
            (
                a,
                b,
                c,
                match alpha {
                    Some(al) => al,
                    None => Seq::<char>::empty(),
                },
            ),
        ),
{
    reveal(scan_call);
    let q3 = alpha_tail(alpha);
    let rest = triple_text(a, b, c, pct, q3);
    let t = call_text(name, a, b, c, pct, alpha);
    lemma_call_text_shape(name, a, b, c, pct, alpha);
    assert(t.take(name.len() as int) =~= name);
    assert(t.skip(name.len() as int + 1) =~= rest);
    lemma_triple_rendered(a, b, c, pct, q3);
    match alpha {
        Some(al) => {
            assert(q3.skip(1) =~= seq![' '] + al + seq![')']);
            lemma_scan_alpha_rendered(seq![' '], al, seq![')']);
        },
        None => {
            assert(q3 =~= seq![')']);
        },
    }
}

proof fn lemma_hex_chars()
    ensures
        forall|d: int| 0 <= d < 16 ==> is_hex_digit(#[trigger] hex_chars()[d]) && hex_value(hex_chars()[d]) == d,
{
    assert(hex_chars()[0] == '0');
    assert(hex_chars()[1] == '1');
    assert(hex_chars()[2] == '2');
    assert(hex_chars()[3] == '3');
    assert(hex_chars()[4] == '4');
    assert(hex_chars()[5] == '5');
    assert(hex_chars()[6] == '6');
    assert(hex_chars()[7] == '7');
    assert(hex_chars()[8] == '8');
    assert(hex_chars()[9] == '9');
    assert(hex_chars()[10] == 'a');
    assert(hex_chars()[11] == 'b');
    assert(hex_chars()[12] == 'c');
    assert(hex_chars()[13] == 'd');
    assert(hex_chars()[14] == 'e');
    assert(hex_chars()[15] == 'f');
}

proof fn lemma_hex_body_scans(r: u8, g: u8, b: u8, a: Option<u8>)
    ensures
        hex_digits(hex_body(r, g, b, a)) == Some((r, g, b, a)),
{
    let h = hex_body(r, g, b, a);
    lemma_hex_chars();
    assert(all_hex(h));
    assert(hex_byte(h, 0) == r);
    assert(hex_byte(h, 1) == g);
    assert(hex_byte(h, 2) == b);
    if a is Some {
        assert(hex_byte(h, 3) == a->0);
    }
}


proof fn lemma_trim_rendered(t: Seq<char>)
    requires
        t.len() > 0,
        !is_blank(t[0]),
        !is_blank(t.last()),
    ensures
        trim(t) == t,
{
    assert(leading_blanks(t) == 0);
    assert(t.skip(0) =~= t);
    assert(trailing_blanks(t) == 0);
    assert(t.take(t.len() as int) =~= t);
}

proof fn lemma_call_not_hex(t: Seq<char>)
    requires
        t.len() > 0,
        t[0] == 'r' || t[0] == 'h',
    ensures
        hex_digits(t) is None,
        !(t[0] == '#'),
{
    assert(!is_hex_digit(t[0]));
}

proof fn lemma_reads_back_rgb(red: u8, green: u8, blue: u8)
    ensures
        classify(render(ColorModel::Rgb { red, green, blue })) == Scan::Color(ColorModel::Rgb { red, green, blue }),
{
    reveal_strlit("rgb");
    assert("rgb"@ =~= seq!['r', 'g', 'b']);
    let t = render(ColorModel::Rgb { red, green, blue });
    lemma_call_text_scans(seq!['r', 'g', 'b'], red as nat, green as nat, blue as nat, false, None);
    lemma_call_not_hex(t);
}

proof fn lemma_reads_back_rgba(red: u8, green: u8, blue: u8, alpha: Seq<char>)
    requires
        is_alpha_literal(alpha),
        alpha_in_range(alpha),
    ensures
        classify(render(ColorModel::Rgba { red, green, blue, alpha })) == Scan::Color(ColorModel::Rgba { red, green, blue, alpha }),
{
    reveal_strlit("rgb");
    assert("rgb"@ =~= seq!['r', 'g', 'b']);
    reveal_strlit("rgba");
    assert("rgba"@ =~= seq!['r', 'g', 'b', 'a']);
    let t = render(ColorModel::Rgba { red, green, blue, alpha });
    lemma_call_text_scans(seq!['r', 'g', 'b', 'a'], red as nat, green as nat, blue as nat, false, Some(alpha));
    lemma_call_not_hex(t);
    assert(t[3] == 'a');
    lemma_scan_call_needs_prefix(t, "rgb"@, false, false);
}

proof fn lemma_reads_back_hsl(hue: u16, saturation: u8, lightness: u8)
    requires
        hue <= 360,
        saturation <= 100,
        lightness <= 100,
    ensures
        classify(render(ColorModel::Hsl { hue, saturation, lightness })) == Scan::Color(ColorModel::Hsl { hue, saturation, lightness }),
{
    reveal_strlit("rgb");
    assert("rgb"@ =~= seq!['r', 'g', 'b']);
    reveal_strlit("rgba");
    assert("rgba"@ =~= seq!['r', 'g', 'b', 'a']);
    reveal_strlit("hsl");
    assert("hsl"@ =~= seq!['h', 's', 'l']);
    let t = render(ColorModel::Hsl { hue, saturation, lightness });
    lemma_call_text_scans(seq!['h', 's', 'l'], hue as nat, saturation as nat, lightness as nat, true, None);
    lemma_call_not_hex(t);
    assert(t.take(3)[0] != "rgb"@[0]);
    assert(t.take(4)[0] != "rgba"@[0]);
    lemma_scan_call_needs_prefix(t, "rgb"@, false, false);
    lemma_scan_call_needs_prefix(t, "rgba"@, false, true);
}

proof fn lemma_reads_back_hsla(hue: u16, saturation: u8, lightness: u8, alpha: Seq<char>)
    requires
        hue <= 360,
        saturation <= 100,
        lightness <= 100,
        is_alpha_literal(alpha),
        alpha_in_range(alpha),
    ensures
        classify(render(ColorModel::Hsla { hue, saturation, lightness, alpha })) == Scan::Color(ColorModel::Hsla { hue, saturation, lightness, alpha }),
{
    reveal_strlit("rgb");
    assert("rgb"@ =~= seq!['r', 'g', 'b']);
    reveal_strlit("rgba");
    assert("rgba"@ =~= seq!['r', 'g', 'b', 'a']);
    reveal_strlit("hsl");
    assert("hsl"@ =~= seq!['h', 's', 'l']);
    reveal_strlit("hsla");
    assert("hsla"@ =~= seq!['h', 's', 'l', 'a']);
    let t = render(ColorModel::Hsla { hue, saturation, lightness, alpha });
    lemma_call_text_scans(seq!['h', 's', 'l', 'a'], hue as nat, saturation as nat, lightness as nat, true, Some(alpha));
    lemma_call_not_hex(t);
    assert(t.take(3)[0] != "rgb"@[0]);
    assert(t.take(4)[0] != "rgba"@[0]);
    assert(t[3] == 'a');
    lemma_scan_call_needs_prefix(t, "rgb"@, false, false);
    lemma_scan_call_needs_prefix(t, "rgba"@, false, true);
    lemma_scan_call_needs_prefix(t, "hsl"@, true, false);
}

/// A well-formed color reads back from its own text.
pub proof fn lemma_render_reads_back(m: ColorModel)
    requires
        well_formed(m),
    ensures
        trim(render(m)) == render(m),
        classify(render(m)) == Scan::Color(m),
{
    let t = render(m);
    lemma_hex_chars();
    match m {
        ColorModel::Hex { red, green, blue, alpha } => {
            lemma_hex_body_scans(red, green, blue, alpha);
            assert(t.skip(1) =~= hex_body(red, green, blue, alpha));
        },
        ColorModel::HexStripped { red, green, blue, alpha } => {
            lemma_hex_body_scans(red, green, blue, alpha);
            assert(is_hex_digit(t[0]));
        },
        ColorModel::Rgb { red, green, blue } => lemma_reads_back_rgb(red, green, blue),
        ColorModel::Rgba { red, green, blue, alpha } => lemma_reads_back_rgba(red, green, blue, alpha),
        ColorModel::Hsl { hue, saturation, lightness } => lemma_reads_back_hsl(hue, saturation, lightness),
        ColorModel::Hsla { hue, saturation, lightness, alpha } => lemma_reads_back_hsla(hue, saturation, lightness, alpha),
    }
    lemma_trim_rendered(t);
}


proof fn lemma_scan_call_alpha(t: Seq<char>, name: Seq<char>, pct: bool)
    requires
        scan_call(t, name, pct, true) is Some,
    ensures
        match scan_call(t, name, pct, true) {
            Some((_, _, _, al)) => is_alpha_literal(al),
            None => true,
        },
{
    reveal(scan_call);
    let (_, _, _, u) = scan_triple(t.skip(name.len() as int + 1), pct)->0;
    let v = u.skip(1);
    let u1 = v.skip(space_run(v) as int);
    lemma_scanned_alpha_literal(u1);
}

/// Every color read from a text is well formed.
pub proof fn lemma_classified_well_formed(t: Seq<char>)
    requires
        classify(t) is Color,
    ensures
        well_formed(classify(t)->Color_0),
{
    if scan_call(t, "rgba"@, false, true) is Some {
        lemma_scan_call_alpha(t, "rgba"@, false);
    }
    if scan_call(t, "hsla"@, true, true) is Some {
        lemma_scan_call_alpha(t, "hsla"@, true);
    }
}

/// The text a color becomes reads back as the inverse of that color.
pub proof fn law_output_reads_back(s: Seq<char>)
    requires
        classify(trim(s)) is Color,
    ensures
        inverted(s) == Ok::<Seq<char>, FilterError>(render(invert_model(classify(trim(s))->Color_0))),
        trim(render(invert_model(classify(trim(s))->Color_0))) == render(invert_model(classify(trim(s))->Color_0)),
        classify(render(invert_model(classify(trim(s))->Color_0))) == Scan::Color(invert_model(classify(trim(s))->Color_0)),
{
    let m = classify(trim(s))->Color_0;
    lemma_classified_well_formed(trim(s));
    assert(well_formed(invert_model(m)));
    lemma_render_reads_back(invert_model(m));
}

/// The output keeps the notation of the input: it reads back as a color of
/// the same notation.
pub proof fn law_notation_kept(s: Seq<char>)
    requires
        classify(trim(s)) is Color,
    ensures
        inverted(s) is Ok,
        classify(trim(inverted(s)->Ok_0)) is Color,
        (classify(trim(inverted(s)->Ok_0))->Color_0).tag() == (classify(trim(s))->Color_0).tag(),
{
    law_output_reads_back(s);
}

/// Text that has none of the recognised shapes comes back unchanged.
pub proof fn law_unrecognised_unchanged(s: Seq<char>)
    requires
        classify(trim(s)) is NoMatch,
    ensures
        inverted(s) == Ok::<Seq<char>, FilterError>(s),
{
}

/// In the `rgb` and `rgba` notations each channel of the output is 255 minus
/// the channel of the input; the opacity is kept.
pub proof fn law_rgb_channels_complemented(s: Seq<char>)
    requires
        classify(trim(s)) is Color,
        classify(trim(s))->Color_0 is Rgb || classify(trim(s))->Color_0 is Rgba,
    ensures
        inverted(s) is Ok,
        match (classify(trim(s))->Color_0, classify(trim(inverted(s)->Ok_0))) {
            (ColorModel::Rgb { red, green, blue }, Scan::Color(ColorModel::Rgb { red: r, green: g, blue: b })) =>
                r == 255 - red && g == 255 - green && b == 255 - blue,
            (ColorModel::Rgba { red, green, blue, alpha }, Scan::Color(ColorModel::Rgba { red: r, green: g, blue: b, alpha: a })) =>
                r == 255 - red && g == 255 - green && b == 255 - blue && a == alpha,
            _ => false,
        },
{
    law_output_reads_back(s);
}

/// In the `hsl` and `hsla` notations the hue of the output is the hue of the
/// input plus 180, modulo 360; saturation, lightness and opacity are kept.
pub proof fn law_hsl_hue_turned(s: Seq<char>)
    requires
        classify(trim(s)) is Color,
        classify(trim(s))->Color_0 is Hsl || classify(trim(s))->Color_0 is Hsla,
    ensures
        inverted(s) is Ok,
        match (classify(trim(s))->Color_0, classify(trim(inverted(s)->Ok_0))) {
            (ColorModel::Hsl { hue, saturation, lightness }, Scan::Color(ColorModel::Hsl { hue: h, saturation: sa, lightness: l })) =>
                h == (hue + 180) % 360 && sa == saturation && l == lightness,
            (ColorModel::Hsla { hue, saturation, lightness, alpha }, Scan::Color(ColorModel::Hsla { hue: h, saturation: sa, lightness: l, alpha: a })) =>
                h == (hue + 180) % 360 && sa == saturation && l == lightness && a == alpha,
            _ => false,
        },
{
    law_output_reads_back(s);
}


pub open spec fn is_lower_hex_digit(c: char) -> bool {
    ('0' <= c && c <= '9') || ('a' <= c && c <= 'f')
}

proof fn lemma_lower_hex_char(c: char)
    requires
        is_lower_hex_digit(c),
    ensures
        hex_value(c) < 16,
        hex_chars()[hex_value(c) as int] == c,
{
    lemma_hex_chars();
    assert(hex_chars()[0] == '0');
    assert(hex_chars()[1] == '1');
    assert(hex_chars()[2] == '2');
    assert(hex_chars()[3] == '3');
    assert(hex_chars()[4] == '4');
    assert(hex_chars()[5] == '5');
    assert(hex_chars()[6] == '6');
    assert(hex_chars()[7] == '7');
    assert(hex_chars()[8] == '8');
    assert(hex_chars()[9] == '9');
    assert(hex_chars()[10] == 'a');
    assert(hex_chars()[11] == 'b');
    assert(hex_chars()[12] == 'c');
    assert(hex_chars()[13] == 'd');
    assert(hex_chars()[14] == 'e');
    assert(hex_chars()[15] == 'f');
}

proof fn lemma_hex_pair_of_digits(c1: char, c2: char)
    requires
        is_lower_hex_digit(c1),
        is_lower_hex_digit(c2),
    ensures
        hex_pair((hex_value(c1) * 16 + hex_value(c2)) as u8) == seq![c1, c2],
{
    lemma_lower_hex_char(c1);
    lemma_lower_hex_char(c2);
    let b = (hex_value(c1) * 16 + hex_value(c2)) as u8;
    assert(b / 16 == hex_value(c1));
    assert(b % 16 == hex_value(c2));
    assert(hex_pair(b) =~= seq![c1, c2]);
}

proof fn lemma_lower_hex_text(s: Seq<char>)
    requires
        s.len() == 7 || s.len() == 9,
        s[0] == '#',
        forall|i: int| 1 <= i < s.len() ==> is_lower_hex_digit(#[trigger] s[i]),
    ensures
        trim(s) == s,
        classify(s) is Color,
        classify(s)->Color_0 is Hex,
        render(classify(s)->Color_0) == s,
{
    let h = s.skip(1);
    assert forall|i: int| 0 <= i < h.len() implies is_hex_digit(#[trigger] h[i]) by {
        assert(h[i] == s[i + 1]);
    }
    assert(!is_blank(s.last())) by {
        assert(is_lower_hex_digit(s[s.len() - 1]));
    }
    lemma_trim_rendered(s);
    let m = classify(s)->Color_0;
    lemma_hex_pair_of_digits(h[0], h[1]);
    lemma_hex_pair_of_digits(h[2], h[3]);
    lemma_hex_pair_of_digits(h[4], h[5]);
    if s.len() == 9 {
        lemma_hex_pair_of_digits(h[6], h[7]);
    }
    assert(render(m) =~= s);
}

proof fn lemma_inverted_color(s: Seq<char>, m: ColorModel)
    requires
        classify(trim(s)) == Scan::Color(m),
    ensures
        inverted(s) == Ok::<Seq<char>, FilterError>(render(invert_model(m))),
{
}

/// Inverting a `#rrggbb` or `#rrggbbaa` text twice gives it back (digits in
/// lowercase, as the filter writes them).
pub proof fn law_hex_double_inversion(s: Seq<char>)
    requires
        s.len() == 7 || s.len() == 9,
        s[0] == '#',
        forall|i: int| 1 <= i < s.len() ==> is_lower_hex_digit(#[trigger] s[i]),
    ensures
        inverted(s) is Ok,
        inverted(inverted(s)->Ok_0) == Ok::<Seq<char>, FilterError>(s),
{
    lemma_lower_hex_text(s);
    let m = classify(s)->Color_0;
    let n = invert_model(m);
    lemma_inverted_color(s, m);
    lemma_render_reads_back(n);
    lemma_inverted_color(render(n), n);
    assert(invert_model(n) == m);
}


proof fn lemma_invert_twice(m: ColorModel)
    requires
        well_formed(m),
        match m {
            ColorModel::Hsl { hue, .. } => hue < 360,
            ColorModel::Hsla { hue, .. } => hue < 360,
            _ => true,
        },
    ensures
        well_formed(invert_model(m)),
        invert_model(invert_model(m)) == m,
{
}

/// Inverting twice gives back the color that was read, in every notation;
/// a hue is read below 360 for this, since 360 comes back as 0.
pub proof fn law_double_inversion_restores_color(s: Seq<char>)
    requires
        classify(trim(s)) is Color,
        match classify(trim(s))->Color_0 {
            ColorModel::Hsl { hue, .. } => hue < 360,
            ColorModel::Hsla { hue, .. } => hue < 360,
            _ => true,
        },
    ensures
        inverted(s) is Ok,
        inverted(inverted(s)->Ok_0) is Ok,
        classify(trim(inverted(inverted(s)->Ok_0)->Ok_0)) == classify(trim(s)),
{
    let m = classify(trim(s))->Color_0;
    let n = invert_model(m);
    lemma_classified_well_formed(trim(s));
    lemma_invert_twice(m);
    lemma_inverted_color(s, m);
    lemma_render_reads_back(n);
    lemma_inverted_color(render(n), n);
    lemma_render_reads_back(m);
}

} // verus!
