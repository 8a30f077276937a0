//! The grammar of the recognised color notations, as spec functions over
//! characters, and a scanner proved to follow it.
use vstd::prelude::*;
use vstd::string::*;

verus! {

pub open spec fn is_digit(c: char) -> bool {
    '0' <= c && c <= '9'
}

pub open spec fn digit_value(c: char) -> nat {
    (c as int - '0' as int) as nat
}

pub open spec fn is_hex_digit(c: char) -> bool {
    is_digit(c) || ('a' <= c && c <= 'f') || ('A' <= c && c <= 'F')
}

pub open spec fn hex_value(c: char) -> nat {
    if is_digit(c) {
        digit_value(c)
    } else if 'a' <= c && c <= 'f' {
        (c as int - 'a' as int + 10) as nat
    } else {
        (c as int - 'A' as int + 10) as nat
    }
}

/// Whitespace that is trimmed from both ends of the input.
pub open spec fn is_blank(c: char) -> bool {
    c == ' ' || c == '\t' || c == '\n' || c == '\r'
}

/// Length of the leading run of digits.
pub open spec fn digit_run(u: Seq<char>) -> nat
    decreases u.len(),
{
    if u.len() > 0 && is_digit(u[0]) {
        1 + digit_run(u.drop_first())
    } else {
        0
    }
}

/// Length of the leading run of spaces.
pub open spec fn space_run(u: Seq<char>) -> nat
    decreases u.len(),
{
    if u.len() > 0 && u[0] == ' ' {
        1 + space_run(u.drop_first())
    } else {
        0
    }
}

/// The number that a string of decimal digits denotes.
pub open spec fn decimal_value(d: Seq<char>) -> nat
    decreases d.len(),
{
    if d.len() == 0 {
        0
    } else {
        decimal_value(d.drop_last()) * 10 + digit_value(d.last())
    }
}

/// The largest number that the scanner tells apart; larger ones read as this.
pub const NUMBER_CAP: u32 = 1000;

pub open spec fn capped(v: nat) -> nat {
    if v < NUMBER_CAP {
        v
    } else {
        NUMBER_CAP as nat
    }
}

proof fn lemma_digit_run_step(u: Seq<char>)
    requires
        u.len() > 0,
    ensures
        is_digit(u[0]) ==> digit_run(u) == 1 + digit_run(u.drop_first()),
        !is_digit(u[0]) ==> digit_run(u) == 0,
        u[0] == ' ' ==> space_run(u) == 1 + space_run(u.drop_first()),
        u[0] != ' ' ==> space_run(u) == 0,
{
}

pub proof fn lemma_skip_step(t: Seq<char>, i: int)
    requires
        0 <= i < t.len(),
    ensures
        t.skip(i).len() > 0,
        t.skip(i)[0] == t[i],
        t.skip(i).drop_first() == t.skip(i + 1),
{
    assert(t.skip(i).drop_first() =~= t.skip(i + 1));
}

/// Position after the spaces that start at `i`.
pub fn skip_spaces(t: &str, n: usize, i: usize) -> (j: usize)
    requires
        n == t@.len(),
        i <= n,
    ensures
        j == i + space_run(t@.skip(i as int)),
        j <= n,
{
    let mut j: usize = i;
    while j < n && t.get_char(j) == ' '
        invariant
            n == t@.len(),
            i <= j <= n,
            space_run(t@.skip(i as int)) == (j - i) + space_run(t@.skip(j as int)),
        decreases n - j,
    {
        proof {
            lemma_skip_step(t@, j as int);
            lemma_digit_run_step(t@.skip(j as int));
        }
        j = j + 1;
    }
    proof {
        if j < n {
            lemma_skip_step(t@, j as int);
            lemma_digit_run_step(t@.skip(j as int));
        } else {
            assert(t@.skip(j as int).len() == 0);
        }
    }
    j
}

proof fn lemma_decimal_push(t: Seq<char>, j: int, i: int)
    requires
        0 <= j <= i < t.len(),
    ensures
        decimal_value(t.subrange(j, i + 1)) == decimal_value(t.subrange(j, i)) * 10
            + digit_value(t[i]),
{
    assert(t.subrange(j, i + 1).drop_last() =~= t.subrange(j, i));
}

/// Reads the digits that start at `i`: where they end, and their value, capped.
pub fn scan_digits(t: &str, n: usize, i: usize) -> (r: (usize, u32))
    requires
        n == t@.len(),
        i <= n,
    ensures
        r.0 == i + digit_run(t@.skip(i as int)),
        r.0 <= n,
        r.1 == capped(decimal_value(t@.subrange(i as int, r.0 as int))),
        forall|m: int| i <= m < r.0 ==> is_digit(t@[m]),
        r.0 < n ==> !is_digit(t@[r.0 as int]),
{
    let mut j: usize = i;
    let mut acc: u32 = 0;
    while j < n && is_digit_char(t.get_char(j))
        invariant
            n == t@.len(),
            i <= j <= n,
            digit_run(t@.skip(i as int)) == (j - i) + digit_run(t@.skip(j as int)),
            acc == capped(decimal_value(t@.subrange(i as int, j as int))),
            forall|m: int| i <= m < j ==> is_digit(t@[m]),
        decreases n - j,
    {
        let c = t.get_char(j);
        proof {
            lemma_skip_step(t@, j as int);
            lemma_digit_run_step(t@.skip(j as int));
            lemma_decimal_push(t@, i as int, j as int);
        }
        if acc < NUMBER_CAP {
            acc = acc * 10 + (c as u32 - '0' as u32);
            if acc > NUMBER_CAP {
                acc = NUMBER_CAP;
            }
        } else {
            assert(decimal_value(t@.subrange(i as int, j as int)) >= 1000);
        }
        j = j + 1;
    }
    proof {
        if j < n {
            lemma_skip_step(t@, j as int);
            lemma_digit_run_step(t@.skip(j as int));
        } else {
            assert(t@.skip(j as int).len() == 0);
        }
    }
    (j, acc)
}

pub fn hex_value_of(c: char) -> (r: u8)
    requires
        is_hex_digit(c),
    ensures
        r == hex_value(c),
        r < 16,
{
    if '0' <= c && c <= '9' {
        (c as u32 - '0' as u32) as u8
    } else if 'a' <= c && c <= 'f' {
        (c as u32 - 'a' as u32 + 10) as u8
    } else {
        (c as u32 - 'A' as u32 + 10) as u8
    }
}

pub fn is_hex_digit_char(c: char) -> (r: bool)
    ensures
        r == is_hex_digit(c),
{
    ('0' <= c && c <= '9') || ('a' <= c && c <= 'f') || ('A' <= c && c <= 'F')
}

pub fn is_digit_char(c: char) -> (r: bool)
    ensures
        r == is_digit(c),
{
    '0' <= c && c <= '9'
}


/// A whole number between optional spaces, with a `%` after it where `pct`:
/// its value and what follows.
pub open spec fn scan_number(u: Seq<char>, pct: bool) -> Option<(nat, Seq<char>)> {
    let u1 = u.skip(space_run(u) as int);
    let k = digit_run(u1);
    let u2 = u1.skip(k as int);
    if k == 0 {
        None
    } else if pct && !(u2.len() > 0 && u2[0] == '%') {
        None
    } else {
        let u3 = if pct {
            u2.skip(1)
        } else {
            u2
        };
        Some((decimal_value(u1.take(k as int)), u3.skip(space_run(u3) as int)))
    }
}

/// Length of the opacity literal at the start of `u` (digits, then optionally
/// a point and more digits); zero where there is none.
pub open spec fn alpha_literal_len(u: Seq<char>) -> nat {
    let k = digit_run(u);
    if k == 0 {
        0
    } else if k < u.len() && u[k as int] == '.' && digit_run(u.skip(k as int + 1)) > 0 {
        k + 1 + digit_run(u.skip(k as int + 1))
    } else {
        k
    }
}

pub open spec fn is_alpha_literal(a: Seq<char>) -> bool {
    a.len() > 0 && alpha_literal_len(a) == a.len()
}

/// An opacity literal denotes a value in [0, 1].
pub open spec fn alpha_in_range(a: Seq<char>) -> bool {
    let k = digit_run(a);
    let whole = decimal_value(a.take(k as int));
    whole == 0 || (whole == 1 && forall|i: int| k < i < a.len() ==> a[i] == '0')
}

/// An opacity literal between optional spaces: the literal and what follows.
pub open spec fn scan_alpha(u: Seq<char>) -> Option<(Seq<char>, Seq<char>)> {
    let u1 = u.skip(space_run(u) as int);
    let m = alpha_literal_len(u1);
    let rest = u1.skip(m as int);
    if m == 0 {
        None
    } else {
        Some((u1.take(m as int), rest.skip(space_run(rest) as int)))
    }
}

pub proof fn lemma_skip_skip(t: Seq<char>, i: int, k: int)
    requires
        0 <= i,
        0 <= k,
        i + k <= t.len(),
    ensures
        t.skip(i).skip(k) == t.skip(i + k),
        t.skip(i).take(k) == t.subrange(i, i + k),
{
    assert(t.skip(i).skip(k) =~= t.skip(i + k));
    assert(t.skip(i).take(k) =~= t.subrange(i, i + k));
}

/// Reads a number field that starts at `i`: its value, capped, and the
/// position after it.
pub fn scan_number_at(t: &str, n: usize, i: usize, pct: bool) -> (r: Option<(u32, usize)>)
    requires
        n == t@.len(),
        i <= n,
    ensures
        match scan_number(t@.skip(i as int), pct) {
            None => r is None,
            Some((v, rest)) => match r {
                Some((rv, rp)) => rp <= n && t@.skip(rp as int) == rest && rv == capped(v),
                None => false,
            },
        },
{
    let ghost u = t@.skip(i as int);
    let j = skip_spaces(t, n, i);
    proof {
        lemma_skip_skip(t@, i as int, j - i);
    }
    let (k, v) = scan_digits(t, n, j);
    proof {
        lemma_skip_skip(t@, j as int, k - j);
    }
    if k == j {
        return None;
    }
    let mut e: usize = k;
    if pct {
        if k < n && t.get_char(k) == '%' {
            proof {
                lemma_skip_step(t@, k as int);
            }
            e = k + 1;
        } else {
            proof {
                if k < n {
                    lemma_skip_step(t@, k as int);
                }
            }
            return None;
        }
    }
    proof {
        lemma_skip_skip(t@, k as int, e - k);
    }
    let f = skip_spaces(t, n, e);
    proof {
        lemma_skip_skip(t@, e as int, f - e);
    }
    Some((v, f))
}


pub proof fn lemma_digit_run_take(u: Seq<char>, m: int)
    requires
        0 <= m <= u.len(),
    ensures
        digit_run(u.take(m)) == if digit_run(u) < m {
            digit_run(u)
        } else {
            m as nat
        },
    decreases u.len(),
{
    if u.len() > 0 && m > 0 {
        assert(u.take(m).drop_first() =~= u.drop_first().take(m - 1));
        lemma_digit_run_take(u.drop_first(), m - 1);
    }
}

/// Reads an opacity literal between optional spaces, starting at `i`: where
/// the literal starts and ends, and the position after the spaces that follow.
pub fn scan_alpha_at(t: &str, n: usize, i: usize) -> (r: Option<(usize, usize, usize)>)
    requires
        n == t@.len(),
        i <= n,
    ensures
        match scan_alpha(t@.skip(i as int)) {
            None => r is None,
            Some((lit, rest)) => match r {
                Some((s, e, p)) => s <= e <= n && p <= n && t@.subrange(s as int, e as int) == lit
                    && t@.skip(p as int) == rest && (e < n ==> !is_digit(t@[e as int])),
                None => false,
            },
        },
{
    let j = skip_spaces(t, n, i);
    proof {
        lemma_skip_skip(t@, i as int, j - i);
    }
    let (k, _v) = scan_digits(t, n, j);
    if k == j {
        return None;
    }
    let mut e: usize = k;
    if k < n && t.get_char(k) == '.' {
        let (m, _w) = scan_digits(t, n, k + 1);
        proof {
            lemma_skip_skip(t@, j as int, k + 1 - j);
        }
        if m > k + 1 {
            e = m;
        }
    }
    proof {
        lemma_skip_skip(t@, j as int, e - j);
    }
    let p = skip_spaces(t, n, e);
    proof {
        lemma_skip_skip(t@, e as int, p - e);
    }
    Some((j, e, p))
}

/// Whether the opacity literal at `s..e` denotes a value in [0, 1].
pub fn alpha_in_range_at(t: &str, n: usize, s: usize, e: usize) -> (r: bool)
    requires
        n == t@.len(),
        s <= e <= n,
        e < n ==> !is_digit(t@[e as int]),
    ensures
        r == alpha_in_range(t@.subrange(s as int, e as int)),
{
    let ghost a = t@.subrange(s as int, e as int);
    let (k, whole) = scan_digits(t, n, s);
    proof {
        assert(t@.skip(s as int).take(e - s) =~= a);
        lemma_digit_run_take(t@.skip(s as int), e - s);
        if k > e {
            assert(is_digit(t@[e as int]));
        }
        assert(digit_run(a) == k - s);
        assert(a.take(k - s) =~= t@.subrange(s as int, k as int));
    }
    if whole == 0 {
        return true;
    }
    if whole != 1 {
        return false;
    }
    if k >= e {
        return true;
    }
    let mut i: usize = k + 1;
    while i < e
        invariant
            n == t@.len(),
            s <= k < i <= e + 1,
            e <= n,
            a == t@.subrange(s as int, e as int),
            forall|m: int| k - s < m < i - s ==> a[m] == '0',
            digit_run(a) == k - s,
            decimal_value(a.take(k - s)) == 1,
        decreases e - i,
    {
        if t.get_char(i) != '0' {
            assert(a[i - s] != '0');
            return false;
        }
        i = i + 1;
    }
    true
}

} // verus!
