//! The `invert` filter: a color written as text becomes its inverse, in the
//! same notation; other text passes through unchanged.
use vstd::prelude::*;
use vstd::string::*;
use crate::color::FilterError;
use crate::parse::{classify, classify_text, Scan};
use crate::render::{invert_color, invert_model, render, render_color};
use crate::scan::is_blank;

verus! {

/// Number of blanks at the start of `s`.
pub open spec fn leading_blanks(s: Seq<char>) -> nat
    decreases s.len(),
{
    if s.len() > 0 && is_blank(s[0]) {
        1 + leading_blanks(s.drop_first())
    } else {
        0
    }
}

/// Number of blanks at the end of `s`.
pub open spec fn trailing_blanks(s: Seq<char>) -> nat
    decreases s.len(),
{
    if s.len() > 0 && is_blank(s.last()) {
        1 + trailing_blanks(s.drop_last())
    } else {
        0
    }
}

/// `s` without the blanks at either end.
pub open spec fn trim(s: Seq<char>) -> Seq<char> {
    let a = s.skip(leading_blanks(s) as int);
    a.take(a.len() - trailing_blanks(a))
}

/// What the filter gives for a text: the inverse of the color it denotes,
/// written in the same notation; the text unchanged where it denotes none.
pub open spec fn inverted(s: Seq<char>) -> Result<Seq<char>, FilterError> {
    match classify(trim(s)) {
        Scan::NoMatch => Ok(s),
        Scan::Malformed => Err(FilterError::MalformedColorLiteral),
        Scan::Color(m) => Ok(render(invert_model(m))),
    }
}

proof fn lemma_leading_bound(s: Seq<char>)
    ensures
        leading_blanks(s) <= s.len(),
    decreases s.len(),
{
    if s.len() > 0 {
        lemma_leading_bound(s.drop_first());
    }
}

proof fn lemma_trailing_bound(s: Seq<char>)
    ensures
        trailing_blanks(s) <= s.len(),
    decreases s.len(),
{
    if s.len() > 0 {
        lemma_trailing_bound(s.drop_last());
    }
}

pub fn is_blank_char(c: char) -> (r: bool)
    ensures
        r == is_blank(c),
{
    c == ' ' || c == '\t' || c == '\n' || c == '\r'
}

/// `s` without the blanks at either end.
pub fn trim_text(s: &str) -> (r: &str)
    ensures
        r@ == trim(s@),
{
    let n = s.unicode_len();
    let mut i: usize = 0;
    assert(s@.skip(0) =~= s@);
    while i < n && is_blank_char(s.get_char(i))
        invariant
            n == s@.len(),
            i <= n,
            leading_blanks(s@) == i + leading_blanks(s@.skip(i as int)),
        decreases n - i,
    {
        assert(s@.skip(i as int).drop_first() =~= s@.skip(i + 1));
        i = i + 1;
    }
    proof {
        if i < n {
            assert(s@.skip(i as int)[0] == s@[i as int]);
        }
    }
    let ghost a = s@.skip(i as int);
    let mut j: usize = n;
    assert(a.take(n - i) =~= a);
    while j > i && is_blank_char(s.get_char(j - 1))
        invariant
            n == s@.len(),
            i <= j <= n,
            a == s@.skip(i as int),
            trailing_blanks(a) == (n - j) + trailing_blanks(a.take(j - i)),
        decreases j,
    {
        assert(a.take(j - i).drop_last() =~= a.take(j - 1 - i));
        j = j - 1;
    }
    proof {
        if j > i {
            assert(a.take(j - i).last() == s@[j - 1]);
        }
        assert(a.take(n - i) =~= a);
        assert(a.take(j - i) =~= s@.subrange(i as int, j as int));
    }
    s.substring_char(i, j)
}

/// Inverts a color written as text, keeping its notation. Text that is not a
/// color comes back unchanged; a color with a component out of range is an error.
pub fn invert_text(s: &str) -> (r: Result<String, FilterError>)
    ensures
        match r {
            Ok(o) => inverted(s@) == Ok::<Seq<char>, FilterError>(o@),
            Err(e) => inverted(s@) == Err::<Seq<char>, FilterError>(e),
        },
{
    let t = trim_text(s);
    match classify_text(t) {
        Ok(None) => Ok(String::from_str(s)),
        Err(e) => Err(e),
        Ok(Some(v)) => {
            let w = invert_color(v);
            Ok(render_color(&w))
        },
    }
}


#[verifier::external_type_specification]
#[verifier::external_body]
pub struct ExValue(upon::Value);

/// The text that a template value holds, if it is a string.
pub uninterp spec fn text_of(v: upon::Value) -> Option<Seq<char>>;

/// Relies on the variants of `upon::Value`: only `Value::String` holds text,
/// and the text it holds depends on the value alone.
#[verifier::external_body]
fn value_text(v: &upon::Value) -> (r: Option<&String>)
    ensures
        match r {
            Some(s) => text_of(*v) == Some(s@),
            None => text_of(*v) is None,
        },
{
    match v {
        upon::Value::String(s) => Some(s),
        _ => None,
    }
}

/// The filter as a template engine calls it: a value that is not a string is
/// the `NotAString` error; otherwise as `invert_text`, with errors as messages.
pub fn invert(value: &upon::Value) -> (r: Result<String, String>)
    ensures
        match text_of(*value) {
            None => match r {
                Err(m) => m@ == FilterError::NotAString.message_spec(),
                Ok(_) => false,
            },
            Some(s) => match (inverted(s), r) {
                (Ok(o), Ok(x)) => x@ == o,
                (Err(e), Err(m)) => m@ == e.message_spec(),
                _ => false,
            },
        },
{
    let s = match value_text(value) {
        None => return Err(FilterError::NotAString.message()),
        Some(s) => s,
    };
    match invert_text(s.as_str()) {
        Ok(o) => Ok(o),
        Err(e) => Err(e.message()),
    }
}

} // verus!
