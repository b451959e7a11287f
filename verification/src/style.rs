//! Style descriptors and the style applicator.
//!
//! A `Style` is a list of SGR (Select Graphic Rendition) attribute codes,
//! such as `1` for bold or `31` for red. Applying a non-empty style to a
//! text payload produces `ESC [ codes m payload ESC [ 0 m`: the payload
//! wrapped in the style's escape sequence and a reset. Applying the empty
//! (plain) style returns the payload unchanged. The functions here are
//! total: every style and every payload, including the empty one, yields a
//! styled string.

use vstd::arithmetic::div_mod::lemma_div_denominator;
use vstd::prelude::*;

verus! {

/// A style descriptor: the SGR attribute codes that make up the style.
/// An empty code list is the plain (null) style, which applies no styling.
#[derive(Clone, Debug)]
pub struct Style {
    codes: Vec<u8>,
}

impl View for Style {
    type V = Seq<u8>;

    closed spec fn view(&self) -> Seq<u8> {
        self.codes@
    }
}

impl Style {
    /// The plain style: no codes, so applying it leaves the payload as it is.
    pub fn plain() -> (s: Style)
        ensures
            s@ == Seq::<u8>::empty(),
    {
        Style { codes: Vec::new() }
    }

    /// A style made of the given SGR attribute codes.
    pub fn new(codes: Vec<u8>) -> (s: Style)
        ensures
            s@ == codes@,
    {
        Style { codes }
    }

    /// The style's SGR attribute codes.
    pub fn codes(&self) -> (c: &Vec<u8>)
        ensures
            c@ == self@,
    {
        &self.codes
    }

    /// Whether this is the plain style.
    pub open spec fn is_plain(&self) -> bool {
        self@.len() == 0
    }
}

/// The decimal digit character for `d` (clamped to `'9'` above nine; the
/// styling model only ever uses it with `0 <= d <= 9`).
pub open spec fn digit_char(d: int) -> char {
    if d == 0 {
        '0'
    } else if d == 1 {
        '1'
    } else if d == 2 {
        '2'
    } else if d == 3 {
        '3'
    } else if d == 4 {
        '4'
    } else if d == 5 {
        '5'
    } else if d == 6 {
        '6'
    } else if d == 7 {
        '7'
    } else if d == 8 {
        '8'
    } else {
        '9'
    }
}

/// The decimal rendering of a non-negative number, most significant digit
/// first and without leading zeros (`0` renders as `"0"`).
pub open spec fn dec_of(n: int) -> Seq<char>
    decreases n,
{
    if n < 10 {
        seq![digit_char(n)]
    } else {
        dec_of(n / 10) + seq![digit_char(n % 10)]
    }
}

/// The parameter part of an SGR escape sequence: the codes in decimal,
/// separated by `';'`.
pub open spec fn params_of(codes: Seq<u8>) -> Seq<char>
    decreases codes.len(),
{
    if codes.len() == 0 {
        Seq::empty()
    } else if codes.len() == 1 {
        dec_of(codes[0] as int)
    } else {
        params_of(codes.drop_last()) + seq![';'] + dec_of(codes.last() as int)
    }
}

/// What a style prepends to the payload: `ESC [ codes m` for a non-empty
/// style, nothing for the plain style.
pub open spec fn style_prefix(codes: Seq<u8>) -> Seq<char> {
    if codes.len() == 0 {
        Seq::empty()
    } else {
        seq!['\u{1b}', '['] + params_of(codes) + seq!['m']
    }
}

/// What a style appends after the payload: the reset sequence `ESC [ 0 m`
/// for a non-empty style, nothing for the plain style.
pub open spec fn style_suffix(codes: Seq<u8>) -> Seq<char> {
    if codes.len() == 0 {
        Seq::empty()
    } else {
        seq!['\u{1b}', '[', '0', 'm']
    }
}

/// The styled string: the payload between the style's prefix and suffix.
pub open spec fn spec_apply(codes: Seq<u8>, t: Seq<char>) -> Seq<char> {
    style_prefix(codes) + t + style_suffix(codes)
}

/// The one-character string for a decimal digit.
fn digit_str(d: u8) -> (r: &'static str)
    requires
        d < 10,
    ensures
        r@ == seq![digit_char(d as int)],
{
    proof {
        reveal_strlit("0");
        reveal_strlit("1");
        reveal_strlit("2");
        reveal_strlit("3");
        reveal_strlit("4");
        reveal_strlit("5");
        reveal_strlit("6");
        reveal_strlit("7");
        reveal_strlit("8");
        reveal_strlit("9");
    }
    let r: &'static str = if d == 0 {
        "0"
    } else if d == 1 {
        "1"
    } else if d == 2 {
        "2"
    } else if d == 3 {
        "3"
    } else if d == 4 {
        "4"
    } else if d == 5 {
        "5"
    } else if d == 6 {
        "6"
    } else if d == 7 {
        "7"
    } else if d == 8 {
        "8"
    } else {
        "9"
    };
    proof {
        assert(r@ =~= seq![digit_char(d as int)]);
    }
    r
}

/// How a code renders in decimal: one digit below ten, two below a hundred,
/// three up to the largest `u8`.
proof fn lemma_dec_of_u8(n: int)
    requires
        0 <= n < 256,
    ensures
        n < 10 ==> dec_of(n) == seq![digit_char(n)],
        10 <= n < 100 ==> dec_of(n) == seq![digit_char(n / 10), digit_char(n % 10)],
        100 <= n ==> dec_of(n) == seq![
            digit_char(n / 100),
            digit_char((n / 10) % 10),
            digit_char(n % 10),
        ],
{
    if 10 <= n < 100 {
        assert(1 <= n / 10 < 10);
        assert(dec_of(n / 10) == seq![digit_char(n / 10)]);
        assert(dec_of(n) =~= seq![digit_char(n / 10), digit_char(n % 10)]);
    } else if 100 <= n {
        lemma_div_denominator(n, 10, 10);
        assert(n / 10 / 10 == n / 100);
        assert(10 <= n / 10 < 26);
        assert(1 <= n / 100 < 10);
        assert(dec_of(n / 100) == seq![digit_char(n / 100)]);
        assert(dec_of(n / 10) =~= seq![digit_char(n / 100), digit_char((n / 10) % 10)]);
        assert(dec_of(n) =~= seq![
            digit_char(n / 100),
            digit_char((n / 10) % 10),
            digit_char(n % 10),
        ]);
    }
}

/// Appends the decimal rendering of `c` to `out`.
fn append_dec(out: &mut String, c: u8)
    ensures
        final(out)@ == old(out)@ + dec_of(c as int),
{
    proof {
        lemma_dec_of_u8(c as int);
    }
    if c >= 100 {
        out.append(digit_str(c / 100));
        out.append(digit_str((c / 10) % 10));
        out.append(digit_str(c % 10));
        assert(final(out)@ =~= old(out)@ + dec_of(c as int));
    } else if c >= 10 {
        out.append(digit_str(c / 10));
        out.append(digit_str(c % 10));
        assert(final(out)@ =~= old(out)@ + dec_of(c as int));
    } else {
        out.append(digit_str(c));
        assert(final(out)@ =~= old(out)@ + dec_of(c as int));
    }
}

/// Applies a style to a text payload: wraps the payload in the style's
/// escape sequence and a trailing reset, or returns it unchanged under the
/// plain style. Total: every style and every payload yields a string, and
/// the payload stands in the result letter for letter.
pub fn apply(s: &Style, t: &str) -> (r: String)
    ensures
        r@ == spec_apply(s@, t@),
{
    if s.codes.len() == 0 {
        let r = t.to_owned();
        proof {
            assert(r@ =~= spec_apply(s@, t@));
        }
        return r;
    }
    let mut r = String::new();
    r.append("\u{1b}[");
    proof {
        reveal_strlit("\u{1b}[");
        assert(r@ =~= seq!['\u{1b}', '['] + params_of(s@.subrange(0, 0)));
    }
    let mut i: usize = 0;
    while i < s.codes.len()
        invariant
            i <= s@.len(),
            r@ == seq!['\u{1b}', '['] + params_of(s@.subrange(0, i as int)),
        decreases s@.len() - i,
    {
        if i > 0 {
            r.append(";");
            proof {
                reveal_strlit(";");
            }
        }
        append_dec(&mut r, s.codes[i]);
        proof {
            let done = s@.subrange(0, (i + 1) as int);
            assert(done.drop_last() =~= s@.subrange(0, i as int));
            assert(done.last() == s@[i as int]);
            assert(r@ =~= seq!['\u{1b}', '['] + params_of(done));
        }
        i = i + 1;
    }
    r.append("m");
    r.append(t);
    r.append("\u{1b}[0m");
    proof {
        reveal_strlit("m");
        reveal_strlit("\u{1b}[0m");
        assert(s@.subrange(0, s@.len() as int) =~= s@);
        assert(r@ =~= spec_apply(s@, t@));
    }
    r
}

/// Applying the plain style is the identity on the payload: no escape
/// sequence is added and the payload comes back as it went in.
pub proof fn lemma_apply_plain_identity(codes: Seq<u8>, t: Seq<char>)
    requires
        codes.len() == 0,
    ensures
        spec_apply(codes, t) == t,
{
    assert(spec_apply(codes, t) =~= t);
}

/// Styling never mutates or truncates the payload: the styled string holds
/// the payload as a contiguous substring, whatever the style and whatever
/// the payload.
pub proof fn lemma_apply_contains_payload(codes: Seq<u8>, t: Seq<char>)
    ensures
        exists|k: int|
            0 <= k && k + t.len() <= spec_apply(codes, t).len() && #[trigger] spec_apply(
                codes,
                t,
            ).subrange(k, k + t.len() as int) == t,
{
    let k = style_prefix(codes).len() as int;
    assert(spec_apply(codes, t).subrange(k, k + t.len() as int) =~= t);
}

} // verus!
