//! What a styled string displays.
//!
//! A style-capable terminal does not print SGR escape sequences: from an
//! `ESC` it swallows everything up to and including the terminating `'m'`.
//! On a sink without styling the escape codes are additive noise around the
//! payload, which stands in the string unchanged. [`visible`] models the
//! capable terminal as a two-state machine over the characters, and
//! [`visible_text`] computes it. The lemmas here prove that styling is
//! invisible: the visible content of an applied style is exactly the
//! payload.

use crate::style::{digit_char, dec_of, params_of, spec_apply, style_prefix, style_suffix};
use vstd::prelude::*;

verus! {

/// The stripping state after one character: inside an escape sequence the
/// terminating `'m'` leads back out; outside, an `ESC` leads in.
pub open spec fn esc_step(esc: bool, c: char) -> bool {
    if esc {
        c != 'm'
    } else {
        c == '\u{1b}'
    }
}

/// The characters displayed from `s`, starting inside an escape sequence
/// when `esc` holds: characters within an escape sequence are swallowed,
/// all others are kept.
pub open spec fn visible_from(s: Seq<char>, esc: bool) -> Seq<char>
    decreases s.len(),
{
    if s.len() == 0 {
        Seq::empty()
    } else {
        let rest = visible_from(s.drop_first(), esc_step(esc, s[0]));
        if !esc && s[0] != '\u{1b}' {
            seq![s[0]] + rest
        } else {
            rest
        }
    }
}

/// The stripping state after reading all of `s`, starting from `esc`.
pub open spec fn esc_after(s: Seq<char>, esc: bool) -> bool
    decreases s.len(),
{
    if s.len() == 0 {
        esc
    } else {
        esc_after(s.drop_first(), esc_step(esc, s[0]))
    }
}

/// The visible content of a string: what a style-capable terminal displays.
pub open spec fn visible(s: Seq<char>) -> Seq<char> {
    visible_from(s, false)
}

/// A payload with no `ESC` character: wholly visible.
pub open spec fn all_visible(s: Seq<char>) -> bool {
    forall|i: int| 0 <= i < s.len() ==> s[i] != '\u{1b}'
}

/// How stripping reads a single character, in both states.
proof fn lemma_visible_from_one(c: char, esc: bool)
    ensures
        visible_from(seq![c], esc) == (if !esc && c != '\u{1b}' {
            seq![c]
        } else {
            Seq::<char>::empty()
        }),
        esc_after(seq![c], esc) == esc_step(esc, c),
{
    let s = seq![c];
    assert(s.drop_first() =~= Seq::<char>::empty());
    assert(visible_from(Seq::<char>::empty(), esc_step(esc, c)) == Seq::<char>::empty());
    assert(esc_after(Seq::<char>::empty(), esc_step(esc, c)) == esc_step(esc, c));
    if !esc && c != '\u{1b}' {
        assert(visible_from(s, esc) =~= seq![c]);
    }
}

/// Stripping distributes over concatenation: the second part is read in the
/// state the first part ends in.
pub proof fn lemma_visible_from_concat(a: Seq<char>, b: Seq<char>, esc: bool)
    ensures
        visible_from(a + b, esc) == visible_from(a, esc) + visible_from(b, esc_after(a, esc)),
        esc_after(a + b, esc) == esc_after(b, esc_after(a, esc)),
    decreases a.len(),
{
    if a.len() == 0 {
        assert(a + b =~= b);
        assert(visible_from(a, esc) + visible_from(b, esc) =~= visible_from(b, esc));
    } else {
        assert((a + b).drop_first() =~= a.drop_first() + b);
        lemma_visible_from_concat(a.drop_first(), b, esc_step(esc, a[0]));
        assert((a + b)[0] == a[0]);
        if !esc && a[0] != '\u{1b}' {
            assert(seq![a[0]] + (visible_from(a.drop_first(), esc_step(esc, a[0])) + visible_from(
                b,
                esc_after(a.drop_first(), esc_step(esc, a[0])),
            )) =~= (seq![a[0]] + visible_from(a.drop_first(), esc_step(esc, a[0])))
                + visible_from(b, esc_after(a.drop_first(), esc_step(esc, a[0]))));
        }
    }
}

/// A string without `ESC` displays as itself and leaves the stripping state
/// outside an escape sequence.
pub proof fn lemma_visible_plain(s: Seq<char>)
    requires
        all_visible(s),
    ensures
        visible_from(s, false) == s,
        esc_after(s, false) == false,
    decreases s.len(),
{
    if s.len() > 0 {
        lemma_visible_plain(s.drop_first());
        assert(visible_from(s, false) =~= s);
    }
}

/// Inside an escape sequence, characters other than `'m'` display nothing
/// and stay inside it.
proof fn lemma_escape_skipped(s: Seq<char>)
    requires
        forall|i: int| 0 <= i < s.len() ==> s[i] != 'm',
    ensures
        visible_from(s, true) == Seq::<char>::empty(),
        esc_after(s, true) == true,
    decreases s.len(),
{
    if s.len() > 0 {
        lemma_escape_skipped(s.drop_first());
    }
}

/// A decimal rendering holds digit characters only: no `'m'`, no `ESC`.
proof fn lemma_dec_of_chars(n: int)
    ensures
        forall|i: int|
            0 <= i < dec_of(n).len() ==> #[trigger] dec_of(n)[i] != 'm' && dec_of(n)[i]
                != '\u{1b}',
    decreases n,
{
    if n < 10 {
        assert(dec_of(n) == seq![digit_char(n)]);
        assert(dec_of(n)[0] == digit_char(n));
    } else {
        lemma_dec_of_chars(n / 10);
        let a = dec_of(n / 10);
        let b = seq![digit_char(n % 10)];
        assert(dec_of(n) == a + b);
        assert forall|i: int|
            0 <= i < dec_of(n).len() implies #[trigger] dec_of(n)[i] != 'm' && dec_of(n)[i]
            != '\u{1b}' by {
            if i < a.len() {
                assert(dec_of(n)[i] == a[i]);
            } else {
                assert(dec_of(n)[i] == b[i - a.len()]);
            }
        }
    }
}

/// The parameter part of an SGR sequence holds digits and `';'` only:
/// no `'m'`, no `ESC`.
proof fn lemma_params_chars(codes: Seq<u8>)
    ensures
        forall|i: int|
            0 <= i < params_of(codes).len() ==> #[trigger] params_of(codes)[i] != 'm'
                && params_of(codes)[i] != '\u{1b}',
    decreases codes.len(),
{
    if codes.len() == 1 {
        lemma_dec_of_chars(codes[0] as int);
        assert(params_of(codes) == dec_of(codes[0] as int));
    } else if codes.len() > 1 {
        lemma_params_chars(codes.drop_last());
        lemma_dec_of_chars(codes.last() as int);
        let a = params_of(codes.drop_last());
        let b = seq![';'];
        let c = dec_of(codes.last() as int);
        assert(params_of(codes) == a + b + c);
        assert forall|i: int|
            0 <= i < params_of(codes).len() implies #[trigger] params_of(codes)[i] != 'm'
            && params_of(codes)[i] != '\u{1b}' by {
            if i < a.len() {
                assert(params_of(codes)[i] == a[i]);
            } else if i < a.len() + 1 {
                assert(params_of(codes)[i] == ';');
            } else {
                assert(params_of(codes)[i] == c[i - a.len() - 1]);
            }
        }
    }
}

/// A whole SGR escape sequence — `ESC`, a body free of `'m'`, then `'m'` —
/// displays nothing and ends outside an escape sequence.
proof fn lemma_sgr_invisible(body: Seq<char>)
    requires
        forall|i: int| 0 <= i < body.len() ==> body[i] != 'm',
    ensures
        visible_from(seq!['\u{1b}'] + body + seq!['m'], false) == Seq::<char>::empty(),
        esc_after(seq!['\u{1b}'] + body + seq!['m'], false) == false,
{
    let e = seq!['\u{1b}'];
    let m = seq!['m'];
    let whole = e + body + m;
    assert(whole =~= e + (body + m));
    lemma_visible_from_concat(e, body + m, false);
    lemma_visible_from_one('\u{1b}', false);
    lemma_visible_from_concat(body, m, true);
    lemma_escape_skipped(body);
    lemma_visible_from_one('m', true);
    assert(visible_from(whole, false) =~= Seq::<char>::empty());
}

/// Styling is invisible: for a payload without `ESC`, the visible content
/// of the styled string is exactly the payload, whatever the style. The
/// styled string also ends outside an escape sequence, so whatever follows
/// it on a line is displayed unharmed.
pub proof fn lemma_apply_visible(codes: Seq<u8>, t: Seq<char>)
    requires
        all_visible(t),
    ensures
        visible(spec_apply(codes, t)) == t,
        esc_after(spec_apply(codes, t), false) == false,
{
    if codes.len() == 0 {
        assert(spec_apply(codes, t) =~= t);
        lemma_visible_plain(t);
    } else {
        let pre = style_prefix(codes);
        let suf = style_suffix(codes);
        let pre_body = seq!['['] + params_of(codes);
        lemma_params_chars(codes);
        assert(forall|i: int| 0 <= i < pre_body.len() ==> pre_body[i] != 'm');
        assert(pre =~= seq!['\u{1b}'] + pre_body + seq!['m']);
        lemma_sgr_invisible(pre_body);
        let suf_body = seq!['[', '0'];
        assert(suf =~= seq!['\u{1b}'] + suf_body + seq!['m']);
        lemma_sgr_invisible(suf_body);
        lemma_visible_plain(t);
        lemma_visible_from_concat(pre, t + suf, false);
        lemma_visible_from_concat(t, suf, false);
        assert(spec_apply(codes, t) =~= pre + (t + suf));
        assert(visible(spec_apply(codes, t)) =~= t);
    }
}

/// Two styled fragments joined by a space display as the two payloads
/// joined by a space: styling changes nothing of a line's visible content.
pub proof fn lemma_joined_line_visible(c1: Seq<u8>, t1: Seq<char>, c2: Seq<u8>, t2: Seq<char>)
    requires
        all_visible(t1),
        all_visible(t2),
    ensures
        visible(spec_apply(c1, t1) + seq![' '] + spec_apply(c2, t2)) == t1 + seq![' '] + t2,
{
    let a = spec_apply(c1, t1);
    let b = spec_apply(c2, t2);
    let sp = seq![' '];
    lemma_apply_visible(c1, t1);
    lemma_apply_visible(c2, t2);
    lemma_visible_from_concat(a, sp + b, false);
    lemma_visible_from_concat(sp, b, false);
    lemma_visible_from_one(' ', false);
    assert(a + sp + b =~= a + (sp + b));
    assert(visible(a + sp + b) =~= t1 + sp + t2);
}

/// The visible content of a string: the characters a style-capable terminal
/// would display, with every SGR escape sequence stripped.
pub fn visible_text(s: &str) -> (r: String)
    ensures
        r@ == visible(s@),
{
    let n = s.unicode_len();
    let mut r = String::new();
    let mut esc = false;
    let mut i: usize = 0;
    while i < n
        invariant
            n == s@.len(),
            i <= n,
            esc == esc_after(s@.subrange(0, i as int), false),
            r@ == visible_from(s@.subrange(0, i as int), false),
        decreases n - i,
    {
        let ghost esc0 = esc;
        let c = s.get_char(i);
        if esc {
            if c == 'm' {
                esc = false;
            }
        } else {
            if c == '\u{1b}' {
                esc = true;
            } else {
                let piece = s.substring_char(i, i + 1);
                proof {
                    assert(piece@ =~= seq![s@[i as int]]);
                }
                r.append(piece);
            }
        }
        proof {
            let done = s@.subrange(0, i as int);
            let one = seq![s@[i as int]];
            assert(s@.subrange(0, (i + 1) as int) =~= done + one);
            lemma_visible_from_concat(done, one, false);
            lemma_visible_from_one(s@[i as int], esc0);
        }
        i = i + 1;
    }
    proof {
        assert(s@.subrange(0, n as int) =~= s@);
    }
    r
}

} // verus!
