//! Building the styled trace lines.
//!
//! A trace line is two styled fragments joined by one space. The rendering
//! here is pure: it returns the lines as strings, and says of each exactly
//! which characters it holds; writing them to the output is the caller's
//! business.

use crate::style::{Style, apply, spec_apply};
use crate::theme::Theme;
use vstd::prelude::*;

verus! {

/// A line of two styled fragments joined by a space.
pub open spec fn spec_line(c1: Seq<u8>, t1: Seq<char>, c2: Seq<u8>, t2: Seq<char>) -> Seq<char> {
    spec_apply(c1, t1) + seq![' '] + spec_apply(c2, t2)
}

/// Renders two payloads, each under its own style, joined by one space.
pub fn render_line(s1: &Style, t1: &str, s2: &Style, t2: &str) -> (r: String)
    ensures
        r@ == spec_line(s1@, t1@, s2@, t2@),
{
    let mut r = apply(s1, t1);
    r.append(" ");
    let second = apply(s2, t2);
    r.append(second.as_str());
    proof {
        reveal_strlit(" ");
        assert(" "@ =~= seq![' ']);
        assert(r@ =~= spec_line(s1@, t1@, s2@, t2@));
    }
    r
}

/// Renders the two trace lines under the given theme: a span line holding
/// `SPAN` and its event text, and an error line holding `ERROR` and its
/// message, each fragment styled by its role.
pub fn render_trace(theme: &Theme) -> (lines: (String, String))
    ensures
        lines.0@ == spec_line(theme.span@, "SPAN"@, theme.event@, "User logged in"@),
        lines.1@ == spec_line(theme.error@, "ERROR"@, theme.error@, "Connection failed"@),
{
    let first = render_line(&theme.span, "SPAN", &theme.event, "User logged in");
    let second = render_line(&theme.error, "ERROR", &theme.error, "Connection failed");
    (first, second)
}

} // verus!
