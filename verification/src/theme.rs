//! Themes: one style per semantic role of a trace line.
//!
//! A theme names a style for each of the fixed roles a trace element can
//! have. The roles are a closed enumeration, so a theme holds a style for
//! every role by construction: no lookup can miss.

use crate::style::Style;
use vstd::prelude::*;

verus! {

/// The semantic roles of a trace element, each styled in its own way.
#[derive(Clone, Copy, PartialEq, Eq, Structural, Debug)]
pub enum Role {
    Span,
    Event,
    Error,
}

/// A theme: the style for each role. Every role is present by construction.
#[derive(Clone, Debug)]
pub struct Theme {
    pub span: Style,
    pub event: Style,
    pub error: Style,
}

impl Theme {
    /// The codes of the style this theme gives a role.
    pub open spec fn spec_style_for(&self, role: Role) -> Seq<u8> {
        match role {
            Role::Span => self.span@,
            Role::Event => self.event@,
            Role::Error => self.error@,
        }
    }

    /// A theme from the three roles' styles.
    pub fn new(span: Style, event: Style, error: Style) -> (t: Theme)
        ensures
            t.span@ == span@,
            t.event@ == event@,
            t.error@ == error@,
    {
        Theme { span, event, error }
    }

    /// A theme that styles nothing: the plain style for every role.
    pub fn plain() -> (t: Theme)
        ensures
            forall|role: Role| t.spec_style_for(role) == Seq::<u8>::empty(),
    {
        Theme { span: Style::plain(), event: Style::plain(), error: Style::plain() }
    }

    /// The style this theme gives a role.
    pub fn style_for(&self, role: Role) -> (s: &Style)
        ensures
            s@ == self.spec_style_for(role),
    {
        match role {
            Role::Span => &self.span,
            Role::Event => &self.event,
            Role::Error => &self.error,
        }
    }
}

} // verus!
