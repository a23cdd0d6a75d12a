//! Delimiter and escape policy.
//!
//! A [`Rules`] value is a pure, stateless description of one interpolation
//! dialect: which character introduces an interpolation, how a wrapped
//! expression region is opened and closed, whether the bare `$name` form is
//! allowed, and which characters may start or continue a bare identifier.
//! The scanner is parameterized by a `Rules` value so that one scanner serves
//! every dialect.

use vstd::prelude::*;

verus! {

/// The Unicode `Alphabetic` property of a character, as decided by
/// `char::is_alphabetic`.  The class is far too large to write out, but it is
/// a function of the character alone, so it is given a name here.
pub uninterp spec fn alphabetic(c: char) -> bool;

/// Whether a character is alphanumeric, as decided by
/// `char::is_alphanumeric`.
pub uninterp spec fn alphanumeric(c: char) -> bool;

/// Relies on `char::is_alphabetic`: whether the character has the Unicode
/// `Alphabetic` property.  The result depends on the character alone.
#[verifier::external_body]
fn char_alphabetic(c: char) -> (r: bool)
    ensures
        r == alphabetic(c),
{
    c.is_alphabetic()
}

/// Relies on `char::is_alphanumeric`, documented as returning
/// `is_alphabetic(c) || is_numeric(c)`: the result depends on the character
/// alone, and every alphabetic character is alphanumeric.
#[verifier::external_body]
fn char_alphanumeric(c: char) -> (r: bool)
    ensures
        r == alphanumeric(c),
        alphabetic(c) ==> r,
{
    c.is_alphanumeric()
}

/// Whether `c` may start a bare identifier: alphabetic or an underscore.
pub open spec fn bare_start(c: char) -> bool {
    alphabetic(c) || c == '_'
}

/// Whether `c` may continue a bare identifier: alphanumeric or an underscore.
pub open spec fn bare_continue(c: char) -> bool {
    alphanumeric(c) || c == '_'
}

/// Decides [`bare_start`].
pub fn is_bare_start(c: char) -> (r: bool)
    ensures
        r == bare_start(c),
{
    char_alphabetic(c) || c == '_'
}

/// Decides [`bare_continue`].
pub fn is_bare_continue(c: char) -> (r: bool)
    ensures
        r == bare_continue(c),
{
    char_alphanumeric(c) || c == '_'
}

/// The whitespace characters trimmed from the ends of a wrapped expression.
pub open spec fn space(c: char) -> bool {
    c == ' ' || c == '\t' || c == '\n' || c == '\r'
}

/// Decides [`space`].
pub fn is_space(c: char) -> (r: bool)
    ensures
        r == space(c),
{
    c == ' ' || c == '\t' || c == '\n' || c == '\r'
}

/// One interpolation dialect.
#[derive(Debug, Clone, Copy)]
pub struct Rules {
    /// The character that introduces an interpolation.
    pub open_delim: char,
    /// A second character that must follow `open_delim` to open a wrapped
    /// expression region (`Some('{')` for `${expr}` syntax), or `None` when
    /// the region begins directly after `open_delim` (`{expr}` syntax).
    pub wrap_open: Option<char>,
    /// The character that closes a wrapped expression region.
    pub wrap_close: char,
    /// Whether the bare form (`$name`, terminated by the first character
    /// that cannot continue an identifier) is allowed.
    pub allow_bare: bool,
}

impl Rules {
    /// A dialect is well formed when its special characters cannot be
    /// mistaken for one another or for trimmed whitespace.
    pub open spec fn wf(self) -> bool {
        &&& self.open_delim != self.wrap_close
        &&& self.wrap_open != Some(self.open_delim)
        &&& self.wrap_open != Some(self.wrap_close)
        &&& !space(self.open_delim)
        &&& !space(self.wrap_close)
    }

    /// The `$`-introduced dialect: `${expr}` wrapped expressions, bare
    /// `$name` expressions, and `$$` as an escaped literal `$`.
    pub fn dollar_curly() -> (r: Rules)
        ensures
            r.open_delim == '$',
            r.wrap_open == Some('{'),
            r.wrap_close == '}',
            r.allow_bare,
            r.wf(),
    {
        Rules { open_delim: '$', wrap_open: Some('{'), wrap_close: '}', allow_bare: true }
    }

    /// The brace dialect of format-string literals: `{expr}` wrapped
    /// expressions, no bare form, and `{{` as an escaped literal `{`.
    pub fn curly() -> (r: Rules)
        ensures
            r.open_delim == '{',
            r.wrap_open is None,
            r.wrap_close == '}',
            !r.allow_bare,
            r.wf(),
    {
        Rules { open_delim: '{', wrap_open: None, wrap_close: '}', allow_bare: false }
    }

    /// Whether `c` introduces an interpolation.
    pub fn is_open_delimiter(&self, c: char) -> (r: bool)
        ensures
            r == (c == self.open_delim),
    {
        c == self.open_delim
    }

    /// Whether `c` closes a wrapped expression region.
    pub fn is_wrap_close(&self, c: char) -> (r: bool)
        ensures
            r == (c == self.wrap_close),
    {
        c == self.wrap_close
    }

    /// The two doubled-character escape sequences of the dialect: doubling
    /// the open delimiter stands for one literal open delimiter, doubling
    /// the close delimiter for one literal close delimiter.
    pub fn escape_pair(&self) -> (r: (char, char))
        ensures
            r == (self.open_delim, self.wrap_close),
    {
        (self.open_delim, self.wrap_close)
    }
}

} // verus!
