//! Colours and line breaks, which come from other crates.

use vstd::prelude::*;

use owo_colors::OwoColorize;

use crate::text;

verus! {

/// A text between a terminal sequence that sets a style and one that resets it.
pub open spec fn painted(style: Seq<char>, s: Seq<char>, reset: Seq<char>) -> Seq<char> {
    style + s + reset
}

/// `owo_colors::OwoColorize::green`: the display form of its result is the text
/// between the sequences for a green foreground and for the default foreground.
#[verifier::external_body]
pub(crate) fn green(s: &str) -> (r: String)
    ensures
        r@ == painted("\x1b[32m"@, s@, "\x1b[39m"@),
{
    s.green().to_string()
}

/// `owo_colors::OwoColorize::yellow`: the display form of its result is the text
/// between the sequences for a yellow foreground and for the default foreground.
#[verifier::external_body]
pub(crate) fn yellow(s: &str) -> (r: String)
    ensures
        r@ == painted("\x1b[33m"@, s@, "\x1b[39m"@),
{
    s.yellow().to_string()
}

/// `owo_colors::OwoColorize::red`: the display form of its result is the text
/// between the sequences for a red foreground and for the default foreground.
#[verifier::external_body]
pub(crate) fn red(s: &str) -> (r: String)
    ensures
        r@ == painted("\x1b[31m"@, s@, "\x1b[39m"@),
{
    s.red().to_string()
}

/// `owo_colors::OwoColorize::blue`: the display form of its result is the text
/// between the sequences for a blue foreground and for the default foreground.
#[verifier::external_body]
pub(crate) fn blue(s: &str) -> (r: String)
    ensures
        r@ == painted("\x1b[34m"@, s@, "\x1b[39m"@),
{
    s.blue().to_string()
}

/// `owo_colors::OwoColorize::dimmed`: the display form of its result is the text
/// between the sequences for dimmed text and for plain text.
#[verifier::external_body]
pub(crate) fn dimmed(s: &str) -> (r: String)
    ensures
        r@ == painted("\x1b[2m"@, s@, "\x1b[0m"@),
{
    s.dimmed().to_string()
}

/// `owo_colors::OwoColorize::bright_blue`: the display form of its result is the
/// text between the sequences for a bright blue foreground and for the default
/// foreground.
#[verifier::external_body]
pub(crate) fn bright_blue(s: &str) -> (r: String)
    ensures
        r@ == painted("\x1b[94m"@, s@, "\x1b[39m"@),
{
    s.bright_blue().to_string()
}

/// `owo_colors::OwoColorize::bright_red`: the display form of its result is the
/// text between the sequences for a bright red foreground and for the default
/// foreground.
#[verifier::external_body]
pub(crate) fn bright_red(s: &str) -> (r: String)
    ensures
        r@ == painted("\x1b[91m"@, s@, "\x1b[39m"@),
{
    s.bright_red().to_string()
}

/// `owo_colors::OwoColorize::bright_magenta`: the display form of its result is
/// the text between the sequences for a bright magenta foreground and for the
/// default foreground.
#[verifier::external_body]
pub(crate) fn bright_magenta(s: &str) -> (r: String)
    ensures
        r@ == painted("\x1b[95m"@, s@, "\x1b[39m"@),
{
    s.bright_magenta().to_string()
}

/// `owo_colors::OwoColorize::bright_yellow`: the display form of its result is
/// the text between the sequences for a bright yellow foreground and for the
/// default foreground.
#[verifier::external_body]
pub(crate) fn bright_yellow(s: &str) -> (r: String)
    ensures
        r@ == painted("\x1b[93m"@, s@, "\x1b[39m"@),
{
    s.bright_yellow().to_string()
}

/// `owo_colors::OwoColorize::bright_cyan`: the display form of its result is the
/// text between the sequences for a bright cyan foreground and for the default
/// foreground.
#[verifier::external_body]
pub(crate) fn bright_cyan(s: &str) -> (r: String)
    ensures
        r@ == painted("\x1b[96m"@, s@, "\x1b[39m"@),
{
    s.bright_cyan().to_string()
}

/// The lines into which `textwrap::wrap` breaks a text for a number of columns.
pub uninterp spec fn wrapped(s: Seq<char>, columns: nat) -> Seq<Seq<char>>;

/// `textwrap::wrap` with the default options of `textwrap::Options::new`: the
/// lines depend on the text and the number of columns alone.
#[verifier::external_body]
pub(crate) fn wrap(s: &str, columns: usize) -> (r: Vec<String>)
    ensures
        text::views(r@) == wrapped(s@, columns as nat),
{
    let lines = textwrap::wrap(s, textwrap::Options::new(columns));
    lines.into_iter().map(|line| line.into_owned()).collect()
}

/// The number of columns that `unicode_width` gives a text.
pub uninterp spec fn columns(s: Seq<char>) -> nat;

/// `unicode_width::UnicodeWidthStr::width`: the number of columns depends on the
/// text alone.
#[verifier::external_body]
pub(crate) fn width(s: &str) -> (r: usize)
    ensures
        r == columns(s@),
{
    unicode_width::UnicodeWidthStr::width(s)
}

} // verus!
