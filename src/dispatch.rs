//! What to do once the installed and available versions are known.
//!
//! An outdated driver leads to a question with a few one-letter options: open
//! the download page, download and run the installer, or quit. The URL is
//! handed on as the lookup service gave it: that service is trusted.
use vstd::prelude::*;
use vstd::std_specs::iter::IteratorSpec;

use crate::version::ComparisonResult;

verus! {

/// What the user may answer to the question about an outdated driver.
#[derive(Clone, Copy, Debug, PartialEq, Eq, Structural)]
pub enum Choice {
    /// Open the driver's download page.
    OpenDownloadPage,
    /// Download the driver's installer and run it.
    AutoInstall,
    /// Do nothing.
    Quit,
}

/// The step that follows a comparison.
#[derive(Debug)]
pub enum Action {
    /// The driver is current: nothing to ask, nothing to do.
    NoActionNeeded,
    /// Open the download page in the default browser.
    OpenBrowser(String),
    /// Download the installer from the URL, run it, then remove it.
    AutoInstall(String),
    /// The user declined.
    Quit,
}

/// Whether the user is to be asked what to do: only for an outdated driver.
pub fn confirmation_needed(result: ComparisonResult) -> (r: bool)
    ensures
        r == (result == ComparisonResult::Outdated),
{
    result == ComparisonResult::Outdated
}

/// The action for a comparison's `result` and, where the user was asked, the
/// `choice` made, on the newest driver's `url`.
pub fn dispatch(result: ComparisonResult, choice: Choice, url: &str) -> (r: Action)
    ensures
        result != ComparisonResult::Outdated ==> r is NoActionNeeded,
        result == ComparisonResult::Outdated && choice == Choice::OpenDownloadPage ==> (r matches Action::OpenBrowser(u) && u@ == url@),
        result == ComparisonResult::Outdated && choice == Choice::AutoInstall ==> (r matches Action::AutoInstall(u) && u@ == url@),
        result == ComparisonResult::Outdated && choice == Choice::Quit ==> r is Quit,
{
    if result != ComparisonResult::Outdated {
        Action::NoActionNeeded
    } else {
        match choice {
            Choice::OpenDownloadPage => Action::OpenBrowser(url.to_owned()),
            Choice::AutoInstall => Action::AutoInstall(url.to_owned()),
            Choice::Quit => Action::Quit,
        }
    }
}

/// Whether a character is white space in Unicode's sense.
pub uninterp spec fn white_space(c: char) -> bool;

/// The first character of a character's lower-case mapping.
pub uninterp spec fn lower_head(c: char) -> char;

/// Relies on char::is_whitespace: Unicode's White_Space property.
#[verifier::external_body]
fn is_white_space(c: char) -> (r: bool)
    ensures
        r == white_space(c),
{
    c.is_whitespace()
}

/// Relies on char::to_lowercase, whose mapping has at least one character:
/// the first of them.
#[verifier::external_body]
fn lowercase_head(c: char) -> (r: char)
    ensures
        r == lower_head(c),
{
    c.to_lowercase().next().unwrap_or(c)
}

pub open spec fn is_blank(s: Seq<char>) -> bool {
    forall|i: int| 0 <= i < s.len() ==> white_space(#[trigger] s[i])
}

/// The index of the first option that is `c` when case is ignored.
pub open spec fn option_index(options: Seq<char>, c: char) -> Option<int> {
    if exists|i: int| 0 <= i < options.len() && lower_head(options[i]) == lower_head(c) {
        Some(
            choose|i: int|
                0 <= i < options.len() && lower_head(options[i]) == lower_head(c) && forall|j: int|
                    0 <= j < i ==> lower_head(options[j]) != lower_head(c),
        )
    } else {
        None
    }
}

/// What a line of user input selects among `options`: the default for a
/// blank line, else the option that the first character names, case
/// ignored; `None` where it names none, and the question is to be asked again.
pub open spec fn selected(input: Seq<char>, options: Seq<char>, default: int) -> Option<int> {
    if is_blank(input) {
        Some(default)
    } else {
        option_index(options, input[0])
    }
}

fn blank(s: &str) -> (r: bool)
    ensures
        r == is_blank(s@),
{
    broadcast use vstd::string::axiom_spec_iter;

    let mut it = s.chars();
    let ghost n = s@.len();
    let ghost mut i: int = 0;
    loop
        invariant
            it.remaining() == s@.skip(i),
            0 <= i <= n == s@.len(),
            forall|j: int| 0 <= j < i ==> white_space(#[trigger] s@[j]),
        decreases n - i,
    {
        match it.next() {
            None => {
                return true;
            },
            Some(c) => {
                assert(s@.skip(i)[0] == s@[i]);
                if !is_white_space(c) {
                    return false;
                }
                assert(s@.skip(i).drop_first() =~= s@.skip(i + 1));
                proof {
                    i = i + 1;
                }
            },
        }
    }
}

/// The option that a line of user input selects; see `selected`.
pub fn selection(input: &str, options: &[char], default: usize) -> (r: Option<usize>)
    requires
        default < options@.len(),
    ensures
        match r {
            Some(i) => selected(input@, options@, default as int) == Some(i as int),
            None => selected(input@, options@, default as int) is None,
        },
{
    broadcast use vstd::string::axiom_spec_iter;

    if blank(input) {
        return Some(default);
    }
    let mut it = input.chars();
    assert(input@.len() > 0);
    let c = match it.next() {
        Some(c) => c,
        None => return Some(default),
    };
    let key = lowercase_head(c);
    let mut i: usize = 0;
    while i < options.len()
        invariant
            i <= options@.len(),
            input@.len() > 0,
            !is_blank(input@),
            c == input@[0],
            key == lower_head(c),
            forall|j: int| 0 <= j < i ==> lower_head(options@[j]) != key,
        decreases options@.len() - i,
    {
        if lowercase_head(options[i]) == key {
            proof {
                let ii = i as int;
                assert(0 <= ii < options@.len() && lower_head(options@[ii]) == lower_head(c)
                    && forall|j: int| 0 <= j < ii ==> lower_head(options@[j]) != lower_head(c));
                assert(option_index(options@, c) is Some);
                let k = option_index(options@, c)->0;
                if k > ii {
                    assert(lower_head(options@[ii]) != lower_head(c));
                }
                assert(k == ii);
                assert(selected(input@, options@, default as int) == option_index(options@, c));
            }
            return Some(i);
        }
        i = i + 1;
    }
    None
}

} // verus!
