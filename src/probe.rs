//! The installed driver, as the vendor's diagnostic tool reports it.
//!
//! The tool is looked for in two places, the current install layout first and
//! the legacy one second; its output is free text that names the driver version
//! on a line `Driver Version: <digits>.<digits>`.
use vstd::prelude::*;
use vstd::utf8::{decode_utf8, valid_utf8};

use crate::error::CheckError;

verus! {

/// File name of the diagnostic tool.
pub const SMI: &'static str = "nvidia-smi.exe";

/// Finds the installed driver version in the diagnostic tool's output; the
/// first group is the version.
pub const DRIVER_VERSION_PATTERN: &'static str = "Driver Version: ([0-9]+\\.[0-9]+)";

/// A directory that the hosting system names in its environment.
#[derive(Clone, Copy, Debug, PartialEq, Eq, Structural)]
pub enum BaseDirectory {
    /// The operating system's own directory.
    SystemRoot,
    /// The directory that programs are installed into.
    ProgramFiles,
}

impl BaseDirectory {
    /// The environment variable that holds this directory.
    pub fn variable(&self) -> (r: &'static str)
        ensures
            r@ == base_variable(*self),
    {
        match self {
            BaseDirectory::SystemRoot => "windir",
            BaseDirectory::ProgramFiles => "ProgramFiles",
        }
    }
}

pub open spec fn base_variable(b: BaseDirectory) -> Seq<char> {
    match b {
        BaseDirectory::SystemRoot => "windir"@,
        BaseDirectory::ProgramFiles => "ProgramFiles"@,
    }
}

/// A place where the diagnostic tool may be: a base directory and the path
/// components below it.
pub struct Candidate {
    pub base: BaseDirectory,
    pub parts: Vec<String>,
}

pub open spec fn parts_view(c: Candidate) -> Seq<Seq<char>> {
    c.parts@.map_values(|p: String| p@)
}

/// The places where the tool named `executable_name` is looked for, in the
/// order in which they are tried: the current layout under the system
/// directory, then the legacy layout under the program directory.
pub fn candidate_locations(executable_name: &str) -> (r: Vec<Candidate>)
    ensures
        r@.len() == 2,
        r@[0].base == BaseDirectory::SystemRoot,
        parts_view(r@[0]) == seq!["System32"@, executable_name@],
        r@[1].base == BaseDirectory::ProgramFiles,
        parts_view(r@[1]) == seq!["NVIDIA Corporation"@, "NVSMI"@, executable_name@],
{
    let current = vec!["System32".to_owned(), executable_name.to_owned()];
    let legacy = vec!["NVIDIA Corporation".to_owned(), "NVSMI".to_owned(), executable_name.to_owned()];
    assert(parts_view(Candidate { base: BaseDirectory::SystemRoot, parts: current }) =~= seq!["System32"@, executable_name@]);
    assert(parts_view(Candidate { base: BaseDirectory::ProgramFiles, parts: legacy }) =~= seq!["NVIDIA Corporation"@, "NVSMI"@, executable_name@]);
    vec![
        Candidate { base: BaseDirectory::SystemRoot, parts: current },
        Candidate { base: BaseDirectory::ProgramFiles, parts: legacy },
    ]
}

/// Picks the first path of `candidates` whose flag says that it exists;
/// `NotFound` where none does.
pub fn pick_location(candidates: &Vec<(String, bool)>) -> (r: Result<String, CheckError>)
    ensures
        match r {
            Ok(p) => exists|i: int|
                0 <= i < candidates@.len() && candidates@[i].1 && p@ == candidates@[i].0@
                    && forall|j: int| 0 <= j < i ==> !candidates@[j].1,
            Err(e) => e == CheckError::NotFound && forall|j: int|
                0 <= j < candidates@.len() ==> !candidates@[j].1,
        },
{
    let mut i: usize = 0;
    while i < candidates.len()
        invariant
            i <= candidates@.len(),
            forall|j: int| 0 <= j < i ==> !candidates@[j].1,
        decreases candidates@.len() - i,
    {
        if candidates[i].1 {
            return Ok(candidates[i].0.clone());
        }
        i = i + 1;
    }
    Err(CheckError::NotFound)
}

/// The text that a byte sequence decodes to, invalid sequences replaced.
pub uninterp spec fn lossy_text(bytes: Seq<u8>) -> Seq<char>;

/// The first group of the leftmost match of the regular expression `pattern`
/// in `text`; `None` where the pattern is invalid, nothing matches, or the
/// group takes no part in the match.
pub uninterp spec fn first_group(pattern: Seq<char>, text: Seq<char>) -> Option<Seq<char>>;

/// Relies on String::from_utf8_lossy: each invalid sequence becomes U+FFFD,
/// and valid UTF-8 decodes as it is.
#[verifier::external_body]
fn decode_lossy(bytes: &[u8]) -> (r: String)
    ensures
        r@ == lossy_text(bytes@),
        valid_utf8(bytes@) ==> r@ == decode_utf8(bytes@),
{
    String::from_utf8_lossy(bytes).into_owned()
}

/// Relies on regex::Regex::new and Regex::captures, which finds the leftmost
/// match: the text of its first group.
#[verifier::external_body]
fn find_first_group(pattern: &str, text: &str) -> (r: Option<String>)
    ensures
        match r {
            Some(g) => first_group(pattern@, text@) == Some(g@),
            None => first_group(pattern@, text@) is None,
        },
{
    match regex::Regex::new(pattern) {
        Ok(re) => match re.captures(text) {
            Some(caps) => match caps.get(1) {
                Some(m) => Some(m.as_str().to_owned()),
                None => None,
            },
            None => None,
        },
        Err(_) => None,
    }
}

/// What the diagnostic tool's output `stdout` says of the installed driver.
pub open spec fn installed_outcome(stdout: Seq<u8>) -> Result<Seq<char>, CheckError> {
    match first_group(DRIVER_VERSION_PATTERN@, lossy_text(stdout)) {
        Some(v) => Ok(v),
        None => Err(CheckError::PatternNotFound),
    }
}

/// Reads the installed driver version out of the diagnostic tool's standard
/// output, decoded with invalid bytes replaced.
///
/// Fails with `PatternNotFound` where no line names the driver version.
pub fn installed_version_from_output(stdout: &[u8]) -> (r: Result<String, CheckError>)
    ensures
        match r {
            Ok(v) => installed_outcome(stdout@) == Ok::<Seq<char>, CheckError>(v@),
            Err(e) => installed_outcome(stdout@) == Err::<Seq<char>, CheckError>(e),
        },
{
    let text = decode_lossy(stdout);
    match find_first_group(DRIVER_VERSION_PATTERN, text.as_str()) {
        Some(v) => Ok(v),
        None => Err(CheckError::PatternNotFound),
    }
}

} // verus!
