//! Run settings, and the check of a requested trigger length.

use vstd::prelude::*;

verus! {

#[verifier::external_type_specification]
#[verifier::external_body]
pub struct ExPathBuf(std::path::PathBuf);

/// Shortest trigger length accepted.
pub const MIN_TRIGGER_LEN: usize = 10;
/// Longest trigger length accepted.
pub const MAX_TRIGGER_LEN: usize = 100;
/// Trigger length used when the given text is not a number.
pub const DEFAULT_TRIGGER_LEN: usize = 36;

/// The settings of a run.
#[derive(Debug)]
pub struct Cli {
    /// Length of each trigger, from 10 to 100.
    pub trg_len: usize,
    /// Files holding the query sequences; each is run on its own.
    pub input_sequence: Vec<std::path::PathBuf>,
    /// Whether triggers may hold IUPAC ambiguity codes.
    pub include_non_standard: bool,
    /// Number of worker threads; the machine's parallelism when absent.
    pub nproc: Option<usize>,
    /// Library to count trigger coverage against; no counting when absent.
    pub library_path: Option<std::path::PathBuf>,
    /// Whether to write the trigger list to a file.
    pub save_trg_list: bool,
    /// Whether to write the coverage table to a file.
    pub save_trg_genome_tab: bool,
    /// Suffix added to output file names.
    pub output_suffix: String,
}

/// The value of a decimal digit string, most significant digit first.
pub open spec fn digits_value(s: Seq<char>) -> nat
    decreases s.len(),
{
    if s.len() == 0 {
        0
    } else {
        (digits_value(s.drop_last()) * 10 + (s.last() as int - '0' as int)) as nat
    }
}

/// A non-empty run of ASCII decimal digits.
pub open spec fn all_digits(s: Seq<char>) -> bool {
    s.len() > 0 && forall|i: int| 0 <= i < s.len() ==> '0' <= #[trigger] s[i] <= '9'
}

/// What `usize`'s `FromStr` accepts: an optional `+` followed by decimal
/// digits whose value fits in a `usize`.
pub open spec fn usize_text(s: Seq<char>) -> Option<usize> {
    let d = if s.len() > 0 && s[0] == '+' {
        s.drop_first()
    } else {
        s
    };
    if all_digits(d) && digits_value(d) <= usize::MAX {
        Some(digits_value(d) as usize)
    } else {
        None
    }
}

/// Relies on `str::parse::<usize>`: an optional `+` and decimal digits, no
/// whitespace, the value in range; anything else is an error.
#[verifier::external_body]
fn parse_usize(s: &str) -> (r: Option<usize>)
    ensures
        r == usize_text(s@),
{
    s.parse::<usize>().ok()
}

/// The trigger length a text asks for: its decimal value, or 36 when it is
/// not a number.
pub open spec fn requested_len(s: Seq<char>) -> usize {
    match usize_text(s) {
        Some(n) => n,
        None => DEFAULT_TRIGGER_LEN,
    }
}

/// Reads a trigger length; a text that is not a number counts as 36. The
/// length is accepted when it lies from 10 to 100.
pub fn trg_validate(trg_len: &str) -> (r: Result<usize, String>)
    ensures
        MIN_TRIGGER_LEN <= requested_len(trg_len@) <= MAX_TRIGGER_LEN ==> r == Ok::<usize, String>(
            requested_len(trg_len@),
        ),
        !(MIN_TRIGGER_LEN <= requested_len(trg_len@) <= MAX_TRIGGER_LEN) ==> r is Err,
        r is Err ==> r->Err_0@ == "Trigger length not in range considered: 10 - 100"@,
{
    let n = match parse_usize(trg_len) {
        Some(n) => n,
        None => DEFAULT_TRIGGER_LEN,
    };
    if MIN_TRIGGER_LEN <= n && n <= MAX_TRIGGER_LEN {
        Ok(n)
    } else {
        Err("Trigger length not in range considered: 10 - 100".to_owned())
    }
}

} // verus!
