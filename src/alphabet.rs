//! The two nucleotide alphabets a trigger may be drawn from, and the test of
//! a text against one of them.

use vstd::prelude::*;

verus! {

/// Which letters a trigger may hold.
#[derive(Clone, Copy, Debug, PartialEq, Eq, Structural)]
pub enum Alphabet {
    /// `A`, `T`, `G`, `C` only.
    Standard,
    /// The IUPAC nucleotide codes, ambiguity codes included.
    Extended,
}

pub open spec fn standard_letters() -> Seq<char> {
    seq!['A', 'T', 'G', 'C']
}

pub open spec fn extended_letters() -> Seq<char> {
    seq!['A', 'T', 'G', 'C', 'U', 'W', 'S', 'M', 'K', 'R', 'Y', 'B', 'D', 'H', 'V', 'N']
}

/// Every character of `s` is one of `letters`.
pub open spec fn within(s: Seq<char>, letters: Seq<char>) -> bool {
    forall|i: int| 0 <= i < s.len() ==> letters.contains(#[trigger] s[i])
}

/// Every element of `letters` is an upper-case ASCII letter.
pub open spec fn plain_letters(letters: Seq<char>) -> bool {
    forall|i: int| 0 <= i < letters.len() ==> 'A' <= #[trigger] letters[i] <= 'Z'
}

impl Alphabet {
    pub open spec fn letters(self) -> Seq<char> {
        match self {
            Alphabet::Standard => standard_letters(),
            Alphabet::Extended => extended_letters(),
        }
    }

    pub open spec fn spec_from_flag(include_non_standard: bool) -> Alphabet {
        if include_non_standard {
            Alphabet::Extended
        } else {
            Alphabet::Standard
        }
    }

    /// The standard alphabet, or the extended one when non-standard codes are included.
    #[verifier::when_used_as_spec(spec_from_flag)]
    pub fn from_flag(include_non_standard: bool) -> (r: Alphabet)
        ensures
            r == Alphabet::spec_from_flag(include_non_standard),
    {
        if include_non_standard {
            Alphabet::Extended
        } else {
            Alphabet::Standard
        }
    }

    /// The letters of this alphabet.
    pub fn chars(&self) -> (r: Vec<char>)
        ensures
            r@ == self.letters(),
            r@.len() > 0,
            plain_letters(r@),
    {
        let r = match self {
            Alphabet::Standard => vec!['A', 'T', 'G', 'C'],
            Alphabet::Extended => vec![
                'A', 'T', 'G', 'C', 'U', 'W', 'S', 'M', 'K', 'R', 'Y', 'B', 'D', 'H', 'V', 'N',
            ],
        };
        assert(r@ =~= self.letters());
        r
    }
}

/// Whether `c` is one of the extended nucleotide letters.
pub fn is_nucleotide(c: char) -> (r: bool)
    ensures
        r == extended_letters().contains(c),
{
    let r = c == 'A' || c == 'T' || c == 'G' || c == 'C' || c == 'U' || c == 'W' || c == 'S'
        || c == 'M' || c == 'K' || c == 'R' || c == 'Y' || c == 'B' || c == 'D' || c == 'H'
        || c == 'V' || c == 'N';
    proof {
        let e = extended_letters();
        if r {
            assert(e[0] == 'A' && e[1] == 'T' && e[2] == 'G' && e[3] == 'C' && e[4] == 'U'
                && e[5] == 'W' && e[6] == 'S' && e[7] == 'M' && e[8] == 'K' && e[9] == 'R'
                && e[10] == 'Y' && e[11] == 'B' && e[12] == 'D' && e[13] == 'H' && e[14] == 'V'
                && e[15] == 'N');
        } else {
            assert forall|i: int| 0 <= i < e.len() implies e[i] != c by {}
        }
    }
    r
}

/// Relies on `regex::Regex::new` and `Regex::is_match`: the pattern `[^L]`,
/// for `L` a run of upper-case ASCII letters, compiles, and matches a text
/// exactly when some character of the text is not among those letters.
#[verifier::external_body]
pub(crate) fn outside_flags(letters: &Vec<char>, texts: &Vec<String>) -> (r: Vec<bool>)
    requires
        letters@.len() > 0,
        plain_letters(letters@),
    ensures
        r@.len() == texts@.len(),
        forall|i: int| 0 <= i < texts@.len() ==> r@[i] == !within(#[trigger] texts@[i]@, letters@),
{
    let class: String = letters.iter().collect();
    let filter = regex::Regex::new(&format!("[^{}]", class)).unwrap();
    texts.iter().map(|t| filter.is_match(t)).collect()
}

} // verus!
