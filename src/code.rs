//! Three-letter currency codes.
use vstd::prelude::*;

use crate::text::{ascii_upper, push_char, trim, trim_back, trim_bounds, trim_front, upper_all, is_space, is_lower};

verus! {

/// Why a text is not a currency code.
#[derive(Debug, Clone, Copy, PartialEq, Eq, Structural)]
pub enum CurrencyCodeParsingError {
    /// The trimmed text does not have exactly three characters.
    InvalidLength,
}

/// A currency code: three characters, held in upper case, neither the first
/// nor the last of them a space.
#[derive(Debug, Clone, Copy, PartialEq, Eq, Structural, Hash)]
pub struct CurrencyCode {
    c0: char,
    c1: char,
    c2: char,
}

/// The texts that are codes as they stand: three characters, no lower-case
/// ASCII letter, and no space at either end.
pub open spec fn is_code_text(s: Seq<char>) -> bool {
    &&& s.len() == 3
    &&& forall|k: int| 0 <= k < 3 ==> !is_lower(#[trigger] s[k])
    &&& !is_space(s[0])
    &&& !is_space(s[2])
}

/// What a text parses to, if it is a code at all: trimmed, then upper-cased.
pub open spec fn code_of(s: Seq<char>) -> Seq<char> {
    upper_all(trim(s))
}

/// A text names a code when it has three characters once trimmed.
pub open spec fn names_code(s: Seq<char>) -> bool {
    trim(s).len() == 3
}

impl View for CurrencyCode {
    type V = Seq<char>;

    closed spec fn view(&self) -> Seq<char> {
        seq![self.c0, self.c1, self.c2]
    }
}

impl CurrencyCode {
    #[verifier::type_invariant]
    spec fn well_formed(self) -> bool {
        is_code_text(self@)
    }

    /// Two codes are equal exactly when their texts are.
    pub proof fn lemma_view_eq(self, other: Self)
        ensures
            (self@ == other@) <==> (self == other),
    {
        if self@ == other@ {
            assert(self@[0] == other@[0]);
            assert(self@[1] == other@[1]);
            assert(self@[2] == other@[2]);
        }
    }

    /// Builds a code from a text known to name one.
    pub fn new(code: &str) -> (r: Self)
        requires
            names_code(code@),
        ensures
            r@ == code_of(code@),
    {
        let (i, j) = trim_bounds(code);
        Self::from_trimmed(code, i, j)
    }

    /// Parses a code: the text is trimmed, must then have three characters,
    /// and is upper-cased.
    pub fn parse(s: &str) -> (r: Result<Self, CurrencyCodeParsingError>)
        ensures
            names_code(s@) <==> r is Ok,
            r matches Ok(c) ==> c@ == code_of(s@),
            r matches Err(e) ==> e == CurrencyCodeParsingError::InvalidLength,
    {
        let (i, j) = trim_bounds(s);
        if j - i != 3 {
            return Err(CurrencyCodeParsingError::InvalidLength);
        }
        Ok(Self::from_trimmed(s, i, j))
    }

    fn from_trimmed(s: &str, i: usize, j: usize) -> (r: Self)
        requires
            j == i + 3,
            j <= s@.len(),
            s@.subrange(i as int, i + 3) == trim(s@),
            !is_space(s@[i as int]),
            !is_space(s@[i + 2]),
        ensures
            r@ == code_of(s@),
    {
        let c0 = ascii_upper(s.get_char(i));
        let c1 = ascii_upper(s.get_char(i + 1));
        let c2 = ascii_upper(s.get_char(i + 2));
        let r = CurrencyCode { c0, c1, c2 };
        proof {
            let t = trim(s@);
            assert(t[0] == s@[i as int]);
            assert(t[1] == s@[i + 1]);
            assert(t[2] == s@[i + 2]);
            assert(r@ =~= code_of(s@));
        }
        r
    }

    /// The code as text.
    pub fn text(&self) -> (r: String)
        ensures
            r@ == self@,
            is_code_text(r@),
    {
        proof {
            use_type_invariant(self);
        }
        let mut s = String::new();
        push_char(&mut s, self.c0);
        push_char(&mut s, self.c1);
        push_char(&mut s, self.c2);
        assert(s@ =~= self@);
        s
    }
}

/// A code's text parses back to the same code: the text names a code, and
/// the only code with the text that parsing gives is the code itself.
pub proof fn lemma_parse_round_trip(c: CurrencyCode)
    requires
        is_code_text(c@),
    ensures
        names_code(c@),
        code_of(c@) == c@,
        forall|d: CurrencyCode| #[trigger] d@ == code_of(c@) ==> d == c,
{
    let s = c@;
    assert(trim_front(s) == s);
    assert(s.len() > 0 && !is_space(s.last()));
    assert(trim_back(s) == s);
    assert(code_of(s) =~= s);
    assert forall|d: CurrencyCode| #[trigger] d@ == code_of(c@) implies d == c by {
        d.lemma_view_eq(c);
    }
}

/// A text that does not have three characters once trimmed is no code.
pub proof fn lemma_malformed_rejected(s: Seq<char>)
    requires
        trim(s).len() != 3,
    ensures
        !names_code(s),
{
}

impl std::str::FromStr for CurrencyCode {
    type Err = CurrencyCodeParsingError;

    fn from_str(s: &str) -> Result<Self, Self::Err> {
        Self::parse(s)
    }
}

} // verus!
