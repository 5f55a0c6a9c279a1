//! Random plaintext passwords over the same alphabet that the reduction
//! writes: the first `radix` lowercase letters.

use crate::reduce::{all_in_alphabet, in_alphabet, MAX_RADIX};
use crate::reduce::string_of_chars;
use rand::Rng;
use vstd::prelude::*;

verus! {

/// Length of a password when no bound is given.
pub const DEFAULT_LENGTH: usize = 4;

/// Alphabet size when none is given: all 26 lowercase letters.
pub const DEFAULT_RADIX: u8 = 26;

/// Relies on rand's `thread_rng().gen_range(lo..=hi)`: a value of the closed
/// range, which must not be empty.
#[verifier::external_body]
fn random_between(lo: usize, hi: usize) -> (r: usize)
    requires
        lo <= hi,
    ensures
        lo <= r <= hi,
{
    rand::thread_rng().gen_range(lo..=hi)
}

/// Why a password generator cannot be built.
#[derive(Debug, Clone, Copy, PartialEq, Eq, Structural)]
pub enum PasswordGeneratorError {
    MinMax { min: usize, max: usize },
    ZeroLength,
    RadixOutOfRange,
}

/// Collects the bounds of a password generator.
pub struct PasswordGeneratorBuilder {
    min_char: Option<usize>,
    max_char: Option<usize>,
    radix: Option<u8>,
}

impl Default for PasswordGeneratorBuilder {
    fn default() -> (r: Self)
        ensures
            r.min_char_spec() is None,
            r.max_char_spec() is None,
            r.radix_spec() is None,
    {
        PasswordGeneratorBuilder { min_char: None, max_char: None, radix: None }
    }
}

/// Reads an optional bound, falling back to `default`.
pub open spec fn or_default<T>(o: Option<T>, default: T) -> T {
    match o {
        Some(v) => v,
        None => default,
    }
}

impl PasswordGeneratorBuilder {
    pub closed spec fn min_char_spec(&self) -> Option<usize> {
        self.min_char
    }

    pub closed spec fn max_char_spec(&self) -> Option<usize> {
        self.max_char
    }

    pub closed spec fn radix_spec(&self) -> Option<u8> {
        self.radix
    }

    /// The error that `build` reports, if any.
    pub open spec fn build_error(&self) -> Option<PasswordGeneratorError> {
        let min = or_default(self.min_char_spec(), DEFAULT_LENGTH);
        let max = or_default(self.max_char_spec(), DEFAULT_LENGTH);
        let radix = or_default(self.radix_spec(), DEFAULT_RADIX);
        if min == 0 || max == 0 {
            Some(PasswordGeneratorError::ZeroLength)
        } else if radix < 1 || radix > MAX_RADIX {
            Some(PasswordGeneratorError::RadixOutOfRange)
        } else if min > max {
            Some(PasswordGeneratorError::MinMax { min, max })
        } else {
            None
        }
    }

    /// Sets the minimum number of characters of a password.
    pub fn with_min_char(self, min_char: Option<usize>) -> (r: Self)
        ensures
            r.min_char_spec() == min_char,
            r.max_char_spec() == self.max_char_spec(),
            r.radix_spec() == self.radix_spec(),
    {
        PasswordGeneratorBuilder { min_char, max_char: self.max_char, radix: self.radix }
    }

    /// Sets the maximum number of characters of a password.
    pub fn with_max_char(self, max_char: Option<usize>) -> (r: Self)
        ensures
            r.min_char_spec() == self.min_char_spec(),
            r.max_char_spec() == max_char,
            r.radix_spec() == self.radix_spec(),
    {
        PasswordGeneratorBuilder { min_char: self.min_char, max_char, radix: self.radix }
    }

    /// Sets the number of letters of the alphabet.
    pub fn with_radix(self, radix: Option<u8>) -> (r: Self)
        ensures
            r.min_char_spec() == self.min_char_spec(),
            r.max_char_spec() == self.max_char_spec(),
            r.radix_spec() == radix,
    {
        PasswordGeneratorBuilder { min_char: self.min_char, max_char: self.max_char, radix }
    }

    /// Builds a generator; unset bounds are 4 characters and 26 letters.
    pub fn build(self) -> (r: Result<PasswordGenerator, PasswordGeneratorError>)
        ensures
            match self.build_error() {
                Some(e) => r == Err::<PasswordGenerator, PasswordGeneratorError>(e),
                None => r is Ok && r->Ok_0.wf() && r->Ok_0.min_char_spec() == or_default(
                    self.min_char_spec(),
                    DEFAULT_LENGTH,
                ) && r->Ok_0.max_char_spec() == or_default(self.max_char_spec(), DEFAULT_LENGTH)
                    && r->Ok_0.radix_spec() == or_default(self.radix_spec(), DEFAULT_RADIX),
            },
    {
        let min = match self.min_char {
            Some(v) => v,
            None => DEFAULT_LENGTH,
        };
        let max = match self.max_char {
            Some(v) => v,
            None => DEFAULT_LENGTH,
        };
        let radix = match self.radix {
            Some(v) => v,
            None => DEFAULT_RADIX,
        };
        if min == 0 || max == 0 {
            return Err(PasswordGeneratorError::ZeroLength);
        }
        if radix < 1 || radix > MAX_RADIX {
            return Err(PasswordGeneratorError::RadixOutOfRange);
        }
        if min > max {
            return Err(PasswordGeneratorError::MinMax { min, max });
        }
        Ok(PasswordGenerator { min_char: min, max_char: max, radix })
    }
}

/// Generates random passwords with bounded length.
#[derive(Clone, Copy)]
pub struct PasswordGenerator {
    min_char: usize,
    max_char: usize,
    radix: u8,
}

impl Default for PasswordGenerator {
    /// Passwords of exactly 4 characters over all 26 letters.
    fn default() -> (r: Self)
        ensures
            r.wf(),
            r.min_char_spec() == DEFAULT_LENGTH,
            r.max_char_spec() == DEFAULT_LENGTH,
            r.radix_spec() == DEFAULT_RADIX,
    {
        PasswordGenerator { min_char: DEFAULT_LENGTH, max_char: DEFAULT_LENGTH, radix: DEFAULT_RADIX }
    }
}

impl PasswordGenerator {
    pub closed spec fn min_char_spec(&self) -> usize {
        self.min_char
    }

    pub closed spec fn max_char_spec(&self) -> usize {
        self.max_char
    }

    pub closed spec fn radix_spec(&self) -> u8 {
        self.radix
    }

    pub open spec fn wf(&self) -> bool {
        &&& 1 <= self.min_char_spec() <= self.max_char_spec()
        &&& 1 <= self.radix_spec() <= MAX_RADIX
    }

    /// A random password whose length lies between the bounds and whose
    /// characters lie in the alphabet.
    pub fn generate(self) -> (r: String)
        requires
            self.wf(),
        ensures
            self.min_char_spec() <= r@.len() <= self.max_char_spec(),
            all_in_alphabet(r@, self.radix_spec() as nat),
    {
        let length = random_between(self.min_char, self.max_char);
        let mut chars: Vec<char> = Vec::new();
        let mut i: usize = 0;
        while i < length
            invariant
                i <= length,
                chars@.len() == i,
                1 <= self.radix <= MAX_RADIX,
                all_in_alphabet(chars@, self.radix as nat),
            decreases length - i,
        {
            let d = random_between(0, (self.radix - 1) as usize);
            let c: char = (97u8 + d as u8) as char;
            proof {
                assert(in_alphabet(c, self.radix as nat));
            }
            let ghost prev = chars@;
            chars.push(c);
            proof {
                assert forall|j: int| 0 <= j < chars@.len() implies #[trigger] in_alphabet(
                    chars@[j],
                    self.radix as nat,
                ) by {
                    if j < i {
                        assert(chars@[j] == prev[j]);
                    }
                }
            }
            i = i + 1;
        }
        string_of_chars(&chars)
    }
}

} // verus!
