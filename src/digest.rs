//! The hash capability: a fixed-width 16-byte digest of a password, chosen
//! by algorithm name, and the hex form in which digests are reported.

use vstd::prelude::*;
use vstd::string::StrSliceExecFns;

verus! {

/// The MD5 digest of the UTF-8 encoding of a password.
pub uninterp spec fn md5_of(password: Seq<char>) -> Seq<u8>;

/// Relies on `md5::Md5` through `digest::Digest::digest`: the 16-byte MD5
/// digest of the string's bytes, which depends on its characters alone.
#[verifier::external_body]
fn md5_digest(s: &str) -> (r: [u8; 16])
    ensures
        r@ == md5_of(s@),
{
    let out = <md5::Md5 as md5::Digest>::digest(s.as_bytes());
    out.into()
}

/// Name of the one supported algorithm.
pub open spec fn supported_algorithm(name: Seq<char>) -> bool {
    name =~= seq!['M', 'd', '5']
}

/// Whether `name` names a supported hash algorithm.
pub fn is_supported_algorithm(name: &str) -> (r: bool)
    ensures
        r == supported_algorithm(name@),
{
    if name.unicode_len() != 3 {
        return false;
    }
    let ok = name.get_char(0) == 'M' && name.get_char(1) == 'd' && name.get_char(2) == '5';
    proof {
        if ok {
            assert(name@ =~= seq!['M', 'd', '5']);
        }
    }
    ok
}

/// Digest of `password` under a supported algorithm.
pub(crate) fn digest_password(password: &str) -> (r: [u8; 16])
    ensures
        r@ == md5_of(password@),
{
    md5_digest(password)
}

/// Whether two digests hold the same bytes.
pub fn same_digest(a: &[u8; 16], b: &[u8; 16]) -> (r: bool)
    ensures
        r == (a@ == b@),
{
    let mut i: usize = 0;
    while i < 16
        invariant
            i <= 16,
            a@.len() == 16,
            b@.len() == 16,
            forall|j: int| 0 <= j < i ==> a@[j] == b@[j],
        decreases 16 - i,
    {
        if a[i] != b[i] {
            return false;
        }
        i = i + 1;
    }
    proof {
        assert(a@ =~= b@);
    }
    true
}

/// Errors of hashing and cracking.
#[derive(Debug, Clone, Copy, PartialEq, Eq, Structural)]
pub enum HashErrors {
    Argon2Error,
    UnsupportedAlgorithm,
    NotInRainbowTable,
}

impl HashErrors {
    pub open spec fn message_spec(self) -> Seq<char> {
        match self {
            HashErrors::Argon2Error => "Error with Argon2 Hashing"@,
            HashErrors::UnsupportedAlgorithm => "Unsupported hash algorithm"@,
            HashErrors::NotInRainbowTable => "Hash not Present in Rainbow Table"@,
        }
    }

    /// Human-readable text of the error.
    pub fn message(&self) -> (r: &'static str)
        ensures
            r@ == self.message_spec(),
    {
        match self {
            HashErrors::Argon2Error => "Error with Argon2 Hashing",
            HashErrors::UnsupportedAlgorithm => "Unsupported hash algorithm",
            HashErrors::NotInRainbowTable => "Hash not Present in Rainbow Table",
        }
    }
}

/// A password together with the name of the algorithm to hash it with.
pub struct HashGenerator {
    pub password: String,
    pub hash_algorithm: String,
}

impl HashGenerator {
    pub fn new(password: String, hash_algorithm: String) -> (r: Self)
        ensures
            r.password@ == password@,
            r.hash_algorithm@ == hash_algorithm@,
    {
        HashGenerator { password, hash_algorithm }
    }

    /// Hashes the password; fails when the algorithm is not supported.
    pub fn hash_password(&self) -> (r: Result<[u8; 16], HashErrors>)
        ensures
            supported_algorithm(self.hash_algorithm@) ==> r is Ok && r->Ok_0@ == md5_of(
                self.password@,
            ),
            !supported_algorithm(self.hash_algorithm@) ==> r == Err::<[u8; 16], HashErrors>(
                HashErrors::UnsupportedAlgorithm,
            ),
    {
        if is_supported_algorithm(self.hash_algorithm.as_str()) {
            Ok(digest_password(self.password.as_str()))
        } else {
            Err(HashErrors::UnsupportedAlgorithm)
        }
    }
}

/// Lowercase hex digit for a value below 16.
pub open spec fn hex_digit(n: nat) -> char {
    if n < 10 {
        ((48 + n) as u8) as char
    } else {
        ((87 + n) as u8) as char
    }
}

/// Two lowercase hex digits per byte, high nibble first.
pub open spec fn hex_spec(b: Seq<u8>) -> Seq<char>
    decreases b.len(),
{
    if b.len() == 0 {
        Seq::empty()
    } else {
        seq![hex_digit(b[0] as nat / 16), hex_digit(b[0] as nat % 16)] + hex_spec(
            b.subrange(1, b.len() as int),
        )
    }
}

/// Relies on `hex::encode`: two lowercase hex digits per byte, high nibble
/// first, in the order of the bytes.
#[verifier::external_body]
pub(crate) fn to_hex(b: &[u8; 16]) -> (r: String)
    ensures
        r@ == hex_spec(b@),
{
    hex::encode(b)
}

} // verus!
