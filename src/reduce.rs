//! The column-dependent reduction from a 16-byte digest back into the
//! password keyspace.
//!
//! The password alphabet is the first `radix` lowercase letters: digit `d`
//! is written as the character `'a' + d`, so `radix` lies in `1..=26`.
//! A digest is read as a little-endian unsigned 128-bit integer, and a
//! password writes its number least significant digit first, padded with
//! the zero digit `'a'` to exactly `password_length` characters.

use vstd::arithmetic::div_mod::{lemma_add_mod_noop, lemma_fundamental_div_mod_converse_mod};
use vstd::arithmetic::power::{lemma_pow_increases, pow};
use vstd::prelude::*;

verus! {

/// Largest alphabet size: the lowercase letters `a` to `z`.
pub const MAX_RADIX: u8 = 26;

/// Character that writes the base-`radix` digit `d`.
pub open spec fn digit_char(d: nat) -> char {
    ((97 + d) as u8) as char
}

/// Whether `c` is one of the first `radix` letters of the alphabet.
pub open spec fn in_alphabet(c: char, radix: nat) -> bool {
    97 <= (c as u32) && (c as u32) < 97 + radix
}

/// Whether every character of `s` lies in the alphabet of size `radix`.
pub open spec fn all_in_alphabet(s: Seq<char>, radix: nat) -> bool {
    forall|i: int| 0 <= i < s.len() ==> #[trigger] in_alphabet(s[i], radix)
}

/// Number of passwords of length `len` over `radix` symbols.
pub open spec fn keyspace(radix: nat, len: nat) -> int {
    pow(radix as int, len)
}

/// Parameters under which the keyspace is non-empty and fits in 128 bits.
pub open spec fn valid_keyspace(radix: nat, len: nat) -> bool {
    &&& 1 <= radix <= MAX_RADIX
    &&& 1 <= len
    &&& keyspace(radix, len) <= u128::MAX
}

/// The little-endian value of a byte sequence.
pub open spec fn le_value(b: Seq<u8>) -> nat
    decreases b.len(),
{
    if b.len() == 0 {
        0
    } else {
        b[0] as nat + 256 * le_value(b.subrange(1, b.len() as int))
    }
}

/// The first `len` base-`radix` digits of `n`, least significant first.
pub open spec fn digits(n: nat, radix: nat, len: nat) -> Seq<char>
    decreases len,
{
    if len == 0 {
        Seq::empty()
    } else {
        seq![digit_char(n % radix)] + digits(n / radix, radix, (len - 1) as nat)
    }
}

/// The password for position `column` of a chain whose previous digest is `d`:
/// `(value(d) + column) mod radix^len`, written in `len` digits.
pub open spec fn reduce_spec(d: Seq<u8>, column: nat, radix: nat, len: nat) -> Seq<char> {
    digits(((le_value(d) + column) as int % keyspace(radix, len)) as nat, radix, len)
}

proof fn lemma_le_value_bound(b: Seq<u8>)
    ensures
        le_value(b) < pow(256, b.len()),
    decreases b.len(),
{
    reveal(pow);
    if b.len() > 0 {
        let rest = b.subrange(1, b.len() as int);
        lemma_le_value_bound(rest);
        let p = pow(256, rest.len());
        assert(pow(256, b.len()) == 256 * p);
        assert(b[0] as nat + 256 * le_value(rest) < 256 * p) by (nonlinear_arith)
            requires
                b[0] < 256,
                le_value(rest) < p,
        ;
    }
}

/// The digits of any number form a password of exactly `len` characters of
/// the alphabet.
pub proof fn lemma_digits_shape(n: nat, radix: nat, len: nat)
    requires
        1 <= radix <= MAX_RADIX,
    ensures
        digits(n, radix, len).len() == len,
        all_in_alphabet(digits(n, radix, len), radix),
    decreases len,
{
    if len > 0 {
        lemma_digits_shape(n / radix, radix, (len - 1) as nat);
        let s = digits(n, radix, len);
        let rest = digits(n / radix, radix, (len - 1) as nat);
        assert forall|i: int| 0 <= i < s.len() implies #[trigger] in_alphabet(s[i], radix) by {
            if i > 0 {
                assert(s[i] == rest[i - 1]);
            }
        }
    }
}

/// Value of a digest as a little-endian 128-bit integer.
fn digest_value(d: &[u8; 16]) -> (h: u128)
    ensures
        h == le_value(d@),
{
    let mut h: u128 = 0;
    let mut i: usize = 16;
    proof {
        assert(d@.subrange(16, 16) =~= Seq::<u8>::empty());
        reveal(pow);
    }
    while i > 0
        invariant
            i <= 16,
            d@.len() == 16,
            h == le_value(d@.subrange(i as int, 16)),
        decreases i,
    {
        let b = d[i - 1];
        proof {
            let s = d@.subrange(i - 1, 16);
            assert(s.subrange(1, s.len() as int) =~= d@.subrange(i as int, 16));
            lemma_le_value_bound(s);
            assert(pow(256, s.len()) <= pow(256, 16)) by {
                lemma_pow_increases(256, s.len(), 16);
            }
            assert(pow(256, 16) == 0x1_0000_0000_0000_0000_0000_0000_0000_0000) by {
                reveal_with_fuel(pow, 17);
            }
        }
        h = b as u128 + 256 * h;
        i = i - 1;
    }
    proof {
        assert(d@.subrange(0, 16) =~= d@);
    }
    h
}

/// Computes `radix^len`.
fn keyspace_size(radix: u8, len: u32) -> (k: u128)
    requires
        valid_keyspace(radix as nat, len as nat),
    ensures
        k == keyspace(radix as nat, len as nat),
        k >= 1,
{
    let mut k: u128 = 1;
    let mut i: u32 = 0;
    proof {
        reveal(pow);
    }
    while i < len
        invariant
            i <= len,
            valid_keyspace(radix as nat, len as nat),
            k == pow(radix as int, i as nat),
        decreases len - i,
    {
        proof {
            reveal(pow);
            lemma_pow_increases(radix as nat, (i + 1) as nat, len as nat);
            assert(pow(radix as int, (i + 1) as nat) == radix * pow(radix as int, i as nat));
            assert(pow(radix as int, (i + 1) as nat) <= pow(radix as int, len as nat));
            assert(pow(radix as int, len as nat) <= u128::MAX);
            assert(k * radix == radix * pow(radix as int, i as nat)) by (nonlinear_arith)
                requires k == pow(radix as int, i as nat);
            assert(k * radix <= u128::MAX);
        }
        k = k * radix as u128;
        i = i + 1;
    }
    proof {
        lemma_pow_increases(radix as nat, 0, len as nat);
        reveal(pow);
    }
    k
}

/// Computes `radix^len`, or nothing where it exceeds 128 bits.
pub fn checked_keyspace(radix: u8, len: u32) -> (r: Option<u128>)
    requires
        1 <= radix,
    ensures
        r is Some <==> keyspace(radix as nat, len as nat) <= u128::MAX,
        r is Some ==> r->0 == keyspace(radix as nat, len as nat),
{
    let mut k: u128 = 1;
    let mut i: u32 = 0;
    proof {
        reveal(pow);
    }
    while i < len
        invariant
            i <= len,
            1 <= radix,
            k == pow(radix as int, i as nat),
        decreases len - i,
    {
        proof {
            reveal(pow);
            assert(pow(radix as int, (i + 1) as nat) == radix * pow(radix as int, i as nat));
        }
        match k.checked_mul(radix as u128) {
            Some(v) => {
                proof {
                    assert(v == radix * pow(radix as int, i as nat)) by (nonlinear_arith)
                        requires
                            k == pow(radix as int, i as nat),
                            v == k * radix,
                    ;
                }
                k = v;
            },
            None => {
                proof {
                    lemma_pow_increases(radix as nat, (i + 1) as nat, len as nat);
                    assert(k * radix == radix * pow(radix as int, i as nat)) by (nonlinear_arith)
                        requires
                            k == pow(radix as int, i as nat),
                    ;
                }
                return None;
            },
        }
        i = i + 1;
    }
    Some(k)
}

/// Writes `n` as `len` base-`radix` digits, least significant first.
fn write_digits(n: u128, radix: u8, len: u32) -> (r: Vec<char>)
    requires
        1 <= radix <= MAX_RADIX,
    ensures
        r@ == digits(n as nat, radix as nat, len as nat),
{
    let mut out: Vec<char> = Vec::new();
    let mut cur: u128 = n;
    let mut i: u32 = 0;
    let r = radix as u128;
    while i < len
        invariant
            i <= len,
            r == radix as u128,
            1 <= radix <= MAX_RADIX,
            out@ + digits(cur as nat, radix as nat, (len - i) as nat) == digits(
                n as nat,
                radix as nat,
                len as nat,
            ),
        decreases len - i,
    {
        let d: u8 = (cur % r) as u8;
        let c: char = (97u8 + d) as char;
        proof {
            let rest = digits((cur / r) as nat, radix as nat, (len - i - 1) as nat);
            assert(digits(cur as nat, radix as nat, (len - i) as nat) == seq![c] + rest);
            assert(out@.push(c) + rest =~= out@ + (seq![c] + rest));
        }
        out.push(c);
        cur = cur / r;
        i = i + 1;
    }
    proof {
        assert(digits(cur as nat, radix as nat, 0) =~= Seq::<char>::empty());
        assert(out@ + Seq::<char>::empty() =~= out@);
    }
    out
}

/// Relies on String's `FromIterator<char>`: the string holds the characters
/// in order.
#[verifier::external_body]
pub(crate) fn string_of_chars(cs: &Vec<char>) -> (r: String)
    ensures
        r@ == cs@,
{
    cs.iter().collect()
}

/// Maps the digest `hash` at chain position `link_number` to a password of
/// exactly `password_length` letters of the alphabet of size `radix`.
pub fn reduction(hash: &[u8; 16], link_number: u128, radix: u8, password_length: u32) -> (r:
    String)
    requires
        valid_keyspace(radix as nat, password_length as nat),
    ensures
        r@ == reduce_spec(hash@, link_number as nat, radix as nat, password_length as nat),
        r@.len() == password_length,
        all_in_alphabet(r@, radix as nat),
{
    let h = digest_value(hash);
    let k = keyspace_size(radix, password_length);
    let a = h % k;
    let b = link_number % k;
    let n: u128 = if a >= k - b {
        a - (k - b)
    } else {
        a + b
    };
    proof {
        lemma_add_mod_noop(h as int, link_number as int, k as int);
        if a >= k - b {
            lemma_fundamental_div_mod_converse_mod(a + b, k as int, 1, n as int);
        } else {
            lemma_fundamental_div_mod_converse_mod(a + b, k as int, 0, n as int);
        }
        assert(n == (h as int + link_number as int) % (k as int));
        lemma_digits_shape(n as nat, radix as nat, password_length as nat);
    }
    let cs = write_digits(n, radix, password_length);
    string_of_chars(&cs)
}

} // verus!
