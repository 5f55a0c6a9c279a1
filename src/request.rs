//! The line protocol of the crack service: a request reads
//! `crack <hex-digest>`, with optional trailing white space.

use vstd::prelude::*;
use vstd::string::StrSliceExecFns;

verus! {

#[verifier::external_type_specification]
#[verifier::external_body]
pub struct ExFromHexError(hex::FromHexError);

/// Value of a hex digit, upper or lower case; -1 for any other character.
pub open spec fn hex_val(c: char) -> int {
    let u = c as u32;
    if 48 <= u <= 57 {
        u - 48
    } else if 97 <= u <= 102 {
        u - 87
    } else if 65 <= u <= 70 {
        u - 55
    } else {
        -1
    }
}

/// The bytes written by a string of hex digit pairs, high nibble first.
pub open spec fn hex_decode_spec(s: Seq<char>) -> Seq<u8> {
    Seq::new(s.len() / 2, |i: int| (16 * hex_val(s[2 * i]) + hex_val(s[2 * i + 1])) as u8)
}

/// Whether every character of `s` is a hex digit.
pub open spec fn all_hex(s: Seq<char>) -> bool {
    forall|i: int| 0 <= i < s.len() ==> hex_val(#[trigger] s[i]) >= 0
}

/// Relies on `hex::decode`: an even number of hex digits of either case
/// decodes pair by pair, high nibble first; anything else is an error.
#[verifier::external_body]
fn decode_hex(s: &str) -> (r: Result<Vec<u8>, hex::FromHexError>)
    ensures
        r is Ok <==> (s@.len() % 2 == 0 && all_hex(s@)),
        r is Ok ==> r->Ok_0@ == hex_decode_spec(s@),
{
    hex::decode(s)
}

/// Why a request was refused.
#[derive(Debug, Clone, Copy, PartialEq, Eq, Structural)]
pub enum RequestError {
    /// The line does not start with `crack `.
    NotACrackCommand,
    /// The argument is not an even number of hex digits.
    BadHex,
    /// The argument does not decode to 16 bytes.
    WrongLength,
}

pub open spec fn is_space(c: char) -> bool {
    c == ' ' || c == '\t' || c == '\n' || c == '\r'
}

/// Length of `s` without its trailing white space.
pub open spec fn trimmed_len(s: Seq<char>) -> int
    decreases s.len(),
{
    if s.len() == 0 {
        0
    } else if is_space(s.last()) {
        trimmed_len(s.drop_last())
    } else {
        s.len() as int
    }
}

pub open spec fn command_word() -> Seq<char> {
    seq!['c', 'r', 'a', 'c', 'k', ' ']
}

/// The argument of a request: what follows `crack `, trailing white space
/// removed.
pub open spec fn request_argument(m: Seq<char>) -> Seq<char> {
    m.subrange(6, 6 + trimmed_len(m.subrange(6, m.len() as int)))
}

/// What `parse_crack_request` returns for the line `m`.
pub open spec fn request_spec(m: Seq<char>) -> Result<Seq<u8>, RequestError> {
    if m.len() < 6 || m.subrange(0, 6) != command_word() {
        Err(RequestError::NotACrackCommand)
    } else {
        let a = request_argument(m);
        if !(a.len() % 2 == 0 && all_hex(a)) {
            Err(RequestError::BadHex)
        } else if a.len() != 32 {
            Err(RequestError::WrongLength)
        } else {
            Ok(hex_decode_spec(a))
        }
    }
}

/// Reads the digest of a `crack <hex>` request.
pub fn parse_crack_request(msg: &str) -> (r: Result<[u8; 16], RequestError>)
    ensures
        match request_spec(msg@) {
            Ok(d) => r is Ok && r->Ok_0@ == d,
            Err(e) => r == Err::<[u8; 16], RequestError>(e),
        },
{
    let n = msg.unicode_len();
    if n < 6 || msg.get_char(0) != 'c' || msg.get_char(1) != 'r' || msg.get_char(2) != 'a'
        || msg.get_char(3) != 'c' || msg.get_char(4) != 'k' || msg.get_char(5) != ' ' {
        proof {
            if n >= 6 && msg@.subrange(0, 6) == command_word() {
                assert(msg@[0] == msg@.subrange(0, 6)[0]);
                assert(msg@[1] == msg@.subrange(0, 6)[1]);
                assert(msg@[2] == msg@.subrange(0, 6)[2]);
                assert(msg@[3] == msg@.subrange(0, 6)[3]);
                assert(msg@[4] == msg@.subrange(0, 6)[4]);
                assert(msg@[5] == msg@.subrange(0, 6)[5]);
            }
        }
        return Err(RequestError::NotACrackCommand);
    }
    proof {
        assert(msg@.subrange(0, 6) =~= command_word());
    }
    let ghost tail = msg@.subrange(6, msg@.len() as int);
    let mut end: usize = n;
    while end > 6 && (msg.get_char(end - 1) == ' ' || msg.get_char(end - 1) == '\t' || msg.get_char(
        end - 1,
    ) == '\n' || msg.get_char(end - 1) == '\r')
        invariant
            6 <= end <= n,
            n == msg@.len(),
            tail == msg@.subrange(6, n as int),
            trimmed_len(msg@.subrange(6, end as int)) == trimmed_len(tail),
        decreases end,
    {
        proof {
            let s = msg@.subrange(6, end as int);
            assert(s.drop_last() =~= msg@.subrange(6, end - 1));
            assert(s.last() == msg@[end - 1]);
        }
        end = end - 1;
    }
    proof {
        let s = msg@.subrange(6, end as int);
        if end > 6 {
            assert(s.last() == msg@[end - 1]);
        }
        assert(trimmed_len(s) == end - 6);
    }
    let arg = msg.substring_char(6, end);
    match decode_hex(arg) {
        Ok(bytes) => {
            if bytes.len() != 16 {
                return Err(RequestError::WrongLength);
            }
            let mut d: [u8; 16] = [0u8; 16];
            let mut j: usize = 0;
            while j < 16
                invariant
                    j <= 16,
                    bytes@.len() == 16,
                    forall|t: int| 0 <= t < j ==> d@[t] == bytes@[t],
                decreases 16 - j,
            {
                d[j] = bytes[j];
                j = j + 1;
            }
            proof {
                assert(d@ =~= bytes@);
            }
            Ok(d)
        },
        Err(_) => Err(RequestError::BadHex),
    }
}

} // verus!
