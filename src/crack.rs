//! The Hellman lookup: for each column where the target digest could sit,
//! walk to the end of the chain, look that end up in the table, replay the
//! chain from its start and keep the preimage only if it hashes to the
//! target.

use crate::chain::{chain_end, walk, ChainConfig, ChainParams, ConfigError, config_error};
use crate::digest::{digest_password, hex_spec, md5_of, same_digest, to_hex, HashErrors};
use crate::reduce::{all_in_alphabet, lemma_digits_shape, reduce_spec, reduction};
use crate::table::ChainTable;
use vstd::prelude::*;
use vstd::string::StringExecFns;

verus! {

/// The password at column `k` of the walk that assumes the target digest
/// sits at column `c`.
pub open spec fn candidate(p: ChainParams, target: Seq<u8>, c: nat, k: nat) -> Seq<char> {
    walk(p, reduce_spec(target, c, p.radix, p.password_length), c + 1, k + 1)
}

/// The preimage proposed by a table match at `(c, k)`.
pub open spec fn replay(
    p: ChainParams,
    m: Map<Seq<char>, Seq<char>>,
    target: Seq<u8>,
    c: nat,
    k: nat,
) -> Seq<char> {
    walk(p, m[candidate(p, target, c, k)], 0, c)
}

/// The candidate at `(c, k)` ends a chain of the table, and replaying that
/// chain for `c` rounds gives a password whose digest is the target.
pub open spec fn hit(
    p: ChainParams,
    m: Map<Seq<char>, Seq<char>>,
    target: Seq<u8>,
    c: nat,
    k: nat,
) -> bool {
    &&& m.contains_key(candidate(p, target, c, k))
    &&& md5_of(replay(p, m, target, c, k)) == target
}

/// The first verified match of column `c`, at a position `k` or later.
pub open spec fn search_column(
    p: ChainParams,
    m: Map<Seq<char>, Seq<char>>,
    target: Seq<u8>,
    c: nat,
    k: nat,
) -> Option<Seq<char>>
    decreases p.num_links - k,
{
    if k >= p.num_links {
        None
    } else if hit(p, m, target, c, k) {
        Some(replay(p, m, target, c, k))
    } else {
        search_column(p, m, target, c, k + 1)
    }
}

/// The preimage found when the assumed columns `c..num_links` are tried in
/// order.
pub open spec fn search(p: ChainParams, m: Map<Seq<char>, Seq<char>>, target: Seq<u8>, c: nat) -> Option<
    Seq<char>,
>
    decreases p.num_links - c,
{
    if c >= p.num_links {
        None
    } else {
        match search_column(p, m, target, c, c) {
            Some(x) => Some(x),
            None => search(p, m, target, c + 1),
        }
    }
}

/// What cracking `target` against the map `m` returns.
pub open spec fn crack_spec(p: ChainParams, m: Map<Seq<char>, Seq<char>>, target: Seq<u8>) -> Option<
    Seq<char>,
> {
    search(p, m, target, 0)
}

/// A well-formed password: the right length, in the alphabet.
pub open spec fn well_formed_password(p: ChainParams, x: Seq<char>) -> bool {
    x.len() == p.password_length && all_in_alphabet(x, p.radix)
}

/// A password that starts some chain of the map.
pub open spec fn is_chain_start(m: Map<Seq<char>, Seq<char>>, x: Seq<char>) -> bool {
    exists|e: Seq<char>| m.contains_key(e) && m[e] == x
}

proof fn lemma_walk_well_formed(p: ChainParams, pw: Seq<char>, from: nat, to: nat)
    requires
        p.valid(),
        from < to,
    ensures
        well_formed_password(p, walk(p, pw, from, to)),
{
    let prev = walk(p, pw, from, (to - 1) as nat);
    let n = (crate::reduce::le_value(md5_of(prev)) + (to - 1)) as int % crate::reduce::keyspace(
        p.radix,
        p.password_length,
    );
    lemma_digits_shape(n as nat, p.radix, p.password_length);
}

proof fn lemma_search_column_result(
    p: ChainParams,
    m: Map<Seq<char>, Seq<char>>,
    target: Seq<u8>,
    c: nat,
    k: nat,
)
    requires
        p.valid(),
        search_column(p, m, target, c, k) is Some,
    ensures
        md5_of(search_column(p, m, target, c, k)->0) == target,
        is_chain_start(m, search_column(p, m, target, c, k)->0) || well_formed_password(
            p,
            search_column(p, m, target, c, k)->0,
        ),
    decreases p.num_links - k,
{
    if k < p.num_links {
        if hit(p, m, target, c, k) {
            let e = candidate(p, target, c, k);
            if c == 0 {
                assert(m.contains_key(e) && m[e] == replay(p, m, target, c, k));
            } else {
                lemma_walk_well_formed(p, m[e], 0, c);
            }
        } else {
            lemma_search_column_result(p, m, target, c, k + 1);
        }
    }
}

/// Whatever a search returns hashes to the target, and is either a chain
/// start of the map or a well-formed password.
pub proof fn lemma_search_result(
    p: ChainParams,
    m: Map<Seq<char>, Seq<char>>,
    target: Seq<u8>,
    c: nat,
)
    requires
        p.valid(),
        search(p, m, target, c) is Some,
    ensures
        md5_of(search(p, m, target, c)->0) == target,
        is_chain_start(m, search(p, m, target, c)->0) || well_formed_password(
            p,
            search(p, m, target, c)->0,
        ),
    decreases p.num_links - c,
{
    if c < p.num_links {
        if search_column(p, m, target, c, c) is Some {
            lemma_search_column_result(p, m, target, c, c);
        } else {
            lemma_search_result(p, m, target, c + 1);
        }
    }
}

/// Soundness: a recovered password always hashes to the target.
pub proof fn lemma_crack_sound(p: ChainParams, m: Map<Seq<char>, Seq<char>>, target: Seq<u8>)
    requires
        p.valid(),
        crack_spec(p, m, target) is Some,
    ensures
        md5_of(crack_spec(p, m, target)->0) == target,
{
    lemma_search_result(p, m, target, 0);
}

proof fn lemma_search_column_finds(
    p: ChainParams,
    m: Map<Seq<char>, Seq<char>>,
    target: Seq<u8>,
    c: nat,
    k: nat,
    j: nat,
)
    requires
        k <= j < p.num_links,
        hit(p, m, target, c, j),
    ensures
        search_column(p, m, target, c, k) is Some,
    decreases j - k,
{
    if k < j && !hit(p, m, target, c, k) {
        lemma_search_column_finds(p, m, target, c, k + 1, j);
    }
}

proof fn lemma_search_finds(p: ChainParams, m: Map<Seq<char>, Seq<char>>, target: Seq<u8>, c: nat, j: nat)
    requires
        c <= j < p.num_links,
        search_column(p, m, target, j, j) is Some,
    ensures
        search(p, m, target, c) is Some,
    decreases j - c,
{
    if c < j && search_column(p, m, target, c, c) is None {
        lemma_search_finds(p, m, target, c + 1, j);
    }
}

/// Completeness: if the target is the digest of the password at column `j`
/// of a chain whose start the map holds under that chain's end, cracking
/// recovers a password with that digest.
pub proof fn lemma_crack_complete(
    p: ChainParams,
    m: Map<Seq<char>, Seq<char>>,
    start: Seq<char>,
    j: nat,
)
    requires
        p.valid(),
        j < p.num_links,
        m.contains_key(chain_end(p, start)),
        m[chain_end(p, start)] == start,
    ensures
        crack_spec(p, m, md5_of(walk(p, start, 0, j))) is Some,
        md5_of(crack_spec(p, m, md5_of(walk(p, start, 0, j)))->0) == md5_of(walk(p, start, 0, j)),
{
    let target = md5_of(walk(p, start, 0, j));
    let last = (p.num_links - 1) as nat;
    crate::chain::lemma_walk_compose(p, start, 0, j + 1, p.num_links);
    assert(walk(p, start, 0, j + 1) == reduce_spec(target, j, p.radix, p.password_length));
    assert(candidate(p, target, j, last) == chain_end(p, start));
    assert(hit(p, m, target, j, last));
    lemma_search_column_finds(p, m, target, j, j, last);
    lemma_search_finds(p, m, target, 0, j);
    lemma_search_result(p, m, target, 0);
}

/// With one link, the digest of a chain start that the map holds under its
/// chain's end cracks back to exactly that start.
pub proof fn lemma_single_link_round_trip(p: ChainParams, m: Map<Seq<char>, Seq<char>>, start: Seq<
    char,
>)
    requires
        p.valid(),
        p.num_links == 1,
        m.contains_key(chain_end(p, start)),
        m[chain_end(p, start)] == start,
    ensures
        crack_spec(p, m, md5_of(start)) == Some(start),
{
    let target = md5_of(start);
    assert(walk(p, start, 0, 0) == start);
    assert(chain_end(p, start) == crate::chain::step(p, start, 0));
    assert(candidate(p, target, 0, 0) == chain_end(p, start));
    assert(hit(p, m, target, 0, 0));
}

/// A digest none of whose preimages is a chain start of the map or a
/// well-formed password is reported as not in the table.
pub proof fn lemma_not_in_table(p: ChainParams, m: Map<Seq<char>, Seq<char>>, target: Seq<u8>)
    requires
        p.valid(),
        forall|x: Seq<char>|
            #[trigger] md5_of(x) == target ==> !is_chain_start(m, x) && !well_formed_password(p, x),
    ensures
        crack_spec(p, m, target) is None,
{
    if crack_spec(p, m, target) is Some {
        lemma_search_result(p, m, target, 0);
    }
}

/// Cracks digests against a loaded table.
pub struct Crack {
    config: ChainConfig,
    rainbow_table: ChainTable,
}

impl Crack {
    pub closed spec fn config(&self) -> ChainConfig {
        self.config
    }

    pub closed spec fn table(&self) -> Map<Seq<char>, Seq<char>> {
        self.rainbow_table@
    }

    /// Validates the parameters as `ChainConfig::new` does and keeps the table.
    pub fn new(
        num_links: usize,
        password_length: u32,
        radix: u8,
        algorithm: String,
        rainbow_table: ChainTable,
    ) -> (r: Result<Self, ConfigError>)
        ensures
            match config_error(num_links as nat, password_length as nat, radix as nat, algorithm@) {
                Some(e) => r == Err::<Self, ConfigError>(e),
                None => r is Ok && r->Ok_0.config().wf() && r->Ok_0.config().params() == (
                ChainParams {
                    num_links: num_links as nat,
                    password_length: password_length as nat,
                    radix: radix as nat,
                }) && r->Ok_0.table() == rainbow_table@,
            },
    {
        match ChainConfig::new(num_links, password_length, radix, algorithm) {
            Ok(config) => Ok(Crack { config, rainbow_table }),
            Err(e) => Err(e),
        }
    }

    /// Replays a chain from `first_pass` through the columns
    /// `0..final_link_number`.
    pub fn helper(&self, final_link_number: usize, first_pass: String) -> (r: Result<
        String,
        HashErrors,
    >)
        requires
            self.config().wf(),
        ensures
            r is Ok,
            r->Ok_0@ == walk(self.config().params(), first_pass@, 0, final_link_number as nat),
    {
        Ok(self.config.walk_columns(first_pass, 0, final_link_number))
    }

    /// Recovers a password whose digest is `hash`, or reports that the
    /// table holds none.
    pub fn crack(&self, hash: &[u8; 16]) -> (r: Result<String, HashErrors>)
        requires
            self.config().wf(),
        ensures
            match crack_spec(self.config().params(), self.table(), hash@) {
                Some(x) => r is Ok && r->Ok_0@ == x,
                None => r == Err::<String, HashErrors>(HashErrors::NotInRainbowTable),
            },
    {
        let ghost p = self.config().params();
        let ghost m = self.table();
        let num_links = self.config.num_links();
        let radix = self.config.radix();
        let len = self.config.password_length();
        let mut c: usize = 0;
        while c < num_links
            invariant
                c <= num_links,
                num_links == p.num_links,
                radix == p.radix,
                len == p.password_length,
                p == self.config().params(),
                m == self.table(),
                self.config().wf(),
                search(p, m, hash@, 0) == search(p, m, hash@, c as nat),
            decreases num_links - c,
        {
            let mut pass = reduction(hash, c as u128, radix, len);
            let mut k: usize = c;
            while k < num_links
                invariant
                    c <= k <= num_links,
                    c < num_links,
                    num_links == p.num_links,
                    radix == p.radix,
                    len == p.password_length,
                    p == self.config().params(),
                    m == self.table(),
                    self.config().wf(),
                    search(p, m, hash@, 0) == search(p, m, hash@, c as nat),
                    k < num_links ==> pass@ == candidate(p, hash@, c as nat, k as nat),
                    search_column(p, m, hash@, c as nat, c as nat) == search_column(
                        p,
                        m,
                        hash@,
                        c as nat,
                        k as nat,
                    ),
                decreases num_links - k,
            {
                match self.rainbow_table.lookup(pass.as_str()) {
                    Some(start) => {
                        let preimage = self.config.walk_columns(String::from_str(start), 0, c);
                        let d = digest_password(preimage.as_str());
                        if same_digest(&d, hash) {
                            proof {
                                assert(hit(p, m, hash@, c as nat, k as nat));
                                assert(search_column(p, m, hash@, c as nat, k as nat) == Some(
                                    preimage@,
                                ));
                                assert(search(p, m, hash@, c as nat) == Some(preimage@));
                            }
                            return Ok(preimage);
                        }
                    },
                    None => {},
                }
                let d = digest_password(pass.as_str());
                k = k + 1;
                if k < num_links {
                    pass = reduction(&d, k as u128, radix, len);
                }
            }
            c = c + 1;
        }
        Err(HashErrors::NotInRainbowTable)
    }
}

/// The output line for one target: its digest in hex, a tab, then the
/// recovered password or the error text, and a line break.
pub open spec fn crack_line_spec(hash: Seq<u8>, text: Seq<char>) -> Seq<char> {
    hex_spec(hash) + seq!['\t'] + text + seq!['\n']
}

/// Formats the outcome of cracking `hash` as one output line.
pub fn crack_line(hash: &[u8; 16], result: &Result<String, HashErrors>) -> (r: String)
    ensures
        match result {
            Ok(pw) => r@ == crack_line_spec(hash@, pw@),
            Err(e) => r@ == crack_line_spec(hash@, e.message_spec()),
        },
{
    let mut s = to_hex(hash);
    proof {
        reveal_strlit("\t");
        reveal_strlit("\n");
    }
    s.append("\t");
    match result {
        Ok(pw) => s.append(pw.as_str()),
        Err(e) => s.append(e.message()),
    }
    s.append("\n");
    s
}

} // verus!
