//! Chains: from a start password, `num_links` rounds of hashing then
//! reducing, of which only the two ends are kept.

use crate::digest::{digest_password, is_supported_algorithm, md5_of, supported_algorithm, HashErrors};
use crate::reduce::{checked_keyspace, reduce_spec, reduction, valid_keyspace, MAX_RADIX};
use vstd::prelude::*;

verus! {

/// The parameters of a table, as numbers.
pub struct ChainParams {
    pub num_links: nat,
    pub password_length: nat,
    pub radix: nat,
}

impl ChainParams {
    /// Parameters under which chains can be built and searched.
    pub open spec fn valid(self) -> bool {
        &&& self.num_links >= 1
        &&& valid_keyspace(self.radix, self.password_length)
    }
}

/// One round of a chain at position `column`: hash, then reduce.
pub open spec fn step(p: ChainParams, pw: Seq<char>, column: nat) -> Seq<char> {
    reduce_spec(md5_of(pw), column, p.radix, p.password_length)
}

/// The password reached from `pw` by the rounds at positions `from..to`.
pub open spec fn walk(p: ChainParams, pw: Seq<char>, from: nat, to: nat) -> Seq<char>
    decreases to - from,
{
    if to <= from {
        pw
    } else {
        step(p, walk(p, pw, from, (to - 1) as nat), (to - 1) as nat)
    }
}

/// The end of the chain that starts at `start`.
pub open spec fn chain_end(p: ChainParams, start: Seq<char>) -> Seq<char> {
    walk(p, start, 0, p.num_links)
}

/// Walking `from..mid` and then `mid..to` is walking `from..to`.
pub proof fn lemma_walk_compose(p: ChainParams, pw: Seq<char>, from: nat, mid: nat, to: nat)
    requires
        from <= mid <= to,
    ensures
        walk(p, walk(p, pw, from, mid), mid, to) == walk(p, pw, from, to),
    decreases to - mid,
{
    if mid < to {
        lemma_walk_compose(p, pw, from, mid, (to - 1) as nat);
    }
}

/// Chain building is a pure function: under the same parameters, equal
/// starts give chains with equal ends, whatever else is going on.
pub proof fn lemma_chain_determinism(p: ChainParams, q: ChainParams, s: Seq<char>, t: Seq<char>)
    requires
        p == q,
        s == t,
    ensures
        chain_end(p, s) == chain_end(q, t),
{
}

/// Why a set of table parameters is refused.
#[derive(Debug, Clone, Copy, PartialEq, Eq, Structural)]
pub enum ConfigError {
    ZeroLinks,
    ZeroPasswordLength,
    RadixOutOfRange,
    KeyspaceTooLarge,
    UnsupportedAlgorithm,
}

/// The error, if any, that `ChainConfig::new` reports for these parameters.
pub open spec fn config_error(num_links: nat, password_length: nat, radix: nat, algorithm: Seq<
    char,
>) -> Option<ConfigError> {
    if num_links == 0 {
        Some(ConfigError::ZeroLinks)
    } else if password_length == 0 {
        Some(ConfigError::ZeroPasswordLength)
    } else if radix < 1 || radix > MAX_RADIX {
        Some(ConfigError::RadixOutOfRange)
    } else if !valid_keyspace(radix, password_length) {
        Some(ConfigError::KeyspaceTooLarge)
    } else if !supported_algorithm(algorithm) {
        Some(ConfigError::UnsupportedAlgorithm)
    } else {
        None
    }
}

/// Validated parameters shared by chain building and cracking.
#[derive(Clone)]
pub struct ChainConfig {
    num_links: usize,
    password_length: u32,
    radix: u8,
    algorithm: String,
}

impl ChainConfig {
    pub closed spec fn params(&self) -> ChainParams {
        ChainParams {
            num_links: self.num_links as nat,
            password_length: self.password_length as nat,
            radix: self.radix as nat,
        }
    }

    pub closed spec fn algorithm_name(&self) -> Seq<char> {
        self.algorithm@
    }

    pub open spec fn wf(&self) -> bool {
        &&& self.params().valid()
        &&& supported_algorithm(self.algorithm_name())
    }

    /// Checks the parameters: at least one link, a non-empty password
    /// length, an alphabet of 1 to 26 letters, a keyspace that fits in 128
    /// bits and a supported algorithm.
    pub fn new(num_links: usize, password_length: u32, radix: u8, algorithm: String) -> (r: Result<
        Self,
        ConfigError,
    >)
        ensures
            match config_error(num_links as nat, password_length as nat, radix as nat, algorithm@) {
                Some(e) => r == Err::<Self, ConfigError>(e),
                None => r is Ok && r->Ok_0.wf() && r->Ok_0.params() == (ChainParams {
                    num_links: num_links as nat,
                    password_length: password_length as nat,
                    radix: radix as nat,
                }) && r->Ok_0.algorithm_name() == algorithm@,
            },
    {
        if num_links == 0 {
            return Err(ConfigError::ZeroLinks);
        }
        if password_length == 0 {
            return Err(ConfigError::ZeroPasswordLength);
        }
        if radix < 1 || radix > MAX_RADIX {
            return Err(ConfigError::RadixOutOfRange);
        }
        if checked_keyspace(radix, password_length).is_none() {
            return Err(ConfigError::KeyspaceTooLarge);
        }
        if !is_supported_algorithm(algorithm.as_str()) {
            return Err(ConfigError::UnsupportedAlgorithm);
        }
        Ok(ChainConfig { num_links, password_length, radix, algorithm })
    }

    pub fn num_links(&self) -> (r: usize)
        ensures
            r == self.params().num_links,
    {
        self.num_links
    }

    pub fn password_length(&self) -> (r: u32)
        ensures
            r == self.params().password_length,
    {
        self.password_length
    }

    pub fn radix(&self) -> (r: u8)
        ensures
            r == self.params().radix,
    {
        self.radix
    }

    pub fn algorithm(&self) -> (r: &str)
        ensures
            r@ == self.algorithm_name(),
    {
        self.algorithm.as_str()
    }

    /// Applies the rounds at positions `from..to` to `start`.
    pub fn walk_columns(&self, start: String, from: usize, to: usize) -> (r: String)
        requires
            self.wf(),
        ensures
            r@ == walk(self.params(), start@, from as nat, to as nat),
    {
        let mut pw = start;
        let mut col: usize = from;
        if to <= from {
            return pw;
        }
        while col < to
            invariant
                from <= col <= to,
                self.wf(),
                pw@ == walk(self.params(), start@, from as nat, col as nat),
            decreases to - col,
        {
            let d = digest_password(pw.as_str());
            pw = reduction(&d, col as u128, self.radix, self.password_length);
            col = col + 1;
        }
        pw
    }
}

/// The two ends of a chain.
pub struct Chain {
    first_pass: String,
    last_pass: String,
}

impl View for Chain {
    type V = (Seq<char>, Seq<char>);

    closed spec fn view(&self) -> (Seq<char>, Seq<char>) {
        (self.first_pass@, self.last_pass@)
    }
}

impl Chain {
    pub fn new(first_pass: String, last_pass: String) -> (r: Self)
        ensures
            r@ == (first_pass@, last_pass@),
    {
        Chain { first_pass, last_pass }
    }

    pub fn first_pass(&self) -> (r: &str)
        ensures
            r@ == self@.0,
    {
        self.first_pass.as_str()
    }

    pub fn last_pass(&self) -> (r: &str)
        ensures
            r@ == self@.1,
    {
        self.last_pass.as_str()
    }

    /// Takes the chain apart into its start and its end.
    pub fn into_parts(self) -> (r: (String, String))
        ensures
            r.0@ == self@.0,
            r.1@ == self@.1,
    {
        (self.first_pass, self.last_pass)
    }
}

/// Builds chains under fixed parameters.
#[derive(Clone)]
pub struct RainbowTable {
    config: ChainConfig,
}

impl RainbowTable {
    pub closed spec fn config(&self) -> ChainConfig {
        self.config
    }

    /// Validates the parameters as `ChainConfig::new` does.
    pub fn new(num_links: usize, password_length: u32, radix: u8, algorithm: String) -> (r: Result<
        Self,
        ConfigError,
    >)
        ensures
            match config_error(num_links as nat, password_length as nat, radix as nat, algorithm@) {
                Some(e) => r == Err::<Self, ConfigError>(e),
                None => r is Ok && r->Ok_0.config().wf() && r->Ok_0.config().params() == (
                ChainParams {
                    num_links: num_links as nat,
                    password_length: password_length as nat,
                    radix: radix as nat,
                }),
            },
    {
        match ChainConfig::new(num_links, password_length, radix, algorithm) {
            Ok(config) => Ok(RainbowTable { config }),
            Err(e) => Err(e),
        }
    }

    /// The chain that starts at `password`: its end is reached by
    /// `num_links` rounds, and it depends on the start and the parameters
    /// alone.
    pub fn generate_chain(self, password: String) -> (r: Result<Chain, HashErrors>)
        requires
            self.config().wf(),
        ensures
            r is Ok,
            r->Ok_0@ == (password@, chain_end(self.config().params(), password@)),
    {
        let first = password.clone();
        let last = self.config.walk_columns(password, 0, self.config.num_links());
        Ok(Chain::new(first, last))
    }
}

} // verus!
