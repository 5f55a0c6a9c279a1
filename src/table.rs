//! The chain table: one text line `first_pass<TAB>last_pass` per chain, and
//! the in-memory map from chain end to chain start built from such lines.
//! Loading is strict: a line without a tab fails the whole load.

use crate::chain::Chain;
use vstd::hash_map::StringHashMap;
use vstd::prelude::*;
use vstd::string::{StrSliceExecFns, StringExecFns};

verus! {

/// Index of the first tab of `l` at or after `i`, or `l.len()` if none.
pub open spec fn first_tab_from(l: Seq<char>, i: int) -> int
    decreases l.len() - i,
{
    if i >= l.len() {
        l.len() as int
    } else if l[i] == '\t' {
        i
    } else {
        first_tab_from(l, i + 1)
    }
}

/// Splits a line on its first tab into `(first_pass, last_pass)`.
pub open spec fn parse_line(l: Seq<char>) -> Option<(Seq<char>, Seq<char>)> {
    let t = first_tab_from(l, 0);
    if t >= l.len() {
        None
    } else {
        Some((l.subrange(0, t), l.subrange(t + 1, l.len() as int)))
    }
}

/// The text line of a chain, without its line break.
pub open spec fn line_of(c: (Seq<char>, Seq<char>)) -> Seq<char> {
    c.0 + seq!['\t'] + c.1
}

/// The map from chain end to chain start; a later chain with the same end
/// replaces an earlier one.
pub open spec fn mapping_of(chains: Seq<(Seq<char>, Seq<char>)>) -> Map<Seq<char>, Seq<char>>
    decreases chains.len(),
{
    if chains.len() == 0 {
        Map::empty()
    } else {
        let c = chains.last();
        mapping_of(chains.drop_last()).insert(c.1, c.0)
    }
}

/// The chains written on `lines`, or nothing if one of them lacks a tab.
pub open spec fn parse_lines(lines: Seq<Seq<char>>) -> Option<Seq<(Seq<char>, Seq<char>)>>
    decreases lines.len(),
{
    if lines.len() == 0 {
        Some(Seq::empty())
    } else {
        match (parse_lines(lines.drop_last()), parse_line(lines.last())) {
            (Some(cs), Some(c)) => Some(cs.push(c)),
            _ => None,
        }
    }
}

/// Index of the first line that lacks a tab, if any.
pub open spec fn first_bad_line(lines: Seq<Seq<char>>) -> Option<nat>
    decreases lines.len(),
{
    if lines.len() == 0 {
        None
    } else {
        match first_bad_line(lines.drop_last()) {
            Some(i) => Some(i),
            None => if parse_line(lines.last()) is None {
                Some((lines.len() - 1) as nat)
            } else {
                None
            },
        }
    }
}

pub open spec fn has_tab(s: Seq<char>) -> bool {
    exists|i: int| 0 <= i < s.len() && s[i] == '\t'
}

proof fn lemma_first_tab_from(l: Seq<char>, i: int)
    requires
        0 <= i <= l.len(),
    ensures
        i <= first_tab_from(l, i) <= l.len(),
        forall|j: int| i <= j < first_tab_from(l, i) ==> l[j] != '\t',
        first_tab_from(l, i) < l.len() ==> l[first_tab_from(l, i)] == '\t',
    decreases l.len() - i,
{
    if i < l.len() && l[i] != '\t' {
        lemma_first_tab_from(l, i + 1);
    }
}

/// A line written for a chain whose start holds no tab reads back as that
/// chain.
pub proof fn lemma_line_round_trip(c: (Seq<char>, Seq<char>))
    requires
        !has_tab(c.0),
    ensures
        parse_line(line_of(c)) == Some(c),
{
    let l = line_of(c);
    let n = c.0.len() as int;
    lemma_first_tab_from(l, 0);
    let t = first_tab_from(l, 0);
    assert(l[n] == '\t');
    if t < n {
        assert(l[t] == c.0[t]);
    }
    assert(t == n);
    assert(l.subrange(0, t) =~= c.0);
    assert(l.subrange(t + 1, l.len() as int) =~= c.1);
}

/// Writing a table of chains whose starts hold no tab, one line per chain,
/// and loading the lines again gives the same chains, hence the same map
/// from chain end to chain start.
pub proof fn lemma_table_round_trip(chains: Seq<(Seq<char>, Seq<char>)>)
    requires
        forall|i: int| 0 <= i < chains.len() ==> !has_tab(#[trigger] chains[i].0),
    ensures
        parse_lines(chains.map_values(|c: (Seq<char>, Seq<char>)| line_of(c))) == Some(chains),
        mapping_of(parse_lines(chains.map_values(|c: (Seq<char>, Seq<char>)| line_of(c)))->0)
            == mapping_of(chains),
    decreases chains.len(),
{
    let lines = chains.map_values(|c: (Seq<char>, Seq<char>)| line_of(c));
    if chains.len() > 0 {
        let init = chains.drop_last();
        assert(lines.drop_last() =~= init.map_values(|c: (Seq<char>, Seq<char>)| line_of(c)));
        assert forall|i: int| 0 <= i < init.len() implies !has_tab(#[trigger] init[i].0) by {
            assert(init[i] == chains[i]);
        }
        lemma_table_round_trip(init);
        lemma_line_round_trip(chains.last());
        assert(init.push(chains.last()) =~= chains);
    }
}

/// Why a table failed to load.
#[derive(Debug, Clone, Copy, PartialEq, Eq, Structural)]
pub enum TableError {
    /// The line at this index (from 0) has no tab.
    MissingTab { index: usize },
}

/// Splits a line on its first tab into a chain; nothing if it has no tab.
pub fn parse_chain_line(line: &str) -> (r: Option<Chain>)
    ensures
        match parse_line(line@) {
            Some(c) => r is Some && r->0@ == c,
            None => r is None,
        },
{
    let n = line.unicode_len();
    let mut i: usize = 0;
    proof {
        lemma_first_tab_from(line@, 0);
    }
    while i < n
        invariant
            n == line@.len(),
            i <= n,
            forall|j: int| 0 <= j < i ==> line@[j] != '\t',
        decreases n - i,
    {
        if line.get_char(i) == '\t' {
            proof {
                lemma_first_tab_from(line@, 0);
                let t = first_tab_from(line@, 0);
                if t < i {
                    assert(line@[t] == '\t');
                }
                assert(t == i);
            }
            let first = String::from_str(line.substring_char(0, i));
            let last = String::from_str(line.substring_char(i + 1, n));
            return Some(Chain::new(first, last));
        }
        i = i + 1;
    }
    proof {
        lemma_first_tab_from(line@, 0);
        let t = first_tab_from(line@, 0);
        if t < n {
            assert(line@[t] == '\t');
        }
    }
    None
}

impl Chain {
    /// The table line of the chain: start, a tab, end (no line break).
    pub fn to_line(&self) -> (r: String)
        ensures
            r@ == line_of(self@),
    {
        let mut s = String::from_str(self.first_pass());
        proof {
            reveal_strlit("\t");
        }
        s.append("\t");
        s.append(self.last_pass());
        s
    }
}

/// Map from chain end to chain start.
pub struct ChainTable {
    ends: StringHashMap<String>,
}

impl View for ChainTable {
    type V = Map<Seq<char>, Seq<char>>;

    closed spec fn view(&self) -> Map<Seq<char>, Seq<char>> {
        Map::new(|k: Seq<char>| self.ends@.contains_key(k), |k: Seq<char>| self.ends@[k]@)
    }
}

impl ChainTable {
    pub fn new() -> (r: Self)
        ensures
            r@ == Map::<Seq<char>, Seq<char>>::empty(),
    {
        let r = ChainTable { ends: StringHashMap::new() };
        proof {
            assert(r@ =~= Map::<Seq<char>, Seq<char>>::empty());
        }
        r
    }

    /// Records a chain; an earlier chain with the same end is replaced.
    pub fn insert_chain(&mut self, chain: Chain)
        ensures
            final(self)@ == old(self)@.insert(chain@.1, chain@.0),
    {
        let ghost c = chain@;
        let (first, last) = chain.into_parts();
        self.ends.insert(last, first);
        proof {
            assert(final(self)@ =~= old(self)@.insert(c.1, c.0));
        }
    }

    /// The start of the chain that ends at `end`.
    pub fn lookup(&self, end: &str) -> (r: Option<&str>)
        ensures
            match r {
                Some(s) => self@.contains_key(end@) && s@ == self@[end@],
                None => !self@.contains_key(end@),
            },
    {
        match self.ends.get(end) {
            Some(s) => Some(s.as_str()),
            None => None,
        }
    }

    pub fn len(&self) -> (r: usize)
        ensures
            r == self@.len(),
    {
        proof {
            assert(self@.dom() =~= self.ends@.dom());
        }
        self.ends.len()
    }

    /// Loads a table from its lines, or reports the first line without a tab.
    pub fn from_lines(lines: &Vec<String>) -> (r: Result<ChainTable, TableError>)
        ensures
            match first_bad_line(lines@.map_values(|s: String| s@)) {
                Some(i) => r == Err::<ChainTable, TableError>(
                    TableError::MissingTab { index: i as usize },
                ),
                None => parse_lines(lines@.map_values(|s: String| s@)) is Some && r is Ok
                    && r->Ok_0@ == mapping_of(
                    parse_lines(lines@.map_values(|s: String| s@))->0,
                ),
            },
    {
        let ghost all = lines@.map_values(|s: String| s@);
        let mut table = ChainTable::new();
        let mut i: usize = 0;
        while i < lines.len()
            invariant
                i <= lines@.len(),
                all == lines@.map_values(|s: String| s@),
                first_bad_line(all.subrange(0, i as int)) is None,
                parse_lines(all.subrange(0, i as int)) is Some,
                table@ == mapping_of(parse_lines(all.subrange(0, i as int))->0),
            decreases lines.len() - i,
        {
            let ghost prev = all.subrange(0, i as int);
            let ghost next = all.subrange(0, i + 1);
            proof {
                assert(next.drop_last() =~= prev);
                assert(next.last() == lines@[i as int]@);
            }
            match parse_chain_line(lines[i].as_str()) {
                Some(chain) => {
                    let ghost c = chain@;
                    proof {
                        let cs = parse_lines(prev)->0;
                        assert(parse_lines(next) == Some(cs.push(c)));
                        assert(cs.push(c).drop_last() =~= cs);
                    }
                    table.insert_chain(chain);
                },
                None => {
                    proof {
                        assert(first_bad_line(next) == Some(i as nat));
                        assert(all.subrange(0, all.len() as int) =~= all);
                        lemma_first_bad_line_prefix(all, i as int + 1);
                    }
                    return Err(TableError::MissingTab { index: i });
                },
            }
            i = i + 1;
        }
        proof {
            assert(all.subrange(0, i as int) =~= all);
        }
        Ok(table)
    }
}

/// A bad line in a prefix is the first bad line of the whole.
proof fn lemma_first_bad_line_prefix(lines: Seq<Seq<char>>, n: int)
    requires
        0 <= n <= lines.len(),
        first_bad_line(lines.subrange(0, n)) is Some,
    ensures
        first_bad_line(lines) == first_bad_line(lines.subrange(0, n)),
    decreases lines.len() - n,
{
    if n < lines.len() {
        let next = lines.subrange(0, n + 1);
        assert(next.drop_last() =~= lines.subrange(0, n));
        lemma_first_bad_line_prefix(lines, n + 1);
    } else {
        assert(lines.subrange(0, n) =~= lines);
    }
}

} // verus!
