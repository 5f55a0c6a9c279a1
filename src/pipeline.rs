//! The bookkeeping of a batch run: cutting the crack input into digests, and
//! collecting one result per work item at the drain, in input order
//! whatever order the workers finish in.

use vstd::prelude::*;

verus! {

/// The digests of a flat byte stream of concatenated 16-byte digests; a
/// trailing partial digest is ignored.
pub open spec fn digests_of(bytes: Seq<u8>) -> Seq<Seq<u8>> {
    Seq::new(bytes.len() / 16, |i: int| bytes.subrange(16 * i, 16 * i + 16))
}

/// Cuts a byte stream into `len / 16` digests.
pub fn split_digests(bytes: &Vec<u8>) -> (r: Vec<[u8; 16]>)
    ensures
        r@.len() == digests_of(bytes@).len(),
        forall|i: int| 0 <= i < r@.len() ==> (#[trigger] r@[i])@ == digests_of(bytes@)[i],
{
    let total = bytes.len();
    let count = total / 16;
    let mut out: Vec<[u8; 16]> = Vec::new();
    let mut i: usize = 0;
    while i < count
        invariant
            count == bytes@.len() / 16,
            total == bytes@.len(),
            i <= count,
            out@.len() == i,
            forall|t: int| 0 <= t < i ==> (#[trigger] out@[t])@ == digests_of(bytes@)[t],
        decreases count - i,
    {
        proof {
            assert(16 * i + 16 <= bytes@.len()) by (nonlinear_arith)
                requires
                    i < count,
                    count == bytes@.len() / 16,
            ;
        }
        let mut d: [u8; 16] = [0u8; 16];
        let mut j: usize = 0;
        while j < 16
            invariant
                i < count,
                count == bytes@.len() / 16,
                16 * i + 16 <= bytes@.len(),
                total == bytes@.len(),
                j <= 16,
                forall|t: int| 0 <= t < j ==> d@[t] == bytes@[16 * i + t],
            decreases 16 - j,
        {
            assert(16 * i + j < bytes@.len());
            d[j] = bytes[16 * i + j];
            j = j + 1;
        }
        proof {
            assert(d@ =~= bytes@.subrange(16 * i, 16 * i + 16));
        }
        let ghost prev = out@;
        out.push(d);
        proof {
            assert forall|t: int| 0 <= t < i + 1 implies (#[trigger] out@[t])@ == digests_of(
                bytes@,
            )[t] by {
                if t < i {
                    assert(out@[t] == prev[t]);
                }
            }
        }
        i = i + 1;
    }
    out
}

/// Number of filled slots.
pub open spec fn filled_count(s: Seq<Option<Seq<char>>>) -> nat
    decreases s.len(),
{
    if s.len() == 0 {
        0
    } else {
        filled_count(s.drop_last()) + if s.last() is Some {
            1nat
        } else {
            0nat
        }
    }
}

/// End of the run of filled slots that starts at `from`.
pub open spec fn ready_end(s: Seq<Option<Seq<char>>>, from: int) -> int
    decreases s.len() - from,
{
    if from >= s.len() || s[from] is None {
        from
    } else {
        ready_end(s, from + 1)
    }
}

proof fn lemma_filled_count_update(s: Seq<Option<Seq<char>>>, i: int, v: Seq<char>)
    requires
        0 <= i < s.len(),
        s[i] is None,
    ensures
        filled_count(s.update(i, Some(v))) == filled_count(s) + 1,
    decreases s.len(),
{
    let t = s.update(i, Some(v));
    if i < s.len() - 1 {
        assert(t.drop_last() =~= s.drop_last().update(i, Some(v)));
        lemma_filled_count_update(s.drop_last(), i, v);
    } else {
        assert(t.drop_last() =~= s.drop_last());
    }
}

proof fn lemma_filled_count_bound(s: Seq<Option<Seq<char>>>)
    ensures
        filled_count(s) <= s.len(),
        filled_count(s) == s.len() <==> forall|i: int| 0 <= i < s.len() ==> #[trigger] s[i] is Some,
    decreases s.len(),
{
    if s.len() > 0 {
        lemma_filled_count_bound(s.drop_last());
        if filled_count(s) == s.len() {
            assert forall|i: int| 0 <= i < s.len() implies #[trigger] s[i] is Some by {
                if i < s.len() - 1 {
                    assert(s.drop_last()[i] == s[i]);
                }
            }
        }
        if forall|i: int| 0 <= i < s.len() ==> #[trigger] s[i] is Some {
            assert forall|i: int| 0 <= i < s.drop_last().len() implies #[trigger] s.drop_last()[i] is Some by {
                assert(s.drop_last()[i] == s[i]);
            }
        }
    }
}

proof fn lemma_ready_end(s: Seq<Option<Seq<char>>>, from: int)
    requires
        0 <= from <= s.len(),
    ensures
        from <= ready_end(s, from) <= s.len(),
        forall|i: int| from <= i < ready_end(s, from) ==> #[trigger] s[i] is Some,
        ready_end(s, from) < s.len() ==> s[ready_end(s, from)] is None,
    decreases s.len() - from,
{
    if from < s.len() && s[from] is Some {
        lemma_ready_end(s, from + 1);
    }
}

/// A batch of `n` work items is complete exactly when `n` results have been
/// recorded, that is when every item has its result; from then on the
/// drain hands out every remaining result in input order.
pub proof fn lemma_batch_conservation(s: Seq<Option<Seq<char>>>, emitted: int)
    requires
        0 <= emitted <= s.len(),
    ensures
        filled_count(s) <= s.len(),
        filled_count(s) == s.len() <==> forall|i: int| 0 <= i < s.len() ==> #[trigger] s[i] is Some,
        filled_count(s) == s.len() ==> ready_end(s, emitted) == s.len(),
{
    lemma_filled_count_bound(s);
    lemma_ready_end(s, emitted);
}

/// Why a result was refused.
#[derive(Debug, Clone, Copy, PartialEq, Eq, Structural)]
pub enum CollectError {
    /// No work item has this index.
    OutOfRange,
    /// This work item already has its result.
    Duplicate,
}

/// One slot per work item: results come in any order and leave in input
/// order.
pub struct ResultCollector {
    slots: Vec<Option<String>>,
    received: usize,
    emitted: usize,
}

pub open spec fn slot_view(o: Option<String>) -> Option<Seq<char>> {
    match o {
        Some(s) => Some(s@),
        None => None,
    }
}

impl ResultCollector {
    /// The results recorded so far, by item index.
    pub closed spec fn slots(&self) -> Seq<Option<Seq<char>>> {
        self.slots@.map_values(|o: Option<String>| slot_view(o))
    }

    /// How many leading results the drain has already handed out.
    pub closed spec fn emitted(&self) -> nat {
        self.emitted as nat
    }

    pub closed spec fn wf(&self) -> bool {
        &&& self.received == filled_count(self.slots())
        &&& self.emitted <= self.slots@.len()
        &&& forall|i: int| 0 <= i < self.emitted ==> #[trigger] self.slots@[i] is Some
    }

    /// A collector for `n` work items, none of them done.
    pub fn new(n: usize) -> (r: Self)
        ensures
            r.wf(),
            r.slots() == Seq::new(n as nat, |i: int| None::<Seq<char>>),
            r.emitted() == 0,
    {
        let mut slots: Vec<Option<String>> = Vec::new();
        let mut i: usize = 0;
        while i < n
            invariant
                i <= n,
                slots@.len() == i,
                forall|t: int| 0 <= t < i ==> (#[trigger] slots@[t]) is None,
            decreases n - i,
        {
            slots.push(None);
            i = i + 1;
        }
        let r = ResultCollector { slots, received: 0, emitted: 0 };
        proof {
            assert(r.slots() =~= Seq::new(n as nat, |i: int| None::<Seq<char>>));
            assert(filled_count(r.slots()) == 0) by {
                lemma_filled_count_bound(r.slots());
                lemma_zero_filled(r.slots());
            }
        }
        r
    }

    /// Records the result of work item `index`.
    pub fn record(&mut self, index: usize, result: String) -> (r: Result<(), CollectError>)
        requires
            old(self).wf(),
        ensures
            final(self).wf(),
            final(self).emitted() == old(self).emitted(),
            index >= old(self).slots().len() ==> r == Err::<(), CollectError>(
                CollectError::OutOfRange,
            ) && final(self).slots() == old(self).slots(),
            index < old(self).slots().len() && old(self).slots()[index as int] is Some ==> r
                == Err::<(), CollectError>(CollectError::Duplicate) && final(self).slots()
                == old(self).slots(),
            index < old(self).slots().len() && old(self).slots()[index as int] is None ==> r
                is Ok && final(self).slots() == old(self).slots().update(
                index as int,
                Some(result@),
            ),
    {
        if index >= self.slots.len() {
            return Err(CollectError::OutOfRange);
        }
        if self.slots[index].is_some() {
            return Err(CollectError::Duplicate);
        }
        let ghost before = self.slots();
        proof {
            lemma_filled_count_bound(before);
            lemma_filled_count_update(before, index as int, result@);
        }
        self.slots[index] = Some(result);
        self.received = self.received + 1;
        proof {
            assert(self.slots() =~= before.update(index as int, Some(result@)));
        }
        Ok(())
    }

    /// Number of results recorded.
    pub fn received(&self) -> (r: usize)
        requires
            self.wf(),
        ensures
            r == filled_count(self.slots()),
    {
        self.received
    }

    /// Whether every work item has its result.
    pub fn is_complete(&self) -> (r: bool)
        requires
            self.wf(),
        ensures
            r == (forall|i: int| 0 <= i < self.slots().len() ==> #[trigger] self.slots()[i] is Some),
    {
        proof {
            lemma_filled_count_bound(self.slots());
        }
        self.received == self.slots.len()
    }

    /// Hands out, in input order, the results that follow those already
    /// handed out and have no gap before them.
    pub fn take_ready(&mut self) -> (r: Vec<String>)
        requires
            old(self).wf(),
        ensures
            final(self).wf(),
            final(self).slots() == old(self).slots(),
            final(self).emitted() == ready_end(old(self).slots(), old(self).emitted() as int),
            r@.len() == final(self).emitted() - old(self).emitted(),
            forall|i: int|
                0 <= i < r@.len() ==> Some((#[trigger] r@[i])@) == old(self).slots()[old(
                    self,
                ).emitted() + i],
    {
        let ghost s = self.slots();
        let ghost start = self.emitted as int;
        proof {
            lemma_ready_end(s, start);
        }
        let mut out: Vec<String> = Vec::new();
        while self.emitted < self.slots.len() && self.slots[self.emitted].is_some()
            invariant
                self.wf(),
                self.slots() == s,
                start <= self.emitted <= ready_end(s, start),
                ready_end(s, self.emitted as int) == ready_end(s, start),
                out@.len() == self.emitted - start,
                forall|i: int| 0 <= i < out@.len() ==> Some((#[trigger] out@[i])@) == s[start + i],
            decreases self.slots@.len() - self.emitted,
        {
            let e = self.emitted;
            let v = match &self.slots[e] {
                Some(x) => x.clone(),
                None => String::new(),
            };
            proof {
                assert(s[e as int] == slot_view(self.slots@[e as int]));
                assert(ready_end(s, e as int) == ready_end(s, e + 1));
                lemma_ready_end(s, e + 1);
            }
            let ghost prev = out@;
            out.push(v);
            proof {
                assert forall|i: int| 0 <= i < out@.len() implies Some((#[trigger] out@[i])@) == s[start + i] by {
                    if i < prev.len() {
                        assert(out@[i] == prev[i]);
                    }
                }
            }
            self.emitted = e + 1;
        }
        out
    }
}

proof fn lemma_zero_filled(s: Seq<Option<Seq<char>>>)
    requires
        forall|i: int| 0 <= i < s.len() ==> #[trigger] s[i] is None,
    ensures
        filled_count(s) == 0,
    decreases s.len(),
{
    if s.len() > 0 {
        assert forall|i: int| 0 <= i < s.drop_last().len() implies #[trigger] s.drop_last()[i] is None by {
            assert(s.drop_last()[i] == s[i]);
        }
        lemma_zero_filled(s.drop_last());
    }
}

} // verus!
