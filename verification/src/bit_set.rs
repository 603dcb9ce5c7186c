//! A set of document numbers below a fixed bound.
use vstd::prelude::*;

verus! {

/// Which of the documents `0..max_value` a set holds, one flag per document.
#[derive(Debug)]
pub struct BitSet {
    flags: Vec<bool>,
}

impl View for BitSet {
    type V = Seq<bool>;

    closed spec fn view(&self) -> Seq<bool> {
        self.flags@
    }
}

impl Clone for BitSet {
    fn clone(&self) -> (copy: Self)
        ensures
            copy@ == self@,
    {
        let flags = self.flags.clone();
        assert(flags@ =~= self.flags@);
        BitSet { flags }
    }
}

/// How many of the flags are set.
pub open spec fn count_set(flags: Seq<bool>) -> nat
    decreases flags.len(),
{
    if flags.len() == 0 {
        0
    } else {
        count_set(flags.drop_last()) + if flags.last() {
            1nat
        } else {
            0nat
        }
    }
}

impl BitSet {
    /// Holds every document below `max_value`.
    pub fn with_max_value_and_full(max_value: u32) -> (set: BitSet)
        ensures
            set@ == Seq::new(max_value as nat, |i: int| true),
    {
        let mut flags: Vec<bool> = Vec::new();
        let mut doc: u32 = 0;
        while doc < max_value
            invariant
                doc <= max_value,
                flags@ == Seq::new(doc as nat, |i: int| true),
            decreases max_value - doc,
        {
            flags.push(true);
            doc = doc + 1;
        }
        BitSet { flags }
    }

    /// Takes the set whose flags are given.
    pub fn from_flags(flags: Vec<bool>) -> (set: BitSet)
        ensures
            set@ == flags@,
    {
        BitSet { flags }
    }

    /// The bound below which the set's documents lie.
    pub fn max_value(&self) -> (bound: usize)
        ensures
            bound == self@.len(),
    {
        self.flags.len()
    }

    /// Whether the set holds `doc`. A document at or above the bound is not in it.
    pub fn contains(&self, doc: usize) -> (held: bool)
        ensures
            held == (doc < self@.len() && self@[doc as int]),
    {
        doc < self.flags.len() && self.flags[doc]
    }

    /// How many documents the set holds.
    pub fn len(&self) -> (count: usize)
        ensures
            count == count_set(self@),
    {
        let mut count: usize = 0;
        let mut doc: usize = 0;
        assert(self.flags@.take(0) =~= Seq::<bool>::empty());
        while doc < self.flags.len()
            invariant
                doc <= self.flags.len(),
                count <= doc,
                count == count_set(self.flags@.take(doc as int)),
            decreases self.flags.len() - doc,
        {
            assert(self.flags@.take(doc + 1).drop_last() =~= self.flags@.take(doc as int));
            if self.flags[doc] {
                count = count + 1;
            }
            doc = doc + 1;
        }
        assert(self.flags@.take(doc as int) =~= self.flags@);
        count
    }
}

/// Fewer flags are set where each that is set was set before.
pub proof fn lemma_count_monotone(fewer: Seq<bool>, more: Seq<bool>)
    requires
        fewer.len() == more.len(),
        forall|i: int| 0 <= i < fewer.len() && #[trigger] fewer[i] ==> more[i],
    ensures
        count_set(fewer) <= count_set(more),
    decreases fewer.len(),
{
    if fewer.len() > 0 {
        assert forall|i: int| 0 <= i < fewer.len() - 1 && #[trigger] fewer.drop_last()[i] implies
            more.drop_last()[i] by {
            assert(fewer[i]);
        }
        assert(fewer.last() == fewer[fewer.len() - 1]);
        lemma_count_monotone(fewer.drop_last(), more.drop_last());
    }
}

/// All of the flags count where all are set.
pub proof fn lemma_count_full(len: nat)
    ensures
        count_set(Seq::new(len, |i: int| true)) == len,
    decreases len,
{
    if len > 0 {
        lemma_count_full((len - 1) as nat);
        assert(Seq::new(len, |i: int| true).drop_last() =~= Seq::new(
            (len - 1) as nat,
            |i: int| true,
        ));
    }
}

/// No more flags are set than there are.
pub proof fn lemma_count_le_len(flags: Seq<bool>)
    ensures
        count_set(flags) <= flags.len(),
    decreases flags.len(),
{
    if flags.len() > 0 {
        lemma_count_le_len(flags.drop_last());
    }
}

/// Where a flag is set, the count is not zero.
pub proof fn lemma_count_positive(flags: Seq<bool>, i: int)
    requires
        0 <= i < flags.len(),
        flags[i],
    ensures
        count_set(flags) > 0,
    decreases flags.len(),
{
    if i < flags.len() - 1 {
        lemma_count_positive(flags.drop_last(), i);
    }
}

/// The count of flags is the number of places where one is set.
pub proof fn law_count_is_number_of_places(flags: Seq<bool>)
    ensures
        Set::new(|i: int| 0 <= i < flags.len() && flags[i]).finite(),
        count_set(flags) == Set::new(|i: int| 0 <= i < flags.len() && flags[i]).len(),
    decreases flags.len(),
{
    let places = Set::new(|i: int| 0 <= i < flags.len() && flags[i]);
    if flags.len() == 0 {
        assert(places =~= Set::empty());
    } else {
        let rest = flags.drop_last();
        let fewer = Set::new(|i: int| 0 <= i < rest.len() && rest[i]);
        law_count_is_number_of_places(rest);
        if flags.last() {
            assert(places =~= fewer.insert(flags.len() - 1));
        } else {
            assert(places =~= fewer);
        }
    }
}

} // verus!
