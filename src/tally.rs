use vstd::prelude::*;

verus! {

/// The sum of the line counts in `counts`.
pub open spec fn sum(counts: Seq<nat>) -> nat
    decreases counts.len(),
{
    if counts.len() == 0 {
        0
    } else {
        sum(counts.drop_last()) + counts.last()
    }
}

/// The running total of the line counts reported so far.
pub struct Tally {
    total: usize,
    counts: Ghost<Seq<nat>>,
}

impl Tally {
    /// The line counts added so far, in order.
    pub closed spec fn counts(&self) -> Seq<nat> {
        self.counts@
    }

    pub closed spec fn wf(&self) -> bool {
        self.total == sum(self.counts@)
    }

    /// A tally of no files.
    pub fn new() -> (t: Tally)
        ensures
            t.wf(),
            t.counts() == Seq::<nat>::empty(),
    {
        Tally { total: 0, counts: Ghost(Seq::empty()) }
    }

    /// Adds the line count of one more file. Where the total would no longer
    /// fit in a `usize`, nothing is added and the result is false.
    pub fn add(&mut self, lines: usize) -> (ok: bool)
        requires
            old(self).wf(),
        ensures
            final(self).wf(),
            ok == (sum(old(self).counts()) + lines <= usize::MAX),
            ok ==> final(self).counts() == old(self).counts().push(lines as nat),
            !ok ==> final(self).counts() == old(self).counts(),
    {
        if lines <= usize::MAX - self.total {
            self.total = self.total + lines;
            self.counts = Ghost(self.counts@.push(lines as nat));
            proof {
                assert(self.counts@.drop_last() =~= old(self).counts@);
            }
            true
        } else {
            false
        }
    }

    /// The total: the sum of every count added.
    pub fn total(&self) -> (r: usize)
        requires
            self.wf(),
        ensures
            r == sum(self.counts()),
    {
        self.total
    }
}

} // verus!

verus! {

proof fn lemma_sum_remove(c: Seq<nat>, i: int)
    requires
        0 <= i < c.len(),
    ensures
        sum(c) == sum(c.remove(i)) + c[i],
    decreases c.len(),
{
    if i == c.len() - 1 {
        assert(c.remove(i) =~= c.drop_last());
    } else {
        lemma_sum_remove(c.drop_last(), i);
        assert(c.remove(i).drop_last() =~= c.drop_last().remove(i));
        assert(c.remove(i).last() == c.last());
    }
}

/// The total does not hang on the order in which the files are counted:
/// the same counts, in any order, sum to the same total.
pub proof fn lemma_total_order_free(counts1: Seq<nat>, counts2: Seq<nat>)
    requires
        counts1.to_multiset() == counts2.to_multiset(),
    ensures
        sum(counts1) == sum(counts2),
    decreases counts1.len(),
{
    vstd::seq_lib::to_multiset_len(counts1);
    vstd::seq_lib::to_multiset_len(counts2);
    if counts1.len() > 0 {
        let k = counts1.len() - 1;
        let x = counts1[k];
        assert(counts1.contains(x));
        vstd::seq_lib::to_multiset_contains(counts1, x);
        vstd::seq_lib::to_multiset_contains(counts2, x);
        let j = choose|j: int| 0 <= j < counts2.len() && counts2[j] == x;
        vstd::seq_lib::to_multiset_remove(counts1, k);
        vstd::seq_lib::to_multiset_remove(counts2, j);
        assert(counts1.remove(k) =~= counts1.drop_last());
        lemma_total_order_free(counts1.drop_last(), counts2.remove(j));
        lemma_sum_remove(counts2, j);
    }
}

} // verus!
