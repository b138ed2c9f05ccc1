use vstd::prelude::*;

verus! {

/// A per-frame allowance of work units that jobs draw from until it runs out.
#[derive(Debug, Clone, Copy, PartialEq, Eq)]
pub struct FrameBudget {
    remaining: usize,
}

impl View for FrameBudget {
    type V = nat;

    closed spec fn view(&self) -> nat {
        self.remaining as nat
    }
}

impl FrameBudget {
    /// A budget holding `limit` units.
    pub fn new(limit: usize) -> (budget: Self)
        ensures
            budget@ == limit,
    {
        Self { remaining: limit }
    }

    /// The units still available.
    pub fn remaining(&self) -> (r: usize)
        ensures
            r == self@,
    {
        self.remaining
    }

    /// Takes `amount` units if that many remain; otherwise takes nothing.
    pub fn try_take(&mut self, amount: usize) -> (taken: bool)
        ensures
            taken == (amount <= old(self)@),
            final(self)@ == units_after_take(old(self)@, amount as nat),
    {
        if amount > self.remaining {
            return false;
        }
        self.remaining = self.remaining - amount;
        true
    }

    /// Resets the allowance to `limit` units.
    pub fn refill(&mut self, limit: usize)
        ensures
            final(self)@ == limit,
    {
        self.remaining = limit;
    }
}

/// The units left after asking `units` for `amount`: the amount is taken when that many remain.
pub open spec fn units_after_take(units: nat, amount: nat) -> nat {
    if amount <= units {
        (units - amount) as nat
    } else {
        units
    }
}

/// The units left after asking, in order, for each of `amounts`.
pub open spec fn units_after_takes(units: nat, amounts: Seq<nat>) -> nat
    decreases amounts.len(),
{
    if amounts.len() == 0 {
        units
    } else {
        units_after_take(units_after_takes(units, amounts.drop_last()), amounts.last())
    }
}

/// The units granted when asking, in order, for each of `amounts`.
pub open spec fn units_granted(units: nat, amounts: Seq<nat>) -> nat
    decreases amounts.len(),
{
    if amounts.len() == 0 {
        0
    } else {
        units_granted(units, amounts.drop_last()) + if amounts.last() <= units_after_takes(units, amounts.drop_last()) {
            amounts.last()
        } else {
            0
        }
    }
}

/// Work drawn from a budget never exceeds it: over any series of takes, the units granted
/// and the units left add up to the starting units, and what is left never grows.
pub proof fn takes_never_exceed_the_budget(units: nat, amounts: Seq<nat>)
    ensures
        units_granted(units, amounts) + units_after_takes(units, amounts) == units,
        units_granted(units, amounts) <= units,
        forall|i: int, j: int|
            0 <= i <= j <= amounts.len() ==> units_after_takes(units, #[trigger] amounts.take(j))
                <= units_after_takes(units, #[trigger] amounts.take(i)),
    decreases amounts.len(),
{
    if amounts.len() > 0 {
        takes_never_exceed_the_budget(units, amounts.drop_last());
        assert forall|i: int, j: int|
            0 <= i <= j <= amounts.len() implies units_after_takes(units, #[trigger] amounts.take(j))
                <= units_after_takes(units, #[trigger] amounts.take(i)) by {
            let n = amounts.len() as int;
            let p = amounts.drop_last();
            if j == n {
                assert(amounts.take(j) =~= amounts);
                assert(amounts.take(n).drop_last() =~= p);
                if i == n {
                } else {
                    assert(amounts.take(i) =~= p.take(i));
                    assert(p.take(p.len() as int) =~= p);
                }
            } else {
                assert(amounts.take(i) =~= p.take(i));
                assert(amounts.take(j) =~= p.take(j));
            }
        }
    }
}

} // verus!
