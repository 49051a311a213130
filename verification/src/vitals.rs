//! Health and mana pools: bounded counters with clamped arithmetic.

use vstd::prelude::*;

verus! {

/// `current - amount`, stopped at zero.
pub open spec fn clamp_sub(current: int, amount: int) -> int {
    if current > amount {
        current - amount
    } else {
        0
    }
}

/// `current + amount`, stopped at `max`.
pub open spec fn clamp_add(current: int, amount: int, max: int) -> int {
    if current + amount < max {
        current + amount
    } else {
        max
    }
}

/// The sum of a sequence of amounts.
pub open spec fn total(amounts: Seq<u32>) -> int
    decreases amounts.len(),
{
    if amounts.len() == 0 {
        0
    } else {
        total(amounts.drop_last()) + amounts.last()
    }
}

/// What is left of `current` after the amounts are taken off one at a time,
/// stopping at zero after each.
pub open spec fn drain(current: int, amounts: Seq<u32>) -> int
    decreases amounts.len(),
{
    if amounts.len() == 0 {
        current
    } else {
        clamp_sub(drain(current, amounts.drop_last()), amounts.last() as int)
    }
}

/// Draining step by step lands where a single clamped subtraction of the
/// whole sum lands, and it never dips below zero on the way.
pub proof fn lemma_drain_closed_form(current: int, amounts: Seq<u32>)
    requires
        current >= 0,
    ensures
        drain(current, amounts) == clamp_sub(current, total(amounts)),
        drain(current, amounts) >= 0,
        total(amounts) >= 0,
    decreases amounts.len(),
{
    if amounts.len() > 0 {
        lemma_drain_closed_form(current, amounts.drop_last());
    }
}

/// Health read after any prefix of a damage sequence is the clamped value.
/// It is never negative, and it departs from the running difference
/// `current - total` exactly on the prefixes where that difference has gone
/// below zero.
pub proof fn lemma_drain_clamps_every_step(current: int, amounts: Seq<u32>, k: int)
    requires
        current >= 0,
        0 <= k <= amounts.len(),
    ensures
        drain(current, amounts.take(k)) >= 0,
        drain(current, amounts.take(k)) == clamp_sub(current, total(amounts.take(k))),
        current - total(amounts.take(k)) < 0 <==> drain(current, amounts.take(k)) != current
            - total(amounts.take(k)),
        k < amounts.len() ==> drain(current, amounts.take(k + 1)) == clamp_sub(
            drain(current, amounts.take(k)),
            amounts[k] as int,
        ),
{
    lemma_drain_closed_form(current, amounts.take(k));
    if k < amounts.len() {
        assert(amounts.take(k + 1).drop_last() =~= amounts.take(k));
    }
}

/// A health pool.
#[derive(Clone, Copy, Debug, PartialEq, Eq)]
pub struct Health {
    /// What is left.
    pub current: u32,
    /// The most the pool holds.
    pub max: u32,
}

impl Health {
    /// The pool holds no more than its maximum.
    pub open spec fn wf(self) -> bool {
        self.current <= self.max
    }

    /// The pool after `amount` damage: `max(0, current - amount)`.
    pub open spec fn after_damage(self, amount: u32) -> Health {
        Health { current: clamp_sub(self.current as int, amount as int) as u32, max: self.max }
    }

    /// The pool after each of `amounts` is applied in turn.
    pub open spec fn after_damages(self, amounts: Seq<u32>) -> Health
        decreases amounts.len(),
    {
        if amounts.len() == 0 {
            self
        } else {
            self.after_damages(amounts.drop_last()).after_damage(amounts.last())
        }
    }

    /// A pool of `current` out of `max`, or nothing when `current` is over
    /// the maximum.
    pub fn new(current: u32, max: u32) -> (health: Option<Health>)
        ensures
            health == if current <= max {
                Some(Health { current, max })
            } else {
                None
            },
    {
        if current <= max {
            Some(Health { current, max })
        } else {
            None
        }
    }

    /// A full pool.
    pub fn full(max: u32) -> (health: Health)
        ensures
            health == (Health { current: max, max }),
            health.wf(),
    {
        Health { current: max, max }
    }

    /// Whether the pool satisfies its bound.
    pub fn is_valid(self) -> (ok: bool)
        ensures
            ok == self.wf(),
    {
        self.current <= self.max
    }

    /// Takes `amount` off the pool without going below zero.
    pub fn damaged(self, amount: u32) -> (health: Health)
        ensures
            health == self.after_damage(amount),
            self.wf() ==> health.wf(),
    {
        if self.current > amount {
            Health { current: self.current - amount, max: self.max }
        } else {
            Health { current: 0, max: self.max }
        }
    }

    /// Whether nothing is left.
    pub fn is_depleted(self) -> (empty: bool)
        ensures
            empty == (self.current == 0),
    {
        self.current == 0
    }
}

/// Damage applied one hit at a time leaves `drain` of the starting value,
/// within the pool's bounds, whatever the hits are.
pub proof fn lemma_health_after_damages(health: Health, amounts: Seq<u32>)
    requires
        health.wf(),
    ensures
        health.after_damages(amounts).current == drain(health.current as int, amounts),
        health.after_damages(amounts).max == health.max,
        health.after_damages(amounts).wf(),
    decreases amounts.len(),
{
    if amounts.len() > 0 {
        lemma_health_after_damages(health, amounts.drop_last());
    }
}

/// A mana pool.
#[derive(Clone, Copy, Debug, PartialEq, Eq)]
pub struct Mana {
    /// What is left.
    pub current: u32,
    /// The most the pool holds.
    pub max: u32,
}

/// One change to a mana pool.
pub enum ManaOp {
    /// Pay a cost, if it can be afforded.
    Spend(u32),
    /// Collect an amount, if the pool is not already full.
    Gain(u32),
}

impl Mana {
    /// The pool holds no more than its maximum.
    pub open spec fn wf(self) -> bool {
        self.current <= self.max
    }

    /// Whether `cost` can be paid.
    pub open spec fn affords(self, cost: u32) -> bool {
        self.current >= cost
    }

    /// Whether the pool is at its maximum.
    pub open spec fn full(self) -> bool {
        self.current >= self.max
    }

    /// The pool after paying `cost`; unchanged when it cannot be afforded.
    pub open spec fn after_spend(self, cost: u32) -> Mana {
        if self.affords(cost) {
            Mana { current: (self.current - cost) as u32, max: self.max }
        } else {
            self
        }
    }

    /// The pool after collecting `amount`: `min(max, current + amount)`, or
    /// unchanged when it was already full.
    pub open spec fn after_gain(self, amount: u32) -> Mana {
        if self.full() {
            self
        } else {
            Mana {
                current: clamp_add(self.current as int, amount as int, self.max as int) as u32,
                max: self.max,
            }
        }
    }

    /// The pool after one operation.
    pub open spec fn after_op(self, op: ManaOp) -> Mana {
        match op {
            ManaOp::Spend(cost) => self.after_spend(cost),
            ManaOp::Gain(amount) => self.after_gain(amount),
        }
    }

    /// The pool after a sequence of operations, applied in order.
    pub open spec fn after_ops(self, ops: Seq<ManaOp>) -> Mana
        decreases ops.len(),
    {
        if ops.len() == 0 {
            self
        } else {
            self.after_ops(ops.drop_last()).after_op(ops.last())
        }
    }

    /// A pool of `current` out of `max`, or nothing when `current` is over
    /// the maximum.
    pub fn new(current: u32, max: u32) -> (mana: Option<Mana>)
        ensures
            mana == if current <= max {
                Some(Mana { current, max })
            } else {
                None
            },
    {
        if current <= max {
            Some(Mana { current, max })
        } else {
            None
        }
    }

    /// A full pool.
    pub fn filled(max: u32) -> (mana: Mana)
        ensures
            mana == (Mana { current: max, max }),
            mana.wf(),
    {
        Mana { current: max, max }
    }

    /// Whether the pool satisfies its bound.
    pub fn is_valid(self) -> (ok: bool)
        ensures
            ok == self.wf(),
    {
        self.current <= self.max
    }

    /// Whether the pool is at its maximum.
    pub fn is_full(self) -> (full: bool)
        ensures
            full == self.full(),
    {
        self.current >= self.max
    }

    /// Pays `cost` if the pool affords it. Returns the pool afterwards and
    /// whether the cost was paid.
    pub fn spend(self, cost: u32) -> (paid: (Mana, bool))
        ensures
            paid.1 == self.affords(cost),
            paid.0 == self.after_spend(cost),
            self.wf() ==> paid.0.wf(),
    {
        if self.current >= cost {
            (Mana { current: self.current - cost, max: self.max }, true)
        } else {
            (self, false)
        }
    }

    /// Collects `amount` unless the pool is already full, stopping at the
    /// maximum. Returns the pool afterwards and whether anything was
    /// collected.
    pub fn gain(self, amount: u32) -> (gained: (Mana, bool))
        ensures
            gained.1 == !self.full(),
            gained.0 == self.after_gain(amount),
            self.wf() ==> gained.0.wf(),
    {
        if self.current >= self.max {
            (self, false)
        } else if amount >= self.max - self.current {
            (Mana { current: self.max, max: self.max }, true)
        } else {
            (Mana { current: self.current + amount, max: self.max }, true)
        }
    }
}

/// Whatever is spent and gained, in whatever order, a pool that starts
/// within `0..=max` stays there, and its maximum does not move.
pub proof fn lemma_mana_stays_bounded(mana: Mana, ops: Seq<ManaOp>)
    requires
        mana.wf(),
    ensures
        0 <= mana.after_ops(ops).current <= mana.after_ops(ops).max,
        mana.after_ops(ops).max == mana.max,
        mana.after_ops(ops).wf(),
    decreases ops.len(),
{
    if ops.len() > 0 {
        lemma_mana_stays_bounded(mana, ops.drop_last());
    }
}

} // verus!
