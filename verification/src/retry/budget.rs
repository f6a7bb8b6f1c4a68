//! Retry budget: a token bucket that bounds retries to a fraction of all calls,
//! so that a failing dependency does not meet a storm of retries.
//!
//! Each top-level call deposits tokens, each retry withdraws a whole one. Where
//! less than a whole token is left, retries are denied even if attempts remain.

use vstd::prelude::*;

use crate::double::{thousandths, Double};

verus! {

/// Thousandths of a token in a whole one, which is what a retry costs.
pub const SCALE: i64 = 1000;

/// A retry budget. Policies that share one share its bucket.
#[derive(Debug)]
pub struct RetryBudget {
    tokens: i64,
    max_tokens: i64,
    deposit: i64,
}

/// A bucket, in thousandths of a token.
pub ghost struct Bucket {
    pub tokens: int,
    pub max_tokens: int,
    /// What one call deposits.
    pub deposit: int,
}

/// What can happen to a bucket.
pub ghost enum BudgetOp {
    Deposit,
    Withdraw,
}

impl Bucket {
    pub open spec fn wf(self) -> bool {
        &&& 0 <= self.tokens <= self.max_tokens
        &&& 0 <= self.deposit <= SCALE
    }

    pub open spec fn after_deposit(self) -> Bucket {
        Bucket {
            tokens: if self.tokens + self.deposit <= self.max_tokens {
                self.tokens + self.deposit
            } else {
                self.max_tokens
            },
            ..self
        }
    }

    /// A retry can be paid.
    pub open spec fn grants(self) -> bool {
        self.tokens >= SCALE
    }

    pub open spec fn after_withdrawal(self) -> Bucket {
        if self.grants() {
            Bucket { tokens: self.tokens - SCALE, ..self }
        } else {
            self
        }
    }

    pub open spec fn after(self, op: BudgetOp) -> Bucket {
        match op {
            BudgetOp::Deposit => self.after_deposit(),
            BudgetOp::Withdraw => self.after_withdrawal(),
        }
    }

    /// The bucket after a history of operations.
    pub open spec fn after_all(self, ops: Seq<BudgetOp>) -> Bucket
        decreases ops.len(),
    {
        if ops.len() == 0 {
            self
        } else {
            self.after_all(ops.drop_last()).after(ops.last())
        }
    }

    /// How many retries a history of operations was granted.
    pub open spec fn granted(self, ops: Seq<BudgetOp>) -> nat
        decreases ops.len(),
    {
        if ops.len() == 0 {
            0
        } else {
            self.granted(ops.drop_last()) + if ops.last() is Withdraw && self.after_all(
                ops.drop_last(),
            ).grants() {
                1nat
            } else {
                0
            }
        }
    }

    /// How many calls a history of operations holds.
    pub open spec fn calls(ops: Seq<BudgetOp>) -> nat
        decreases ops.len(),
    {
        if ops.len() == 0 {
            0
        } else {
            Self::calls(ops.drop_last()) + if ops.last() is Deposit {
                1nat
            } else {
                0
            }
        }
    }

    /// The bucket holds no less than nothing and no more than its burst, whatever
    /// happens to it.
    pub proof fn law_stays_within_burst(self, ops: Seq<BudgetOp>)
        requires
            self.wf(),
        ensures
            self.after_all(ops).wf(),
            self.after_all(ops).max_tokens == self.max_tokens,
            self.after_all(ops).deposit == self.deposit,
        decreases ops.len(),
    {
        if ops.len() > 0 {
            self.law_stays_within_burst(ops.drop_last());
        }
    }

    /// Over any history the retries granted come to no more than what the bucket
    /// held at first plus what the calls deposited.
    pub proof fn law_retries_bounded_by_calls(self, ops: Seq<BudgetOp>)
        requires
            self.wf(),
        ensures
            SCALE * self.granted(ops) + self.after_all(ops).tokens <= self.tokens + self.deposit
                * Self::calls(ops),
            SCALE * self.granted(ops) <= self.max_tokens + self.deposit * Self::calls(ops),
        decreases ops.len(),
    {
        self.law_stays_within_burst(ops);
        if ops.len() > 0 {
            let before = ops.drop_last();
            self.law_retries_bounded_by_calls(before);
            self.law_stays_within_burst(before);
            let d = self.deposit;
            let n = Self::calls(before);
            assert(d * (n + 1) == d * n + d) by (nonlinear_arith);
        } else {
            assert(self.deposit * 0 == 0) by (nonlinear_arith);
        }
    }
}

impl Bucket {
    /// A history of `n` calls without a retry.
    pub open spec fn only_calls(n: nat) -> Seq<BudgetOp> {
        Seq::new(n, |i: int| BudgetOp::Deposit)
    }

    /// A history of `n` retries asked for without a call.
    pub open spec fn only_retries(n: nat) -> Seq<BudgetOp> {
        Seq::new(n, |i: int| BudgetOp::Withdraw)
    }

    /// Calls fill the bucket: each adds what a call deposits, until the burst is reached.
    pub proof fn law_calls_fill_the_bucket(self, n: nat)
        requires
            self.wf(),
        ensures
            ({
                let filled = self.after_all(Self::only_calls(n));
                let sum = self.tokens + n * self.deposit;
                &&& filled.tokens == if sum <= self.max_tokens {
                    sum
                } else {
                    self.max_tokens
                }
                &&& filled.max_tokens == self.max_tokens
                &&& filled.deposit == self.deposit
            }),
        decreases n,
    {
        let d = self.deposit;
        if n > 0 {
            let m = (n - 1) as nat;
            self.law_calls_fill_the_bucket(m);
            assert(Self::only_calls(n).drop_last() =~= Self::only_calls(m));
            assert((m + 1) * d == m * d + d) by (nonlinear_arith);
        } else {
            assert(0 * d == 0) by (nonlinear_arith);
        }
    }

    /// A bucket pays for as many retries in a row as it holds whole tokens, each of a
    /// thousand thousandths, and then for no more.
    pub proof fn law_tokens_pay_for_retries(self, n: nat)
        requires
            self.wf(),
        ensures
            ({
                let whole = self.tokens / 1000;
                let after = self.after_all(Self::only_retries(n));
                &&& self.granted(Self::only_retries(n)) == if n <= whole {
                    n as int
                } else {
                    whole
                }
                &&& after.tokens == self.tokens - 1000 * self.granted(Self::only_retries(n))
                &&& after.grants() == (n < whole)
                &&& after.max_tokens == self.max_tokens
                &&& after.deposit == self.deposit
            }),
        decreases n,
    {
        if n > 0 {
            let m = (n - 1) as nat;
            self.law_tokens_pay_for_retries(m);
            assert(Self::only_retries(n).drop_last() =~= Self::only_retries(m));
        }
    }

    /// A drained bucket is refilled by calls, and then pays for its whole burst again: after
    /// `calls` calls at least as many retries in a row are granted as their deposits and
    /// what was left come to, up to the burst.
    pub proof fn law_calls_buy_retries(self, calls: nat, retries: nat)
        requires
            self.wf(),
            1000 * retries <= self.max_tokens,
            1000 * retries <= self.tokens + calls * self.deposit,
        ensures
            self.after_all(Self::only_calls(calls)).granted(Self::only_retries(retries)) == retries,
    {
        self.law_stays_within_burst(Self::only_calls(calls));
        self.law_calls_fill_the_bucket(calls);
        let filled = self.after_all(Self::only_calls(calls));
        filled.law_tokens_pay_for_retries(retries);
        assert(retries <= filled.tokens / 1000);
    }
}

impl View for RetryBudget {
    type V = Bucket;

    closed spec fn view(&self) -> Bucket {
        Bucket {
            tokens: self.tokens as int,
            max_tokens: self.max_tokens as int,
            deposit: self.deposit as int,
        }
    }
}

impl RetryBudget {
    #[verifier::type_invariant]
    spec fn in_bounds(self) -> bool {
        &&& self@.wf()
        &&& self.max_tokens <= 0xFFFF_FFFF * SCALE
    }

    /// A new budget is full and pays for exactly its burst, and each call adds the share of
    /// a retry that the ratio asks for.
    pub proof fn law_new_budgets_pay_for_their_burst(ratio: Double, burst: u32, b: RetryBudget)
        requires
            call_ensures(RetryBudget::new, (ratio, burst), b),
        ensures
            forall|n: nat|
                b@.granted(#[trigger] Bucket::only_retries(n)) == if n <= burst {
                    n
                } else {
                    burst as nat
                },
            b@.deposit == crate::double::spec_thousandths(ratio),
    {
        assert forall|n: nat|
            b@.granted(#[trigger] Bucket::only_retries(n)) == if n <= burst {
                n
            } else {
                burst as nat
            } by {
            b@.law_tokens_pay_for_retries(n);
        }
    }

    /// Allow retries up to `ratio` of all calls (0.2 is one in five), with a burst
    /// of up to `burst` retries when the bucket is full. A new bucket is full.
    pub fn new(ratio: Double, burst: u32) -> (b: RetryBudget)
        ensures
            b@.wf(),
            b@.deposit == crate::double::spec_thousandths(ratio),
            b@.max_tokens == burst * SCALE,
            b@.tokens == b@.max_tokens,
    {
        let deposit: i64 = thousandths(ratio);
        let max_tokens: i64 = burst as i64 * SCALE;
        RetryBudget { tokens: max_tokens, max_tokens, deposit }
    }

    /// One retry for five calls, with a burst of ten.
    pub fn standard() -> (b: RetryBudget)
        ensures
            b@ == (Bucket { tokens: 10 * SCALE, max_tokens: 10 * SCALE, deposit: 200 }),
    {
        RetryBudget { tokens: 10 * SCALE, max_tokens: 10 * SCALE, deposit: 200 }
    }

    /// Record a top-level call: its deposit is added, up to the burst.
    pub fn deposit(&mut self)
        ensures
            final(self)@ == old(self)@.after_deposit(),
            final(self)@.wf(),
            final(self)@.tokens == if old(self)@.tokens + old(self)@.deposit
                <= old(self)@.max_tokens {
                old(self)@.tokens + old(self)@.deposit
            } else {
                old(self)@.max_tokens
            },
    {
        proof {
            use_type_invariant(&*self);
        }
        let sum: i64 = self.tokens + self.deposit;
        self.tokens = if sum <= self.max_tokens {
            sum
        } else {
            self.max_tokens
        };
    }

    /// Try to pay for one retry. `false` means that the budget is exhausted.
    pub fn try_withdraw(&mut self) -> (granted: bool)
        ensures
            granted == old(self)@.grants(),
            final(self)@ == old(self)@.after_withdrawal(),
            final(self)@.wf(),
            granted == (old(self)@.tokens >= 1000),
            final(self)@.tokens == old(self)@.tokens - if granted {
                1000int
            } else {
                0
            },
    {
        proof {
            use_type_invariant(&*self);
        }
        if self.tokens < SCALE {
            return false;
        }
        self.tokens = self.tokens - SCALE;
        true
    }
}

} // verus!
