//! Budgets and usage accounting.
//!
//! Budgets are hard limits enforced by the orchestrator, not suggestions to the
//! model: when a run or attempt crosses one, the engine stops dispatching work
//! for it and records why.

use vstd::prelude::*;

use crate::money::Usd;
use crate::text::{decimal, u64_text};

verus! {

/// Token and cost usage reported by an agent (or summed over many).
#[derive(Debug, Clone, Copy, PartialEq, Eq, Structural)]
pub struct Usage {
    pub input_tokens: u64,
    pub output_tokens: u64,
    pub cache_read_tokens: u64,
    pub cache_write_tokens: u64,
    /// Cost in US dollars, when the agent reports it.
    pub cost_usd: Usd,
}

/// No usage at all.
pub open spec fn no_usage() -> Usage {
    Usage {
        input_tokens: 0,
        output_tokens: 0,
        cache_read_tokens: 0,
        cache_write_tokens: 0,
        cost_usd: Usd { nanos: 0 },
    }
}

impl Default for Usage {
    fn default() -> (r: Usage)
        ensures
            r == no_usage(),
    {
        Usage {
            input_tokens: 0,
            output_tokens: 0,
            cache_read_tokens: 0,
            cache_write_tokens: 0,
            cost_usd: Usd { nanos: 0 },
        }
    }
}

impl Usage {
    /// All tokens, whatever they were used for.
    pub open spec fn tokens(self) -> int {
        self.input_tokens + self.output_tokens + self.cache_read_tokens + self.cache_write_tokens
    }

    pub fn total_tokens(&self) -> (n: u64)
        requires
            self.tokens() <= u64::MAX,
        ensures
            n == self.tokens(),
    {
        self.input_tokens + self.output_tokens + self.cache_read_tokens + self.cache_write_tokens
    }

    /// The total, unless it is above `u64::MAX`.
    pub fn checked_tokens(&self) -> (r: Option<u64>)
        ensures
            match r {
                Some(n) => n == self.tokens(),
                None => self.tokens() > u64::MAX,
            },
    {
        let n: u128 = self.input_tokens as u128 + self.output_tokens as u128
            + self.cache_read_tokens as u128 + self.cache_write_tokens as u128;
        if n <= u64::MAX as u128 {
            Some(n as u64)
        } else {
            None
        }
    }

    /// Every figure of the sum has room.
    pub open spec fn fits_with(self, rhs: Usage) -> bool {
        &&& self.input_tokens + rhs.input_tokens <= u64::MAX
        &&& self.output_tokens + rhs.output_tokens <= u64::MAX
        &&& self.cache_read_tokens + rhs.cache_read_tokens <= u64::MAX
        &&& self.cache_write_tokens + rhs.cache_write_tokens <= u64::MAX
        &&& i64::MIN <= self.cost_usd.nanos + rhs.cost_usd.nanos <= i64::MAX
    }

    /// The sum, figure by figure.
    pub open spec fn with(self, rhs: Usage) -> Usage {
        Usage {
            input_tokens: (self.input_tokens + rhs.input_tokens) as u64,
            output_tokens: (self.output_tokens + rhs.output_tokens) as u64,
            cache_read_tokens: (self.cache_read_tokens + rhs.cache_read_tokens) as u64,
            cache_write_tokens: (self.cache_write_tokens + rhs.cache_write_tokens) as u64,
            cost_usd: Usd { nanos: (self.cost_usd.nanos + rhs.cost_usd.nanos) as i64 },
        }
    }

    pub fn plus(self, rhs: Usage) -> (r: Usage)
        requires
            self.fits_with(rhs),
        ensures
            r == self.with(rhs),
    {
        Usage {
            input_tokens: self.input_tokens + rhs.input_tokens,
            output_tokens: self.output_tokens + rhs.output_tokens,
            cache_read_tokens: self.cache_read_tokens + rhs.cache_read_tokens,
            cache_write_tokens: self.cache_write_tokens + rhs.cache_write_tokens,
            cost_usd: Usd { nanos: self.cost_usd.nanos + rhs.cost_usd.nanos },
        }
    }

    /// The sum, unless one of its figures has no room.
    pub fn checked_plus(self, rhs: Usage) -> (r: Option<Usage>)
        ensures
            match r {
                Some(u) => self.fits_with(rhs) && u == self.with(rhs),
                None => !self.fits_with(rhs),
            },
    {
        let cost: i128 = self.cost_usd.nanos as i128 + rhs.cost_usd.nanos as i128;
        if self.input_tokens <= u64::MAX - rhs.input_tokens && self.output_tokens <= u64::MAX
            - rhs.output_tokens && self.cache_read_tokens <= u64::MAX - rhs.cache_read_tokens
            && self.cache_write_tokens <= u64::MAX - rhs.cache_write_tokens && i64::MIN as i128
            <= cost && cost <= i64::MAX as i128 {
            Some(self.plus(rhs))
        } else {
            None
        }
    }

    /// The sum of usages, added one after another.
    pub open spec fn sum_of(all: Seq<Usage>) -> Usage
        decreases all.len(),
    {
        if all.len() == 0 {
            no_usage()
        } else {
            Usage::sum_of(all.drop_last()).with(all.last())
        }
    }

    /// Every sum on the way has room.
    pub open spec fn sum_fits(all: Seq<Usage>) -> bool
        decreases all.len(),
    {
        all.len() > 0 ==> Usage::sum_fits(all.drop_last()) && Usage::sum_of(
            all.drop_last(),
        ).fits_with(all.last())
    }

    /// The sum of many usages, unless a figure runs out of room on the way.
    pub fn checked_sum(all: &Vec<Usage>) -> (r: Option<Usage>)
        ensures
            match r {
                Some(u) => Usage::sum_fits(all@) && u == Usage::sum_of(all@),
                None => !Usage::sum_fits(all@),
            },
    {
        let mut sum = Usage::default();
        let mut i: usize = 0;
        while i < all.len()
            invariant
                i <= all.len(),
                Usage::sum_fits(all@.take(i as int)),
                sum == Usage::sum_of(all@.take(i as int)),
            decreases all.len() - i,
        {
            assert(all@.take(i + 1).drop_last() =~= all@.take(i as int));
            match sum.checked_plus(all[i]) {
                Some(u) => {
                    sum = u;
                },
                None => {
                    proof {
                        if Usage::sum_fits(all@) {
                            Usage::sum_fits_before(all@, i + 1);
                        }
                    }
                    return None;
                },
            }
            i += 1;
        }
        assert(all@.take(i as int) =~= all@);
        Some(sum)
    }

    /// The sum of many usages.
    pub fn sum(all: &Vec<Usage>) -> (r: Usage)
        requires
            Usage::sum_fits(all@),
        ensures
            r == Usage::sum_of(all@),
    {
        match Usage::checked_sum(all) {
            Some(u) => u,
            None => Usage::default(),
        }
    }

    /// Where the whole sum has room, so has every sum on the way.
    pub proof fn sum_fits_before(all: Seq<Usage>, n: int)
        requires
            Usage::sum_fits(all),
            0 <= n <= all.len(),
        ensures
            Usage::sum_fits(all.take(n)),
        decreases all.len(),
    {
        if n == all.len() {
            assert(all.take(n) =~= all);
        } else {
            Usage::sum_fits_before(all.drop_last(), n);
            assert(all.drop_last().take(n) =~= all.take(n));
        }
    }
}

/// Limits for a run or a single attempt. `None` means unlimited.
#[derive(Debug, Clone, Copy, PartialEq, Eq, Structural)]
pub struct Budget {
    pub max_cost_usd: Option<Usd>,
    pub max_tokens: Option<u64>,
    pub max_wall_clock_secs: Option<u64>,
    /// How many attempts a single task may use before it fails for good.
    pub max_attempts_per_task: u32,
}

impl Default for Budget {
    fn default() -> (r: Budget)
        ensures
            r.max_cost_usd is None,
            r.max_tokens is None,
            r.max_wall_clock_secs is None,
            r.max_attempts_per_task == 3,
    {
        Budget {
            max_cost_usd: None,
            max_tokens: None,
            max_wall_clock_secs: None,
            max_attempts_per_task: 3,
        }
    }
}

/// Which limit was crossed.
#[allow(inconsistent_fields)]
#[derive(Debug, Clone, Copy, PartialEq, Eq, Structural)]
pub enum BudgetExceeded {
    Cost { limit: Usd, spent: Usd },
    Tokens { limit: u64, spent: u64 },
    WallClock { limit_secs: u64, elapsed_secs: u64 },
}

impl BudgetExceeded {
    pub open spec fn message_spec(self) -> Seq<char> {
        match self {
            BudgetExceeded::Cost { limit, spent } => "cost $"@ + spent.dollars()
                + " exceeded the $"@ + limit.dollars() + " budget"@,
            BudgetExceeded::Tokens { limit, spent } => decimal(spent as int)
                + " tokens exceeded the "@ + decimal(limit as int) + "-token budget"@,
            BudgetExceeded::WallClock { limit_secs, elapsed_secs } => decimal(elapsed_secs as int)
                + "s exceeded the "@ + decimal(limit_secs as int) + "s time budget"@,
        }
    }

    /// What happened, in words.
    pub fn message(&self) -> (r: String)
        ensures
            r@ == self.message_spec(),
    {
        match self {
            BudgetExceeded::Cost { limit, spent } => {
                let mut r = "cost $".to_owned();
                r.append(spent.to_dollars().as_str());
                r.append(" exceeded the $");
                r.append(limit.to_dollars().as_str());
                r.append(" budget");
                r
            },
            BudgetExceeded::Tokens { limit, spent } => {
                let mut r = u64_text(*spent);
                r.append(" tokens exceeded the ");
                r.append(u64_text(*limit).as_str());
                r.append("-token budget");
                r
            },
            BudgetExceeded::WallClock { limit_secs, elapsed_secs } => {
                let mut r = u64_text(*elapsed_secs);
                r.append("s exceeded the ");
                r.append(u64_text(*limit_secs).as_str());
                r.append("s time budget");
                r
            },
        }
    }
}

impl Budget {
    pub open spec fn cost_crossed(self, usage: Usage) -> bool {
        self.max_cost_usd matches Some(limit) && usage.cost_usd.nanos > limit.nanos
    }

    pub open spec fn tokens_crossed(self, usage: Usage) -> bool {
        self.max_tokens matches Some(limit) && usage.tokens() > limit
    }

    pub open spec fn time_crossed(self, elapsed_secs: u64) -> bool {
        self.max_wall_clock_secs matches Some(limit) && elapsed_secs > limit
    }

    /// The tokens only have to be counted where they are limited and the cost
    /// has not been crossed.
    pub open spec fn can_count(self, usage: Usage) -> bool {
        self.max_tokens is Some && !self.cost_crossed(usage) ==> usage.tokens() <= u64::MAX
    }

    /// The first limit crossed: the cost, then the tokens, then the time.
    pub open spec fn crossed(self, usage: Usage, elapsed_secs: u64) -> Option<BudgetExceeded> {
        if self.cost_crossed(usage) {
            Some(BudgetExceeded::Cost { limit: self.max_cost_usd->0, spent: usage.cost_usd })
        } else if self.tokens_crossed(usage) {
            Some(
                BudgetExceeded::Tokens { limit: self.max_tokens->0, spent: usage.tokens() as u64 },
            )
        } else if self.time_crossed(elapsed_secs) {
            Some(
                BudgetExceeded::WallClock { limit_secs: self.max_wall_clock_secs->0, elapsed_secs },
            )
        } else {
            None
        }
    }

    /// Returns the first limit that `usage` (after `elapsed_secs`) has crossed.
    pub fn check(&self, usage: &Usage, elapsed_secs: u64) -> (r: Option<BudgetExceeded>)
        requires
            self.can_count(*usage),
        ensures
            r == self.crossed(*usage, elapsed_secs),
    {
        if let Some(limit) = self.max_cost_usd {
            if usage.cost_usd.nanos > limit.nanos {
                return Some(BudgetExceeded::Cost { limit, spent: usage.cost_usd });
            }
        }
        if let Some(limit) = self.max_tokens {
            if usage.total_tokens() > limit {
                return Some(BudgetExceeded::Tokens { limit, spent: usage.total_tokens() });
            }
        }
        if let Some(limit_secs) = self.max_wall_clock_secs {
            if elapsed_secs > limit_secs {
                return Some(BudgetExceeded::WallClock { limit_secs, elapsed_secs });
            }
        }
        None
    }
}

/// A budget without limits is never crossed.
pub proof fn unlimited_is_never_crossed(budget: Budget, usage: Usage, elapsed_secs: u64)
    requires
        budget.max_cost_usd is None,
        budget.max_tokens is None,
        budget.max_wall_clock_secs is None,
    ensures
        budget.crossed(usage, elapsed_secs) is None,
{
}

/// Spending more never uncrosses a budget.
pub proof fn crossed_stays_crossed(budget: Budget, a: Usage, b: Usage, s: u64, t: u64)
    requires
        a.tokens() <= b.tokens(),
        a.cost_usd.nanos <= b.cost_usd.nanos,
        s <= t,
        budget.crossed(a, s) is Some,
    ensures
        budget.crossed(b, t) is Some,
{
}

/// A limit is crossed exactly by going above it, never by reaching it: the cost, all
/// kinds of tokens together, and the time, each on its own. What is reported names a
/// limit of the budget and what goes above it.
pub proof fn limits_may_be_reached_not_crossed(budget: Budget, usage: Usage, elapsed_secs: u64)
    ensures
        budget.crossed(usage, elapsed_secs) is None <==> {
            &&& budget.max_cost_usd matches Some(most) ==> usage.cost_usd.nanos <= most.nanos
            &&& budget.max_tokens matches Some(most) ==> usage.input_tokens + usage.output_tokens
                + usage.cache_read_tokens + usage.cache_write_tokens <= most
            &&& budget.max_wall_clock_secs matches Some(most) ==> elapsed_secs <= most
        },
        budget.crossed(usage, elapsed_secs) matches Some(BudgetExceeded::Cost { limit, spent })
            ==> budget.max_cost_usd == Some(limit) && spent == usage.cost_usd && spent.nanos
            > limit.nanos,
        budget.crossed(usage, elapsed_secs) matches Some(BudgetExceeded::Tokens { limit, spent })
            ==> budget.max_tokens == Some(limit) && (usage.tokens() <= u64::MAX ==> spent
            == usage.input_tokens + usage.output_tokens + usage.cache_read_tokens
            + usage.cache_write_tokens && spent > limit),
        budget.crossed(usage, elapsed_secs) matches Some(
            BudgetExceeded::WallClock { limit_secs, elapsed_secs: e },
        ) ==> budget.max_wall_clock_secs == Some(limit_secs) && e == elapsed_secs && e > limit_secs,
        (budget.max_cost_usd matches Some(most) && usage.cost_usd.nanos > most.nanos)
            ==> budget.crossed(usage, elapsed_secs) matches Some(BudgetExceeded::Cost { .. }),
{
}

/// Usage adds up figure by figure, and nothing is used to begin with.
pub proof fn usage_adds_up(a: Usage, b: Usage, all: Seq<Usage>)
    requires
        a.fits_with(b),
    ensures
        a.with(b).input_tokens == a.input_tokens + b.input_tokens,
        a.with(b).output_tokens == a.output_tokens + b.output_tokens,
        a.with(b).cache_read_tokens == a.cache_read_tokens + b.cache_read_tokens,
        a.with(b).cache_write_tokens == a.cache_write_tokens + b.cache_write_tokens,
        a.with(b).cost_usd.nanos == a.cost_usd.nanos + b.cost_usd.nanos,
        a.with(b) == b.with(a),
        a.with(no_usage()) == a,
        a.with(b).tokens() == a.tokens() + b.tokens(),
        Usage::sum_of(all.push(b)) == Usage::sum_of(all).with(b),
        Usage::sum_of(Seq::empty()).tokens() == 0,
        Usage::sum_of(Seq::empty()).cost_usd.nanos == 0,
{
    assert(all.push(b).drop_last() =~= all);
}

} // verus!
