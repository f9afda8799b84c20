//! Unified resource accounting: CPU, memory, network, tokens, money and risk
//! share one budget model, charged at step boundaries.
use vstd::prelude::*;
use crate::json::{Json, JsonMap, NumberView, Value};

verus! {

/// A budget, or an amount of usage, in every accounted dimension.
#[derive(Debug, Clone, Copy, PartialEq, Eq, Structural)]
pub struct ResourceBudget {
    /// CPU milliseconds.
    pub cpu_ms: u64,
    /// Peak resident memory, bytes.
    pub memory_bytes: u64,
    /// Network egress, bytes.
    pub network_bytes: u64,
    /// Model tokens (context budget is a sandbox resource too).
    pub tokens: u64,
    /// Money, micro-USD.
    pub cost_micro_usd: u64,
    /// Abstract risk units consumed by high-risk operations.
    pub risk_units: u32,
}

/// `a - b`, floored at zero.
pub open spec fn floor_sub(a: int, b: int) -> int {
    if a >= b { a - b } else { 0 }
}

/// `a + b`, capped at `max`.
pub open spec fn cap_add(a: int, b: int, max: int) -> int {
    if a + b <= max { a + b } else { max }
}

pub open spec fn min_of(a: int, b: int) -> int {
    if a <= b { a } else { b }
}

/// A one-element list of names when `over` holds, else the empty list.
pub open spec fn name_if(over: bool, name: &'static str) -> Seq<&'static str> {
    if over { seq![name] } else { Seq::empty() }
}

impl ResourceBudget {
    /// Dimension-wise `<=`.
    pub open spec fn within(self, outer: ResourceBudget) -> bool {
        &&& self.cpu_ms <= outer.cpu_ms
        &&& self.memory_bytes <= outer.memory_bytes
        &&& self.network_bytes <= outer.network_bytes
        &&& self.tokens <= outer.tokens
        &&& self.cost_micro_usd <= outer.cost_micro_usd
        &&& self.risk_units <= outer.risk_units
    }

    /// The names, in declaration order, of the dimensions in which `self` is
    /// larger than `outer`.
    pub open spec fn over_names(self, outer: ResourceBudget) -> Seq<&'static str> {
        name_if(self.cpu_ms > outer.cpu_ms, "cpu_ms")
            + name_if(self.memory_bytes > outer.memory_bytes, "memory_bytes")
            + name_if(self.network_bytes > outer.network_bytes, "network_bytes")
            + name_if(self.tokens > outer.tokens, "tokens")
            + name_if(self.cost_micro_usd > outer.cost_micro_usd, "cost_micro_usd")
            + name_if(self.risk_units > outer.risk_units, "risk_units")
    }

    /// Dimension-wise subtraction floored at zero.
    pub open spec fn minus(self, other: ResourceBudget) -> ResourceBudget {
        ResourceBudget {
            cpu_ms: floor_sub(self.cpu_ms as int, other.cpu_ms as int) as u64,
            memory_bytes: floor_sub(self.memory_bytes as int, other.memory_bytes as int) as u64,
            network_bytes: floor_sub(self.network_bytes as int, other.network_bytes as int) as u64,
            tokens: floor_sub(self.tokens as int, other.tokens as int) as u64,
            cost_micro_usd: floor_sub(
                self.cost_micro_usd as int,
                other.cost_micro_usd as int,
            ) as u64,
            risk_units: floor_sub(self.risk_units as int, other.risk_units as int) as u32,
        }
    }

    /// Dimension-wise addition capped at the largest representable amount.
    pub open spec fn plus(self, other: ResourceBudget) -> ResourceBudget {
        ResourceBudget {
            cpu_ms: cap_add(self.cpu_ms as int, other.cpu_ms as int, u64::MAX as int) as u64,
            memory_bytes: cap_add(
                self.memory_bytes as int,
                other.memory_bytes as int,
                u64::MAX as int,
            ) as u64,
            network_bytes: cap_add(
                self.network_bytes as int,
                other.network_bytes as int,
                u64::MAX as int,
            ) as u64,
            tokens: cap_add(self.tokens as int, other.tokens as int, u64::MAX as int) as u64,
            cost_micro_usd: cap_add(
                self.cost_micro_usd as int,
                other.cost_micro_usd as int,
                u64::MAX as int,
            ) as u64,
            risk_units: cap_add(
                self.risk_units as int,
                other.risk_units as int,
                u32::MAX as int,
            ) as u32,
        }
    }

    /// Dimension-wise minimum.
    pub open spec fn meet(self, outer: ResourceBudget) -> ResourceBudget {
        ResourceBudget {
            cpu_ms: min_of(self.cpu_ms as int, outer.cpu_ms as int) as u64,
            memory_bytes: min_of(self.memory_bytes as int, outer.memory_bytes as int) as u64,
            network_bytes: min_of(self.network_bytes as int, outer.network_bytes as int) as u64,
            tokens: min_of(self.tokens as int, outer.tokens as int) as u64,
            cost_micro_usd: min_of(self.cost_micro_usd as int, outer.cost_micro_usd as int) as u64,
            risk_units: min_of(self.risk_units as int, outer.risk_units as int) as u32,
        }
    }

    /// The empty budget.
    pub open spec fn spec_zero() -> ResourceBudget {
        ResourceBudget {
            cpu_ms: 0,
            memory_bytes: 0,
            network_bytes: 0,
            tokens: 0,
            cost_micro_usd: 0,
            risk_units: 0,
        }
    }

    /// The default envelope of one local step.
    pub open spec fn spec_step_default() -> ResourceBudget {
        ResourceBudget {
            cpu_ms: 60_000,
            memory_bytes: 2_147_483_648,
            network_bytes: 268_435_456,
            tokens: 200_000,
            cost_micro_usd: 0,
            risk_units: 10,
        }
    }

    /// The empty budget.
    pub fn zero() -> (r: Self)
        ensures
            r == Self::spec_zero(),
    {
        ResourceBudget {
            cpu_ms: 0,
            memory_bytes: 0,
            network_bytes: 0,
            tokens: 0,
            cost_micro_usd: 0,
            risk_units: 0,
        }
    }

    /// A generous default envelope for a single local step.
    pub fn step_default() -> (r: Self)
        ensures
            r == Self::spec_step_default(),
    {
        ResourceBudget {
            cpu_ms: 60_000,
            memory_bytes: 2_147_483_648,
            network_bytes: 268_435_456,
            tokens: 200_000,
            cost_micro_usd: 0,
            risk_units: 10,
        }
    }

    /// True when `self` is dimension-wise `<=` `outer` (attenuation check).
    pub fn fits_within(&self, outer: &ResourceBudget) -> (r: bool)
        ensures
            r == self.within(*outer),
    {
        self.cpu_ms <= outer.cpu_ms && self.memory_bytes <= outer.memory_bytes
            && self.network_bytes <= outer.network_bytes && self.tokens <= outer.tokens
            && self.cost_micro_usd <= outer.cost_micro_usd && self.risk_units <= outer.risk_units
    }

    /// Names of the dimensions where `self` exceeds `outer` (empty when
    /// [`ResourceBudget::fits_within`] holds).
    pub fn exceeding_dimensions(&self, outer: &ResourceBudget) -> (over: Vec<&'static str>)
        ensures
            over@ == self.over_names(*outer),
    {
        let mut over: Vec<&'static str> = Vec::new();
        push_if(&mut over, self.cpu_ms > outer.cpu_ms, "cpu_ms");
        push_if(&mut over, self.memory_bytes > outer.memory_bytes, "memory_bytes");
        push_if(&mut over, self.network_bytes > outer.network_bytes, "network_bytes");
        push_if(&mut over, self.tokens > outer.tokens, "tokens");
        push_if(&mut over, self.cost_micro_usd > outer.cost_micro_usd, "cost_micro_usd");
        push_if(&mut over, self.risk_units > outer.risk_units, "risk_units");
        over
    }

    /// Dimension-wise saturating subtraction (`self - other`, floored at 0).
    pub fn saturating_sub(&self, other: &ResourceBudget) -> (r: ResourceBudget)
        ensures
            r == self.minus(*other),
    {
        ResourceBudget {
            cpu_ms: self.cpu_ms.saturating_sub(other.cpu_ms),
            memory_bytes: self.memory_bytes.saturating_sub(other.memory_bytes),
            network_bytes: self.network_bytes.saturating_sub(other.network_bytes),
            tokens: self.tokens.saturating_sub(other.tokens),
            cost_micro_usd: self.cost_micro_usd.saturating_sub(other.cost_micro_usd),
            risk_units: self.risk_units.saturating_sub(other.risk_units),
        }
    }

    /// Dimension-wise saturating addition.
    pub fn saturating_add(&self, other: &ResourceBudget) -> (r: ResourceBudget)
        ensures
            r == self.plus(*other),
    {
        ResourceBudget {
            cpu_ms: self.cpu_ms.saturating_add(other.cpu_ms),
            memory_bytes: self.memory_bytes.saturating_add(other.memory_bytes),
            network_bytes: self.network_bytes.saturating_add(other.network_bytes),
            tokens: self.tokens.saturating_add(other.tokens),
            cost_micro_usd: self.cost_micro_usd.saturating_add(other.cost_micro_usd),
            risk_units: self.risk_units.saturating_add(other.risk_units),
        }
    }

    /// The largest budget that is within both `self` and `outer`.
    pub fn clamped_to(&self, outer: &ResourceBudget) -> (r: ResourceBudget)
        ensures
            r == self.meet(*outer),
            r.within(*self),
            r.within(*outer),
    {
        ResourceBudget {
            cpu_ms: if self.cpu_ms <= outer.cpu_ms { self.cpu_ms } else { outer.cpu_ms },
            memory_bytes: if self.memory_bytes <= outer.memory_bytes {
                self.memory_bytes
            } else {
                outer.memory_bytes
            },
            network_bytes: if self.network_bytes <= outer.network_bytes {
                self.network_bytes
            } else {
                outer.network_bytes
            },
            tokens: if self.tokens <= outer.tokens { self.tokens } else { outer.tokens },
            cost_micro_usd: if self.cost_micro_usd <= outer.cost_micro_usd {
                self.cost_micro_usd
            } else {
                outer.cost_micro_usd
            },
            risk_units: if self.risk_units <= outer.risk_units {
                self.risk_units
            } else {
                outer.risk_units
            },
        }
    }

    /// Subtract `usage`, saturating; returns the dimensions that were
    /// exhausted (empty when the charge fit).
    pub fn charge(&mut self, usage: &ResourceBudget) -> (exhausted: Vec<&'static str>)
        ensures
            *final(self) == old(self).minus(*usage),
            exhausted@ == usage.over_names(*old(self)),
    {
        let exhausted = usage.exceeding_dimensions(self);
        *self = self.saturating_sub(usage);
        exhausted
    }
}

/// A budget in JSON.
pub open spec fn budget_json(b: ResourceBudget) -> Json {
    Json::Object(
        map![
            "cpu_ms"@ => Json::Number(NumberView::PosInt(b.cpu_ms)),
            "memory_bytes"@ => Json::Number(NumberView::PosInt(b.memory_bytes)),
            "network_bytes"@ => Json::Number(NumberView::PosInt(b.network_bytes)),
            "tokens"@ => Json::Number(NumberView::PosInt(b.tokens)),
            "cost_micro_usd"@ => Json::Number(NumberView::PosInt(b.cost_micro_usd)),
            "risk_units"@ => Json::Number(NumberView::PosInt(b.risk_units as u64))
        ],
    )
}

impl ResourceBudget {
    /// The budget in JSON.
    pub fn to_value(&self) -> (r: Value)
        ensures
            r@ == budget_json(*self),
    {
        let mut m = JsonMap::new();
        m.insert("cpu_ms".to_owned(), Value::from_u64(self.cpu_ms));
        m.insert("memory_bytes".to_owned(), Value::from_u64(self.memory_bytes));
        m.insert("network_bytes".to_owned(), Value::from_u64(self.network_bytes));
        m.insert("tokens".to_owned(), Value::from_u64(self.tokens));
        m.insert("cost_micro_usd".to_owned(), Value::from_u64(self.cost_micro_usd));
        m.insert("risk_units".to_owned(), Value::from_u64(self.risk_units as u64));
        Value::Object(m)
    }
}

impl Default for ResourceBudget {
    fn default() -> (r: Self)
        ensures
            r == Self::spec_zero(),
    {
        ResourceBudget::zero()
    }
}

fn push_if(out: &mut Vec<&'static str>, over: bool, name: &'static str)
    ensures
        final(out)@ == old(out)@ + name_if(over, name),
{
    if over {
        out.push(name);
    }
}

/// A budget exceeds another in no dimension exactly when it fits within it.
pub proof fn law_no_excess_iff_within(inner: ResourceBudget, outer: ResourceBudget)
    ensures
        inner.over_names(outer).len() == 0 <==> inner.within(outer),
{
}

/// Fitting within is transitive: what fits the child budget of a chain of
/// attenuations fits every ancestor's budget.
pub proof fn law_within_is_transitive(a: ResourceBudget, b: ResourceBudget, c: ResourceBudget)
    requires
        a.within(b),
        b.within(c),
    ensures
        a.within(c),
{
}

/// Refunding what was debited restores the account, whenever the debit fit.
pub proof fn law_refund_restores(account: ResourceBudget, debit: ResourceBudget)
    requires
        debit.within(account),
    ensures
        account.minus(debit).plus(debit) == account,
{
}

/// A budget is within another exactly if it is no larger in any of the six
/// dimensions, and the dimensions in which it is larger are named.
pub proof fn law_every_dimension_counts(inner: ResourceBudget, outer: ResourceBudget)
    ensures
        inner.within(outer) <==> inner.cpu_ms <= outer.cpu_ms && inner.memory_bytes
            <= outer.memory_bytes && inner.network_bytes <= outer.network_bytes && inner.tokens
            <= outer.tokens && inner.cost_micro_usd <= outer.cost_micro_usd && inner.risk_units
            <= outer.risk_units,
        inner.over_names(outer) == (if inner.cpu_ms > outer.cpu_ms {
            seq!["cpu_ms"]
        } else {
            seq![]
        }) + (if inner.memory_bytes > outer.memory_bytes {
            seq!["memory_bytes"]
        } else {
            seq![]
        }) + (if inner.network_bytes > outer.network_bytes {
            seq!["network_bytes"]
        } else {
            seq![]
        }) + (if inner.tokens > outer.tokens {
            seq!["tokens"]
        } else {
            seq![]
        }) + (if inner.cost_micro_usd > outer.cost_micro_usd {
            seq!["cost_micro_usd"]
        } else {
            seq![]
        }) + (if inner.risk_units > outer.risk_units {
            seq!["risk_units"]
        } else {
            seq![]
        }),
{
}

/// A difference and a sum are exact in every dimension, but for a floor of zero and
/// a ceiling of what the dimension can hold.
pub proof fn law_amounts_add_and_subtract(a: ResourceBudget, b: ResourceBudget)
    ensures
        a.minus(b).cpu_ms == if a.cpu_ms > b.cpu_ms { a.cpu_ms - b.cpu_ms } else { 0 },
        a.minus(b).memory_bytes == if a.memory_bytes > b.memory_bytes {
            a.memory_bytes - b.memory_bytes
        } else {
            0
        },
        a.minus(b).network_bytes == if a.network_bytes > b.network_bytes {
            a.network_bytes - b.network_bytes
        } else {
            0
        },
        a.minus(b).tokens == if a.tokens > b.tokens { a.tokens - b.tokens } else { 0 },
        a.minus(b).cost_micro_usd == if a.cost_micro_usd > b.cost_micro_usd {
            a.cost_micro_usd - b.cost_micro_usd
        } else {
            0
        },
        a.minus(b).risk_units == if a.risk_units > b.risk_units {
            a.risk_units - b.risk_units
        } else {
            0
        },
        a.cpu_ms + b.cpu_ms <= u64::MAX ==> a.plus(b).cpu_ms == a.cpu_ms + b.cpu_ms,
        a.cpu_ms + b.cpu_ms > u64::MAX ==> a.plus(b).cpu_ms == u64::MAX,
        a.memory_bytes + b.memory_bytes <= u64::MAX ==> a.plus(b).memory_bytes == a.memory_bytes
            + b.memory_bytes,
        a.memory_bytes + b.memory_bytes > u64::MAX ==> a.plus(b).memory_bytes == u64::MAX,
        a.network_bytes + b.network_bytes <= u64::MAX ==> a.plus(b).network_bytes
            == a.network_bytes + b.network_bytes,
        a.network_bytes + b.network_bytes > u64::MAX ==> a.plus(b).network_bytes == u64::MAX,
        a.tokens + b.tokens <= u64::MAX ==> a.plus(b).tokens == a.tokens + b.tokens,
        a.tokens + b.tokens > u64::MAX ==> a.plus(b).tokens == u64::MAX,
        a.cost_micro_usd + b.cost_micro_usd <= u64::MAX ==> a.plus(b).cost_micro_usd
            == a.cost_micro_usd + b.cost_micro_usd,
        a.cost_micro_usd + b.cost_micro_usd > u64::MAX ==> a.plus(b).cost_micro_usd == u64::MAX,
        a.risk_units + b.risk_units <= u32::MAX ==> a.plus(b).risk_units == a.risk_units
            + b.risk_units,
        a.risk_units + b.risk_units > u32::MAX ==> a.plus(b).risk_units == u32::MAX,
{
}

/// The meet of two budgets is the largest that is within both.
pub proof fn law_meet_is_the_largest_within_both(
    a: ResourceBudget,
    b: ResourceBudget,
    c: ResourceBudget,
)
    ensures
        a.meet(b).within(a),
        a.meet(b).within(b),
        c.within(a) && c.within(b) ==> c.within(a.meet(b)),
{
}

/// In JSON every dimension of a budget stands under its own name.
pub proof fn law_dimensions_have_their_names(b: ResourceBudget)
    ensures
        budget_json(b) matches Json::Object(m) && {
            &&& m.contains_key("cpu_ms"@) && m["cpu_ms"@] == Json::Number(
                NumberView::PosInt(b.cpu_ms),
            )
            &&& m.contains_key("memory_bytes"@) && m["memory_bytes"@] == Json::Number(
                NumberView::PosInt(b.memory_bytes),
            )
            &&& m.contains_key("network_bytes"@) && m["network_bytes"@] == Json::Number(
                NumberView::PosInt(b.network_bytes),
            )
            &&& m.contains_key("tokens"@) && m["tokens"@] == Json::Number(
                NumberView::PosInt(b.tokens),
            )
            &&& m.contains_key("cost_micro_usd"@) && m["cost_micro_usd"@] == Json::Number(
                NumberView::PosInt(b.cost_micro_usd),
            )
            &&& m.contains_key("risk_units"@) && m["risk_units"@] == Json::Number(
                NumberView::PosInt(b.risk_units as u64),
            )
        },
{
    reveal_strlit("cpu_ms");
    reveal_strlit("memory_bytes");
    reveal_strlit("network_bytes");
    reveal_strlit("tokens");
    reveal_strlit("cost_micro_usd");
    reveal_strlit("risk_units");
    assert("cpu_ms"@.len() == 6 && "memory_bytes"@.len() == 12 && "network_bytes"@.len() == 13);
    assert("tokens"@.len() == 6 && "cost_micro_usd"@.len() == 14 && "risk_units"@.len() == 10);
    assert("cpu_ms"@[0] == 'c' && "tokens"@[0] == 't');
}

/// A step gets a minute of processor time, two gibibytes of memory, a quarter of one
/// of traffic, and may cost nothing, where nothing else is said.
pub proof fn law_default_steps_are_small(b: ResourceBudget)
    ensures
        ResourceBudget::spec_step_default().within(b) <==> b.cpu_ms >= 60 * 1000 && b.memory_bytes
            >= 2 * 1024 * 1024 * 1024 && b.network_bytes >= 256 * 1024 * 1024 && b.tokens >= 200
            * 1000 && b.risk_units >= 10,
        b.within(ResourceBudget::spec_step_default()) ==> b.cost_micro_usd == 0,
        ResourceBudget::spec_zero().within(b),
        b.within(ResourceBudget::spec_zero()) ==> b == ResourceBudget::spec_zero(),
{
}

} // verus!
