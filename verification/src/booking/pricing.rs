//! Hour-based slot pricing.
//!
//! A pricing rule covers an `[start_hour, end_hour)` window. When
//! `start < end` the window is a daytime span; when `start >= end` it wraps
//! past midnight (e.g. 22 to 8). Rules are tried in order and the first match
//! wins. A per-user fixed price overrides every rule.

use vstd::prelude::*;

verus! {

/// A single hourly pricing rule.
#[derive(Debug)]
pub struct PricingRule {
    pub name: String,
    pub start_hour: i64,
    pub end_hour: i64,
    pub price: i64,
}

impl PartialEq for PricingRule {
    fn eq(&self, other: &PricingRule) -> (r: bool) {
        self.name == other.name && self.start_hour == other.start_hour && self.end_hour
            == other.end_hour && self.price == other.price
    }
}

impl vstd::std_specs::cmp::PartialEqSpecImpl for PricingRule {
    open spec fn obeys_eq_spec() -> bool {
        true
    }

    open spec fn eq_spec(&self, other: &PricingRule) -> bool {
        self.name@ == other.name@ && self.start_hour == other.start_hour && self.end_hour
            == other.end_hour && self.price == other.price
    }
}

impl Eq for PricingRule {
}

impl Clone for PricingRule {
    fn clone(&self) -> (r: PricingRule)
        ensures
            r == *self,
    {
        PricingRule {
            name: self.name.clone(),
            start_hour: self.start_hour,
            end_hour: self.end_hour,
            price: self.price,
        }
    }
}

/// Whether `hour` falls inside the rule's window, wrapping past midnight when
/// `start_hour >= end_hour` (then it covers `[start, 24) ∪ [0, end)`).
pub open spec fn rule_covers(rule: PricingRule, hour: int) -> bool {
    if rule.start_hour < rule.end_hour {
        rule.start_hour <= hour < rule.end_hour
    } else {
        hour >= rule.start_hour || hour < rule.end_hour
    }
}

/// The price of the first rule covering `hour`, or 0 when none does.
pub open spec fn price_of(hour: int, rules: Seq<PricingRule>) -> i64
    decreases rules.len(),
{
    if rules.len() == 0 {
        0
    } else if rule_covers(rules[0], hour) {
        rules[0].price
    } else {
        price_of(hour, rules.drop_first())
    }
}

fn rule_covers_exec(rule: &PricingRule, hour: i64) -> (r: bool)
    ensures
        r == rule_covers(*rule, hour as int),
{
    if rule.start_hour < rule.end_hour {
        hour >= rule.start_hour && hour < rule.end_hour
    } else {
        hour >= rule.start_hour || hour < rule.end_hour
    }
}

/// Price for `hour` under `rules`: the first matching rule wins; 0 if no rule
/// matches.
pub fn slot_price(hour: i64, rules: &[PricingRule]) -> (r: i64)
    ensures
        r == price_of(hour as int, rules@),
        (exists|i: int| 0 <= i < rules@.len() && rule_covers(#[trigger] rules@[i], hour as int))
            || r == 0,
{
    let mut i: usize = 0;
    assert(rules@.subrange(0, rules@.len() as int) =~= rules@);
    while i < rules.len()
        invariant
            i <= rules@.len(),
            price_of(hour as int, rules@) == price_of(
                hour as int,
                rules@.subrange(i as int, rules@.len() as int),
            ),
            forall|j: int| 0 <= j < i ==> !rule_covers(#[trigger] rules@[j], hour as int),
        decreases rules@.len() - i,
    {
        let ghost tail = rules@.subrange(i as int, rules@.len() as int);
        assert(tail[0] == rules@[i as int]);
        assert(tail.drop_first() =~= rules@.subrange(i + 1, rules@.len() as int));
        if rule_covers_exec(&rules[i], hour) {
            return rules[i].price;
        }
        i = i + 1;
    }
    0
}

/// Effective price for `hour`: a user fixed price overrides the rules.
pub open spec fn effective_price(hour: int, rules: Seq<PricingRule>, fixed_price: Option<i64>) -> i64 {
    match fixed_price {
        Some(p) => p,
        None => price_of(hour, rules),
    }
}

/// Effective price for `hour`: a user `fixed_price` overrides the rules,
/// otherwise the matched rule price.
pub fn effective_slot_price(hour: i64, rules: &[PricingRule], fixed_price: Option<i64>) -> (r: i64)
    ensures
        r == effective_price(hour as int, rules@, fixed_price),
{
    match fixed_price {
        Some(p) => p,
        None => slot_price(hour, rules),
    }
}

/// The price of a slot is that of the first rule whose hours take the slot's
/// hour in: from its start hour up to, not including, its end hour, or, for
/// a rule whose start is not before its end, from the start hour on and
/// before the end hour (past midnight). A user's fixed price overrides.
pub proof fn lemma_first_rule_prices(hour: int, rules: Seq<PricingRule>, i: int)
    requires
        0 <= i < rules.len(),
        (rules[i].start_hour < rules[i].end_hour && rules[i].start_hour <= hour < rules[i].end_hour) || (
        rules[i].start_hour >= rules[i].end_hour && (hour >= rules[i].start_hour || hour < rules[i].end_hour)),
        forall|j: int|
            0 <= j < i ==> !(((#[trigger] rules[j]).start_hour < rules[j].end_hour && rules[j].start_hour <= hour
                < rules[j].end_hour) || (rules[j].start_hour >= rules[j].end_hour && (hour >= rules[j].start_hour
                || hour < rules[j].end_hour))),
    ensures
        price_of(hour, rules) == rules[i].price,
        effective_price(hour, rules, None) == rules[i].price,
    decreases i,
{
    if i > 0 {
        let r = rules.drop_first();
        assert forall|j: int| 0 <= j < i - 1 implies !(((#[trigger] r[j]).start_hour < r[j].end_hour
            && r[j].start_hour <= hour < r[j].end_hour) || (r[j].start_hour >= r[j].end_hour && (hour
            >= r[j].start_hour || hour < r[j].end_hour))) by {
            assert(r[j] == rules[j + 1]);
        }
        assert(!(((rules[0]).start_hour < rules[0].end_hour && rules[0].start_hour <= hour < rules[0].end_hour) || (
        rules[0].start_hour >= rules[0].end_hour && (hour >= rules[0].start_hour || hour < rules[0].end_hour))));
        lemma_first_rule_prices(hour, r, i - 1);
    }
}

/// A slot no rule takes in costs nothing, and a user's fixed price is what a
/// slot costs that user, whatever the rules.
pub proof fn lemma_unpriced_and_fixed(hour: int, rules: Seq<PricingRule>, p: i64)
    requires
        forall|j: int|
            0 <= j < rules.len() ==> !(((#[trigger] rules[j]).start_hour < rules[j].end_hour && rules[j].start_hour
                <= hour < rules[j].end_hour) || (rules[j].start_hour >= rules[j].end_hour && (hour
                >= rules[j].start_hour || hour < rules[j].end_hour))),
    ensures
        price_of(hour, rules) == 0,
        effective_price(hour, rules, Some(p)) == p,
    decreases rules.len(),
{
    if rules.len() > 0 {
        let r = rules.drop_first();
        assert forall|j: int| 0 <= j < r.len() implies !(((#[trigger] r[j]).start_hour < r[j].end_hour
            && r[j].start_hour <= hour < r[j].end_hour) || (r[j].start_hour >= r[j].end_hour && (hour
            >= r[j].start_hour || hour < r[j].end_hour))) by {
            assert(r[j] == rules[j + 1]);
        }
        assert(!(((rules[0]).start_hour < rules[0].end_hour && rules[0].start_hour <= hour < rules[0].end_hour) || (
        rules[0].start_hour >= rules[0].end_hour && (hour >= rules[0].start_hour || hour < rules[0].end_hour))));
        lemma_unpriced_and_fixed(hour, r, p);
    }
}

} // verus!
