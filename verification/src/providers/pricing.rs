//! Which entry of the price list a model is charged by, and for which tokens.
use vstd::prelude::*;

use crate::names::NameMap;
use crate::providers::conversation::Usage;
use crate::providers::kind::{kind_name, ProviderKind};
use crate::text;

verus! {

/// A price per token in US dollars, as the 64 bits of a double-precision number.
#[derive(Clone, Copy, Debug, PartialEq, Eq, Structural)]
pub struct CostPerToken {
    pub bits: u64,
}

/// What one model costs. A price that is not given is zero.
#[derive(Debug)]
pub struct ModelPricing {
    pub cache_creation_input_token_cost: Option<CostPerToken>,
    pub cache_read_input_token_cost: Option<CostPerToken>,
    pub input_cost_per_token: Option<CostPerToken>,
    pub litellm_provider: Option<String>,
    pub output_cost_per_token: Option<CostPerToken>,
}

/// Some tokens at a price.
#[derive(Clone, Copy, Debug, PartialEq, Eq, Structural)]
pub struct Charge {
    pub price: CostPerToken,
    pub tokens: u64,
}

/// The price, or zero.
pub open spec fn price_or_zero(price: Option<CostPerToken>) -> CostPerToken {
    match price {
        Some(p) => p,
        None => CostPerToken { bits: 0 },
    }
}

fn or_zero(price: Option<CostPerToken>) -> (r: CostPerToken)
    ensures
        r == price_or_zero(price),
{
    match price {
        Some(p) => p,
        None => CostPerToken { bits: 0 },
    }
}

impl ModelPricing {
    /// The entry may be used for a provider: it names none, or one whose name begins with
    /// the provider's, or another name of the provider.
    pub open spec fn is_for(&self, provider: ProviderKind) -> bool {
        match self.litellm_provider {
            None => true,
            Some(name) => text::starts_with_text(name@, kind_name(provider))
                || provider.is_alternate(name@),
        }
    }

    /// Whether the entry may be used for a provider.
    pub fn matches_provider(&self, provider: ProviderKind) -> (r: bool)
        ensures
            r == self.is_for(provider),
    {
        match &self.litellm_provider {
            None => true,
            Some(name) => {
                if text::starts_with(name.as_str(), provider.as_str()) {
                    return true;
                }
                let others = provider.alternate_pricing_names();
                let mut i: usize = 0;
                while i < others.len()
                    invariant
                        i <= others@.len(),
                        self.litellm_provider == Some(*name),
                        forall|j: int| 0 <= j < i ==> (#[trigger] others@[j])@ != name@,
                        provider.is_alternate(name@) <==> exists|j: int|
                            0 <= j < others@.len() && (#[trigger] others@[j])@ == name@,
                    decreases others@.len() - i,
                {
                    if text::str_eq(others[i], name.as_str()) {
                        assert(others@[i as int]@ == name@);
                        return true;
                    }
                    i = i + 1;
                }
                false
            },
        }
    }

    /// What a completion is charged: input that was not cached, output, what was written
    /// to the cache and what was read from it, each at its own price.
    pub open spec fn charges_for(&self, usage: Usage) -> Seq<Charge> {
        seq![
            Charge {
                price: price_or_zero(self.input_cost_per_token),
                tokens: usage.input_tokens,
            },
            Charge {
                price: price_or_zero(self.output_cost_per_token),
                tokens: usage.output_tokens,
            },
            Charge {
                price: price_or_zero(self.cache_creation_input_token_cost),
                tokens: usage.cache_creation_input_tokens,
            },
            Charge {
                price: price_or_zero(self.cache_read_input_token_cost),
                tokens: usage.cached_input_tokens,
            },
        ]
    }

    /// What a completion is charged. The sum of the products is the cost.
    pub fn cost_of(&self, usage: &Usage) -> (r: Vec<Charge>)
        ensures
            r@ == self.charges_for(*usage),
    {
        let mut out: Vec<Charge> = Vec::new();
        out.push(
            Charge { price: or_zero(self.input_cost_per_token), tokens: usage.input_tokens },
        );
        out.push(
            Charge { price: or_zero(self.output_cost_per_token), tokens: usage.output_tokens },
        );
        out.push(
            Charge {
                price: or_zero(self.cache_creation_input_token_cost),
                tokens: usage.cache_creation_input_tokens,
            },
        );
        out.push(
            Charge {
                price: or_zero(self.cache_read_input_token_cost),
                tokens: usage.cached_input_tokens,
            },
        );
        assert(out@ =~= self.charges_for(*usage));
        out
    }
}

/// The price list, by model.
#[derive(Debug)]
pub struct PricingTable {
    pub by_model: NameMap<ModelPricing>,
}

/// An entry of the list as it was read: one that cannot be read as prices, or that only
/// documents the format, is passed over.
pub open spec fn entries_of(rows: Seq<(String, Option<ModelPricing>)>) -> Map<
    Seq<char>,
    ModelPricing,
>
    decreases rows.len(),
{
    if rows.len() == 0 {
        Map::empty()
    } else {
        let front = entries_of(rows.drop_last());
        match rows.last().1 {
            Some(pricing) => if rows.last().0@ == "sample_spec"@ {
                front
            } else {
                front.insert(rows.last().0@, pricing)
            },
            None => front,
        }
    }
}

/// The key of a model in the list with its provider in front.
pub open spec fn prefixed(provider: ProviderKind, model: Seq<char>) -> Seq<char> {
    kind_name(provider) + "/"@ + model
}

/// The entry that a model is charged by: the one under its name if that may be used for
/// the provider, and otherwise the one under its name with the provider in front.
pub open spec fn entry_for(
    list: Map<Seq<char>, ModelPricing>,
    provider: ProviderKind,
    model: Seq<char>,
) -> Option<ModelPricing> {
    if list.contains_key(model) && list[model].is_for(provider) {
        Some(list[model])
    } else if list.contains_key(prefixed(provider, model)) {
        Some(list[prefixed(provider, model)])
    } else {
        None
    }
}

impl PricingTable {
    /// The list from its entries as they were read.
    pub fn from_rows(rows: Vec<(String, Option<ModelPricing>)>) -> (r: Self)
        ensures
            r.by_model@ == entries_of(rows@),
    {
        let ghost all = rows@;
        let mut rest = rows;
        let mut by_model: NameMap<ModelPricing> = NameMap::new();
        let mut done: Vec<(String, Option<ModelPricing>)> = Vec::new();
        reverse_into(&mut rest, &mut done);
        let ghost mut n: int = 0;
        assert(all.take(0) =~= Seq::empty());
        while done.len() > 0
            invariant
                0 <= n <= all.len(),
                done@.len() == all.len() - n,
                forall|i: int| 0 <= i < done@.len() ==> done@[i] == all[all.len() - 1 - i],
                by_model@ == entries_of(all.take(n)),
            decreases done@.len(),
        {
            let ghost before = done@;
            if let Some((name, pricing)) = done.pop() {
                proof {
                    let next = all.take(n + 1);
                    assert(before.last() == all[n]);
                    assert(next.drop_last() =~= all.take(n));
                    assert(next.last() == all[n]);
                    n = n + 1;
                }
                if let Some(p) = pricing {
                    if !text::str_eq(name.as_str(), "sample_spec") {
                        by_model.insert(name, p);
                    }
                }
            }
        }
        assert(all.take(n) =~= all);
        PricingTable { by_model }
    }

    /// The entry that a model is charged by.
    pub fn lookup(&self, provider: ProviderKind, model: &str) -> (r: Option<&ModelPricing>)
        ensures
            match r {
                Some(p) => entry_for(self.by_model@, provider, model@) == Some(*p),
                None => entry_for(self.by_model@, provider, model@) is None,
            },
    {
        if let Some(p) = self.by_model.get(model) {
            if p.matches_provider(provider) {
                return Some(p);
            }
        }
        let mut key = String::from_str(provider.as_str());
        key.append("/");
        key.append(model);
        self.by_model.get(key.as_str())
    }

    /// What a completion of a model is charged, if the list has the model.
    pub fn cost_for(&self, provider: ProviderKind, model: &str, usage: &Usage) -> (r: Option<
        Vec<Charge>,
    >)
        ensures
            match (r, entry_for(self.by_model@, provider, model@)) {
                (Some(charges), Some(p)) => charges@ == p.charges_for(*usage),
                (None, None) => true,
                _ => false,
            },
    {
        match self.lookup(provider, model) {
            Some(p) => Some(p.cost_of(usage)),
            None => None,
        }
    }
}

/// Moves the items of one list to the other, last first.
fn reverse_into<T>(from: &mut Vec<T>, to: &mut Vec<T>)
    requires
        old(to)@.len() == 0,
    ensures
        final(from)@.len() == 0,
        final(to)@ == old(from)@.reverse(),
{
    let ghost all = from@;
    while from.len() > 0
        invariant
            from@.len() + to@.len() == all.len(),
            from@ == all.take(from@.len() as int),
            forall|i: int| 0 <= i < to@.len() ==> to@[i] == all[all.len() - 1 - i],
        decreases from@.len(),
    {
        if let Some(item) = from.pop() {
            to.push(item);
        }
    }
    assert(to@ =~= all.reverse());
}

/// A same-named model of another provider is not charged: the entry that is used is one
/// for the provider, or stands under the provider's own prefix.
pub proof fn law_entry_is_for_provider(
    list: Map<Seq<char>, ModelPricing>,
    provider: ProviderKind,
    model: Seq<char>,
)
    ensures
        entry_for(list, provider, model) matches Some(p) ==> p.is_for(provider) || (
        list.contains_key(prefixed(provider, model)) && p == list[prefixed(provider, model)]),
{
}

/// Each kind of tokens is charged at the price of that kind, and at nothing where it has
/// none; nothing else is charged.
pub proof fn law_each_kind_has_its_price(pricing: ModelPricing, usage: Usage, charge: Charge)
    ensures
        pricing.charges_for(usage).len() == 4,
        pricing.charges_for(usage).contains(charge) <==> {
            ||| charge.tokens == usage.input_tokens && charge.price == match pricing.input_cost_per_token {
                Some(p) => p,
                None => (CostPerToken { bits: 0 }),
            }
            ||| charge.tokens == usage.output_tokens && charge.price == match pricing.output_cost_per_token {
                Some(p) => p,
                None => (CostPerToken { bits: 0 }),
            }
            ||| charge.tokens == usage.cache_creation_input_tokens && charge.price
                == match pricing.cache_creation_input_token_cost {
                Some(p) => p,
                None => (CostPerToken { bits: 0 }),
            }
            ||| charge.tokens == usage.cached_input_tokens && charge.price
                == match pricing.cache_read_input_token_cost {
                Some(p) => p,
                None => (CostPerToken { bits: 0 }),
            }
        },
{
    let all = pricing.charges_for(usage);
    assert(all[0].tokens == usage.input_tokens);
    assert(all[1].tokens == usage.output_tokens);
    assert(all[2].tokens == usage.cache_creation_input_tokens);
    assert(all[3].tokens == usage.cached_input_tokens);
    if charge == all[0] || charge == all[1] || charge == all[2] || charge == all[3] {
        assert(all.contains(charge));
    }
}

/// An entry that can be read stands under its model, in place of an earlier one, and leaves
/// the others; one that cannot be read, or only documents the format, changes nothing.
pub proof fn law_readable_entries_are_listed(
    rows: Seq<(String, Option<ModelPricing>)>,
    row: (String, Option<ModelPricing>),
    model: Seq<char>,
)
    ensures
        ({
            let before = entries_of(rows);
            let after = entries_of(rows.push(row));
            let counts = row.1 is Some && row.0@ != "sample_spec"@;
            &&& counts && model == row.0@ ==> after.contains_key(model) && after[model] == row.1->0
            &&& !(counts && model == row.0@) ==> (after.contains_key(model)
                <==> before.contains_key(model)) && (before.contains_key(model) ==> after[model]
                == before[model])
        }),
        !entries_of(Seq::empty()).contains_key(model),
{
    assert(rows.push(row).drop_last() =~= rows);
}

/// A model is charged by the entry under its name where that may be used, and else by the
/// one under the provider's prefix; it is charged wherever there is one of the two.
pub proof fn law_listed_model_is_charged(
    list: Map<Seq<char>, ModelPricing>,
    provider: ProviderKind,
    model: Seq<char>,
)
    ensures
        ({
            let own = list.contains_key(model) && list[model].is_for(provider);
            let key = kind_name(provider) + "/"@ + model;
            &&& own ==> entry_for(list, provider, model) == Some(list[model])
            &&& !own && list.contains_key(key) ==> entry_for(list, provider, model) == Some(
                list[key],
            )
            &&& !own && !list.contains_key(key) ==> entry_for(list, provider, model) is None
        }),
{
}

/// An entry that names no provider is for all; one that names a provider is for that one,
/// however the name goes on, and Gemini goes by two names more.
pub proof fn law_entry_is_for_the_provider_it_names(
    pricing: ModelPricing,
    provider: ProviderKind,
    rest: Seq<char>,
)
    ensures
        pricing.litellm_provider is None ==> pricing.is_for(provider),
        pricing.litellm_provider matches Some(name) ==> {
            &&& name@ == kind_name(provider) + rest ==> pricing.is_for(provider)
            &&& name@ == "vertex_ai"@ || name@ == "vertex_ai-language-models"@ ==> pricing.is_for(
                ProviderKind::Gemini,
            )
            &&& pricing.is_for(provider) && !(provider is Gemini) ==> text::starts_with_text(
                name@,
                kind_name(provider),
            )
        },
{
    let whole = kind_name(provider) + rest;
    assert(whole.take(kind_name(provider).len() as int) =~= kind_name(provider));
}

} // verus!
