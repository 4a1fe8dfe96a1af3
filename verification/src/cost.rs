//! Estimated Jev cost: the tokens each model reported, with the price known for the
//! model when its usage was first recorded. Prices are IEEE 754 doubles held as bit
//! patterns.
use crate::text::str_eq;
use vstd::prelude::*;

verus! {

/// Dollars per million input and output tokens, and the day the price was checked.
pub struct Price {
    pub input_per_million_usd: u64,
    pub output_per_million_usd: u64,
    pub checked_on: String,
}

/// The tokens one model used, and its price when known.
pub struct ModelCost {
    pub input_tokens: u64,
    pub output_tokens: u64,
    pub price: Option<Price>,
}

/// Token usage by model; one entry per model.
pub struct CostEstimate {
    pub models: Vec<(String, ModelCost)>,
}

/// The models with a known price: versioned IDs only, since an alias may move to a
/// differently priced model.
pub open spec fn priced(model: Seq<char>) -> bool {
    model == "jev-1.13.0"@ || model == "jev-1.12"@
}

/// 0.042 dollars per million input tokens, as the bits of a double.
pub open spec fn input_price_bits() -> u64 {
    0x3fa5_8106_24dd_2f1bu64
}

pub fn price(model: &str) -> (r: Option<Price>)
    ensures
        r is Some <==> priced(model@),
        r matches Some(p) ==> p.input_per_million_usd == input_price_bits()
            && p.output_per_million_usd == 0 && p.checked_on@ == "2026-09-17"@,
{
    if str_eq(model, "jev-1.13.0") || str_eq(model, "jev-1.12") {
        Some(
            Price {
                input_per_million_usd: 0x3fa5_8106_24dd_2f1bu64,
                output_per_million_usd: 0,
                checked_on: String::from_str("2026-09-17"),
            },
        )
    } else {
        None
    }
}

/// Position of `model`'s entry, or -1.
pub open spec fn model_index(ms: Seq<(String, ModelCost)>, model: Seq<char>) -> int
    decreases ms.len(),
{
    if ms.len() == 0 {
        -1
    } else if ms[0].0@ == model {
        0
    } else {
        let r = model_index(ms.skip(1), model);
        if r < 0 {
            -1
        } else {
            r + 1
        }
    }
}

proof fn lemma_model_index(ms: Seq<(String, ModelCost)>, model: Seq<char>, i: int)
    requires
        0 <= i <= ms.len(),
        forall|j: int| 0 <= j < i ==> ms[j].0@ != model,
        i == ms.len() || ms[i].0@ == model,
    ensures
        model_index(ms, model) == if i == ms.len() {
            -1
        } else {
            i
        },
    decreases ms.len(),
{
    if ms.len() > 0 && i > 0 {
        lemma_model_index(ms.skip(1), model, i - 1);
    }
}

/// The token counts fit after adding `input` and `output` to `model`'s entry.
pub open spec fn fits(ms: Seq<(String, ModelCost)>, model: Seq<char>, input: u64, output: u64) -> bool {
    let i = model_index(ms, model);
    i >= 0 ==> ms[i].1.input_tokens + input <= u64::MAX && ms[i].1.output_tokens + output
        <= u64::MAX
}

/// `after` is `before` with `input` and `output` tokens added to `model`'s entry,
/// or with a new entry for a model not yet listed, priced as known now.
pub open spec fn spec_recorded(
    before: Seq<(String, ModelCost)>,
    after: Seq<(String, ModelCost)>,
    model: Seq<char>,
    input: u64,
    output: u64,
) -> bool {
    let i = model_index(before, model);
    if i >= 0 {
        &&& after.len() == before.len()
        &&& forall|j: int| 0 <= j < before.len() && j != i ==> after[j] == before[j]
        &&& after[i].0 == before[i].0
        &&& after[i].1.input_tokens == before[i].1.input_tokens + input
        &&& after[i].1.output_tokens == before[i].1.output_tokens + output
        &&& after[i].1.price == before[i].1.price
    } else {
        &&& after.len() == before.len() + 1
        &&& forall|j: int| 0 <= j < before.len() ==> after[j] == before[j]
        &&& after.last().0@ == model
        &&& after.last().1.input_tokens == input
        &&& after.last().1.output_tokens == output
        &&& (after.last().1.price is Some <==> priced(model))
        &&& (after.last().1.price matches Some(p) ==> p.input_per_million_usd == input_price_bits()
            && p.output_per_million_usd == 0 && p.checked_on@ == "2026-09-17"@)
    }
}

impl CostEstimate {
    /// No usage yet.
    pub fn new() -> (r: CostEstimate)
        ensures
            r.models@.len() == 0,
    {
        CostEstimate { models: Vec::new() }
    }

    /// Adds one response's token counts to `model`'s usage; a model seen for the first
    /// time gets its entry, with its price as known now.
    pub fn record(&mut self, model: &str, input: u64, output: u64)
        requires
            fits(old(self).models@, model@, input, output),
        ensures
            spec_recorded(old(self).models@, final(self).models@, model@, input, output),
    {
        let mut i: usize = 0;
        while i < self.models.len()
            invariant
                i <= self.models.len(),
                self.models@ == old(self).models@,
                fits(old(self).models@, model@, input, output),
                forall|j: int| 0 <= j < i ==> self.models@[j].0@ != model@,
            decreases self.models.len() - i,
        {
            if str_eq(self.models[i].0.as_str(), model) {
                proof {
                    lemma_model_index(self.models@, model@, i as int);
                }
                let (name, usage) = self.models.remove(i);
                let updated = ModelCost {
                    input_tokens: usage.input_tokens + input,
                    output_tokens: usage.output_tokens + output,
                    price: usage.price,
                };
                let ghost removed = self.models@;
                self.models.insert(i, (name, updated));
                proof {
                    let before = old(self).models@;
                    assert(removed == before.remove(i as int));
                    assert forall|j: int| 0 <= j < before.len() && j != i implies self.models@[j]
                        == before[j] by {
                        if j < i {
                            assert(self.models@[j] == removed[j]);
                        } else {
                            assert(self.models@[j] == removed[j - 1]);
                        }
                    }
                }
                return;
            }
            i = i + 1;
        }
        proof {
            lemma_model_index(self.models@, model@, i as int);
        }
        let usage = ModelCost { input_tokens: input, output_tokens: output, price: price(model) };
        self.models.push((String::from_str(model), usage));
    }
}

/// Each model has at most one entry.
pub open spec fn one_entry_per_model(ms: Seq<(String, ModelCost)>) -> bool {
    forall|a: int, b: int| 0 <= a < b < ms.len() ==> ms[a].0@ != ms[b].0@
}

/// Recording usage keeps one entry per model: a model already listed is updated in
/// place, a new one is added once.
pub proof fn law_record_keeps_one_entry_per_model(
    before: Seq<(String, ModelCost)>,
    after: Seq<(String, ModelCost)>,
    model: Seq<char>,
    input: u64,
    output: u64,
)
    requires
        one_entry_per_model(before),
        spec_recorded(before, after, model, input, output),
    ensures
        one_entry_per_model(after),
{
    lemma_model_index_bound(before, model);
    let i = model_index(before, model);
    assert forall|a: int, b: int| 0 <= a < b < after.len() implies after[a].0@ != after[b].0@ by {
        if i < 0 && b == before.len() {
            assert(after[a] == before[a]);
        } else {
            if a != i {
                assert(after[a] == before[a]);
            }
            if b != i {
                assert(after[b] == before[b]);
            }
        }
    }
}

proof fn lemma_model_index_bound(ms: Seq<(String, ModelCost)>, model: Seq<char>)
    ensures
        -1 <= model_index(ms, model) < ms.len(),
        model_index(ms, model) >= 0 ==> ms[model_index(ms, model)].0@ == model,
        model_index(ms, model) < 0 ==> forall|j: int| 0 <= j < ms.len() ==> ms[j].0@ != model,
    decreases ms.len(),
{
    if ms.len() > 0 && ms[0].0@ != model {
        lemma_model_index_bound(ms.skip(1), model);
        assert forall|j: int| 0 < j < ms.len() implies ms[j] == ms.skip(1)[j - 1] by {}
    }
}

} // verus!
