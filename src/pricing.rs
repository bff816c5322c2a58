//! The pricing table: per-token rates and display names of model families.

use vstd::prelude::*;
use crate::text::{seq_contains, str_contains};

verus! {

/// Billionths of a US dollar in one dollar: the unit in which this library
/// holds every cost.
pub const NANOS_PER_USD: u64 = 1_000_000_000;

/// Four per-token rates, in billionths of a dollar per token (which is the
/// same number as thousandths of a dollar per million tokens).
#[derive(Clone, Copy, Debug, PartialEq, Eq)]
pub struct ModelPricing {
    pub input_price: u64,
    pub output_price: u64,
    pub cache_read_price: u64,
    pub cache_write_price: u64,
}

/// Stateless calculator over the pricing table.
#[derive(Clone, Copy, Debug)]
pub struct CostCalculator;

/// The model id names an Opus 4 model: it contains `opus-4` (vendor-prefixed
/// ids contain it too).
pub open spec fn is_opus_4(model: Seq<char>) -> bool {
    seq_contains(model, "opus-4"@)
}

/// The model id names a Sonnet 4 model: it contains `sonnet-4`.
pub open spec fn is_sonnet_4(model: Seq<char>) -> bool {
    seq_contains(model, "sonnet-4"@)
}

/// The rate schedule of a model: Opus 4 is 15 / 75 / 1.50 / 18.75 dollars per
/// million tokens, Sonnet 4 is 3 / 15 / 0.30 / 3.75, anything else is free.
pub open spec fn pricing_of(model: Seq<char>) -> ModelPricing {
    if is_opus_4(model) {
        ModelPricing { input_price: 15000, output_price: 75000, cache_read_price: 1500, cache_write_price: 18750 }
    } else if is_sonnet_4(model) {
        ModelPricing { input_price: 3000, output_price: 15000, cache_read_price: 300, cache_write_price: 3750 }
    } else {
        ModelPricing { input_price: 0, output_price: 0, cache_read_price: 0, cache_write_price: 0 }
    }
}

/// The cost, in billionths of a dollar, of the four token counts at `model`'s rates.
pub open spec fn cost_of(model: Seq<char>, input: int, output: int, cache_read: int, cache_creation: int) -> int {
    let p = pricing_of(model);
    input * p.input_price + output * p.output_price + cache_read * p.cache_read_price
        + cache_creation * p.cache_write_price
}

/// The label shown for a model: its family name, or the id itself.
pub open spec fn display_name_of(model: Seq<char>) -> Seq<char> {
    if is_opus_4(model) {
        "Opus 4"@
    } else if is_sonnet_4(model) {
        "Sonnet 4"@
    } else {
        model
    }
}

/// The chart color of a model, by family.
pub open spec fn color_of(model: Seq<char>) -> Seq<char> {
    if seq_contains(model, "opus"@) {
        "#8B5CF6"@
    } else if seq_contains(model, "sonnet"@) {
        "#3B82F6"@
    } else if seq_contains(model, "haiku"@) {
        "#10B981"@
    } else {
        "#6B7280"@
    }
}

proof fn lemma_rate_product_bound(tokens: u32, rate: u64)
    requires
        rate <= 75000,
    ensures
        tokens as int * rate <= 0xffff_ffff * 75000,
{
    assert(tokens as int * rate <= 0xffff_ffff * 75000) by (nonlinear_arith)
        requires
            tokens <= 0xffff_ffff,
            rate <= 75000,
    ;
}

impl CostCalculator {
    pub fn new() -> (r: Self) {
        CostCalculator
    }

    fn opus_4(model: &str) -> (r: bool)
        ensures
            r == is_opus_4(model@),
    {
        str_contains(model, "opus-4")
    }

    fn sonnet_4(model: &str) -> (r: bool)
        ensures
            r == is_sonnet_4(model@),
    {
        str_contains(model, "sonnet-4")
    }

    /// The rate schedule of `model`.
    pub fn get_model_pricing(&self, model: &str) -> (r: ModelPricing)
        ensures
            r == pricing_of(model@),
    {
        if Self::opus_4(model) {
            ModelPricing { input_price: 15000, output_price: 75000, cache_read_price: 1500, cache_write_price: 18750 }
        } else if Self::sonnet_4(model) {
            ModelPricing { input_price: 3000, output_price: 15000, cache_read_price: 300, cache_write_price: 3750 }
        } else {
            ModelPricing { input_price: 0, output_price: 0, cache_read_price: 0, cache_write_price: 0 }
        }
    }

    /// The cost of one request, in billionths of a dollar.
    pub fn calculate_cost(
        &self,
        model: &str,
        input_tokens: u32,
        output_tokens: u32,
        cache_read_tokens: u32,
        cache_creation_tokens: u32,
    ) -> (r: u64)
        ensures
            r == cost_of(model@, input_tokens as int, output_tokens as int, cache_read_tokens as int,
                cache_creation_tokens as int),
    {
        let p = self.get_model_pricing(model);
        assert(p.input_price <= 75000 && p.output_price <= 75000 && p.cache_read_price <= 75000
            && p.cache_write_price <= 75000);
        proof {
            lemma_rate_product_bound(input_tokens, p.input_price);
            lemma_rate_product_bound(output_tokens, p.output_price);
            lemma_rate_product_bound(cache_read_tokens, p.cache_read_price);
            lemma_rate_product_bound(cache_creation_tokens, p.cache_write_price);
        }
        let a = input_tokens as u64 * p.input_price;
        let b = output_tokens as u64 * p.output_price;
        let c = cache_read_tokens as u64 * p.cache_read_price;
        let d = cache_creation_tokens as u64 * p.cache_write_price;
        a + b + c + d
    }

    /// The label of a model: "Opus 4", "Sonnet 4", or the id unchanged.
    pub fn get_model_display_name(&self, model: &str) -> (r: String)
        ensures
            r@ == display_name_of(model@),
    {
        if Self::opus_4(model) {
            String::from_str("Opus 4")
        } else if Self::sonnet_4(model) {
            String::from_str("Sonnet 4")
        } else {
            String::from_str(model)
        }
    }

    /// The chart color of a model, as `#RRGGBB`.
    pub fn get_model_color(&self, model: &str) -> (r: &'static str)
        ensures
            r@ == color_of(model@),
    {
        if str_contains(model, "opus") {
            "#8B5CF6"
        } else if str_contains(model, "sonnet") {
            "#3B82F6"
        } else if str_contains(model, "haiku") {
            "#10B981"
        } else {
            "#6B7280"
        }
    }
}

} // verus!
