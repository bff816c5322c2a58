use usage_dashboard::pricing::{CostCalculator, ModelPricing, NANOS_PER_USD};

#[test]
fn sonnet_cost_of_a_million_in_and_out() {
    let c = CostCalculator::new();
    let cost = c.calculate_cost("sonnet-4-x", 1_000_000, 1_000_000, 0, 0);
    assert_eq!(cost, 18 * NANOS_PER_USD);
}

#[test]
fn opus_rates_per_category() {
    let c = CostCalculator::new();
    assert_eq!(c.calculate_cost("opus-4-20250514", 1_000_000, 0, 0, 0), 15 * NANOS_PER_USD);
    assert_eq!(c.calculate_cost("opus-4-20250514", 0, 1_000_000, 0, 0), 75 * NANOS_PER_USD);
    assert_eq!(c.calculate_cost("opus-4-20250514", 0, 0, 1_000_000, 0), 1_500_000_000);
    assert_eq!(c.calculate_cost("opus-4-20250514", 0, 0, 0, 1_000_000), 18_750_000_000);
    assert_eq!(c.calculate_cost("sonnet-4", 0, 0, 1_000_000, 1_000_000), 300_000_000 + 3_750_000_000);
}

#[test]
fn unknown_model_is_free_and_named_as_is() {
    let c = CostCalculator::new();
    assert_eq!(c.calculate_cost("gpt-5-experimental", 1234, 5678, 9, 10), 0);
    assert_eq!(c.get_model_display_name("gpt-5-experimental"), "gpt-5-experimental");
    assert_eq!(
        c.get_model_pricing("gpt-5-experimental"),
        ModelPricing { input_price: 0, output_price: 0, cache_read_price: 0, cache_write_price: 0 }
    );
}

#[test]
fn display_names_and_colors() {
    let c = CostCalculator::new();
    assert_eq!(c.get_model_display_name("opus-4-1"), "Opus 4");
    assert_eq!(c.get_model_display_name("sonnet-4-20250514"), "Sonnet 4");
    assert_eq!(c.get_model_display_name("model-3-haiku"), "model-3-haiku");
    assert_eq!(c.get_model_color("opus-4"), "#8B5CF6");
    assert_eq!(c.get_model_color("model-3-5-sonnet"), "#3B82F6");
    assert_eq!(c.get_model_color("model-3-haiku"), "#10B981");
    assert_eq!(c.get_model_color("other"), "#6B7280");
}
