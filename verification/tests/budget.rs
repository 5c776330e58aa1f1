use bodega::budget::{Budget, BudgetExceeded, Usage};
use bodega::money::Usd;

fn usd(nanos: i64) -> Usd {
    Usd::from_nanos(nanos)
}

#[test]
fn usage_sums() {
    let a = Usage {
        input_tokens: 10,
        output_tokens: 5,
        cost_usd: usd(250_000_000),
        ..Usage::default()
    };
    let total = Usage::sum(&vec![a, a]);
    assert_eq!(total.total_tokens(), 30);
    assert_eq!(total.cost_usd, usd(500_000_000));
}

#[test]
fn unlimited_budget_never_trips() {
    let usage = Usage {
        input_tokens: u64::MAX / 4,
        cost_usd: usd(1_000_000_000_000_000_000),
        ..Usage::default()
    };
    assert_eq!(Budget::default().check(&usage, u64::MAX), None);
}

#[test]
fn reports_the_first_crossed_limit() {
    let budget = Budget {
        max_cost_usd: Some(usd(1_000_000_000)),
        max_tokens: Some(100),
        max_wall_clock_secs: Some(60),
        ..Budget::default()
    };
    let usage = Usage { input_tokens: 150, cost_usd: usd(500_000_000), ..Usage::default() };
    assert_eq!(
        budget.check(&usage, 10),
        Some(BudgetExceeded::Tokens { limit: 100, spent: 150 })
    );
    assert_eq!(
        budget.check(&Usage::default(), 61),
        Some(BudgetExceeded::WallClock { limit_secs: 60, elapsed_secs: 61 })
    );
}

#[test]
fn the_cost_is_looked_at_first_and_a_limit_may_be_reached() {
    let budget = Budget {
        max_cost_usd: Some(usd(1_000_000_000)),
        max_tokens: Some(100),
        ..Budget::default()
    };
    let reached = Usage { input_tokens: 100, cost_usd: usd(1_000_000_000), ..Usage::default() };
    assert_eq!(budget.check(&reached, 0), None);
    let crossed = Usage { input_tokens: 101, cost_usd: usd(1_000_000_001), ..Usage::default() };
    assert_eq!(
        budget.check(&crossed, 0),
        Some(BudgetExceeded::Cost { limit: usd(1_000_000_000), spent: usd(1_000_000_001) })
    );
}

#[test]
fn crossed_limits_read_well() {
    let cost = BudgetExceeded::Cost { limit: usd(1_000_000_000), spent: usd(1_234_567_890) };
    assert_eq!(cost.message(), "cost $1.23 exceeded the $1.00 budget");
    let tokens = BudgetExceeded::Tokens { limit: 100, spent: 150 };
    assert_eq!(tokens.message(), "150 tokens exceeded the 100-token budget");
    let time = BudgetExceeded::WallClock { limit_secs: 60, elapsed_secs: 61 };
    assert_eq!(time.message(), "61s exceeded the 60s time budget");
}

#[test]
fn sums_without_room_are_told() {
    let most = Usage { input_tokens: u64::MAX, ..Usage::default() };
    let one = Usage { input_tokens: 1, ..Usage::default() };
    assert_eq!(most.checked_plus(one), None);
    assert_eq!(Usage::checked_sum(&vec![most, one]), None);
    assert_eq!(Usage::checked_sum(&vec![one, one]), Some(one.plus(one)));
    let both = Usage { input_tokens: u64::MAX, output_tokens: 1, ..Usage::default() };
    assert_eq!(both.checked_tokens(), None);
}

#[test]
fn amounts_are_written_and_read() {
    assert_eq!(usd(420_000_000).to_dollars(), "0.42");
    // Half a cent goes where the nearest floating-point number goes.
    for (nanos, dollars) in [
        (5_000_000, 0.005),
        (15_000_000, 0.015),
        (125_000_000, 0.125),
        (145_000_000, 0.145),
        (165_000_000, 0.165),
        (375_000_000, 0.375),
        (1_005_000_000, 1.005),
        (123_456_785_000_000, 123_456.785),
    ] {
        assert_eq!(usd(nanos).to_dollars(), format!("{dollars:.2}"));
    }
    assert_eq!(usd(125_000_000).to_dollars(), "0.12");
    assert_eq!(usd(165_000_000).to_dollars(), "0.17");
    assert_eq!(usd(5_000_000).to_dollars(), "0.01");
    assert_eq!(usd(-1_005_000_001).to_dollars(), "-1.01");
    assert_eq!(usd(420_000_000).to_plain(), "0.42");
    assert_eq!(usd(3_000_000_000).to_plain(), "3");
    assert_eq!(Usd::read("0.42"), Some(usd(420_000_000)));
    assert_eq!(Usd::read("1.5e1"), Some(usd(15_000_000_000)));
    assert_eq!(Usd::read("-2"), Some(usd(-2_000_000_000)));
    assert_eq!(Usd::read("x"), None);
}
