use replicators::condition::{Comparison, Condition, ConditionError};
use replicators::duration::{fmt_t, parse_time_cost, TimeCostError};

#[test]
fn fmt_t_whole_seconds() {
    assert_eq!(fmt_t(0), "0s");
    assert_eq!(fmt_t(30), "30s");
    assert_eq!(fmt_t(60), "60s");
}

#[test]
fn fmt_t_negative_seconds() {
    assert_eq!(fmt_t(-5), "-5s");
    assert_eq!(fmt_t(-100000), "-100000s");
}

#[test]
fn fmt_t_minutes_hours_days_weeks() {
    assert_eq!(fmt_t(61), "1.0m");
    assert_eq!(fmt_t(90), "1.5m");
    assert_eq!(fmt_t(3600), "60.0m");
    assert_eq!(fmt_t(5400), "1.5h");
    assert_eq!(fmt_t(172800), "2.0d");
    assert_eq!(fmt_t(1814400), "3.0w");
}

#[test]
fn fmt_t_rounds_to_nearest_tenth() {
    // 100 s is 1.666... minutes
    assert_eq!(fmt_t(100), "1.7m");
    // 1.25 weeks: a tie, kept at the even tenth
    assert_eq!(fmt_t(756000), "1.2w");
    // 1.75 weeks: a tie, raised to the even tenth
    assert_eq!(fmt_t(1058400), "1.8w");
}

#[test]
fn fmt_t_ties_follow_the_nearest_double() {
    // 1.05 and 1.35 are held as doubles a little above, 1.15 a little below
    assert_eq!(fmt_t(63), "1.1m");
    assert_eq!(fmt_t(81), "1.4m");
    assert_eq!(fmt_t(69), "1.1m");
    assert_eq!(fmt_t(3780), "1.1h");
}

#[test]
fn fmt_t_largest_value() {
    assert_eq!(fmt_t(i64::MAX), "15250284452471.5w");
    assert_eq!(fmt_t(i64::MIN), "-9223372036854775808s");
}

#[test]
fn time_cost_units() {
    assert_eq!(parse_time_cost("1h"), Ok(3600));
    assert_eq!(parse_time_cost("2w"), Ok(1209600));
    assert_eq!(parse_time_cost("3d"), Ok(259200));
    assert_eq!(parse_time_cost("90m"), Ok(5400));
    assert_eq!(parse_time_cost("45s"), Ok(45));
}

#[test]
fn time_cost_takes_first_quantity() {
    assert_eq!(parse_time_cost("about 5m or so"), Ok(300));
    assert_eq!(parse_time_cost("12x 7d"), Ok(604800));
}

#[test]
fn time_cost_malformed() {
    assert_eq!(parse_time_cost(""), Err(TimeCostError::Malformed));
    assert_eq!(parse_time_cost("h"), Err(TimeCostError::Malformed));
    assert_eq!(parse_time_cost("10"), Err(TimeCostError::Malformed));
    assert_eq!(parse_time_cost("ten minutes"), Err(TimeCostError::Malformed));
}

#[test]
fn time_cost_out_of_range() {
    assert_eq!(parse_time_cost("9223372036854775807s"), Ok(i64::MAX));
    assert_eq!(parse_time_cost("9223372036854775808s"), Err(TimeCostError::OutOfRange));
    assert_eq!(parse_time_cost("99999999999999999999w"), Err(TimeCostError::OutOfRange));
    assert_eq!(parse_time_cost("15250284452472w"), Err(TimeCostError::OutOfRange));
}

#[test]
fn condition_empty_is_always() {
    assert!(matches!(Condition::parse(""), Ok(Condition::Always)));
}

#[test]
fn condition_has_modifier() {
    match Condition::parse("has modifier A") {
        Ok(Condition::HasModifier(id)) => assert_eq!(id, "A"),
        _ => panic!("expected a modifier condition"),
    }
    assert!(matches!(Condition::parse("has modifier A\nB"), Ok(Condition::Unrecognized)));
}

#[test]
fn condition_trial_mass() {
    assert!(matches!(
        Condition::parse("trial bot mass greater than 1e6"),
        Ok(Condition::TrialMass(Comparison::Greater, 1_000_000_000_000))
    ));
    assert!(matches!(
        Condition::parse("trial bot mass less than 2.5"),
        Ok(Condition::TrialMass(Comparison::Less, 2_500_000))
    ));
    assert!(matches!(
        Condition::parse("trial bot mass less than 1.5e2"),
        Ok(Condition::TrialMass(Comparison::Less, 150_000_000))
    ));
}

#[test]
fn condition_threshold_rounds_down() {
    assert!(matches!(
        Condition::parse("trial bot mass less than 0.0000001"),
        Ok(Condition::TrialMass(Comparison::Less, 0))
    ));
    assert!(matches!(
        Condition::parse("population unease greater than 0.12345678"),
        Ok(Condition::Unease(Comparison::Greater, 123_456))
    ));
    assert!(matches!(
        Condition::parse("population unease greater than 0e99999"),
        Ok(Condition::Unease(Comparison::Greater, 0))
    ));
}

#[test]
fn condition_unease() {
    assert!(matches!(
        Condition::parse("population unease less than 50"),
        Ok(Condition::Unease(Comparison::Less, 50_000_000))
    ));
}

#[test]
fn condition_unrecognized_text() {
    assert!(matches!(Condition::parse("when the moon is full"), Ok(Condition::Unrecognized)));
    assert!(matches!(Condition::parse("trial bot mass about 5"), Ok(Condition::Unrecognized)));
    assert!(matches!(Condition::parse("population unease roughly than 5"), Ok(Condition::Unrecognized)));
}

#[test]
fn condition_found_within_text() {
    assert!(matches!(
        Condition::parse("while trial bot mass greater than 10 holds"),
        Ok(Condition::TrialMass(Comparison::Greater, 10_000_000))
    ));
    assert!(matches!(
        Condition::parse("when the population unease less than 3"),
        Ok(Condition::Unease(Comparison::Less, 3_000_000))
    ));
}

#[test]
fn condition_text_after_number_is_passed_over() {
    assert!(matches!(
        Condition::parse("trial bot mass less than 5kg"),
        Ok(Condition::TrialMass(Comparison::Less, 5_000_000))
    ));
    assert!(matches!(
        Condition::parse("population unease less than 1."),
        Ok(Condition::Unease(Comparison::Less, 1_000_000))
    ));
    assert!(matches!(
        Condition::parse("population unease less than 1e"),
        Ok(Condition::Unease(Comparison::Less, 1_000_000))
    ));
    assert!(matches!(
        Condition::parse("population unease greater than 2.5e1 percent"),
        Ok(Condition::Unease(Comparison::Greater, 25_000_000))
    ));
}

#[test]
fn condition_operand_unparseable() {
    assert!(matches!(
        Condition::parse("population unease greater than lots"),
        Err(ConditionError::OperandUnparseable)
    ));
    assert!(matches!(Condition::parse("trial bot mass less than "), Err(ConditionError::OperandUnparseable)));
}

#[test]
fn condition_operand_out_of_range() {
    assert!(matches!(
        Condition::parse("trial bot mass greater than 1e400"),
        Err(ConditionError::OperandOutOfRange)
    ));
    assert!(matches!(
        Condition::parse("population unease less than 1e99999999999"),
        Err(ConditionError::OperandOutOfRange)
    ));
}
