use agentforge::scheduler::NaturalLanguageParser;

#[test]
fn every_monday_at_9am() {
    assert_eq!(
        NaturalLanguageParser::parse("every Monday at 9am").unwrap(),
        "0 9 * * 1"
    );
}

#[test]
fn every_3_hours() {
    assert_eq!(
        NaturalLanguageParser::parse("every 3 hours").unwrap(),
        "0 */3 * * *"
    );
}

#[test]
fn daily_default_time() {
    assert_eq!(NaturalLanguageParser::parse("every day").unwrap(), "0 9 * * *");
    assert_eq!(NaturalLanguageParser::parse("daily").unwrap(), "0 9 * * *");
}

#[test]
fn daily_with_24_hour_time() {
    assert_eq!(
        NaturalLanguageParser::parse("every day at 14:30").unwrap(),
        "30 14 * * *"
    );
}

#[test]
fn ampm_folding_midnight() {
    assert_eq!(
        NaturalLanguageParser::parse("every day at 12am").unwrap(),
        "0 0 * * *"
    );
}

#[test]
fn ampm_folding_noon() {
    assert_eq!(
        NaturalLanguageParser::parse("every day at 12pm").unwrap(),
        "0 12 * * *"
    );
}

#[test]
fn ampm_folding_evening() {
    assert_eq!(
        NaturalLanguageParser::parse("every day at 9pm").unwrap(),
        "0 21 * * *"
    );
}

#[test]
fn ampm_with_minutes() {
    assert_eq!(
        NaturalLanguageParser::parse("every day at 9:30pm").unwrap(),
        "30 21 * * *"
    );
}

#[test]
fn every_10_minutes() {
    assert_eq!(
        NaturalLanguageParser::parse("every 10 minutes").unwrap(),
        "*/10 * * * *"
    );
}

#[test]
fn hourly_ignores_time() {
    assert_eq!(NaturalLanguageParser::parse("hourly").unwrap(), "0 * * * *");
    assert_eq!(
        NaturalLanguageParser::parse("every hour at 9:30").unwrap(),
        "0 * * * *"
    );
}

#[test]
fn weekdays_at_5pm() {
    assert_eq!(
        NaturalLanguageParser::parse("weekdays at 5pm").unwrap(),
        "0 17 * * 1-5"
    );
}

#[test]
fn weekend_default() {
    assert_eq!(
        NaturalLanguageParser::parse("every weekend").unwrap(),
        "0 9 * * 0,6"
    );
}

#[test]
fn monthly_first_of_month() {
    assert_eq!(NaturalLanguageParser::parse("monthly").unwrap(), "0 9 1 * *");
}

#[test]
fn weekday_abbreviations() {
    assert_eq!(
        NaturalLanguageParser::parse("every fri at 8am").unwrap(),
        "0 8 * * 5"
    );
    assert_eq!(
        NaturalLanguageParser::parse("every sunday").unwrap(),
        "0 9 * * 0"
    );
}

#[test]
fn uppercase_phrases_are_folded() {
    assert_eq!(
        NaturalLanguageParser::parse("Every Day AT 7AM").unwrap(),
        "0 7 * * *"
    );
}

#[test]
fn deterministic_and_idempotent() {
    let a = NaturalLanguageParser::parse("every Monday at 9am");
    let b = NaturalLanguageParser::parse("every Monday at 9am");
    assert_eq!(a, b);
    let c = NaturalLanguageParser::parse("feed the cat");
    let d = NaturalLanguageParser::parse("feed the cat");
    assert_eq!(c, None);
    assert_eq!(d, None);
}

#[test]
fn unrecognized_yields_none_not_a_default() {
    assert_eq!(NaturalLanguageParser::parse(""), None);
    assert_eq!(NaturalLanguageParser::parse("sometimes maybe"), None);
    assert_eq!(NaturalLanguageParser::parse("at 9am"), None);
}

#[test]
fn out_of_range_time_is_not_a_time() {
    // 9:99 is no clock time; the family still matches, with the default.
    assert_eq!(
        NaturalLanguageParser::parse("every day at 9:99").unwrap(),
        "0 9 * * *"
    );
}

#[test]
fn out_of_range_step_does_not_match() {
    // A step beyond the hour field's range is not a recognized family.
    assert_eq!(NaturalLanguageParser::parse("every 25 hours"), None);
    assert_eq!(NaturalLanguageParser::parse("every 0 minutes"), None);
}

#[test]
fn translator_output_round_trips_through_the_cron_parser() {
    for phrase in [
        "every day",
        "every Monday at 9am",
        "every 3 hours",
        "every 10 minutes",
        "weekdays at 5pm",
        "every weekend",
        "monthly",
        "hourly",
    ] {
        let rendered = agentforge::scheduler::NaturalLanguageParser::parse(phrase).unwrap();
        let parsed = agentforge::cron::Cron::parse(&rendered).unwrap();
        assert_eq!(parsed.render(), rendered, "{} is canonical", phrase);
    }
}
