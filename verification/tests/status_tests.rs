use visor::status::{
    parse, parse_status_time, status_into_duration, status_into_running_time, status_into_time,
};
use visor::status::{InputError, ParsedDuration, TimeUnit};

#[test]
fn docker_test_parse_status_time() {
    let s = "Up 2 weeks";
    let items = parse_status_time(&s.to_string()).unwrap();
    assert_eq!(items[0], "2");
    assert_eq!(items[1], "weeks");

    let s = "Exited (137) 9 hours ago";
    let items = parse_status_time(&s.to_string()).unwrap();
    assert_eq!(items[0], "9");
    assert_eq!(items[1], "hours");
}

#[test]
fn test_parse_status_time() {
    let s = "Up 2 weeks";
    let items = parse_status_time(s.to_string().as_str()).unwrap();
    assert_eq!(items[0], "2");
    assert_eq!(items[1], "weeks");

    let s = "Exited (137) 9 hours ago";
    let items = parse_status_time(s.to_string().as_str()).unwrap();
    assert_eq!(items[0], "9");
    assert_eq!(items[1], "hours");
}

#[test]
fn container_test_parse_status_time() {
    let s = "Up 2 weeks";
    let items = parse_status_time(s).unwrap();
    assert_eq!(items[0], "2");
    assert_eq!(items[1], "weeks");

    let s = "Exited (137) 9 hours ago";
    let items = parse_status_time(s).unwrap();
    assert_eq!(items[0], "9");
    assert_eq!(items[1], "hours");
}

#[test]
fn parse_reads_amount_and_unit() {
    assert_eq!(parse("Up 2 weeks"), Ok(ParsedDuration { amount: 2, unit: TimeUnit::Weeks }));
    assert_eq!(
        parse("Exited (137) 9 hours ago"),
        Ok(ParsedDuration { amount: 9, unit: TimeUnit::Hours })
    );
}

#[test]
fn parse_ignores_trailing_tokens() {
    let expected = Ok(ParsedDuration { amount: 4, unit: TimeUnit::Days });
    assert_eq!(parse("Up 4 days"), expected);
    assert_eq!(parse("Up 4 days (healthy)"), expected);
    assert_eq!(parse("Up 4 days and a bit more"), expected);
    assert_eq!(parse("Exited (0) 4 days ago"), expected);
    assert_eq!(parse("Exited 4 days ago"), expected);
    assert_eq!(parse("4 days"), expected);
}

#[test]
fn unknown_unit_is_an_error() {
    assert_eq!(parse("Up 5 fortnights"), Err(InputError::UnknownUnit));
    assert_eq!(status_into_duration("Up 5 fortnights"), Err(InputError::UnknownUnit));
    assert_eq!(parse("Up About a minute"), Err(InputError::UnknownUnit));
    assert_eq!(parse("Up 5 Days"), Err(InputError::UnknownUnit));
    assert_eq!(parse("Up 1 day"), Err(InputError::UnknownUnit));
}

#[test]
fn empty_status_is_an_error() {
    assert_eq!(parse(""), Err(InputError::Empty));
    assert_eq!(status_into_duration(""), Err(InputError::Empty));
}

#[test]
fn status_without_unit_is_malformed() {
    assert_eq!(parse("Up"), Err(InputError::Malformed));
    assert_eq!(parse("Up 5"), Err(InputError::Malformed));
    assert_eq!(parse("Exited (1) "), Err(InputError::Malformed));
    assert_eq!(status_into_duration("Created"), Err(InputError::Malformed));
}

#[test]
fn too_many_seconds_is_an_overflow() {
    assert_eq!(
        parse("Up 18446744073709551615 years"),
        Ok(ParsedDuration { amount: u64::MAX, unit: TimeUnit::Years })
    );
    assert_eq!(
        status_into_duration("Up 18446744073709551615 years"),
        Err(InputError::Overflow)
    );
    assert_eq!(status_into_duration("Up 18446744073709551615 seconds"), Ok(u64::MAX));
    assert_eq!(status_into_duration("Up 584942417355 years"), Ok(18446744073707280000));
    assert_eq!(status_into_duration("Up 584942417356 years"), Err(InputError::Overflow));
}

#[test]
fn amount_that_is_no_number_counts_as_zero() {
    assert_eq!(parse("Up abc days"), Ok(ParsedDuration { amount: 0, unit: TimeUnit::Days }));
    assert_eq!(parse("Up -3 days"), Ok(ParsedDuration { amount: 0, unit: TimeUnit::Days }));
    assert_eq!(parse("Up 3x days"), Ok(ParsedDuration { amount: 0, unit: TimeUnit::Days }));
    assert_eq!(parse("Up + days"), Ok(ParsedDuration { amount: 0, unit: TimeUnit::Days }));
    assert_eq!(
        parse("Up 18446744073709551616 days"),
        Ok(ParsedDuration { amount: 0, unit: TimeUnit::Days })
    );
    assert_eq!(status_into_duration("Up abc days"), Ok(0));
    assert_eq!(parse("Up  3 days"), Err(InputError::UnknownUnit));
}

#[test]
fn amount_may_carry_a_plus_sign_and_leading_zeros() {
    assert_eq!(parse("Up +5 days"), Ok(ParsedDuration { amount: 5, unit: TimeUnit::Days }));
    assert_eq!(parse("Up 007 days"), Ok(ParsedDuration { amount: 7, unit: TimeUnit::Days }));
    assert_eq!("+5".parse::<u64>(), Ok(5));
    assert!("+".parse::<u64>().is_err());
    assert!("-3".parse::<u64>().is_err());
}

#[test]
fn each_unit_has_its_seconds() {
    assert_eq!(status_into_duration("Up 7 seconds"), Ok(7));
    assert_eq!(status_into_duration("Up 7 minutes"), Ok(420));
    assert_eq!(status_into_duration("Up 7 hours"), Ok(25_200));
    assert_eq!(status_into_duration("Up 7 days"), Ok(604_800));
    assert_eq!(status_into_duration("Up 7 weeks"), Ok(4_233_600));
    assert_eq!(status_into_duration("Up 7 months"), Ok(18_144_000));
    assert_eq!(status_into_duration("Up 7 years"), Ok(220_752_000));
    assert_eq!(TimeUnit::Seconds.seconds(), 1);
    assert_eq!(TimeUnit::Minutes.seconds(), 60);
    assert_eq!(TimeUnit::Hours.seconds(), 3_600);
    assert_eq!(TimeUnit::Days.seconds(), 86_400);
    assert_eq!(TimeUnit::Weeks.seconds(), 604_800);
    assert_eq!(TimeUnit::Months.seconds(), 2_592_000);
    assert_eq!(TimeUnit::Years.seconds(), 31_536_000);
}

#[test]
fn unit_table_is_increasing_for_one_amount() {
    let units = [
        TimeUnit::Seconds,
        TimeUnit::Minutes,
        TimeUnit::Hours,
        TimeUnit::Days,
        TimeUnit::Weeks,
        TimeUnit::Months,
        TimeUnit::Years,
    ];
    for amount in [1u64, 2, 59, 1000] {
        for pair in units.windows(2) {
            let a = ParsedDuration { amount, unit: pair[0] }.to_seconds().unwrap();
            let b = ParsedDuration { amount, unit: pair[1] }.to_seconds().unwrap();
            assert!(a < b);
        }
    }
    assert_eq!(ParsedDuration { amount: 0, unit: TimeUnit::Years }.to_seconds(), Some(0));
}

fn pair(a: &str, b: &str) -> Result<Vec<String>, InputError> {
    Ok(vec![a.to_string(), b.to_string()])
}

#[test]
fn only_a_leading_prefix_is_stripped() {
    assert_eq!(parse_status_time("Up Up 3 days"), pair("Up", "3"));
    assert_eq!(parse("Up Up 3 days"), Err(InputError::UnknownUnit));
    assert_eq!(parse_status_time("Up (7) 3 days"), pair("3", "days"));
    assert_eq!(parse_status_time("Exited () 3 days"), pair("()", "3"));
    assert_eq!(parse_status_time("(7) 3 days"), pair("(7)", "3"));
    assert_eq!(parse_status_time("up 3 days"), pair("up", "3"));
}

#[test]
fn parse_status_time_fails_without_two_pieces() {
    assert_eq!(parse_status_time(""), Err(InputError::Empty));
    assert_eq!(parse_status_time("Up"), Err(InputError::Malformed));
    assert_eq!(parse_status_time("Up "), Err(InputError::Malformed));
    assert_eq!(parse_status_time("Exited (137) "), Err(InputError::Malformed));
    assert_eq!(parse_status_time("Created"), Err(InputError::Malformed));
    assert_eq!(parse_status_time("Up 3 "), pair("3", ""));
    assert_eq!(parse_status_time("Up 5 fortnights"), pair("5", "fortnights"));
    assert_eq!(parse_status_time("运行 3 天"), pair("运行", "3"));
}

#[test]
fn owned_status_lines_parse_alike() {
    assert_eq!(status_into_time("Up 2 weeks".to_string()), Ok(1_209_600));
    assert_eq!(status_into_running_time("Up 2 weeks".to_string()), Ok(1_209_600));
    assert_eq!(status_into_time(String::new()), Err(InputError::Empty));
    assert_eq!(
        status_into_running_time("Up 5 fortnights".to_string()),
        Err(InputError::UnknownUnit)
    );
}
