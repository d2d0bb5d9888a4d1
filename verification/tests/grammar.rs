use cf_app_log_detector::{
    parse_cf_app_log, parse_channel, parse_component, parse_component_name, parse_date, Channel,
    ChannelValid, Component, ComponentInfoValid, NoMatch, Timestamp,
};
use chrono::{DateTime, Datelike, FixedOffset, TimeZone, Timelike};

const PAYLOAD: &str = "2021-09-28 08:00:09.361 DEBUG [,6152cb8077136e53942078a29eb7d0d8,942078a29eb7d0d8] 15 --- [   scheduling-1] i.s.l.r.s.ReminderEmailSchedulerImpl     : result ===> false";

fn stamp(at: DateTime<FixedOffset>) -> Timestamp {
    Timestamp {
        year: at.year(),
        month: at.month(),
        day: at.day(),
        hour: at.hour(),
        minute: at.minute(),
        second: at.second(),
        nanosecond: at.nanosecond(),
        offset_seconds: at.offset().local_minus_utc(),
    }
}

#[test]
#[allow(deprecated)]
fn test_parse_date() {
    let expected = FixedOffset::east(9 * 3600)
        .ymd(2021, 9, 28)
        .and_hms_milli(11, 58, 42, 730);

    assert_eq!(
        parse_date("2021-09-28T11:58:42.73+0900 "),
        Ok((" ", stamp(expected)))
    );
    assert_eq!(
        parse_date("2021-09-28T11:58:42.73+0900 "),
        Ok((
            " ",
            Timestamp {
                year: 2021,
                month: 9,
                day: 28,
                hour: 11,
                minute: 58,
                second: 42,
                nanosecond: 730_000_000,
                offset_seconds: 9 * 3600,
            }
        ))
    );

    assert_eq!(parse_date("[10/Oct/2000:13:55:36] "), Err(NoMatch));
}

#[test]
fn test_component_name() {
    assert_eq!(parse_component_name("API"), Ok(("", Component::API)));
    assert_eq!(
        parse_component_name("APP"),
        Ok(("", Component::APPLICATION))
    );
    assert_eq!(parse_component_name("CELL"), Ok(("", Component::CELL)));
    assert_eq!(
        parse_component_name("LGR"),
        Ok(("", Component::LOGGREGATOR))
    );
    assert_eq!(parse_component_name("RTR"), Ok(("", Component::ROUTER)));
    assert_eq!(parse_component_name("SSH"), Ok(("", Component::SSH)));
    assert_eq!(parse_component_name("STG"), Ok(("", Component::STAGING)));
}

#[test]
fn test_component_api() {
    let res = parse_component("[API/0]");
    println!("{:#?}\n", res);
    assert!(res.is_ok(), "res: {:#?}", res);

    let res = res.unwrap();
    assert_eq!(res.0, "");
    match res.1 {
        ComponentInfoValid::Valid(component_info) => {
            assert_eq!(component_info.name, Component::API);
            assert_eq!(component_info.index, 0);
        }
        ComponentInfoValid::Invalid(str) => panic!("Invalid component [{}]", str),
    }
}

#[test]
fn test_component_app() {
    let res = parse_component("[APP/PROC/WEB/0]");
    assert!(res.is_ok(), "res: {:#?}", res);

    let res = res.unwrap();
    assert_eq!(res.0, "");
    match res.1 {
        ComponentInfoValid::Valid(component_info) => {
            assert_eq!(component_info.name, Component::APPLICATION);
            assert_eq!(component_info.index, 0);
        }
        ComponentInfoValid::Invalid(str) => panic!("Invalid component [{}]", str),
    }
}

#[test]
fn test_component_unknown_component() {
    let res = parse_component("[FOO/0]");
    assert!(res.is_ok(), "res: {:#?}", res);

    let res = res.unwrap();
    assert_eq!(res.0, "");
    match res.1 {
        ComponentInfoValid::Valid(_) => panic!("should be Invalid"),
        ComponentInfoValid::Invalid(left) => {
            assert_eq!(left, "FOO/0");
        }
    }
}

#[test]
fn test_channel_stdout() {
    let res = parse_channel("OUT");
    assert!(res.is_ok(), "res: {:#?}", res);

    let res = res.unwrap();
    assert_eq!(res.0, "");
    match res.1 {
        ChannelValid::Valid(channel) => {
            assert_eq!(channel, Channel::STDOUT);
        }
        ChannelValid::Invalid(_) => panic!("should be valid"),
    }
}

#[test]
fn test_channel_stderr() {
    let res = parse_channel("ERR");
    assert!(res.is_ok(), "res: {:#?}", res);

    let res = res.unwrap();
    assert_eq!(res.0, "");
    match res.1 {
        ChannelValid::Valid(channel) => {
            assert_eq!(channel, Channel::STDERR);
        }
        ChannelValid::Invalid(_) => panic!("should be valid"),
    }
}

#[test]
#[allow(deprecated)]
fn test_parse_cf_app_log() {
    let entry = parse_cf_app_log(
        r#"2021-09-28T17:00:09.36+0900 [APP/PROC/WEB/0] OUT 2021-09-28 08:00:09.361 DEBUG [,6152cb8077136e53942078a29eb7d0d8,942078a29eb7d0d8] 15 --- [   scheduling-1] i.s.l.r.s.ReminderEmailSchedulerImpl     : result ===> false"#,
    );
    assert!(entry.is_ok(), "res: {:#?}", entry);

    let (rest, entry) = entry.unwrap();
    assert_eq!(rest, "");
    assert_eq!(
        entry.timestamp,
        stamp(
            FixedOffset::east(9 * 3600)
                .ymd(2021, 9, 28)
                .and_hms_milli(17, 0, 09, 360)
        )
    );
    match entry.component {
        ComponentInfoValid::Valid(comp) => {
            assert_eq!(comp.name, Component::APPLICATION);
            assert_eq!(comp.index, 0);
        }
        ComponentInfoValid::Invalid(_) => panic!("should be valid"),
    }
    match entry.channel {
        ChannelValid::Valid(chan) => {
            assert_eq!(chan, Channel::STDOUT);
        }
        ChannelValid::Invalid(_) => panic!("should be valid"),
    }
    assert_eq!(
        entry.message,
        Some("2021-09-28 08:00:09.361 DEBUG [,6152cb8077136e53942078a29eb7d0d8,942078a29eb7d0d8] 15 --- [   scheduling-1] i.s.l.r.s.ReminderEmailSchedulerImpl     : result ===> false")
    );
    assert_eq!(entry.message, Some(PAYLOAD));
}

#[test]
#[allow(deprecated)]
fn test_parse_cf_app_log_no_message() {
    let entry = parse_cf_app_log(r#"2021-09-28T17:00:09.36+0900 [RTR/0] OUT"#);
    assert!(entry.is_ok(), "res: {:#?}", entry);

    let entry = entry.unwrap().1;
    assert_eq!(
        entry.timestamp,
        stamp(
            FixedOffset::east(9 * 3600)
                .ymd(2021, 9, 28)
                .and_hms_milli(17, 0, 09, 360)
        )
    );
    match entry.component {
        ComponentInfoValid::Valid(comp) => {
            assert_eq!(comp.name, Component::ROUTER);
            assert_eq!(comp.index, 0);
        }
        ComponentInfoValid::Invalid(_) => panic!("should be valid"),
    }
    match entry.channel {
        ChannelValid::Valid(chan) => {
            assert_eq!(chan, Channel::STDOUT);
        }
        ChannelValid::Invalid(_) => panic!("should be valid"),
    }
    assert_eq!(entry.message, None);
}

#[test]
#[allow(deprecated)]
fn test_parse_cf_app_log_with_space_prefix() {
    let entry = parse_cf_app_log(
        r#"     2021-09-28T17:00:09.36+0900 [APP/PROC/WEB/0] OUT 2021-09-28 08:00:09.361 DEBUG [,6152cb8077136e53942078a29eb7d0d8,942078a29eb7d0d8] 15 --- [   scheduling-1] i.s.l.r.s.ReminderEmailSchedulerImpl     : result ===> false"#,
    );
    assert!(entry.is_ok(), "res: {:#?}", entry);

    let entry = entry.unwrap().1;
    assert_eq!(
        entry.timestamp,
        stamp(
            FixedOffset::east(9 * 3600)
                .ymd(2021, 9, 28)
                .and_hms_milli(17, 0, 09, 360)
        )
    );
    match entry.component {
        ComponentInfoValid::Valid(comp) => {
            assert_eq!(comp.name, Component::APPLICATION);
            assert_eq!(comp.index, 0);
        }
        ComponentInfoValid::Invalid(_) => panic!("should be valid"),
    }
    match entry.channel {
        ChannelValid::Valid(chan) => {
            assert_eq!(chan, Channel::STDOUT);
        }
        ChannelValid::Invalid(_) => panic!("should be valid"),
    }
    assert_eq!(
        entry.message,
        Some("2021-09-28 08:00:09.361 DEBUG [,6152cb8077136e53942078a29eb7d0d8,942078a29eb7d0d8] 15 --- [   scheduling-1] i.s.l.r.s.ReminderEmailSchedulerImpl     : result ===> false")
    );
}
