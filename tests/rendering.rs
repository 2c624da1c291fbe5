use nanji::cli::{
    build_listing, choose_selected_label, choose_zone_label, display_selected_zones, display_zones, resolve_zone_name, Listing,
};
use nanji::commands::{base, choose_zone_source, parse_zone_list, show, ZoneSource};
use nanji::config::{alias_map, Config};
use nanji::zone::{ConvertError, Instant};

fn no_config() -> Config {
    Config { zones: None, aliases: None }
}

fn labels(l: &Listing) -> Vec<String> {
    l.rows.iter().map(|r| r.label.clone()).collect()
}

#[test]
fn default_includes_common_timezones() {
    let l = show::run(None, false, &no_config());
    let labels = labels(&l);
    assert!(labels.contains(&"Asia/Tokyo".to_string()));
    assert!(labels.contains(&"America/Chicago".to_string()));
}

#[test]
fn base_tokyo_reflects_input_minutes() {
    let l = base::run("tokyo", "09:10", None, false, &no_config()).ok().unwrap();
    let row = l.rows.iter().find(|r| r.label == "Asia/Tokyo").unwrap();
    assert!(row.local_time.contains("09:10"));
}

#[test]
fn base_dallas_reflects_input_minutes() {
    let l = base::run("dallas", "09:00", None, false, &no_config()).ok().unwrap();
    let row = l.rows.iter().find(|r| r.label == "America/Chicago").unwrap();
    assert!(row.local_time.contains("09:00"));
}

#[test]
fn zones_filter_limits_output() {
    let l = show::run(Some("Asia/Tokyo,America/Chicago"), false, &no_config());
    assert_eq!(labels(&l), vec!["Asia/Tokyo".to_string(), "America/Chicago".to_string()]);
    assert!(!labels(&l).contains(&"America/Los_Angeles".to_string()));
}

#[test]
fn invalid_time_in_base_mode_shows_error() {
    match base::run("tokyo", "31:00", None, false, &no_config()) {
        Err(base::RunError::InvalidTime(m)) => assert!(m.contains("invalid time format")),
        _ => panic!("expected an invalid time error"),
    }
}

#[test]
fn alias_labels_output_when_requested() {
    let l = show::run(Some("tokyo,dallas"), true, &no_config());
    assert_eq!(labels(&l), vec!["tokyo".to_string(), "dallas".to_string()]);
}

#[test]
fn alias_labels_used_in_all_zones_when_alias_flag() {
    let l = show::run(None, true, &no_config());
    let labels = labels(&l);
    assert!(labels.contains(&"tokyo".to_string()));
    assert!(!labels.contains(&"Asia/Tokyo".to_string()));
    assert!(labels.contains(&"california".to_string()));
    assert!(!labels.contains(&"la".to_string()));
}

#[test]
fn unknown_base_zone_is_reported() {
    match base::run("Nowhere/Special", "09:00", None, false, &no_config()) {
        Err(base::RunError::UnknownBaseZone(n)) => assert_eq!(n, "Nowhere/Special"),
        _ => panic!("expected an unknown zone error"),
    }
}

#[test]
fn unknown_selected_zone_is_skipped_not_fatal() {
    let table = alias_map(&no_config());
    let zones = vec!["tokyo".to_string(), "Mars/Olympus".to_string(), "America/Chicago".to_string()];
    let l = display_selected_zones(&Instant { seconds: 0 }, &zones, &table, false);
    assert_eq!(labels(&l), vec!["tokyo".to_string(), "America/Chicago".to_string()]);
    assert_eq!(l.skipped, vec!["Mars/Olympus".to_string()]);
    assert_eq!(l.width, 15);
    assert_eq!(l.instant, Instant { seconds: 0 });
    assert_eq!(l.rows[0].local_time, "1970-01-01 09:00");
    assert_eq!(l.rows[1].local_time, "1969-12-31 18:00");
}

#[test]
fn command_line_zones_win_over_config() {
    let config = Config { zones: Some(vec!["Europe/Paris".to_string()]), aliases: None };
    match choose_zone_source(Some("tokyo"), &config) {
        ZoneSource::Selected(v) => assert_eq!(v, vec!["tokyo".to_string()]),
        ZoneSource::All => panic!("expected the command line's zones"),
    }
    match choose_zone_source(Some(" , "), &config) {
        ZoneSource::Selected(v) => assert_eq!(v, vec!["Europe/Paris".to_string()]),
        ZoneSource::All => panic!("expected the configuration's zones"),
    }
    assert!(matches!(choose_zone_source(None, &no_config()), ZoneSource::All));
    let empty = Config { zones: Some(vec![]), aliases: None };
    assert!(matches!(choose_zone_source(None, &empty), ZoneSource::All));
}

#[test]
fn zone_list_is_trimmed_and_drops_empty_pieces() {
    assert_eq!(
        parse_zone_list(" tokyo , ,America/Chicago,"),
        vec!["tokyo".to_string(), "America/Chicago".to_string()]
    );
    assert!(parse_zone_list("").is_empty());
}

#[test]
fn listing_width_counts_shown_labels_only() {
    let l = build_listing(Instant { seconds: 0 }, &vec![
        ("ab".to_string(), Some("x".to_string())),
        ("abcdef".to_string(), None),
        ("abc".to_string(), Some("y".to_string())),
    ]);
    assert_eq!(l.width, 3);
    assert_eq!(l.rows.len(), 2);
    assert_eq!(l.skipped, vec!["abcdef".to_string()]);
    assert!(build_listing(Instant { seconds: 0 }, &vec![]).width == 0);
    let l = build_listing(
        Instant { seconds: 0 },
        &vec![("abcdef".to_string(), None), ("ab".to_string(), Some("x".to_string()))],
    );
    assert_eq!(l.width, 2);
}

#[test]
fn labels_follow_the_labelling_mode() {
    let table = alias_map(&no_config());
    assert_eq!(resolve_zone_name("LA", &table), "America/Los_Angeles");
    assert_eq!(resolve_zone_name("Europe/Paris", &table), "Europe/Paris");
    assert_eq!(choose_selected_label("America/Chicago", &table, true), "dallas");
    assert_eq!(choose_selected_label("LA", &table, true), "LA");
    assert_eq!(choose_selected_label("America/Chicago", &table, false), "America/Chicago");
    assert_eq!(choose_zone_label("America/New_York", &table, true), "new_york");
    assert_eq!(choose_zone_label("Europe/Paris", &table, true), "Europe/Paris");
    assert_eq!(choose_zone_label("Asia/Tokyo", &table, false), "Asia/Tokyo");
}

#[test]
fn conversion_error_messages_are_distinct() {
    assert_ne!(ConvertError::OutOfRange.message(), ConvertError::NonexistentLocalTime.message());
}

#[test]
fn full_listing_reports_unknown_names_and_keeps_order() {
    let table = alias_map(&no_config());
    let names = vec!["Asia/Tokyo".to_string(), "Nowhere/Else".to_string(), "Europe/Paris".to_string()];
    let l = display_zones(&Instant { seconds: 3600 }, &names, &table, true);
    assert_eq!(labels(&l), vec!["tokyo".to_string(), "Europe/Paris".to_string()]);
    assert_eq!(l.skipped, vec!["Nowhere/Else".to_string()]);
    assert_eq!(l.width, 12);
    assert_eq!(l.rows[0].local_time, "1970-01-01 10:00");
    assert_eq!(l.rows[1].local_time, "1970-01-01 02:00");
}

#[test]
fn base_listing_holds_the_converted_instant() {
    let l = base::run("tokyo", "09:10", Some("Asia/Tokyo"), false, &no_config()).ok().unwrap();
    let ts = jiff::Timestamp::from_second(l.instant.seconds).unwrap();
    let local = ts.to_zoned(jiff::tz::TimeZone::get("Asia/Tokyo").unwrap());
    assert_eq!((local.hour(), local.minute()), (9, 10));
    assert_eq!(l.rows.len(), 1);
    assert!(l.rows[0].local_time.ends_with("09:10"));
}
