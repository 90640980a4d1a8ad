use biscuit::BiscuitSnapshot;
use biscuit::Timestamp;

use chrono::TimeZone;

fn fixed_ts() -> Timestamp {
    Timestamp { year: 2020, month: 1, day: 2, hour: 3, minute: 4, second: 5 }
}

#[test]
fn create_keeps_name_and_starts_empty() {
    let s = BiscuitSnapshot::create_with_name("my snapshot");
    assert_eq!(s.name, "my snapshot");
    assert!(s.package_infos.is_empty());
    assert!(s.datetime.is_valid());
}

#[test]
fn create_timestamp_is_close_to_now() {
    let before = chrono::Utc::now();
    let s = BiscuitSnapshot::create_with_name("t");
    let after = chrono::Utc::now();
    let t = s.datetime;
    let got = chrono::Utc
        .with_ymd_and_hms(
            t.year as i32,
            t.month as u32,
            t.day as u32,
            t.hour as u32,
            t.minute as u32,
            t.second as u32,
        )
        .unwrap();
    // Whole-second fields: allow a one-second truncation below `before`.
    assert!(got >= before - chrono::TimeDelta::seconds(1));
    assert!(got <= after + chrono::TimeDelta::seconds(1));
}

#[test]
fn add_package_info_keeps_call_order_and_fields() {
    let mut s = BiscuitSnapshot::create_at("inv", fixed_ts());
    s.add_package_info("bash", "5.2.15-1");
    s.add_package_info(" Spaced  Name ", "V-1.0.GAMMA");
    s.add_package_info("bash", "5.2.15-1");
    assert_eq!(s.package_infos.len(), 3);
    assert_eq!(s.package_infos[0].name, "bash");
    assert_eq!(s.package_infos[0].version, "5.2.15-1");
    assert_eq!(s.package_infos[1].name, " Spaced  Name ");
    assert_eq!(s.package_infos[1].version, "V-1.0.GAMMA");
    assert_eq!(s.package_infos[2].name, "bash");
    assert_eq!(s.package_infos[2].version, "5.2.15-1");
    assert_eq!(s.name, "inv");
    assert_eq!(s.datetime, fixed_ts());
}

#[test]
fn empty_snapshot_serializes_exactly() {
    let s = BiscuitSnapshot::create_at("test1", fixed_ts());
    let out = s.to_toml_string();
    assert_eq!(out, "name = \"test1\"\ndatetime = \"2020-01-02T03:04:05Z\"\n");
    let v: toml::Value = toml::from_str(&out).unwrap();
    assert_eq!(v.get("name").unwrap().as_str().unwrap(), "test1");
    let dt = v.get("datetime").unwrap().as_str().unwrap();
    assert!(chrono::DateTime::parse_from_rfc3339(dt).is_ok());
    assert!(v.get("package_infos").is_none());
}

#[test]
fn two_packages_serialize_exactly_in_order() {
    let mut s = BiscuitSnapshot::create_at("test1", fixed_ts());
    s.add_package_info("bash", "5.2.15-1");
    s.add_package_info("coreutils", "9.3-1");
    let out = s.to_toml_string();
    assert_eq!(
        out,
        "name = \"test1\"\ndatetime = \"2020-01-02T03:04:05Z\"\n\
         \n[[package_infos]]\nname = \"bash\"\nversion = \"5.2.15-1\"\n\
         \n[[package_infos]]\nname = \"coreutils\"\nversion = \"9.3-1\"\n"
    );
    let v: toml::Value = toml::from_str(&out).unwrap();
    let infos = v.get("package_infos").unwrap().as_array().unwrap();
    assert_eq!(infos.len(), 2);
    assert_eq!(infos[0].get("name").unwrap().as_str().unwrap(), "bash");
    assert_eq!(infos[0].get("version").unwrap().as_str().unwrap(), "5.2.15-1");
    assert_eq!(infos[1].get("name").unwrap().as_str().unwrap(), "coreutils");
    assert_eq!(infos[1].get("version").unwrap().as_str().unwrap(), "9.3-1");
}

#[test]
fn toml_parser_round_trips_name_instant_and_records() {
    let mut s = BiscuitSnapshot::create_at("round trip", fixed_ts());
    s.add_package_info("pkg-one", "1:2.3-4");
    s.add_package_info("pkg-two", "0.0.1");
    let out = s.to_toml_string();
    let v: toml::Value = toml::from_str(&out).unwrap();
    assert_eq!(v.get("name").unwrap().as_str().unwrap(), "round trip");
    let dt = v.get("datetime").unwrap().as_str().unwrap();
    let parsed = chrono::DateTime::parse_from_rfc3339(dt).unwrap();
    let expected = chrono::Utc.with_ymd_and_hms(2020, 1, 2, 3, 4, 5).unwrap();
    assert_eq!(parsed, expected);
    let infos = v.get("package_infos").unwrap().as_array().unwrap();
    assert_eq!(infos.len(), 2);
    assert_eq!(infos[0].get("name").unwrap().as_str().unwrap(), "pkg-one");
    assert_eq!(infos[0].get("version").unwrap().as_str().unwrap(), "1:2.3-4");
    assert_eq!(infos[1].get("name").unwrap().as_str().unwrap(), "pkg-two");
    assert_eq!(infos[1].get("version").unwrap().as_str().unwrap(), "0.0.1");
}

#[test]
fn strings_needing_escapes_round_trip() {
    let odd_name = "quote \" backslash \\ tab \t newline \n done";
    let odd_version = "ctrl \u{1} del \u{7f} end";
    let mut s = BiscuitSnapshot::create_at(odd_name, fixed_ts());
    s.add_package_info(odd_name, odd_version);
    let out = s.to_toml_string();
    let v: toml::Value = toml::from_str(&out).unwrap();
    assert_eq!(v.get("name").unwrap().as_str().unwrap(), odd_name);
    let infos = v.get("package_infos").unwrap().as_array().unwrap();
    assert_eq!(infos[0].get("name").unwrap().as_str().unwrap(), odd_name);
    assert_eq!(infos[0].get("version").unwrap().as_str().unwrap(), odd_version);
}

#[test]
fn empty_name_still_serializes_to_valid_toml() {
    let s = BiscuitSnapshot::create_at("", fixed_ts());
    let out = s.to_toml_string();
    assert_eq!(out, "name = \"\"\ndatetime = \"2020-01-02T03:04:05Z\"\n");
    let v: toml::Value = toml::from_str(&out).unwrap();
    assert_eq!(v.get("name").unwrap().as_str().unwrap(), "");
}

#[test]
fn year_and_fields_are_zero_padded() {
    let t = Timestamp { year: 987, month: 11, day: 3, hour: 0, minute: 59, second: 7 };
    let s = BiscuitSnapshot::create_at("pad", t);
    let out = s.to_toml_string();
    assert_eq!(out, "name = \"pad\"\ndatetime = \"0987-11-03T00:59:07Z\"\n");
}

#[test]
fn default_output_filename_appends_toml_extension() {
    assert_eq!(biscuit::snapshot::default_output_filename("test1"), "test1.toml");
    assert_eq!(biscuit::snapshot::default_output_filename(""), ".toml");
}

#[test]
fn timestamp_validity_check() {
    assert!(fixed_ts().is_valid());
    let bad_month = Timestamp { month: 13, ..fixed_ts() };
    assert!(!bad_month.is_valid());
    let bad_day = Timestamp { day: 0, ..fixed_ts() };
    assert!(!bad_day.is_valid());
    let bad_hour = Timestamp { hour: 24, ..fixed_ts() };
    assert!(!bad_hour.is_valid());
}
