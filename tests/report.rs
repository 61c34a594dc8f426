use ctly_report::calendar::utc_date;
use ctly_report::json::{put_member, take_child, take_member, Json, JsonNumber};
use ctly_report::report::{aggregate, build_report, field_name_of, normalize_entry, report_json, Report};

fn num(n: u64) -> Json {
    Json::Number(JsonNumber { positive: true, mantissa: n, exponent: 0 })
}

fn obj(members: Vec<(&str, Json)>) -> Json {
    Json::Object(members.into_iter().map(|(k, v)| (k.to_string(), v)).collect())
}

fn entry(members: Vec<(&str, Json)>) -> Vec<(String, Json)> {
    members.into_iter().map(|(k, v)| (k.to_string(), v)).collect()
}

fn snapshot_for_march_15() -> Json {
    obj(vec![(
        "2024",
        obj(vec![(
            "3",
            obj(vec![(
                "15",
                obj(vec![
                    ("e", num(100)),
                    ("9", obj(vec![("e", num(10))])),
                    ("DE", obj(vec![("e", num(20))])),
                ]),
            )]),
        )]),
    )])
}

const MARCH_15_10H: i64 = 1_710_496_800;
const MARCH_15_2330H: i64 = 1_710_545_400;

#[test]
fn normalize_drops_unknown_codes() {
    let r = normalize_entry(entry(vec![("e", num(5)), ("n", num(2)), ("x", num(9))]));
    assert_eq!(r, entry(vec![("requests", num(5)), ("new", num(2))]));
}

#[test]
fn normalize_renames_every_code_and_drops_ds() {
    let r = normalize_entry(entry(vec![
        ("e", num(1)),
        ("n", num(2)),
        ("t", num(3)),
        ("u", num(4)),
        ("d", num(5)),
        ("ds", num(6)),
    ]));
    assert_eq!(
        r,
        entry(vec![
            ("requests", num(1)),
            ("new", num(2)),
            ("total", num(3)),
            ("unique", num(4)),
            ("total_duration", num(5)),
        ])
    );
}

#[test]
fn normalize_of_empty_entry_is_empty() {
    assert_eq!(normalize_entry(Vec::new()), Vec::new());
}

#[test]
fn normalize_passes_values_verbatim() {
    let r = normalize_entry(entry(vec![("u", Json::Str("x".to_string())), ("t", Json::Null)]));
    assert_eq!(r, entry(vec![("unique", Json::Str("x".to_string())), ("total", Json::Null)]));
}

#[test]
fn field_names() {
    assert_eq!(field_name_of(&"d".to_string()), Some("total_duration".to_string()));
    assert_eq!(field_name_of(&"ds".to_string()), None);
    assert_eq!(field_name_of(&"E".to_string()), None);
}

#[test]
fn classification_hours_countries_and_dropped() {
    let r = build_report(entry(vec![
        ("5", obj(vec![("e", num(1))])),
        ("US", obj(vec![("e", num(2))])),
        ("zz", obj(vec![("e", num(3))])),
    ]));
    assert_eq!(r.total, Vec::new());
    assert_eq!(r.hours, vec![("5".to_string(), entry(vec![("requests", num(1))]))]);
    assert_eq!(
        r.countries,
        vec![("United States of America".to_string(), entry(vec![("requests", num(2))]))]
    );
}

#[test]
fn non_object_children_are_skipped() {
    let r = build_report(entry(vec![("7", num(4)), ("FR", Json::Str("x".to_string()))]));
    assert!(r.hours.is_empty());
    assert!(r.countries.is_empty());
    assert!(r.total.is_empty());
}

#[test]
fn signed_hour_keys_are_hours() {
    let r = build_report(entry(vec![("+3", obj(vec![])), ("-1", obj(vec![]))]));
    assert_eq!(r.hours.len(), 2);
    assert_eq!(r.hours[0].0, "+3");
    assert!(r.countries.is_empty());
}

#[test]
fn end_to_end_utc() {
    let r = aggregate(snapshot_for_march_15(), MARCH_15_10H, 0).expect("bucket exists");
    let expected = obj(vec![
        ("total", obj(vec![("requests", num(100))])),
        ("hours", obj(vec![("9", obj(vec![("requests", num(10))]))])),
        ("countries", obj(vec![("Germany", obj(vec![("requests", num(20))]))])),
    ]);
    assert_eq!(r.into_json(), expected);
}

#[test]
fn aggregate_twice_is_identical() {
    let a = report_json(aggregate(snapshot_for_march_15(), MARCH_15_10H, 0));
    let b = report_json(aggregate(snapshot_for_march_15(), MARCH_15_10H, 0));
    assert_eq!(a, b);
}

#[test]
fn timezone_skew_moves_to_next_day() {
    assert_eq!(utc_date(MARCH_15_2330H), (2024, 3, 15));
    assert_eq!(utc_date(MARCH_15_2330H + 7200), (2024, 3, 16));
    assert!(aggregate(snapshot_for_march_15(), MARCH_15_2330H, 0).is_some());
    assert!(aggregate(snapshot_for_march_15(), MARCH_15_2330H, 7200).is_none());
    let next_day = obj(vec![("2024", obj(vec![("3", obj(vec![("16", obj(vec![("t", num(8))]))]))]))]);
    let r = aggregate(next_day, MARCH_15_2330H, 7200).expect("bucket of the 16th");
    assert_eq!(r.total, entry(vec![("total", num(8))]));
}

#[test]
fn negative_skew_moves_to_previous_day() {
    let r = aggregate(snapshot_for_march_15(), MARCH_15_10H + 86_400, -12 * 3600);
    assert!(r.is_some());
}

#[test]
fn missing_levels_give_empty_report() {
    assert!(aggregate(Json::Null, MARCH_15_10H, 0).is_none());
    assert!(aggregate(obj(vec![]), MARCH_15_10H, 0).is_none());
    assert!(aggregate(obj(vec![("2024", obj(vec![]))]), MARCH_15_10H, 0).is_none());
    let day_not_object = obj(vec![("2024", obj(vec![("3", obj(vec![("15", num(1))]))]))]);
    assert!(aggregate(day_not_object, MARCH_15_10H, 0).is_none());
    let padded = obj(vec![("2024", obj(vec![("03", obj(vec![("15", obj(vec![]))]))]))]);
    assert!(aggregate(padded, MARCH_15_10H, 0).is_none());
    assert_eq!(report_json(None), Json::Object(Vec::new()));
}

#[test]
fn empty_bucket_gives_empty_sections() {
    let snap = obj(vec![("2024", obj(vec![("3", obj(vec![("15", obj(vec![]))]))]))]);
    let r = aggregate(snap, MARCH_15_10H, 0).expect("bucket exists");
    assert_eq!(r.into_json(), obj(vec![("total", obj(vec![])), ("hours", obj(vec![])), ("countries", obj(vec![]))]));
}

#[test]
fn calendar_dates() {
    assert_eq!(utc_date(0), (1970, 1, 1));
    assert_eq!(utc_date(-1), (1969, 12, 31));
    assert_eq!(utc_date(951_782_400), (2000, 2, 29));
    assert_eq!(utc_date(MARCH_15_10H), (2024, 3, 15));
}

#[test]
fn country_codes_are_exact_upper_case_pairs() {
    let r = build_report(entry(vec![
        ("DE", obj(vec![("n", num(1))])),
        ("de", obj(vec![("n", num(2))])),
        ("DEU", obj(vec![("n", num(3))])),
    ]));
    assert_eq!(r.countries, vec![("Germany".to_string(), entry(vec![("new", num(1))]))]);
}

#[test]
fn member_lists() {
    let mut es = entry(vec![("a", num(1)), ("b", num(2))]);
    put_member(&mut es, "a".to_string(), num(3));
    put_member(&mut es, "c".to_string(), num(4));
    assert_eq!(es, entry(vec![("a", num(3)), ("b", num(2)), ("c", num(4))]));
    assert_eq!(take_member(es, &"b".to_string()), Some(num(2)));
    assert_eq!(take_child(Json::Bool(true), &"b".to_string()), None);
}

#[test]
fn report_sections_in_order() {
    let r = Report { total: Vec::new(), hours: Vec::new(), countries: Vec::new() };
    match r.into_json() {
        Json::Object(es) => {
            let keys: Vec<&str> = es.iter().map(|(k, _)| k.as_str()).collect();
            assert_eq!(keys, vec!["total", "hours", "countries"]);
        }
        _ => panic!("not an object"),
    }
}

#[test]
fn ds_with_object_value_is_dropped() {
    let r = normalize_entry(entry(vec![("ds", obj(vec![("x", num(1))])), ("e", num(1))]));
    assert_eq!(r, entry(vec![("requests", num(1))]));
    assert_eq!(normalize_entry(entry(vec![("ds", num(5))])), Vec::new());
}

#[test]
fn unknown_codes_do_not_change_normalized_entry() {
    let base = normalize_entry(entry(vec![("e", num(1)), ("u", num(2))]));
    let with_unknown = normalize_entry(entry(vec![("e", num(1)), ("zz", num(7)), ("u", num(2)), ("ds", Json::Null)]));
    assert_eq!(base, with_unknown);
}

#[test]
fn repeated_keys_keep_one_entry_with_the_last_value() {
    let r = build_report(entry(vec![
        ("5", obj(vec![("e", num(1))])),
        ("e", num(3)),
        ("5", obj(vec![("e", num(2))])),
        ("e", num(4)),
    ]));
    assert_eq!(r.hours, vec![("5".to_string(), entry(vec![("requests", num(2))]))]);
    assert_eq!(r.total, entry(vec![("requests", num(4))]));
}
