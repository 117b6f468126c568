use openpanel::calendar::{civil_from_days, days_from_civil};
use openpanel::json::{Json, Members, Numeral};
use openpanel::json_path::{
    get_path, parse_json, render_output, set_json_path, validate_json, value_or, value_to_cell,
};
use openpanel::numeral::{parse_int, write_decimal, write_padded, write_signed, IntFault};
use openpanel::pattern::{contains, join, replace, split, split_once, starts_with};
use openpanel::redact::{is_secret_key, redact_secrets};
use openpanel::text::{before, is_white_space, same, to_lower, trim, trim_start};
use openpanel::time_window::{
    day_window_fits, format_epoch, local_day_window, normalize_rfc3339_bound, parse_day,
    parse_offset_minutes,
};

fn json(text: &str) -> Json {
    parse_json(text, "no JSON").unwrap()
}

fn texts(parts: &[&str]) -> Vec<String> {
    parts.iter().map(|part| part.to_string()).collect()
}

#[test]
fn white_space_is_that_of_unicode() {
    for code in 0u32..=0x10ffff {
        if let Some(c) = char::from_u32(code) {
            assert_eq!(is_white_space(c), c.is_whitespace(), "{code:x}");
        }
    }
}

#[test]
fn texts_are_trimmed_and_lowered_as_strings_are() {
    for s in ["", "  a b\u{a0}", "\t\n", "x", " \u{3000}é "] {
        assert_eq!(trim(s), s.trim());
        assert_eq!(trim_start(s), s.trim_start());
    }
    assert_eq!(to_lower("AbÇ1"), "AbÇ1".to_ascii_lowercase());
}

#[test]
fn texts_are_ordered_as_strings_are() {
    let words = ["", "a", "ab", "b", "é", "z\u{10000}", "z\u{ffff}"];
    for a in words {
        for b in words {
            assert_eq!(before(a, b), a < b);
            assert_eq!(same(a, b), a == b);
        }
    }
}

#[test]
fn patterns_are_found_as_in_strings() {
    for (s, pat) in [("a,b,,c", ","), ("aaa", "aa"), ("", "x"), ("abc", "abc"), ("x and y", " and ")] {
        assert_eq!(split(s, pat), texts(&s.split(pat).collect::<Vec<&str>>()));
        assert_eq!(contains(s, pat), s.contains(pat));
        assert_eq!(starts_with(s, pat), s.starts_with(pat));
        assert_eq!(replace(s, pat, "--"), s.replace(pat, "--"));
        let sides = s.split_once(pat).map(|(a, b)| (a.to_string(), b.to_string()));
        assert_eq!(split_once(s, pat), sides);
    }
    assert_eq!(join(&texts(&["a", "b"]), ", "), "a, b");
    assert_eq!(join(&Vec::new(), ", "), "");
}

#[test]
fn numbers_are_written_as_format_writes_them() {
    for n in [0i64, 7, -7, 42, -42, 12345, i64::MAX, i64::MIN] {
        assert_eq!(write_signed(n), format!("{n}"));
        assert_eq!(write_padded(n, 4), format!("{n:04}"));
        assert_eq!(write_padded(n, 2), format!("{n:02}"));
    }
    assert_eq!(write_decimal(u64::MAX), format!("{}", u64::MAX));
}

#[test]
fn numbers_are_read_as_parse_reads_them() {
    let cases = [
        "", "+", "-", "0", "+5", "-5", "007", "12a", " 1", "--1", "9223372036854775807",
        "9223372036854775808", "-9223372036854775808", "-9223372036854775809",
    ];
    for s in cases {
        let read = parse_int(s, i64::MIN, i64::MAX).map_err(|fault| fault.message());
        assert_eq!(read, s.parse::<i64>().map_err(|e| e.to_string()), "{s}");
        let small = parse_int(s, 0, u32::MAX as i64).map_err(|fault| fault.message());
        assert_eq!(small, s.parse::<u32>().map(|n| n as i64).map_err(|e| e.to_string()), "{s}");
        let signed = parse_int(s, i32::MIN as i64, i32::MAX as i64).map_err(|fault| fault.message());
        assert_eq!(signed, s.parse::<i32>().map(|n| n as i64).map_err(|e| e.to_string()), "{s}");
    }
    assert_eq!(parse_int("", 0, 9), Err(IntFault::Empty));
    assert_eq!(parse_int("x", 0, 9), Err(IntFault::InvalidDigit));
    assert_eq!(parse_int("10", 0, 9), Err(IntFault::TooLarge));
    assert_eq!(parse_int("-10", -9, 9), Err(IntFault::TooSmall));
}

#[test]
fn days_and_dates_belong_together() {
    assert_eq!(days_from_civil(1970, 1, 1), 0);
    assert_eq!(civil_from_days(0), (1970, 1, 1));
    assert_eq!(days_from_civil(2000, 3, 1), 11017);
    assert_eq!(civil_from_days(-1), (1969, 12, 31));
    assert_eq!(civil_from_days(59), (1970, 3, 1));
    let mut next = (1896, 1, 1);
    let mut day = days_from_civil(1896, 1, 1);
    while next < (1904, 12, 31) {
        assert_eq!(civil_from_days(day), next);
        assert_eq!(days_from_civil(next.0, next.1, next.2), day);
        day += 1;
        next = civil_from_days(day);
    }
}

#[test]
fn moments_are_written_in_full() {
    assert_eq!(format_epoch(0, 0), "1970-01-01T00:00:00.000Z");
    assert_eq!(format_epoch(-1, 999), "1969-12-31T23:59:59.999Z");
    assert_eq!(format_epoch(951_827_696, 5), "2000-02-29T12:34:56.005Z");
}

#[test]
fn days_are_read_in_three_parts() {
    assert_eq!(parse_day("2026-05-12").unwrap(), (2026, 5, 12));
    assert_eq!(parse_day("2026-05").unwrap_err().message, "invalid --day");
    assert_eq!(parse_day("2026-05-12-1").unwrap_err().message, "invalid --day");
    assert_eq!(parse_day("-2026-05-12").unwrap_err().message, "cannot parse integer from empty string");
    assert_eq!(parse_day("2026-x-12").unwrap_err().message, "invalid digit found in string");
}

#[test]
fn offsets_are_read_with_their_sign() {
    assert_eq!(parse_offset_minutes("+07:30").unwrap(), 450);
    assert_eq!(parse_offset_minutes("-07:30").unwrap(), -450);
    assert_eq!(parse_offset_minutes("07:30").unwrap_err().message, "invalid --tz-offset");
    assert_eq!(parse_offset_minutes("+07").unwrap_err().message, "invalid --tz-offset");
    assert_eq!(parse_offset_minutes("+a:00").unwrap_err().message, "invalid digit found in string");
}

#[test]
fn days_adjoin() {
    assert!(day_window_fits("2024-02-29", "+00:00"));
    let leap = local_day_window("2024-02-29", "-03:00").unwrap();
    assert_eq!(leap.0, "2024-02-29T03:00:00.000Z");
    assert_eq!(leap.1, "2024-03-01T02:59:59.999Z");
    let next = local_day_window("2024-03-01", "-03:00").unwrap();
    assert_eq!(next.0, "2024-03-01T03:00:00.000Z");
    assert!(!day_window_fits("2147483647-12-01", "+00:00"));
}

#[test]
fn bounds_get_their_milliseconds_once() {
    assert_eq!(normalize_rfc3339_bound("2026-05-01T00:00:00Z", false), "2026-05-01T00:00:00.000Z");
    assert_eq!(normalize_rfc3339_bound("2026-05-01T00:00:00Z", true), "2026-05-01T00:00:00.999Z");
    assert_eq!(normalize_rfc3339_bound("2026-05-01", true), "2026-05-01");
    assert_eq!(normalize_rfc3339_bound("1.5Z", true), "1.5Z");
    let once = normalize_rfc3339_bound("2026-05-01T00:00:00Z", true);
    assert_eq!(normalize_rfc3339_bound(&once, true), once);
}

#[test]
fn json_is_read_and_written() {
    let text = r#"{"b":[1,-2,3.5,1e300,true,null],"a":{"x":"é\n"}}"#;
    let value = json(text);
    assert_eq!(
        render_output(&value, false).unwrap(),
        "{\"a\":{\"x\":\"é\\n\"},\"b\":[1,-2,3.5,1e+300,true,null]}"
    );
    assert_eq!(render_output(&json(r#"{"a":1}"#), true).unwrap(), "{\n  \"a\": 1\n}");
    assert_eq!(get_path(&value, "b"), get_path(&json(text), "b"));
    assert_eq!(json("18446744073709551615"), Json::Number(Numeral::Unsigned(u64::MAX)));
    assert_eq!(json("-1"), Json::Number(Numeral::Negative(-1)));
    assert_eq!(json(r#"{"a":1,"a":2}"#), json(r#"{"a":2}"#));
}

#[test]
fn text_that_is_no_json_is_refused() {
    assert_eq!(parse_json("{", "bad").unwrap_err().message, "bad");
    assert_eq!(validate_json("[1,").unwrap_err().message, "invalid JSON");
    assert!(validate_json("[1]").is_ok());
    assert_eq!(value_or(Err("why".to_string()), "bad").unwrap_err().message, "bad");
    assert_eq!(value_or(Ok(Json::Null), "bad").unwrap(), Json::Null);
}

#[test]
fn paths_are_set_and_read() {
    let mut value = json(r#"{"a": 1, "k": "v"}"#);
    set_json_path(&mut value, "a.b.c", json("[2]")).unwrap();
    assert_eq!(value, json(r#"{"a": {"b": {"c": [2]}}, "k": "v"}"#));
    assert_eq!(get_path(&value, "a.b.c"), Some(&json("[2]")));
    assert_eq!(get_path(&value, "k"), Some(&Json::Text("v".to_string())));
    assert_eq!(get_path(&value, "a.x"), None);
    set_json_path(&mut value, "$", Json::Bool(true)).unwrap();
    assert_eq!(value, Json::Bool(true));
}

#[test]
fn cells_hold_plain_text() {
    assert_eq!(value_to_cell(None), "");
    assert_eq!(value_to_cell(Some(&Json::Null)), "");
    assert_eq!(value_to_cell(Some(&json("\"a,b\""))), "a,b");
    assert_eq!(value_to_cell(Some(&json("2.50"))), "2.5");
    assert_eq!(value_to_cell(Some(&json("-3"))), "-3");
    assert_eq!(value_to_cell(Some(&json("false"))), "false");
    assert_eq!(value_to_cell(Some(&json(r#"{"b": [1, 2]}"#))), r#"{"b":[1,2]}"#);
}

#[test]
fn members_are_sorted_and_unique() {
    let members = Members::new()
        .insert("b".to_string(), Json::Bool(true))
        .insert("a".to_string(), Json::Null)
        .insert("b".to_string(), Json::Bool(false));
    assert_eq!(members.names(), texts(&["a", "b"]));
    assert_eq!(members.len(), 2);
    assert_eq!(members.get("b"), Some(&Json::Bool(false)));
    let (rest, taken) = members.take("a");
    assert_eq!(taken, Some(Json::Null));
    assert_eq!(rest.names(), texts(&["b"]));
}

#[test]
fn secrets_are_hidden_at_any_depth() {
    assert!(is_secret_key("clientSecret") && is_secret_key("TOKENS") && is_secret_key("Password"));
    assert!(!is_secret_key("passwords") && !is_secret_key("name"));
    let value = json(r#"{"a": [{"apiToken": {"x": 1}, "n": 2}], "secret": null, "password": "p"}"#);
    let hidden = redact_secrets(value);
    let want = r#"{"a":[{"apiToken":"<redacted>","n":2}],"password":"<redacted>","secret":"<redacted>"}"#;
    assert_eq!(render_output(&hidden, false).unwrap(), want);
    assert_eq!(redact_secrets(json(want)), json(want));
}

#[test]
fn moments_are_ordered_as_their_texts_are() {
    let moments = [(-1, 999), (0, 0), (0, 999), (1, 0), (86_399, 5), (86_400, 4), (951_827_696, 1)];
    for a in moments {
        for b in moments {
            let (first, second) = (format_epoch(a.0, a.1), format_epoch(b.0, b.1));
            assert_eq!(before(&first, &second), a < b);
        }
    }
}

#[test]
fn timestamps_have_one_form() {
    for (epoch, millis) in [(0, 0), (-62_135_596_800, 7), (253_402_300_799, 999), (951_827_696, 50)] {
        let written = format_epoch(epoch, millis);
        assert_eq!(written.len(), 24);
        for (i, c) in written.chars().enumerate() {
            match i {
                4 | 7 => assert_eq!(c, '-'),
                10 => assert_eq!(c, 'T'),
                13 | 16 => assert_eq!(c, ':'),
                19 => assert_eq!(c, '.'),
                23 => assert_eq!(c, 'Z'),
                _ => assert!(c.is_ascii_digit()),
            }
        }
    }
    assert_eq!(format_epoch(253_402_300_799, 999), "9999-12-31T23:59:59.999Z");
    assert_eq!(format_epoch(-62_135_596_800, 7), "0001-01-01T00:00:00.007Z");
}
