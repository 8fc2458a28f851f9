use liblocale::{split_lines, Locale};

fn full_record(value: &str) -> Locale {
    Locale {
        lang: value.to_string(),
        lc_ctype: value.to_string(),
        lc_numeric: value.to_string(),
        lc_time: value.to_string(),
        lc_collate: value.to_string(),
        lc_monetary: value.to_string(),
        lc_messages: value.to_string(),
        lc_paper: value.to_string(),
        lc_name: value.to_string(),
        lc_address: value.to_string(),
        lc_telephone: value.to_string(),
        lc_measurement: value.to_string(),
        lc_identification: value.to_string(),
        lc_all: value.to_string(),
    }
}

#[test]
fn parse_serialize_round_trip() {
    let original = Locale {
        lang: "en_US.UTF-8".to_string(),
        lc_ctype: "de_DE.UTF-8".to_string(),
        lc_numeric: "fr_FR.UTF-8".to_string(),
        lc_time: "ja_JP.UTF-8".to_string(),
        lc_collate: "km_KH.UTF-8".to_string(),
        lc_monetary: "es_ES.UTF-8".to_string(),
        lc_messages: "it_IT.UTF-8".to_string(),
        lc_paper: "pt_PT.UTF-8".to_string(),
        lc_name: "nl_NL.UTF-8".to_string(),
        lc_address: "sv_SE.UTF-8".to_string(),
        lc_telephone: "no_NO.UTF-8".to_string(),
        lc_measurement: "da_DK.UTF-8".to_string(),
        lc_identification: "fi_FI.UTF-8".to_string(),
        lc_all: "".to_string(),
    };
    let text = original.to_locale_string();
    let parsed = Locale::from_vec_string(split_lines(&text));
    assert_eq!(parsed.lang, original.lang);
    assert_eq!(parsed.lc_ctype, original.lc_ctype);
    assert_eq!(parsed.lc_numeric, original.lc_numeric);
    assert_eq!(parsed.lc_time, original.lc_time);
    assert_eq!(parsed.lc_collate, original.lc_collate);
    assert_eq!(parsed.lc_monetary, original.lc_monetary);
    assert_eq!(parsed.lc_messages, original.lc_messages);
    assert_eq!(parsed.lc_paper, original.lc_paper);
    assert_eq!(parsed.lc_name, original.lc_name);
    assert_eq!(parsed.lc_address, original.lc_address);
    assert_eq!(parsed.lc_telephone, original.lc_telephone);
    assert_eq!(parsed.lc_measurement, original.lc_measurement);
    assert_eq!(parsed.lc_identification, original.lc_identification);
    assert_eq!(parsed.lc_all, original.lc_all);
}

#[test]
fn serialize_twice_is_identical() {
    let record = full_record("km_KH.UTF-8");
    assert_eq!(record.to_locale_string(), record.to_locale_string());
}

#[test]
fn unknown_key_leaves_fields_unchanged() {
    let record = Locale::from_vec_string(vec!["FOO=bar".to_string()]);
    let empty = Locale::new();
    assert_eq!(record.lang, empty.lang);
    assert_eq!(record.lc_ctype, empty.lc_ctype);
    assert_eq!(record.lc_numeric, empty.lc_numeric);
    assert_eq!(record.lc_time, empty.lc_time);
    assert_eq!(record.lc_collate, empty.lc_collate);
    assert_eq!(record.lc_monetary, empty.lc_monetary);
    assert_eq!(record.lc_messages, empty.lc_messages);
    assert_eq!(record.lc_paper, empty.lc_paper);
    assert_eq!(record.lc_name, empty.lc_name);
    assert_eq!(record.lc_address, empty.lc_address);
    assert_eq!(record.lc_telephone, empty.lc_telephone);
    assert_eq!(record.lc_measurement, empty.lc_measurement);
    assert_eq!(record.lc_identification, empty.lc_identification);
    assert_eq!(record.lc_all, empty.lc_all);
}

#[test]
fn quotes_are_stripped() {
    let record = Locale::from_vec_string(vec!["LC_CTYPE=\"en_US.UTF-8\"".to_string()]);
    assert_eq!(record.lc_ctype, "en_US.UTF-8");
}

#[test]
fn repeated_quotes_are_stripped() {
    let record = Locale::from_vec_string(vec!["LANG=\"\"x\"\"".to_string()]);
    assert_eq!(record.lang, "x");
}

#[test]
fn last_write_wins() {
    let record = Locale::from_vec_string(vec!["LANG=a".to_string(), "LANG=b".to_string()]);
    assert_eq!(record.lang, "b");
}

#[test]
fn line_without_equals_is_skipped() {
    let record = Locale::from_vec_string(vec![
        "no separator here".to_string(),
        "LANG".to_string(),
        "LC_TIME=km_KH.UTF-8".to_string(),
    ]);
    assert_eq!(record.lang, "");
    assert_eq!(record.lc_time, "km_KH.UTF-8");
}

#[test]
fn value_stops_at_second_equals() {
    let record = Locale::from_vec_string(vec!["LANG=a=b".to_string()]);
    assert_eq!(record.lang, "a");
}

#[test]
fn empty_value_is_kept_empty() {
    let record = Locale::from_vec_string(vec!["LC_PAPER=".to_string()]);
    assert_eq!(record.lc_paper, "");
}

#[test]
fn serialize_empty_record() {
    let expected = "LANG=\nLC_CTYPE=\nLC_NUMERIC=\nLC_TIME=\nLC_COLLATE=\nLC_MONETARY=\n\
        LC_MESSAGES=\nLC_PAPER=\nLC_NAME=\nLC_ADDRESS=\nLC_TELEPHONE=\nLC_MEASUREMENT=\n\
        LC_IDENTIFICATION=\nLC_ALL=\n";
    assert_eq!(Locale::new().to_locale_string(), expected);
}

#[test]
fn serialize_exact_text() {
    let record = Locale {
        lang: "en_US.UTF-8".to_string(),
        lc_time: "km_KH.UTF-8".to_string(),
        ..Locale::new()
    };
    let text = record.to_locale_string();
    let lines: Vec<&str> = text.lines().collect();
    assert_eq!(lines.len(), 14);
    assert_eq!(lines[0], "LANG=en_US.UTF-8");
    assert_eq!(lines[3], "LC_TIME=km_KH.UTF-8");
    assert_eq!(lines[13], "LC_ALL=");
    assert!(text.ends_with('\n'));
    assert!(!text.ends_with("\n\n"));
}

#[test]
fn split_lines_drops_only_final_newline() {
    assert_eq!(split_lines("a\nb\n"), vec!["a", "b"]);
    assert_eq!(split_lines("a\n\nb"), vec!["a", "", "b"]);
    assert_eq!(split_lines(""), Vec::<String>::new());
    assert_eq!(split_lines("plain"), vec!["plain"]);
}
