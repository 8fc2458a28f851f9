use liblocale::{build_entry, extract_identifiers};

#[test]
fn extracts_identifier_after_marker() {
    let ids = extract_identifiers("# en_US.UTF-8 comment\n");
    assert_eq!(ids, vec!["en_US.UTF-8"]);
}

#[test]
fn extracts_several_identifiers() {
    let ids = extract_identifiers("# en_US.UTF-8 UTF-8\n# fr_FR.UTF-8 UTF-8\n");
    assert_eq!(ids, vec!["en_US.UTF-8", "fr_FR.UTF-8"]);
}

#[test]
fn segment_without_space_only_loses_trailing_char() {
    let ids = extract_identifiers("# km_KH.UTF-8\n");
    assert_eq!(ids, vec!["km_KH.UTF-8"]);
}

#[test]
fn text_without_marker_is_one_segment() {
    // the whole text is one segment: it loses its trailing character
    let ids = extract_identifiers("hello");
    assert_eq!(ids, vec!["hell"]);
}

#[test]
fn empty_input_yields_no_identifiers() {
    assert_eq!(extract_identifiers(""), Vec::<String>::new());
}

#[test]
fn builds_entry_from_facility_output() {
    let dump = "LANG=fr_FR.UTF-8\nLC_TIME=\"fr_FR.UTF-8\"\n";
    let data = build_entry("France\n", dump);
    assert_eq!(data.country, "France");
    assert_eq!(data.flag, "");
    assert_eq!(data.locale.lang, "fr_FR.UTF-8");
    assert_eq!(data.locale.lc_time, "fr_FR.UTF-8");
    assert_eq!(data.locale.lc_all, "");
}

#[test]
fn entry_from_failed_invocation_stays_empty() {
    let data = build_entry("", "");
    assert_eq!(data.country, "");
    assert_eq!(data.locale.lang, "");
}

#[test]
fn country_trim_removes_one_trailing_newline() {
    let data = build_entry("Japan\n\n", "");
    assert_eq!(data.country, "Japan\n");
}
