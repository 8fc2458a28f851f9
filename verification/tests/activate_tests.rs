use liblocale::{config_path, Locale, LocaleError, Target};

#[test]
fn global_scope_uses_fixed_system_path() {
    let path = config_path(Target::Global, None).expect("system path is always resolved");
    assert_eq!(path, "/etc/locale.conf");
}

#[test]
fn global_scope_ignores_home() {
    let path = config_path(Target::Global, Some("/home/user")).expect("system path");
    assert_eq!(path, "/etc/locale.conf");
}

#[test]
fn local_scope_resolves_under_home() {
    let path = config_path(Target::Local, Some("/home/user")).expect("home is given");
    assert_eq!(path, "/home/user/.config/locale.conf");
}

#[test]
fn local_scope_without_home_fails() {
    let err = config_path(Target::Local, None).expect_err("no home directory");
    assert_eq!(err, LocaleError::HomeUnavailable);
}

#[test]
fn activation_renders_fourteen_uniform_lines() {
    // a catalog entry with every field set to the same identifier renders
    // as fourteen KEY=identifier lines for the system-scoped file
    let record = Locale {
        lang: "en_US.UTF-8".to_string(),
        lc_ctype: "en_US.UTF-8".to_string(),
        lc_numeric: "en_US.UTF-8".to_string(),
        lc_time: "en_US.UTF-8".to_string(),
        lc_collate: "en_US.UTF-8".to_string(),
        lc_monetary: "en_US.UTF-8".to_string(),
        lc_messages: "en_US.UTF-8".to_string(),
        lc_paper: "en_US.UTF-8".to_string(),
        lc_name: "en_US.UTF-8".to_string(),
        lc_address: "en_US.UTF-8".to_string(),
        lc_telephone: "en_US.UTF-8".to_string(),
        lc_measurement: "en_US.UTF-8".to_string(),
        lc_identification: "en_US.UTF-8".to_string(),
        lc_all: "en_US.UTF-8".to_string(),
    };
    let path = config_path(Target::Global, None).expect("system path");
    assert_eq!(path, "/etc/locale.conf");
    let text = record.to_locale_string();
    let lines: Vec<&str> = text.lines().collect();
    assert_eq!(lines.len(), 14);
    for line in lines {
        let (key, value) = line.split_once('=').expect("each line has a separator");
        assert!(!key.is_empty());
        assert_eq!(value, "en_US.UTF-8");
    }
}
