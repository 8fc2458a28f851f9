use liblocale::{Locale, LocaleData, LocaleGen};

fn entry(country: &str, lang: &str) -> LocaleData {
    LocaleData {
        country: country.to_string(),
        flag: String::new(),
        locale: Locale {
            lang: lang.to_string(),
            ..Locale::new()
        },
    }
}

#[test]
fn empty_catalog_has_no_entries() {
    let catalog = LocaleGen::new();
    assert!(catalog.get("en_US.UTF-8").is_none());
    assert_eq!(catalog.locales.len(), 0);
}

#[test]
fn insert_then_get() {
    let mut catalog = LocaleGen::new();
    catalog.insert("en_US.UTF-8".to_string(), entry("United States", "en_US.UTF-8"));
    let found = catalog.get("en_US.UTF-8").expect("entry must be found");
    assert_eq!(found.country, "United States");
    assert_eq!(found.locale.lang, "en_US.UTF-8");
    assert_eq!(found.flag, "");
}

#[test]
fn lookup_miss_reports_none() {
    let mut catalog = LocaleGen::new();
    catalog.insert("en_US.UTF-8".to_string(), entry("United States", "en_US.UTF-8"));
    assert!(catalog.get("fr_FR.UTF-8").is_none());
}

#[test]
fn insert_overrides_existing_entry() {
    let mut catalog = LocaleGen::new();
    catalog.insert("km_KH.UTF-8".to_string(), entry("Cambodia", "old"));
    catalog.insert("km_KH.UTF-8".to_string(), entry("Cambodia", "new"));
    assert_eq!(catalog.locales.len(), 1);
    let found = catalog.get("km_KH.UTF-8").expect("entry must be found");
    assert_eq!(found.locale.lang, "new");
}

#[test]
fn insert_returns_catalog_copy() {
    let mut catalog = LocaleGen::new();
    let copy = catalog.insert("de_DE.UTF-8".to_string(), entry("Germany", "de_DE.UTF-8"));
    assert_eq!(copy.locales.len(), 1);
    let found = copy.get("de_DE.UTF-8").expect("entry must be found");
    assert_eq!(found.country, "Germany");
}

#[test]
fn default_entry_is_empty() {
    let data = LocaleData::default();
    assert_eq!(data.country, "");
    assert_eq!(data.flag, "");
    assert_eq!(data.locale.lang, "");
    assert_eq!(data.locale.lc_all, "");
}
