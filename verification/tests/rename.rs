use maybe_async_cfg::ident::{IdentRecord, Resolved};
use maybe_async_cfg::mode::ConvertMode;
use maybe_async_cfg::table::Table;

#[test]
fn mode_keywords_round_trip() {
    assert_eq!(ConvertMode::from_str("sync"), Some(ConvertMode::IntoSync));
    assert_eq!(ConvertMode::from_str("async"), Some(ConvertMode::IntoAsync));
    assert_eq!(ConvertMode::from_str("Sync"), None);
    assert_eq!(ConvertMode::from_str(""), None);
    assert_eq!(ConvertMode::IntoSync.to_str(), "sync");
    assert_eq!(ConvertMode::IntoAsync.to_str(), "async");
}

#[test]
fn new_record_holds_nothing() {
    let record = IdentRecord::new();
    assert!(!record.fn_mode);
    assert!(!record.use_mode);
    assert!(!record.keep);
    assert_eq!(record.ident_sync, None);
    assert_eq!(record.ident_async, None);
    assert!(record.idents.is_none());
}

#[test]
fn with_fn_mode_sets_only_the_flag() {
    let record = IdentRecord::with_fn_mode(true);
    assert!(record.fn_mode);
    assert!(!record.use_mode);
    assert!(!record.keep);
    assert_eq!(record.ident_sync, None);
    assert_eq!(record.ident_async, None);
    assert!(record.idents.is_none());
    assert!(!IdentRecord::with_fn_mode(false).fn_mode);
}

#[test]
fn default_rule_appends_the_suffix_of_the_mode() {
    let type_rule = IdentRecord::new();
    let renamed = |rule: &IdentRecord, ident: &str, mode: ConvertMode, key: Option<&str>| {
        rule.ident_add_suffix(ident, mode, key).unwrap()
    };
    assert_eq!(renamed(&type_rule, "Client", ConvertMode::IntoAsync, None), "ClientAsync");
    assert_eq!(renamed(&type_rule, "Client", ConvertMode::IntoSync, None), "ClientSync");
    let fn_rule = IdentRecord::with_fn_mode(true);
    assert_eq!(renamed(&fn_rule, "fetch", ConvertMode::IntoAsync, None), "fetch_async");
    assert_eq!(renamed(&fn_rule, "fetch", ConvertMode::IntoSync, None), "fetch_sync");
    assert_eq!(renamed(&fn_rule, "fetch", ConvertMode::IntoSync, Some("any")), "fetch_sync");
    assert_eq!(renamed(&fn_rule, "fetch", ConvertMode::IntoSync, None), "fetch_sync");
    assert_eq!(
        fn_rule.resolve("fetch", ConvertMode::IntoSync, None),
        Resolved::Suffixed("fetch_sync".to_string())
    );
    assert_eq!(
        type_rule.resolve("Client", ConvertMode::IntoAsync, Some("k")),
        Resolved::Suffixed("ClientAsync".to_string())
    );
}

#[test]
fn variant_name_beats_mode_name() {
    let mut names: Table<String> = Table::new();
    names.insert("fast".to_string(), "fetch_fast".to_string());
    let mut rule = IdentRecord::with_fn_mode(true);
    rule.ident_sync = Some("fetch_blocking".to_string());
    rule.ident_async = Some("fetch".to_string());
    rule.idents = Some(names);
    assert_eq!(
        rule.resolve("fetch", ConvertMode::IntoSync, Some("fast")),
        Resolved::Explicit("fetch_fast".to_string())
    );
    assert_eq!(
        rule.resolve("fetch", ConvertMode::IntoAsync, Some("fast")),
        Resolved::Explicit("fetch_fast".to_string())
    );
    assert_eq!(
        rule.resolve("fetch", ConvertMode::IntoSync, Some("slow")),
        Resolved::Explicit("fetch_blocking".to_string())
    );
    assert_eq!(
        rule.resolve("fetch", ConvertMode::IntoSync, None),
        Resolved::Explicit("fetch_blocking".to_string())
    );
    assert_eq!(
        rule.resolve("fetch", ConvertMode::IntoAsync, None),
        Resolved::Explicit("fetch".to_string())
    );
}

#[test]
fn kept_identifier_stays() {
    let mut rule = IdentRecord::new();
    rule.keep = true;
    rule.ident_sync = Some("Other".to_string());
    assert_eq!(rule.resolve("Client", ConvertMode::IntoSync, None), Resolved::Keep);
    assert_eq!(
        rule.ident_add_suffix("Client", ConvertMode::IntoSync, None),
        Some("Client".to_string())
    );
    assert_eq!(
        rule.ident_add_suffix("Client", ConvertMode::IntoAsync, Some("k")),
        Some("Client".to_string())
    );
}

#[test]
fn explicit_name_comes_back_as_raw_identifier() {
    let mut rule = IdentRecord::with_fn_mode(true);
    rule.ident_sync = Some("fetch_blocking".to_string());
    assert_eq!(
        rule.ident_add_suffix("fetch", ConvertMode::IntoSync, None),
        Some("r#fetch_blocking".to_string())
    );
    assert_eq!(
        rule.ident_add_suffix("fetch", ConvertMode::IntoAsync, None),
        Some("fetch_async".to_string())
    );
}

#[test]
fn unwritable_explicit_name_gives_nothing() {
    let mut rule = IdentRecord::new();
    rule.ident_async = Some("not an identifier".to_string());
    assert_eq!(rule.ident_add_suffix("Client", ConvertMode::IntoAsync, None), None);
    rule.ident_async = Some("self".to_string());
    assert_eq!(rule.ident_add_suffix("Client", ConvertMode::IntoAsync, None), None);
    assert_eq!(
        rule.ident_add_suffix("Client", ConvertMode::IntoSync, None),
        Some("ClientSync".to_string())
    );
}

#[test]
fn choice_is_written_with_what_the_parser_read() {
    let parsed = Some("r#get".to_string());
    assert_eq!(Resolved::Keep.written("fetch", parsed.clone()), Some("fetch".to_string()));
    assert_eq!(Resolved::Keep.written("fetch", None), Some("fetch".to_string()));
    assert_eq!(
        Resolved::Suffixed("fetch_sync".to_string()).written("fetch", parsed.clone()),
        Some("fetch_sync".to_string())
    );
    assert_eq!(
        Resolved::Suffixed("fetch_sync".to_string()).written("fetch", None),
        Some("fetch_sync".to_string())
    );
    assert_eq!(
        Resolved::Explicit("get".to_string()).written("fetch", parsed),
        Some("r#get".to_string())
    );
    assert_eq!(Resolved::Explicit("get".to_string()).written("fetch", None), None);
}
