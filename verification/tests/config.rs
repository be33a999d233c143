use maybe_async_cfg::directive::{Directive, Literal, Meta, Name};
use maybe_async_cfg::error::ConfigError;
use maybe_async_cfg::mode::ConvertMode;
use maybe_async_cfg::params::{MacroParameters, MacroParametersBuilder};

fn flag(word: &str) -> Directive {
    Directive::flag(word)
}

fn pair(name: &str, value: &str) -> Directive {
    Directive::pair(name, value)
}

fn list(name: &str, nested: Vec<Directive>) -> Directive {
    Directive::list(name, nested)
}

fn text(value: &str) -> Directive {
    Directive::text(value)
}

fn number(source: &str) -> Directive {
    Directive::Lit(Literal::Other(source.to_string()))
}

fn long_path(first: &str, last: &str) -> Name {
    Name { leading_colon: false, segments: vec![first.to_string(), last.to_string()] }
}

fn read(args: Vec<Directive>) -> MacroParameters {
    MacroParameters::from_args(&args).unwrap()
}

fn refused(args: Vec<Directive>) -> ConfigError {
    MacroParameters::from_args(&args).unwrap_err()
}

#[test]
fn empty_list_gives_the_empty_configuration() {
    let params = read(vec![]);
    assert!(!params.disable_get());
    assert_eq!(params.mode_get(), None);
    assert_eq!(params.key_get(), None);
    assert_eq!(params.send_get(), None);
    assert_eq!(params.prefix_get(), "maybe_async_cfg");
    assert!(params.drop_attrs_is_empty());
    assert!(params.replace_features_is_empty());
    assert!(params.versions().is_empty());
    assert_eq!(params.to_nestedmeta(None), Vec::<Directive>::new());
    assert_eq!(MacroParameters::new().to_nestedmeta(None), Vec::<Directive>::new());
}

#[test]
fn flags_are_read() {
    let params = read(vec![flag("disable"), flag("keep_self"), flag("__into_sync")]);
    assert!(params.disable_get());
    assert_eq!(params.mode_get(), Some(ConvertMode::IntoSync));
    assert_eq!(
        params.to_nestedmeta(None),
        vec![flag("__into_sync"), flag("disable"), flag("keep_self")]
    );
    let params = read(vec![flag("__into_async")]);
    assert_eq!(params.mode_get(), Some(ConvertMode::IntoAsync));
    assert!(!params.disable_get());
}

#[test]
fn later_mode_marker_wins() {
    let params = read(vec![flag("__into_async"), flag("__into_sync")]);
    assert_eq!(params.mode_get(), Some(ConvertMode::IntoSync));
}

#[test]
fn pairs_are_read_and_the_last_one_wins() {
    let params = read(vec![
        pair("key", "first"),
        pair("self", "Me"),
        pair("prefix", "mac"),
        pair("key", "second"),
    ]);
    assert_eq!(params.key_get(), Some("second"));
    assert_eq!(params.prefix_get(), "mac");
    assert_eq!(
        params.to_nestedmeta(None),
        vec![pair("key", "second"), pair("self", "Me"), pair("prefix", "mac")]
    );
}

#[test]
fn send_values() {
    assert_eq!(read(vec![pair("send", "Send")]).send_get(), Some(true));
    assert_eq!(read(vec![pair("send", "true")]).send_get(), Some(true));
    assert_eq!(read(vec![pair("send", "")]).send_get(), Some(true));
    assert_eq!(read(vec![pair("send", "?Send")]).send_get(), Some(false));
    assert_eq!(read(vec![pair("send", "false")]).send_get(), Some(false));
    assert_eq!(refused(vec![pair("send", "maybe")]), ConfigError::WrongSendValue);
    assert_eq!(refused(vec![pair("send", "send")]), ConfigError::WrongSendValue);
    assert_eq!(read(vec![pair("send", "Send"), pair("send", "?Send")]).send_get(), Some(false));
}

#[test]
fn send_is_written_so_that_it_is_read_back() {
    let params = read(vec![pair("send", "true")]);
    assert_eq!(params.to_nestedmeta(None), vec![pair("send", "Send")]);
    let params = read(vec![pair("send", "false")]);
    assert_eq!(params.to_nestedmeta(None), vec![pair("send", "?Send")]);
    assert_eq!(read(params.to_nestedmeta(None)).send_get(), Some(false));
}

#[test]
fn pair_errors() {
    assert_eq!(refused(vec![pair("colour", "red")]), ConfigError::WrongNameValueName);
    let not_a_string = Directive::Meta(Meta::NameValue(
        Name::from_ident("key"),
        Literal::Other("7".to_string()),
    ));
    assert_eq!(refused(vec![not_a_string]), ConfigError::ExpectedStringLiteral);
    let unknown_with_number = Directive::Meta(Meta::NameValue(
        Name::from_ident("colour"),
        Literal::Other("7".to_string()),
    ));
    assert_eq!(refused(vec![unknown_with_number]), ConfigError::WrongNameValueName);
    let long_name = Directive::Meta(Meta::NameValue(
        long_path("a", "key"),
        Literal::Str("x".to_string()),
    ));
    assert_eq!(refused(vec![long_name]), ConfigError::ExpectedName);
}

#[test]
fn first_refused_directive_gives_the_error() {
    assert_eq!(
        refused(vec![flag("disable"), pair("colour", "red"), pair("send", "maybe")]),
        ConfigError::WrongNameValueName
    );
    assert_eq!(
        refused(vec![pair("send", "maybe"), pair("colour", "red")]),
        ConfigError::WrongSendValue
    );
}

#[test]
fn feature_pair_becomes_the_condition() {
    let params = read(vec![pair("feature", "tokio")]);
    assert_eq!(
        params.to_nestedmeta(None),
        vec![list("cfg", vec![pair("feature", "tokio")])]
    );
}

#[test]
fn cfg_takes_exactly_one_condition() {
    let params = read(vec![list("cfg", vec![pair("feature", "tokio")])]);
    assert_eq!(
        params.to_nestedmeta(None),
        vec![list("cfg", vec![pair("feature", "tokio")])]
    );
    assert_eq!(refused(vec![list("cfg", vec![])]), ConfigError::ExpectedCondition);
    assert_eq!(
        refused(vec![list("cfg", vec![flag("unix"), flag("windows")])]),
        ConfigError::ExpectedCondition
    );
    assert_eq!(refused(vec![list("cfg", vec![text("unix")])]), ConfigError::ExpectedCondition);
}

#[test]
fn raw_conditions_become_the_condition() {
    for word in ["any", "all", "not"] {
        let condition = list(word, vec![pair("feature", "a")]);
        let params = read(vec![list(word, vec![pair("feature", "a")])]);
        assert_eq!(params.to_nestedmeta(None), vec![list("cfg", vec![condition])]);
    }
}

#[test]
fn later_condition_wins() {
    let params = read(vec![pair("feature", "a"), list("cfg", vec![flag("unix")])]);
    assert_eq!(params.to_nestedmeta(None), vec![list("cfg", vec![flag("unix")])]);
}

#[test]
fn outer_and_inner_lists_are_concatenated_in_order() {
    let params = read(vec![
        list("outer", vec![flag("a"), text("b")]),
        list("inner", vec![flag("x")]),
        list("outer", vec![flag("c")]),
        list("inner", vec![list("y", vec![flag("z")])]),
    ]);
    assert_eq!(
        params.to_nestedmeta(None),
        vec![
            list("outer", vec![flag("a"), text("b"), flag("c")]),
            list("inner", vec![flag("x"), list("y", vec![flag("z")])]),
        ]
    );
}

#[test]
fn what_nothing_answers_to_becomes_an_inner_attribute() {
    let unknown_list = list("derive", vec![flag("Debug")]);
    let long_word = Directive::Meta(Meta::Path(long_path("a", "b")));
    let params = read(vec![
        flag("inline"),
        list("derive", vec![flag("Debug")]),
        text("doc = \"x\""),
        Directive::Meta(Meta::Path(long_path("a", "b"))),
    ]);
    assert_eq!(
        params.to_nestedmeta(None),
        vec![list("inner", vec![flag("inline"), unknown_list, text("doc = \"x\""), long_word])]
    );
    assert!(params.versions().is_empty());
}

#[test]
fn bare_literal_must_be_a_string() {
    assert_eq!(refused(vec![number("7")]), ConfigError::ExpectedStringLiteral);
}

#[test]
fn list_with_a_long_name_is_refused() {
    let directive = Directive::Meta(Meta::List(long_path("a", "idents"), vec![]));
    assert_eq!(refused(vec![directive]), ConfigError::ExpectedName);
}

#[test]
fn replace_feature_takes_two_strings() {
    let params = read(vec![
        list("replace_feature", vec![text("old"), text("new")]),
        list("replace_feature", vec![text("a"), text("b")]),
        list("replace_feature", vec![text("old"), text("newer")]),
    ]);
    assert!(!params.replace_features_is_empty());
    assert_eq!(params.replace_features_get("old"), Some("newer"));
    assert_eq!(params.replace_features_get("a"), Some("b"));
    assert_eq!(params.replace_features_get("new"), None);
    assert_eq!(
        params.to_nestedmeta(None),
        vec![
            list("replace_feature", vec![text("old"), text("newer")]),
            list("replace_feature", vec![text("a"), text("b")]),
        ]
    );
    assert_eq!(
        refused(vec![list("replace_feature", vec![text("old")])]),
        ConfigError::ExpectedTwoStringLiterals
    );
    assert_eq!(
        refused(vec![list("replace_feature", vec![])]),
        ConfigError::ExpectedTwoStringLiterals
    );
    assert_eq!(
        refused(vec![list("replace_feature", vec![text("a"), text("b"), text("c")])]),
        ConfigError::ExpectedTwoStringLiterals
    );
    assert_eq!(
        refused(vec![list("replace_feature", vec![flag("old"), text("new")])]),
        ConfigError::ExpectedStringLiteral
    );
    assert_eq!(
        refused(vec![list("replace_feature", vec![text("old"), number("1")])]),
        ConfigError::ExpectedStringLiteral
    );
}

#[test]
fn drop_attrs_takes_bare_names() {
    let params = read(vec![
        list("drop_attrs", vec![flag("b"), flag("a")]),
        list("drop_attrs", vec![flag("c")]),
    ]);
    assert!(!params.drop_attrs_is_empty());
    assert!(params.drop_attrs_contains(&"a".to_string()));
    assert!(params.drop_attrs_contains(&"c".to_string()));
    assert!(!params.drop_attrs_contains(&"d".to_string()));
    assert_eq!(
        params.to_nestedmeta(None),
        vec![list("drop_attrs", vec![flag("b"), flag("a"), flag("c")])]
    );
    assert_eq!(
        refused(vec![list("drop_attrs", vec![flag("a"), text("b")])]),
        ConfigError::ExpectedDropList
    );
    assert_eq!(
        refused(vec![list("drop_attrs", vec![pair("a", "b")])]),
        ConfigError::ExpectedDropList
    );
    assert_eq!(
        refused(vec![list("drop_attrs", vec![Directive::Meta(Meta::Path(long_path("a", "b")))])]),
        ConfigError::ExpectedDropName
    );
}

#[test]
fn refused_drop_list_leaves_the_builder_as_it_was() {
    let mut builder = MacroParametersBuilder::new();
    builder.drop_attrs(&vec![flag("a")]).unwrap();
    assert_eq!(
        builder.drop_attrs(&vec![flag("b"), text("c")]),
        Err(ConfigError::ExpectedDropList)
    );
    let params = builder.build().unwrap();
    assert_eq!(params.to_nestedmeta(None), vec![list("drop_attrs", vec![flag("a")])]);
}

#[test]
fn idents_are_read() {
    let params = read(vec![list(
        "idents",
        vec![
            flag("Plain"),
            list("fetch", vec![flag("fn"), flag("async"), pair("sync", "fetch_blocking")]),
            list("Kept", vec![flag("keep"), flag("use")]),
            list("Both", vec![flag("sync"), pair("async", "Other"), pair("fast", "BothFast")]),
        ],
    )]);
    let plain = params.idents_get("Plain").unwrap();
    assert!(!plain.fn_mode && !plain.use_mode && !plain.keep);
    assert_eq!(plain.ident_sync, None);
    assert_eq!(plain.ident_async, None);
    assert!(plain.idents.is_none());
    let fetch = params.idents_get("fetch").unwrap();
    assert!(fetch.fn_mode);
    assert_eq!(fetch.ident_async, Some("fetch".to_string()));
    assert_eq!(fetch.ident_sync, Some("fetch_blocking".to_string()));
    let kept = params.idents_get("Kept").unwrap();
    assert!(kept.keep && kept.use_mode && !kept.fn_mode);
    let both = params.idents_get("Both").unwrap();
    assert_eq!(both.ident_sync, Some("Both".to_string()));
    assert_eq!(both.ident_async, Some("Other".to_string()));
    assert_eq!(both.idents.as_ref().unwrap().get("fast"), Some(&"BothFast".to_string()));
    assert_eq!(both.idents.as_ref().unwrap().len(), 1);
    assert!(params.idents_get("Missing").is_none());
    assert_eq!(
        params.to_nestedmeta(None),
        vec![list(
            "idents",
            vec![
                flag("Plain"),
                list("fetch", vec![flag("fn"), flag("async"), pair("sync", "fetch_blocking")]),
                list("Kept", vec![flag("use"), flag("keep")]),
                list("Both", vec![pair("async", "Other"), flag("sync"), pair("fast", "BothFast")]),
            ],
        )]
    );
}

#[test]
fn later_rule_for_an_identifier_takes_the_place_of_the_earlier() {
    let params = read(vec![
        list("idents", vec![list("a", vec![flag("fn")]), flag("b")]),
        list("idents", vec![list("a", vec![flag("keep")])]),
    ]);
    let a = params.idents_get("a").unwrap();
    assert!(a.keep && !a.fn_mode);
    assert_eq!(
        params.to_nestedmeta(None),
        vec![list("idents", vec![list("a", vec![flag("keep")]), flag("b")])]
    );
}

#[test]
fn ident_errors() {
    let long_word = Directive::Meta(Meta::Path(long_path("a", "b")));
    assert_eq!(refused(vec![list("idents", vec![long_word])]), ConfigError::ExpectedIdent);
    let long_list = Directive::Meta(Meta::List(long_path("a", "b"), vec![]));
    assert_eq!(refused(vec![list("idents", vec![long_list])]), ConfigError::ExpectedIdent);
    assert_eq!(refused(vec![list("idents", vec![pair("a", "b")])]), ConfigError::ExpectedRule);
    assert_eq!(refused(vec![list("idents", vec![text("a")])]), ConfigError::ExpectedRule);
    assert_eq!(
        refused(vec![list("idents", vec![list("a", vec![flag("fun")])])]),
        ConfigError::ExpectedRuleFlag
    );
    assert_eq!(
        refused(vec![list("idents", vec![list("a", vec![text("fn")])])]),
        ConfigError::ExpectedRuleItem
    );
    assert_eq!(
        refused(vec![list("idents", vec![list("a", vec![list("fn", vec![])])])]),
        ConfigError::ExpectedRuleItem
    );
    let number_value = Directive::Meta(Meta::NameValue(
        Name::from_ident("sync"),
        Literal::Other("1".to_string()),
    ));
    assert_eq!(
        refused(vec![list("idents", vec![list("a", vec![number_value])])]),
        ConfigError::ExpectedRuleItem
    );
    let long_flag = Directive::Meta(Meta::Path(long_path("x", "fn")));
    assert_eq!(
        refused(vec![list("idents", vec![list("a", vec![long_flag])])]),
        ConfigError::ExpectedIdent
    );
    let long_pair = Directive::Meta(Meta::NameValue(
        long_path("x", "sync"),
        Literal::Str("b".to_string()),
    ));
    assert_eq!(
        refused(vec![list("idents", vec![list("a", vec![long_pair])])]),
        ConfigError::ExpectedIdent
    );
}

#[test]
fn refused_idents_leave_the_table_as_it_was() {
    let mut params = MacroParameters::new();
    params.original_self_name_set("first", true);
    let before = params.to_nestedmeta(None);
    let args = vec![list("idents", vec![flag("second"), text("third")])];
    assert_eq!(refused(args), ConfigError::ExpectedRule);
    assert_eq!(params.to_nestedmeta(None), before);
}

#[test]
fn variants_are_read_in_order_with_default_keys() {
    let params = read(vec![
        list("sync", vec![pair("feature", "blocking")]),
        list("async", vec![pair("key", "tokio")]),
        list("sync", vec![flag("disable")]),
    ]);
    let versions = params.versions();
    assert_eq!(versions.len(), 3);
    assert_eq!(versions[0].kind, ConvertMode::IntoSync);
    assert_eq!(versions[0].params.key_get(), Some("sync"));
    assert_eq!(versions[1].kind, ConvertMode::IntoAsync);
    assert_eq!(versions[1].params.key_get(), Some("tokio"));
    assert_eq!(versions[2].kind, ConvertMode::IntoSync);
    assert!(versions[2].params.disable_get());
    assert!(!versions[0].params.disable_get());
    assert_eq!(params.key_get(), None);
    assert_eq!(
        params.to_nestedmeta(None),
        vec![
            list("sync", vec![pair("key", "sync"), list("cfg", vec![pair("feature", "blocking")])]),
            list("async", vec![pair("key", "tokio")]),
            list("sync", vec![flag("disable"), pair("key", "sync")]),
        ]
    );
}

#[test]
fn error_inside_a_variant_is_the_error_of_the_list() {
    assert_eq!(
        refused(vec![list("async", vec![pair("send", "never")])]),
        ConfigError::WrongSendValue
    );
    assert_eq!(
        refused(vec![list("sync", vec![list("async", vec![list("cfg", vec![])])])]),
        ConfigError::ExpectedCondition
    );
}

#[test]
fn variant_inherits_disable_and_keep_self() {
    let params = read(vec![
        list("sync", vec![]),
        flag("disable"),
        flag("keep_self"),
        list("async", vec![]),
    ]);
    for version in params.versions() {
        assert!(version.params.disable_get());
        assert_eq!(
            version.params.to_nestedmeta(None),
            vec![flag("disable"), flag("keep_self"), pair("key", version.kind.to_str())]
        );
    }
}

#[test]
fn variant_drops_the_attributes_of_its_parent_first() {
    let params = read(vec![
        list("sync", vec![list("drop_attrs", vec![flag("B")])]),
        list("drop_attrs", vec![flag("A")]),
    ]);
    let version = &params.versions()[0];
    assert_eq!(
        version.params.to_nestedmeta(None),
        vec![pair("key", "sync"), list("drop_attrs", vec![flag("A"), flag("B")])]
    );
    let written = version.params.to_nestedmeta(Some(version.kind));
    assert_eq!(
        written,
        vec![
            flag("__into_sync"),
            pair("key", "sync"),
            list("drop_attrs", vec![flag("A"), flag("B")]),
        ]
    );
    let back = read(written);
    assert_eq!(back.mode_get(), Some(ConvertMode::IntoSync));
    assert_eq!(
        back.to_nestedmeta(None),
        vec![
            flag("__into_sync"),
            pair("key", "sync"),
            list("drop_attrs", vec![flag("A"), flag("B")]),
        ]
    );
    assert!(back.drop_attrs_contains(&"A".to_string()));
    assert!(back.drop_attrs_contains(&"B".to_string()));
}

#[test]
fn variant_rule_takes_precedence_over_the_rule_of_its_parent() {
    let params = read(vec![
        list(
            "idents",
            vec![list("Client", vec![pair("sync", "ParentClient")]), flag("Only")],
        ),
        list(
            "sync",
            vec![list("idents", vec![list("Client", vec![pair("sync", "ChildClient")])])],
        ),
        list("replace_feature", vec![text("f"), text("parent")]),
        list("replace_feature", vec![text("g"), text("parent")]),
        list("async", vec![list("replace_feature", vec![text("f"), text("child")])]),
    ]);
    let sync = &params.versions()[0].params;
    assert_eq!(
        sync.idents_get("Client").unwrap().ident_sync,
        Some("ChildClient".to_string())
    );
    assert!(sync.idents_get("Only").is_some());
    assert_eq!(sync.replace_features_get("f"), Some("parent"));
    let asynchronous = &params.versions()[1].params;
    assert_eq!(asynchronous.replace_features_get("f"), Some("child"));
    assert_eq!(asynchronous.replace_features_get("g"), Some("parent"));
    assert_eq!(
        asynchronous.idents_get("Client").unwrap().ident_sync,
        Some("ParentClient".to_string())
    );
    assert_eq!(params.idents_get("Client").unwrap().ident_sync, Some("ParentClient".to_string()));
}

#[test]
fn apply_parent_merges_as_build_does() {
    let parent = read(vec![
        flag("keep_self"),
        list("drop_attrs", vec![flag("A")]),
        list("idents", vec![flag("P")]),
    ]);
    let mut child = read(vec![
        list("drop_attrs", vec![flag("B")]),
        list("idents", vec![list("C", vec![flag("fn")])]),
        pair("key", "k"),
    ]);
    assert_eq!(MacroParameters::apply_parent(&mut child, &parent), Ok(()));
    assert_eq!(
        child.to_nestedmeta(None),
        vec![
            flag("keep_self"),
            pair("key", "k"),
            list("idents", vec![list("C", vec![flag("fn")]), flag("P")]),
            list("drop_attrs", vec![flag("A"), flag("B")]),
        ]
    );
}

#[test]
fn own_name_is_registered_once() {
    let mut params = MacroParameters::new();
    params.original_self_name_set("fetch", true);
    assert!(params.idents_get("fetch").unwrap().fn_mode);
    params.original_self_name_set("fetch", false);
    assert!(params.idents_get("fetch").unwrap().fn_mode);
    params.original_self_name_set("Client", false);
    assert!(!params.idents_get("Client").unwrap().fn_mode);
    assert!(params.idents_get("Client").unwrap().idents.is_none());
}

#[test]
fn own_name_does_not_replace_a_declared_rule() {
    let mut params = read(vec![list("idents", vec![list("fetch", vec![flag("keep")])])]);
    params.original_self_name_set("fetch", true);
    let rule = params.idents_get("fetch").unwrap();
    assert!(rule.keep && !rule.fn_mode);
}

#[test]
fn keep_self_registers_nothing() {
    let mut params = read(vec![flag("keep_self")]);
    params.original_self_name_set("fetch", true);
    assert!(params.idents_get("fetch").is_none());
}

#[test]
fn own_name_under_a_key() {
    let mut params = read(vec![pair("key", "fast"), pair("self", "FastClient")]);
    params.original_self_name_set("Client", false);
    let rule = params.idents_get("Client").unwrap();
    assert_eq!(rule.idents.as_ref().unwrap().get("fast"), Some(&"FastClient".to_string()));
    assert_eq!(rule.idents.as_ref().unwrap().len(), 1);
    let mut no_key = read(vec![pair("self", "FastClient")]);
    no_key.original_self_name_set("Client", false);
    assert!(no_key.idents_get("Client").unwrap().idents.is_none());
}

#[test]
fn default_record_follows_the_flag() {
    let params = MacroParameters::new();
    assert!(params.default_ident_record(true).fn_mode);
    assert!(!params.default_ident_record(false).fn_mode);
}

#[test]
fn prefix_can_be_set() {
    let mut params = MacroParameters::new();
    assert_eq!(params.prefix_get(), "maybe_async_cfg");
    params.prefix_set("mac".to_string());
    assert_eq!(params.prefix_get(), "mac");
    let path = params.make_self_path("maybe");
    assert_eq!(
        path,
        Name { leading_colon: false, segments: vec!["mac".to_string(), "maybe".to_string()] }
    );
    assert_eq!(
        MacroParameters::new().make_self_path("content").segments,
        vec!["maybe_async_cfg".to_string(), "content".to_string()]
    );
}

#[test]
fn added_mode_takes_the_place_of_the_own_mode() {
    let params = read(vec![flag("__into_async"), pair("key", "k")]);
    assert_eq!(
        params.to_nestedmeta(Some(ConvertMode::IntoSync)),
        vec![flag("__into_sync"), pair("key", "k")]
    );
    assert_eq!(params.to_nestedmeta(None), vec![flag("__into_async"), pair("key", "k")]);
}

#[test]
fn full_configuration_is_written_in_a_fixed_order() {
    let args = vec![
        list("async", vec![pair("send", "?Send")]),
        list("replace_feature", vec![text("old"), text("new")]),
        list("drop_attrs", vec![flag("test")]),
        list("idents", vec![list("fetch", vec![flag("fn")])]),
        list("inner", vec![flag("inline")]),
        list("outer", vec![text("doc(hidden)")]),
        list("cfg", vec![flag("unix")]),
        pair("send", "Send"),
        pair("prefix", "mac"),
        pair("self", "Me"),
        pair("key", "k"),
        flag("keep_self"),
        flag("__into_async"),
    ];
    let params = read(args);
    let written = params.to_nestedmeta(None);
    assert_eq!(
        written,
        vec![
            flag("__into_async"),
            flag("keep_self"),
            pair("key", "k"),
            pair("self", "Me"),
            pair("prefix", "mac"),
            pair("send", "Send"),
            list("cfg", vec![flag("unix")]),
            list("outer", vec![text("doc(hidden)")]),
            list("inner", vec![flag("inline")]),
            list("idents", vec![list("fetch", vec![flag("fn")])]),
            list("drop_attrs", vec![flag("test")]),
            list("replace_feature", vec![text("old"), text("new")]),
            list(
                "async",
                vec![
                    flag("keep_self"),
                    pair("key", "async"),
                    pair("send", "?Send"),
                    list("idents", vec![list("fetch", vec![flag("fn")])]),
                    list("drop_attrs", vec![flag("test")]),
                    list("replace_feature", vec![text("old"), text("new")]),
                ],
            ),
        ]
    );
}

#[test]
fn builder_methods_one_by_one() {
    let mut builder = MacroParametersBuilder::new();
    assert_eq!(builder.mode_into_sync(), Ok(()));
    assert_eq!(builder.mode_into_async(), Ok(()));
    assert_eq!(builder.key("k".to_string()), Ok(()));
    assert_eq!(builder.self_name("Me".to_string()), Ok(()));
    assert_eq!(builder.prefix("mac".to_string()), Ok(()));
    assert_eq!(builder.send("nope".to_string()), Err(ConfigError::WrongSendValue));
    assert_eq!(builder.send("?Send".to_string()), Ok(()));
    builder.disable();
    builder.keep_self();
    let condition = Meta::Path(Name::from_ident("unix"));
    assert_eq!(builder.cfg_meta(&condition), Ok(()));
    let feature = Meta::NameValue(Name::from_ident("feature"), Literal::Str("f".to_string()));
    assert_eq!(builder.feature(&feature), Ok(()));
    assert_eq!(builder.cfg_list(&vec![]), Err(ConfigError::ExpectedCondition));
    assert_eq!(builder.outer_attrs(&vec![flag("o")]), Ok(()));
    assert_eq!(builder.inner_attrs(&vec![flag("i")]), Ok(()));
    assert_eq!(builder.inner_attr(&condition), Ok(()));
    assert_eq!(builder.inner_attr_str(&Literal::Str("s".to_string())), Ok(()));
    assert_eq!(builder.replace_feature(&vec![text("a"), text("b")]), Ok(()));
    assert_eq!(builder.drop_attrs(&vec![flag("d")]), Ok(()));
    assert_eq!(builder.version(ConvertMode::IntoSync, &vec![]), Ok(()));
    let whole = Meta::List(Name::from_ident("other"), vec![flag("x")]);
    assert_eq!(builder.version_or_inner_attr("other", &vec![flag("x")], &whole), Ok(()));
    assert_eq!(builder.version_or_inner_attr("async", &vec![flag("x")], &whole), Ok(()));
    assert_eq!(builder.apply(&flag("last")), Ok(()));
    let params = builder.build().unwrap();
    assert_eq!(params.versions().len(), 2);
    assert_eq!(
        params.to_nestedmeta(None),
        vec![
            flag("__into_async"),
            flag("disable"),
            flag("keep_self"),
            pair("key", "k"),
            pair("self", "Me"),
            pair("prefix", "mac"),
            pair("send", "?Send"),
            list("cfg", vec![pair("feature", "f")]),
            list("outer", vec![flag("o")]),
            list(
                "inner",
                vec![
                    flag("i"),
                    flag("unix"),
                    text("s"),
                    list("other", vec![flag("x")]),
                    flag("last"),
                ],
            ),
            list("drop_attrs", vec![flag("d")]),
            list("replace_feature", vec![text("a"), text("b")]),
            list(
                "sync",
                vec![
                    flag("disable"),
                    flag("keep_self"),
                    pair("key", "sync"),
                    list("drop_attrs", vec![flag("d")]),
                    list("replace_feature", vec![text("a"), text("b")]),
                ],
            ),
            list(
                "async",
                vec![
                    flag("disable"),
                    flag("keep_self"),
                    pair("key", "async"),
                    list("inner", vec![flag("x")]),
                    list("drop_attrs", vec![flag("d")]),
                    list("replace_feature", vec![text("a"), text("b")]),
                ],
            ),
        ]
    );
}

#[test]
fn error_messages() {
    assert_eq!(ConfigError::ExpectedName.message(), "Expected name");
    assert_eq!(ConfigError::ExpectedStringLiteral.message(), "Expected string literal");
    assert_eq!(ConfigError::WrongNameValueName.message(), "Wrong name for name-value pair");
    assert_eq!(ConfigError::WrongSendValue.message(), "Only accepts `Send` or `?Send`");
    assert_eq!(ConfigError::ExpectedCondition.message(), "Expected condition");
    assert_eq!(ConfigError::ExpectedIdent.message(), "Expected ident, but not complex path");
    assert_eq!(ConfigError::ExpectedRuleFlag.message(), "Expected fn, use, keep, sync, async");
    assert_eq!(
        ConfigError::ExpectedRuleItem.message(),
        "Expected fn, sync = \"ident\", or async = \"ident\""
    );
    assert_eq!(ConfigError::ExpectedRule.message(), "Expected name = \"value\" pair");
    assert_eq!(ConfigError::ExpectedDropName.message(), "Expected ident");
    assert_eq!(ConfigError::ExpectedDropList.message(), "Expected list of idents");
    assert_eq!(ConfigError::ExpectedTwoStringLiterals.message(), "Expected two string literals");
}

#[test]
fn variant_configuration_is_read_back_as_it_was_written() {
    let params = read(vec![
        pair("prefix", "parent"),
        pair("send", "Send"),
        list("drop_attrs", vec![flag("test")]),
        list("replace_feature", vec![text("old"), text("new")]),
        list(
            "idents",
            vec![
                list(
                    "fetch",
                    vec![flag("fn"), pair("sync", "fetch_blocking"), pair("fast", "get")],
                ),
                list("Client", vec![flag("use"), flag("async")]),
                flag("Plain"),
            ],
        ),
        list(
            "async",
            vec![
                pair("feature", "tokio"),
                pair("prefix", "mac"),
                pair("send", "?Send"),
                pair("key", "fast"),
                pair("self", "FastClient"),
                flag("keep_self"),
                list("outer", vec![text("doc(hidden)")]),
                flag("inline"),
                list("idents", vec![list("Client", vec![flag("keep")])]),
                list("drop_attrs", vec![flag("bench")]),
            ],
        ),
    ]);
    let version = &params.versions()[0];
    let written = version.params.to_nestedmeta(Some(version.kind));
    assert_eq!(
        written,
        vec![
            flag("__into_async"),
            flag("keep_self"),
            pair("key", "fast"),
            pair("self", "FastClient"),
            pair("prefix", "mac"),
            pair("send", "?Send"),
            list("cfg", vec![pair("feature", "tokio")]),
            list("outer", vec![text("doc(hidden)")]),
            list("inner", vec![flag("inline")]),
            list(
                "idents",
                vec![
                    list("Client", vec![flag("keep")]),
                    list(
                        "fetch",
                        vec![flag("fn"), pair("sync", "fetch_blocking"), pair("fast", "get")],
                    ),
                    flag("Plain"),
                ],
            ),
            list("drop_attrs", vec![flag("test"), flag("bench")]),
            list("replace_feature", vec![text("old"), text("new")]),
        ]
    );
    let back = read(version.params.to_nestedmeta(Some(version.kind)));
    assert_eq!(back.mode_get(), Some(ConvertMode::IntoAsync));
    assert_eq!(back.to_nestedmeta(None), written);
    assert_eq!(back.key_get(), Some("fast"));
    assert_eq!(back.prefix_get(), "mac");
    assert_eq!(back.send_get(), Some(false));
    assert_eq!(back.replace_features_get("old"), Some("new"));
    assert!(back.idents_get("Client").unwrap().keep);
    assert_eq!(
        back.idents_get("fetch").unwrap().resolve("fetch", ConvertMode::IntoAsync, back.key_get()),
        version.params.idents_get("fetch").unwrap().resolve(
            "fetch",
            ConvertMode::IntoAsync,
            version.params.key_get()
        )
    );
}

#[test]
fn feature_names_are_replaced_at_any_depth() {
    let params = read(vec![
        list("replace_feature", vec![text("secure"), text("secure_sync")]),
        list("replace_feature", vec![text("feature"), text("never")]),
    ]);
    let condition = |name: &str, deep: &str| {
        Meta::List(
            Name::from_ident("all"),
            vec![
                pair("feature", name),
                pair("target_os", "secure"),
                flag("secure"),
                text("secure"),
                list("not", vec![list("any", vec![pair("feature", deep), pair("feature", "x")])]),
            ],
        )
    };
    assert_eq!(
        params.replace_features_in(&condition("secure", "secure")),
        condition("secure_sync", "secure_sync")
    );
    assert_eq!(
        params.replace_features_in(&condition("other", "secure")),
        condition("other", "secure_sync")
    );
    let single = Meta::NameValue(Name::from_ident("feature"), Literal::Str("secure".to_string()));
    assert_eq!(
        params.replace_features_in(&single),
        Meta::NameValue(Name::from_ident("feature"), Literal::Str("secure_sync".to_string()))
    );
    let number = Meta::NameValue(Name::from_ident("feature"), Literal::Other("1".to_string()));
    assert_eq!(
        params.replace_features_in(&number),
        Meta::NameValue(Name::from_ident("feature"), Literal::Other("1".to_string()))
    );
    let long = Meta::NameValue(long_path("a", "feature"), Literal::Str("secure".to_string()));
    assert_eq!(
        params.replace_features_in(&long),
        Meta::NameValue(long_path("a", "feature"), Literal::Str("secure".to_string()))
    );
    let word = Meta::Path(Name::from_ident("secure"));
    assert_eq!(params.replace_features_in(&word), Meta::Path(Name::from_ident("secure")));
    assert_eq!(
        MacroParameters::new().replace_features_in(&condition("secure", "secure")),
        condition("secure", "secure")
    );
}

#[test]
fn condition_of_a_variant_is_written_as_it_was_declared() {
    let params = read(vec![list(
        "sync",
        vec![
            pair("feature", "secure"),
            list("replace_feature", vec![text("secure"), text("secure_sync")]),
        ],
    )]);
    let version = &params.versions()[0];
    assert_eq!(
        version.params.to_nestedmeta(None),
        vec![
            pair("key", "sync"),
            list("cfg", vec![pair("feature", "secure")]),
            list("replace_feature", vec![text("secure"), text("secure_sync")]),
        ]
    );
}

#[test]
fn first_refused_directive_is_found() {
    assert_eq!(MacroParameters::refused_at(&vec![]), None);
    assert_eq!(
        MacroParameters::refused_at(&vec![flag("disable"), pair("key", "k"), text("x")]),
        None
    );
    assert_eq!(MacroParameters::refused_at(&vec![pair("colour", "red")]), Some(0));
    assert_eq!(
        MacroParameters::refused_at(&vec![
            flag("disable"),
            list("sync", vec![flag("keep_self"), list("cfg", vec![])]),
            pair("colour", "red"),
        ]),
        Some(1)
    );
    assert_eq!(
        MacroParameters::refused_at(&vec![flag("a"), flag("b"), number("3"), number("4")]),
        Some(2)
    );
}

#[test]
fn copy_of_a_configuration_is_written_alike() {
    let params = read(vec![
        flag("keep_self"),
        pair("key", "k"),
        list("cfg", vec![flag("unix")]),
        list("outer", vec![text("o")]),
        list("idents", vec![list("fetch", vec![flag("fn"), pair("fast", "get")])]),
        list("drop_attrs", vec![flag("test")]),
        list("replace_feature", vec![text("a"), text("b")]),
        list("sync", vec![list("async", vec![flag("disable")])]),
    ]);
    let copy = params.copy();
    assert_eq!(copy.to_nestedmeta(None), params.to_nestedmeta(None));
    assert_eq!(copy.versions().len(), 1);
    assert_eq!(copy.versions()[0].params.versions().len(), 1);
    assert!(copy.versions()[0].params.versions()[0].params.disable_get());
}
