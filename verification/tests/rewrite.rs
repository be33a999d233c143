use maybe_async_cfg::attribute::{Attribute, Decoration, PathSegment};
use maybe_async_cfg::directive::{Directive, Meta, Name};
use maybe_async_cfg::error::{ConfigError, ConvertError, MacroError};
use maybe_async_cfg::ident::Resolved;
use maybe_async_cfg::macros::{convert, expand, maybe, Emitted};
use maybe_async_cfg::mode::ConvertMode;
use maybe_async_cfg::params::{MacroParameters, Renamed};
use maybe_async_cfg::unit::{convert_unit, Member, Unit, UnitKind};

fn flag(word: &str) -> Directive {
    Directive::flag(word)
}

fn pair(name: &str, value: &str) -> Directive {
    Directive::pair(name, value)
}

fn list(name: &str, nested: Vec<Directive>) -> Directive {
    Directive::list(name, nested)
}

fn read(args: Vec<Directive>) -> MacroParameters {
    MacroParameters::from_args(&args).unwrap()
}

fn unit(kind: UnitKind, name: &str, is_async: bool) -> Unit {
    Unit {
        kind,
        name: Some(name.to_string()),
        is_async,
        members: Vec::new(),
        attrs: Vec::new(),
    }
}

fn method(is_async: bool) -> Member {
    Member { is_method: true, is_async }
}

fn other_member(is_async: bool) -> Member {
    Member { is_method: false, is_async }
}

fn block(kind: UnitKind, name: &str) -> Unit {
    Unit {
        kind,
        name: Some(name.to_string()),
        is_async: false,
        members: vec![
            method(true),
            other_member(true),
            method(false),
            other_member(false),
            method(true),
        ],
        attrs: Vec::new(),
    }
}

fn maybe_path(prefix: &str) -> Name {
    Name { leading_colon: false, segments: vec![prefix.to_string(), "maybe".to_string()] }
}

#[test]
fn function_without_configuration_into_sync() {
    let mut params = MacroParameters::new();
    let mut fetch = unit(UnitKind::Fn, "fetch", true);
    assert_eq!(convert_unit(&mut params, &mut fetch, ConvertMode::IntoSync), Ok(()));
    assert_eq!(fetch, unit(UnitKind::Fn, "fetch", false));
    assert!(params.idents_get("fetch").unwrap().fn_mode);
}

#[test]
fn function_into_async_keeps_its_marker() {
    let mut params = MacroParameters::new();
    let mut fetch = unit(UnitKind::Fn, "fetch", true);
    assert_eq!(convert_unit(&mut params, &mut fetch, ConvertMode::IntoAsync), Ok(()));
    assert_eq!(fetch, unit(UnitKind::Fn, "fetch", true));
    let mut plain = unit(UnitKind::Fn, "plain", false);
    assert_eq!(convert_unit(&mut params, &mut plain, ConvertMode::IntoAsync), Ok(()));
    assert_eq!(plain, unit(UnitKind::Fn, "plain", false));
}

#[test]
fn function_with_mode_names_expands_into_two_tagged_copies() {
    let rule = list("fetch", vec![flag("async"), pair("sync", "fetch_blocking")]);
    let args = vec![
        list("idents", vec![list("fetch", vec![flag("async"), pair("sync", "fetch_blocking")])]),
        list("sync", vec![]),
        list("async", vec![]),
    ];
    let input = vec![unit(UnitKind::Fn, "fetch", true)];
    let copies = maybe(&args, &input).unwrap();
    assert_eq!(copies.len(), 2);
    assert_eq!(
        copies[0],
        Emitted {
            decorations: vec![Decoration::Reinvoke(
                maybe_path("maybe_async_cfg"),
                vec![
                    flag("__into_sync"),
                    pair("key", "sync"),
                    list(
                        "idents",
                        vec![list("fetch", vec![flag("async"), pair("sync", "fetch_blocking")])],
                    ),
                ],
            )],
            units: vec![unit(UnitKind::Fn, "fetch", true)],
        }
    );
    assert_eq!(
        copies[1],
        Emitted {
            decorations: vec![Decoration::Reinvoke(
                maybe_path("maybe_async_cfg"),
                vec![flag("__into_async"), pair("key", "async"), list("idents", vec![rule])],
            )],
            units: vec![unit(UnitKind::Fn, "fetch", true)],
        }
    );
    // the next pass reads each copy's own directive list and rewrites it
    let mut rewritten = Vec::new();
    for copy in &copies {
        let args = match &copy.decorations[0] {
            Decoration::Reinvoke(_, args) => args,
            _ => unreachable!(),
        };
        let params = read(args.iter().map(|directive| directive.copy()).collect());
        let mode = params.mode_get().unwrap();
        let rule = params.idents_get("fetch").unwrap();
        rewritten.push((
            rule.resolve("fetch", mode, params.key_get()),
            maybe(args, &copy.units).unwrap(),
        ));
    }
    assert_eq!(rewritten[0].0, Resolved::Explicit("fetch_blocking".to_string()));
    assert_eq!(
        rewritten[0].1,
        vec![Emitted {
            decorations: vec![],
            units: vec![unit(UnitKind::Fn, "r#fetch_blocking", false)],
        }]
    );
    assert_eq!(rewritten[1].0, Resolved::Explicit("fetch".to_string()));
    assert_eq!(
        rewritten[1].1,
        vec![Emitted { decorations: vec![], units: vec![unit(UnitKind::Fn, "r#fetch", true)] }]
    );
}

#[test]
fn impl_block_into_sync_strips_methods_only() {
    let mut params = read(vec![pair("send", "Send")]);
    let mut item = block(UnitKind::Impl, "Client");
    assert_eq!(convert_unit(&mut params, &mut item, ConvertMode::IntoSync), Ok(()));
    assert_eq!(
        item.members,
        vec![method(false), other_member(true), method(false), other_member(false), method(false)]
    );
    assert_eq!(item.attrs, Vec::<String>::new());
    assert_eq!(item.name, Some("Client".to_string()));
    assert!(!params.idents_get("Client").unwrap().fn_mode);
}

#[test]
fn impl_block_into_async_gets_the_suspension_attribute() {
    let mut params = read(vec![pair("send", "Send")]);
    let mut item = block(UnitKind::Impl, "Client");
    assert_eq!(convert_unit(&mut params, &mut item, ConvertMode::IntoAsync), Ok(()));
    assert_eq!(item.attrs, vec!["async_trait::async_trait".to_string()]);
    assert_eq!(item.members, block(UnitKind::Impl, "Client").members);

    let mut params = read(vec![pair("send", "?Send")]);
    let mut item = block(UnitKind::Impl, "Client");
    item.attrs.push("first".to_string());
    assert_eq!(convert_unit(&mut params, &mut item, ConvertMode::IntoAsync), Ok(()));
    assert_eq!(
        item.attrs,
        vec!["first".to_string(), "async_trait::async_trait(?Send)".to_string()]
    );

    let mut params = MacroParameters::new();
    let mut item = block(UnitKind::Impl, "Client");
    assert_eq!(convert_unit(&mut params, &mut item, ConvertMode::IntoAsync), Ok(()));
    assert_eq!(item, block(UnitKind::Impl, "Client"));
}

#[test]
fn impl_block_without_a_name_registers_nothing() {
    let mut params = MacroParameters::new();
    let mut item = block(UnitKind::Impl, "Client");
    item.name = None;
    assert_eq!(convert_unit(&mut params, &mut item, ConvertMode::IntoSync), Ok(()));
    assert_eq!(params.to_nestedmeta(None), Vec::<Directive>::new());
    assert_eq!(item.name, None);
    assert_eq!(item.members[0], method(false));
}

#[test]
fn trait_into_sync_strips_methods_and_into_async_changes_nothing() {
    let mut params = read(vec![pair("send", "Send")]);
    let mut item = block(UnitKind::Trait, "Service");
    assert_eq!(convert_unit(&mut params, &mut item, ConvertMode::IntoSync), Ok(()));
    assert_eq!(
        item.members,
        vec![method(false), other_member(true), method(false), other_member(false), method(false)]
    );
    let mut item = block(UnitKind::Trait, "Service");
    assert_eq!(convert_unit(&mut params, &mut item, ConvertMode::IntoAsync), Ok(()));
    assert_eq!(item, block(UnitKind::Trait, "Service"));
}

#[test]
fn names_are_registered_by_kind() {
    let mut params = MacroParameters::new();
    for (kind, name, fn_mode) in [
        (UnitKind::Struct, "S", false),
        (UnitKind::Enum, "E", false),
        (UnitKind::Trait, "T", false),
        (UnitKind::Impl, "I", false),
        (UnitKind::Fn, "f", true),
        (UnitKind::Mod, "m", true),
    ] {
        let mut item = unit(kind, name, false);
        assert_eq!(convert_unit(&mut params, &mut item, ConvertMode::IntoSync), Ok(()));
        assert_eq!(params.idents_get(name).unwrap().fn_mode, fn_mode);
        assert_eq!(item, unit(kind, name, false));
    }
    let mut import = unit(UnitKind::Use, "u", true);
    assert_eq!(convert_unit(&mut params, &mut import, ConvertMode::IntoSync), Ok(()));
    assert!(params.idents_get("u").is_none());
    assert_eq!(import, unit(UnitKind::Use, "u", true));
}

#[test]
fn other_units_are_refused() {
    let mut params = MacroParameters::new();
    let mut item = unit(UnitKind::Other, "X", true);
    assert_eq!(
        convert_unit(&mut params, &mut item, ConvertMode::IntoSync),
        Err(ConvertError::UnsupportedUnit)
    );
    assert_eq!(item, unit(UnitKind::Other, "X", true));
    assert!(params.idents_get("X").is_none());
    assert_eq!(
        convert(
            MacroParameters::new(),
            vec![unit(UnitKind::Fn, "f", true), item],
            ConvertMode::IntoSync
        ),
        Err(ConvertError::UnsupportedUnit)
    );
    assert_eq!(
        ConvertError::UnsupportedUnit.message(),
        "Allowed impl, struct, enum, trait, fn or use items only"
    );
}

#[test]
fn unit_is_renamed_under_a_key() {
    let mut params = read(vec![pair("key", "sync")]);
    let mut item = unit(UnitKind::Fn, "fetch", true);
    assert_eq!(convert_unit(&mut params, &mut item, ConvertMode::IntoSync), Ok(()));
    assert_eq!(item, unit(UnitKind::Fn, "fetch_sync", false));
    let mut item = unit(UnitKind::Struct, "Client", false);
    assert_eq!(convert_unit(&mut params, &mut item, ConvertMode::IntoAsync), Ok(()));
    assert_eq!(item, unit(UnitKind::Struct, "ClientAsync", false));
}

#[test]
fn unit_takes_its_own_name_for_the_key() {
    let mut params = read(vec![pair("key", "fast"), pair("self", "FastClient")]);
    let mut item = unit(UnitKind::Struct, "Client", false);
    assert_eq!(convert_unit(&mut params, &mut item, ConvertMode::IntoSync), Ok(()));
    assert_eq!(item.name, Some("r#FastClient".to_string()));
}

#[test]
fn kept_name_is_not_renamed() {
    let mut params = read(vec![pair("key", "sync"), flag("keep_self")]);
    let mut item = unit(UnitKind::Fn, "fetch", true);
    assert_eq!(convert_unit(&mut params, &mut item, ConvertMode::IntoSync), Ok(()));
    assert_eq!(item, unit(UnitKind::Fn, "fetch", false));
    let mut params = read(vec![
        pair("key", "sync"),
        list("idents", vec![list("fetch", vec![flag("keep"), pair("sync", "x")])]),
    ]);
    let mut item = unit(UnitKind::Fn, "fetch", true);
    assert_eq!(convert_unit(&mut params, &mut item, ConvertMode::IntoSync), Ok(()));
    assert_eq!(item, unit(UnitKind::Fn, "fetch", false));
}

#[test]
fn unwritable_name_is_refused() {
    let mut params = read(vec![
        pair("key", "sync"),
        list("idents", vec![list("fetch", vec![pair("sync", "two words")])]),
        pair("send", "Send"),
    ]);
    let mut item = unit(UnitKind::Fn, "fetch", true);
    assert_eq!(
        convert_unit(&mut params, &mut item, ConvertMode::IntoSync),
        Err(ConvertError::UnwritableName)
    );
    assert_eq!(item, unit(UnitKind::Fn, "fetch", true));
    assert_eq!(params.rename_ident("fetch", ConvertMode::IntoSync), Renamed::Unwritable);
    assert_eq!(
        params.rename_ident("fetch", ConvertMode::IntoAsync),
        Renamed::To("fetchAsync".to_string())
    );
}

#[test]
fn identifiers_without_a_rule_or_a_key_are_not_renamed() {
    let params = read(vec![pair("key", "sync"), list("idents", vec![flag("Known")])]);
    assert_eq!(
        params.rename_ident("Known", ConvertMode::IntoSync),
        Renamed::To("KnownSync".to_string())
    );
    assert_eq!(params.rename_ident("Unknown", ConvertMode::IntoSync), Renamed::Unchanged);
    let no_key = read(vec![list("idents", vec![flag("Known")])]);
    assert_eq!(no_key.rename_ident("Known", ConvertMode::IntoSync), Renamed::Unchanged);
}

#[test]
fn later_units_know_the_names_of_earlier_ones() {
    let params = read(vec![pair("key", "async"), flag("__into_async")]);
    let input = vec![
        unit(UnitKind::Struct, "Client", false),
        block(UnitKind::Impl, "Client"),
        unit(UnitKind::Fn, "fetch", true),
    ];
    let output = convert(params, input, ConvertMode::IntoAsync).unwrap();
    assert_eq!(
        output,
        vec![
            unit(UnitKind::Struct, "ClientAsync", false),
            block(UnitKind::Impl, "ClientAsync"),
            unit(UnitKind::Fn, "fetch_async", true),
        ]
    );
    assert_eq!(
        convert(MacroParameters::new(), vec![], ConvertMode::IntoSync),
        Ok(vec![])
    );
}

#[test]
fn disabled_configuration_gives_the_units_back() {
    let input = vec![unit(UnitKind::Fn, "fetch", true), block(UnitKind::Impl, "Client")];
    let args = vec![
        flag("disable"),
        flag("__into_sync"),
        list("sync", vec![]),
        list("async", vec![]),
        pair("key", "k"),
    ];
    let copies = maybe(&args, &input).unwrap();
    assert_eq!(
        copies,
        vec![Emitted {
            decorations: vec![],
            units: vec![unit(UnitKind::Fn, "fetch", true), block(UnitKind::Impl, "Client")],
        }]
    );
    let other = vec![unit(UnitKind::Other, "X", true)];
    assert_eq!(
        expand(read(vec![flag("disable")]), &other).unwrap(),
        vec![Emitted { decorations: vec![], units: vec![unit(UnitKind::Other, "X", true)] }]
    );
}

#[test]
fn configuration_with_a_mode_rewrites() {
    let input = vec![unit(UnitKind::Fn, "fetch", true)];
    let copies = maybe(&vec![flag("__into_sync"), list("async", vec![])], &input).unwrap();
    assert_eq!(
        copies,
        vec![Emitted { decorations: vec![], units: vec![unit(UnitKind::Fn, "fetch", false)] }]
    );
    let other = vec![unit(UnitKind::Other, "X", true)];
    assert_eq!(
        maybe(&vec![flag("__into_sync")], &other),
        Err(MacroError::Convert(ConvertError::UnsupportedUnit))
    );
}

#[test]
fn two_variants_give_two_copies() {
    let input = vec![block(UnitKind::Trait, "Service")];
    let args = vec![list("sync", vec![]), list("async", vec![])];
    let copies = maybe(&args, &input).unwrap();
    assert_eq!(copies.len(), 2);
    for copy in &copies {
        assert_eq!(copy.units, vec![block(UnitKind::Trait, "Service")]);
        assert_eq!(copy.decorations.len(), 1);
    }
    let other = vec![unit(UnitKind::Other, "X", true)];
    let copies = maybe(&args, &other).unwrap();
    assert_eq!(copies.len(), 2);
}

#[test]
fn no_variant_gives_no_copy() {
    let input = vec![unit(UnitKind::Fn, "fetch", true)];
    assert_eq!(maybe(&vec![], &input), Ok(vec![]));
    assert_eq!(maybe(&vec![pair("key", "k")], &input), Ok(vec![]));
}

#[test]
fn copy_carries_condition_and_attributes_around_the_request() {
    let args = vec![
        pair("prefix", "mac"),
        list("outer", vec![flag("parent_outer")]),
        list(
            "async",
            vec![
                pair("feature", "tokio"),
                list("outer", vec![flag("o1"), Directive::text("o2")]),
                list("inner", vec![flag("i1")]),
                flag("i2"),
                pair("key", "tokio"),
            ],
        ),
    ];
    let input = vec![unit(UnitKind::Struct, "Client", false)];
    let copies = maybe(&args, &input).unwrap();
    let condition = Meta::NameValue(
        Name::from_ident("feature"),
        maybe_async_cfg::directive::Literal::Str("tokio".to_string()),
    );
    assert_eq!(
        copies,
        vec![Emitted {
            decorations: vec![
                Decoration::Cfg(condition),
                Decoration::Attr(flag("o1")),
                Decoration::Attr(Directive::text("o2")),
                Decoration::Reinvoke(
                    maybe_path("mac"),
                    vec![
                        flag("__into_async"),
                        pair("key", "tokio"),
                        list("cfg", vec![pair("feature", "tokio")]),
                        list("outer", vec![flag("o1"), Directive::text("o2")]),
                        list("inner", vec![flag("i1"), flag("i2")]),
                    ],
                ),
                Decoration::Attr(flag("i1")),
                Decoration::Attr(flag("i2")),
            ],
            units: vec![unit(UnitKind::Struct, "Client", false)],
        }]
    );
}

#[test]
fn refused_directive_list_stops_the_expansion() {
    let input = vec![unit(UnitKind::Fn, "fetch", true)];
    assert_eq!(
        maybe(&vec![list("cfg", vec![])], &input),
        Err(MacroError::Config(ConfigError::ExpectedCondition))
    );
}

#[test]
fn decorations_are_appended_in_order() {
    let params = read(vec![
        list("cfg", vec![flag("unix")]),
        list("outer", vec![flag("a"), flag("b")]),
        list("inner", vec![flag("c")]),
    ]);
    let mut decorations = vec![Decoration::Attr(flag("first"))];
    params.extend_tokenstream2_with_cfg_outer_attrs(&mut decorations);
    assert_eq!(
        decorations,
        vec![
            Decoration::Attr(flag("first")),
            Decoration::Cfg(Meta::Path(Name::from_ident("unix"))),
            Decoration::Attr(flag("a")),
            Decoration::Attr(flag("b")),
        ]
    );
    params.extend_tokenstream2_with_inner_attrs(&mut decorations);
    assert_eq!(decorations.len(), 5);
    assert_eq!(decorations[4], Decoration::Attr(flag("c")));
    let mut none = Vec::new();
    MacroParameters::new().extend_tokenstream2_with_cfg_outer_attrs(&mut none);
    MacroParameters::new().extend_tokenstream2_with_inner_attrs(&mut none);
    assert!(none.is_empty());
}

fn attribute(outer: bool, leading_colon: bool, segments: &[(&str, bool)]) -> Attribute {
    Attribute {
        outer,
        leading_colon,
        segments: segments
            .iter()
            .map(|(ident, has_arguments)| PathSegment {
                ident: ident.to_string(),
                has_arguments: *has_arguments,
            })
            .collect(),
    }
}

#[test]
fn attributes_of_this_crate_are_recognised() {
    let any_prefix = MacroParameters::new();
    let with_prefix = read(vec![pair("prefix", "mac")]);
    let ours = attribute(true, false, &[("mac", false), ("maybe", false)]);
    assert_eq!(with_prefix.is_our_attr(&ours), Some("maybe".to_string()));
    assert_eq!(any_prefix.is_our_attr(&ours), Some("maybe".to_string()));
    let foreign = attribute(true, false, &[("serde", false), ("rename", false)]);
    assert_eq!(with_prefix.is_our_attr(&foreign), None);
    assert_eq!(any_prefix.is_our_attr(&foreign), Some("rename".to_string()));
    for attr in [
        attribute(false, false, &[("mac", false), ("maybe", false)]),
        attribute(true, true, &[("mac", false), ("maybe", false)]),
        attribute(true, false, &[("maybe", false)]),
        attribute(true, false, &[("a", false), ("mac", false), ("maybe", false)]),
        attribute(true, false, &[("mac", true), ("maybe", false)]),
        attribute(true, false, &[("mac", false), ("maybe", true)]),
        attribute(true, false, &[]),
    ] {
        assert_eq!(with_prefix.is_our_attr(&attr), None);
        assert_eq!(any_prefix.is_our_attr(&attr), None);
    }
}

#[test]
fn attributes_are_dropped_by_name() {
    let params = read(vec![
        pair("prefix", "mac"),
        list("drop_attrs", vec![flag("test"), flag("only_if")]),
    ]);
    assert!(params.drops_attr(&attribute(true, false, &[("test", false)])));
    assert!(params.drops_attr(&attribute(false, false, &[("test", false)])));
    assert!(!params.drops_attr(&attribute(true, false, &[("mac", false), ("only_if", false)])));
    assert!(params.drops_attr(&attribute(true, false, &[("only_if", false)])));
    assert!(!params.drops_attr(&attribute(true, false, &[("other", false), ("only_if", false)])));
    assert!(!params.drops_attr(&attribute(true, false, &[("mac", false), ("test", true)])));
    assert!(!params.drops_attr(&attribute(true, true, &[("test", false)])));
    assert!(!params.drops_attr(&attribute(true, false, &[("test", true)])));
    assert!(!params.drops_attr(&attribute(true, false, &[("inline", false)])));
    assert!(!params.drops_attr(&attribute(true, false, &[])));
    assert!(!MacroParameters::new().drops_attr(&attribute(true, false, &[("test", false)])));
}
