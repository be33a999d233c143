//! A configuration that is written as a directive list is read back with
//! the settings that were written.
use vstd::prelude::*;
use crate::directive::{
    DirectiveModel, flag_if, flag_model, ident_name, list_model, MetaModel, name_ident,
    pair_model, text_model,
};
use crate::error::ConfigError;
use crate::ident::{
    IdentRecordModel, mode_name_directives, plain_record, record_directive, record_flags,
    record_items, record_pairs,
};
use crate::mode::{ConvertMode, keyword_mode, mode_keyword};
use crate::model::{
    attrs_part, cfg_part, drop_fold, drop_name, drops_part, empty_params, feature_pair,
    features_part, fold, ident_entry, idents_fold, idents_part, mode_marker, mode_part,
    name_flags, pair_if, ParamsModel, parse, renaming, rule_directives, rule_fold, rule_step,
    send_part, send_text, send_value, serialized, step, versions_part,
};
use crate::rule_round_trip::{lemma_rules_rebuilt, lemma_with_entry_fresh, rules_well_formed};
use crate::table::{distinct, Entries, with_entry};

verus! {

/// The words that a written configuration uses differ from the words that
/// are tried before them when a directive is read.
proof fn lemma_words_differ()
    ensures
        "__into_sync"@ != "__into_async"@,
        "disable"@ != "__into_async"@,
        "disable"@ != "__into_sync"@,
        "keep_self"@ != "__into_async"@,
        "keep_self"@ != "__into_sync"@,
        "keep_self"@ != "disable"@,
        "self"@ != "key"@,
        "prefix"@ != "key"@,
        "prefix"@ != "self"@,
        "send"@ != "key"@,
        "send"@ != "self"@,
        "send"@ != "prefix"@,
        "?Send"@ != ""@,
        "?Send"@ != "Send"@,
        "?Send"@ != "true"@,
{
    reveal_strlit("__into_sync");
    reveal_strlit("__into_async");
    reveal_strlit("disable");
    reveal_strlit("keep_self");
    reveal_strlit("key");
    reveal_strlit("self");
    reveal_strlit("prefix");
    reveal_strlit("send");
    reveal_strlit("?Send");
    reveal_strlit("");
    reveal_strlit("Send");
    reveal_strlit("true");
    assert("__into_sync"@.len() == 11);
    assert("__into_async"@.len() == 12);
    assert("disable"@.len() == 7);
    assert("keep_self"@.len() == 9);
    assert("key"@.len() == 3);
    assert("self"@.len() == 4);
    assert("prefix"@.len() == 6);
    assert("send"@.len() == 4);
    assert("send"@[2] == 'n');
    assert("self"@[2] == 'l');
    assert("?Send"@.len() == 5);
    assert(""@.len() == 0);
    assert("Send"@.len() == 4);
    assert("true"@.len() == 4);
}

/// The names of the lists that are written differ from the names of the
/// lists that are tried before them when a list is read.
proof fn lemma_list_names_differ()
    ensures
        "idents"@ != "cfg"@,
        "outer"@ != "cfg"@,
        "outer"@ != "idents"@,
        "outer"@ != "any"@,
        "outer"@ != "all"@,
        "outer"@ != "not"@,
        "inner"@ != "cfg"@,
        "inner"@ != "idents"@,
        "inner"@ != "any"@,
        "inner"@ != "all"@,
        "inner"@ != "not"@,
        "inner"@ != "outer"@,
        "replace_feature"@ != "cfg"@,
        "replace_feature"@ != "idents"@,
        "replace_feature"@ != "any"@,
        "replace_feature"@ != "all"@,
        "replace_feature"@ != "not"@,
        "replace_feature"@ != "outer"@,
        "replace_feature"@ != "inner"@,
        "drop_attrs"@ != "cfg"@,
        "drop_attrs"@ != "idents"@,
        "drop_attrs"@ != "any"@,
        "drop_attrs"@ != "all"@,
        "drop_attrs"@ != "not"@,
        "drop_attrs"@ != "outer"@,
        "drop_attrs"@ != "inner"@,
        "drop_attrs"@ != "replace_feature"@,
        forall|mode: ConvertMode|
            #![trigger mode_keyword(mode)]
            mode_keyword(mode) != "cfg"@ && mode_keyword(mode) != "idents"@ && mode_keyword(mode)
                != "any"@ && mode_keyword(mode) != "all"@ && mode_keyword(mode) != "not"@
                && mode_keyword(mode) != "outer"@ && mode_keyword(mode) != "inner"@
                && mode_keyword(mode) != "replace_feature"@ && mode_keyword(mode)
                != "drop_attrs"@,
{
    reveal_strlit("cfg");
    reveal_strlit("idents");
    reveal_strlit("any");
    reveal_strlit("all");
    reveal_strlit("not");
    reveal_strlit("outer");
    reveal_strlit("inner");
    reveal_strlit("replace_feature");
    reveal_strlit("drop_attrs");
    reveal_strlit("sync");
    reveal_strlit("async");
    assert("cfg"@.len() == 3);
    assert("idents"@.len() == 6);
    assert("any"@.len() == 3);
    assert("all"@.len() == 3);
    assert("not"@.len() == 3);
    assert("outer"@.len() == 5);
    assert("inner"@.len() == 5);
    assert("outer"@[0] == 'o');
    assert("inner"@[0] == 'i');
    assert("async"@[0] == 'a');
    assert("replace_feature"@.len() == 15);
    assert("drop_attrs"@.len() == 10);
    assert("sync"@.len() == 4);
    assert("async"@.len() == 5);
}

/// Reading a prefix of a list does not depend on what follows it.
proof fn lemma_fold_prefix(
    start: ParamsModel,
    list: Seq<DirectiveModel>,
    more: Seq<DirectiveModel>,
    n: int,
)
    requires
        0 <= n <= list.len(),
    ensures
        fold(start, list + more, n) == fold(start, list, n),
    decreases n,
{
    if n > 0 {
        lemma_fold_prefix(start, list, more, n - 1);
        assert((list + more)[n - 1] == list[n - 1]);
    }
}

/// Reading two lists one after the other is reading the second from where
/// the first has led.
proof fn lemma_fold_concat(
    start: ParamsModel,
    list: Seq<DirectiveModel>,
    more: Seq<DirectiveModel>,
    n: int,
)
    requires
        0 <= n <= more.len(),
        fold(start, list, list.len() as int).is_ok(),
    ensures
        fold(start, list + more, list.len() + n) == fold(
            fold(start, list, list.len() as int).unwrap(),
            more,
            n,
        ),
    decreases n,
{
    if n == 0 {
        lemma_fold_prefix(start, list, more, list.len() as int);
    } else {
        lemma_fold_concat(start, list, more, n - 1);
        assert((list + more)[list.len() + n - 1] == more[n - 1]);
    }
}

/// Two configurations agree in every setting but the rename rules, the
/// feature names and the variants.
pub open spec fn same_settings(left: ParamsModel, right: ParamsModel) -> bool {
    &&& left.mode == right.mode
    &&& left.disable == right.disable
    &&& left.key == right.key
    &&& left.self_name == right.self_name
    &&& left.keep_self == right.keep_self
    &&& left.prefix == right.prefix
    &&& left.send == right.send
    &&& left.cfg == right.cfg
    &&& left.outer_attrs == right.outer_attrs
    &&& left.inner_attrs == right.inner_attrs
    &&& left.drop_attrs == right.drop_attrs
}

/// A directive that is read from every configuration, and leaves those
/// settings as they are.
#[verifier::opaque]
pub open spec fn keeps_settings(directive: DirectiveModel) -> bool {
    forall|built: ParamsModel|
        (#[trigger] step(built, directive)).is_ok() && same_settings(
            step(built, directive).unwrap(),
            built,
        )
}

/// A list of such directives.
pub open spec fn all_keep_settings(list: Seq<DirectiveModel>) -> bool {
    forall|i: int| 0 <= i < list.len() ==> keeps_settings(#[trigger] list[i])
}

/// A list of directives that keep the settings is read, and keeps them.
proof fn lemma_fold_keeps(start: ParamsModel, list: Seq<DirectiveModel>, n: int)
    requires
        all_keep_settings(list),
        0 <= n <= list.len(),
    ensures
        fold(start, list, n).is_ok(),
        same_settings(fold(start, list, n).unwrap(), start),
    decreases n,
{
    reveal(keeps_settings);
    if n > 0 {
        lemma_fold_keeps(start, list, n - 1);
        let before = fold(start, list, n - 1).unwrap();
        assert(keeps_settings(list[n - 1]));
        assert(step(before, list[n - 1]).is_ok());
    }
}

/// Two lists that keep the settings do so one after the other.
proof fn lemma_concat_keeps(list: Seq<DirectiveModel>, more: Seq<DirectiveModel>)
    requires
        all_keep_settings(list),
        all_keep_settings(more),
    ensures
        all_keep_settings(list + more),
{
    assert forall|i: int| 0 <= i < (list + more).len() implies keeps_settings(
        #[trigger] (list + more)[i],
    ) by {
        if i < list.len() {
            assert((list + more)[i] == list[i]);
        } else {
            assert((list + more)[i] == more[i - list.len()]);
        }
    }
}

/// Reading a list and then one more part leads where reading the part
/// from the list's end leads.
proof fn lemma_then(
    start: ParamsModel,
    list: Seq<DirectiveModel>,
    part: Seq<DirectiveModel>,
    middle: ParamsModel,
)
    requires
        fold(start, list, list.len() as int) == Ok::<ParamsModel, ConfigError>(middle),
    ensures
        fold(start, list + part, (list + part).len() as int) == fold(
            middle,
            part,
            part.len() as int,
        ),
{
    lemma_fold_concat(start, list, part, part.len() as int);
}

/// Reading nothing, or one directive.
proof fn lemma_short(start: ParamsModel, directive: DirectiveModel)
    ensures
        fold(start, Seq::<DirectiveModel>::empty(), 0) == Ok::<ParamsModel, ConfigError>(start),
        fold(start, seq![directive], 1) == step(start, directive),
{
    assert(fold(start, seq![directive], 0) == Ok::<ParamsModel, ConfigError>(start));
    assert(seq![directive][0] == directive);
}

/// The mode that is written: the one asked for, or else the
/// configuration's own.
pub open spec fn written_mode(
    own: Option<ConvertMode>,
    add_mode: Option<ConvertMode>,
) -> Option<ConvertMode> {
    match add_mode {
        Some(mode) => Some(mode),
        None => own,
    }
}

/// The marker of a mode is read back as that mode.
proof fn lemma_mode_part_read(
    start: ParamsModel,
    own: Option<ConvertMode>,
    add_mode: Option<ConvertMode>,
)
    ensures
        fold(start, mode_part(own, add_mode), mode_part(own, add_mode).len() as int) == Ok::<
            ParamsModel,
            ConfigError,
        >(
            match written_mode(own, add_mode) {
                Some(mode) => ParamsModel { mode: Some(mode), ..start },
                None => start,
            },
        ),
{
    lemma_words_differ();
    match written_mode(own, add_mode) {
        Some(mode) => {
            let word = mode_marker(mode);
            assert(mode_part(own, add_mode) == seq![flag_model(word)]);
            assert(name_ident(ident_name(word)) == Some(word));
            lemma_short(start, flag_model(word));
        },
        None => {
            assert(mode_part(own, add_mode) =~= Seq::<DirectiveModel>::empty());
            lemma_short(start, flag_model("disable"@));
        },
    }
}

/// The flag `disable` is read back.
proof fn lemma_disable_read(start: ParamsModel, set: bool)
    ensures
        fold(start, flag_if(set, "disable"@), flag_if(set, "disable"@).len() as int) == Ok::<
            ParamsModel,
            ConfigError,
        >(
            if set {
                ParamsModel { disable: true, ..start }
            } else {
                start
            },
        ),
{
    lemma_words_differ();
    assert(name_ident(ident_name("disable"@)) == Some("disable"@));
    lemma_short(start, flag_model("disable"@));
    if !set {
        assert(flag_if(set, "disable"@) =~= Seq::<DirectiveModel>::empty());
    }
}

/// The flag `keep_self` is read back.
proof fn lemma_keep_self_read(start: ParamsModel, set: bool)
    ensures
        fold(start, flag_if(set, "keep_self"@), flag_if(set, "keep_self"@).len() as int) == Ok::<
            ParamsModel,
            ConfigError,
        >(
            if set {
                ParamsModel { keep_self: true, ..start }
            } else {
                start
            },
        ),
{
    lemma_words_differ();
    assert(name_ident(ident_name("keep_self"@)) == Some("keep_self"@));
    lemma_short(start, flag_model("keep_self"@));
    if !set {
        assert(flag_if(set, "keep_self"@) =~= Seq::<DirectiveModel>::empty());
    }
}

/// The pair `key` is read back.
proof fn lemma_key_read(start: ParamsModel, value: Option<Seq<char>>)
    ensures
        fold(start, pair_if("key"@, value), pair_if("key"@, value).len() as int) == Ok::<
            ParamsModel,
            ConfigError,
        >(
            match value {
                Some(text) => ParamsModel { key: Some(text), ..start },
                None => start,
            },
        ),
{
    match value {
        Some(text) => {
            assert(name_ident(ident_name("key"@)) == Some("key"@));
            lemma_short(start, pair_model("key"@, text));
        },
        None => {
            assert(pair_if("key"@, value) =~= Seq::<DirectiveModel>::empty());
            lemma_short(start, flag_model("key"@));
        },
    }
}

/// The pair `self` is read back.
proof fn lemma_self_read(start: ParamsModel, value: Option<Seq<char>>)
    ensures
        fold(start, pair_if("self"@, value), pair_if("self"@, value).len() as int) == Ok::<
            ParamsModel,
            ConfigError,
        >(
            match value {
                Some(text) => ParamsModel { self_name: Some(text), ..start },
                None => start,
            },
        ),
{
    lemma_words_differ();
    match value {
        Some(text) => {
            assert(name_ident(ident_name("self"@)) == Some("self"@));
            lemma_short(start, pair_model("self"@, text));
        },
        None => {
            assert(pair_if("self"@, value) =~= Seq::<DirectiveModel>::empty());
            lemma_short(start, flag_model("self"@));
        },
    }
}

/// The pair `prefix` is read back.
proof fn lemma_prefix_read(start: ParamsModel, value: Option<Seq<char>>)
    ensures
        fold(start, pair_if("prefix"@, value), pair_if("prefix"@, value).len() as int) == Ok::<
            ParamsModel,
            ConfigError,
        >(
            match value {
                Some(text) => ParamsModel { prefix: Some(text), ..start },
                None => start,
            },
        ),
{
    lemma_words_differ();
    match value {
        Some(text) => {
            assert(name_ident(ident_name("prefix"@)) == Some("prefix"@));
            lemma_short(start, pair_model("prefix"@, text));
        },
        None => {
            assert(pair_if("prefix"@, value) =~= Seq::<DirectiveModel>::empty());
            lemma_short(start, flag_model("prefix"@));
        },
    }
}

/// The setting of `send` is read back.
proof fn lemma_send_read(start: ParamsModel, send: Option<bool>)
    ensures
        fold(start, send_part(send), send_part(send).len() as int) == Ok::<
            ParamsModel,
            ConfigError,
        >(
            match send {
                Some(shared) => ParamsModel { send: Some(shared), ..start },
                None => start,
            },
        ),
{
    lemma_words_differ();
    match send {
        Some(shared) => {
            assert(name_ident(ident_name("send"@)) == Some("send"@));
            assert(send_value(send_text(shared)) == Some(shared));
            lemma_short(start, pair_model("send"@, send_text(shared)));
        },
        None => {
            assert(send_part(send) =~= Seq::<DirectiveModel>::empty());
            lemma_short(start, flag_model("send"@));
        },
    }
}

/// The condition is read back.
proof fn lemma_cfg_read(start: ParamsModel, cfg: Option<MetaModel>)
    ensures
        fold(start, cfg_part(cfg), cfg_part(cfg).len() as int) == Ok::<ParamsModel, ConfigError>(
            match cfg {
                Some(condition) => ParamsModel { cfg: Some(condition), ..start },
                None => start,
            },
        ),
{
    match cfg {
        Some(condition) => {
            assert(name_ident(ident_name("cfg"@)) == Some("cfg"@));
            let nested = seq![DirectiveModel::Meta(condition)];
            assert(nested.len() == 1);
            assert(nested[0] == DirectiveModel::Meta(condition));
            lemma_short(start, list_model("cfg"@, nested));
        },
        None => {
            assert(cfg_part(cfg) =~= Seq::<DirectiveModel>::empty());
            lemma_short(start, flag_model("cfg"@));
        },
    }
}

/// The list `outer(..)` adds its elements to the outer attributes.
proof fn lemma_outer_read(start: ParamsModel, attrs: Seq<DirectiveModel>)
    ensures
        fold(
            start,
            attrs_part("outer"@, attrs),
            attrs_part("outer"@, attrs).len() as int,
        ) == Ok::<ParamsModel, ConfigError>(
            ParamsModel { outer_attrs: start.outer_attrs + attrs, ..start },
        ),
{
    lemma_list_names_differ();
    if attrs.len() == 0 {
        assert(attrs_part("outer"@, attrs) =~= Seq::<DirectiveModel>::empty());
        assert(start.outer_attrs + attrs =~= start.outer_attrs);
        lemma_short(start, flag_model("outer"@));
    } else {
        assert(name_ident(ident_name("outer"@)) == Some("outer"@));
        lemma_short(start, list_model("outer"@, attrs));
    }
}

/// The list `inner(..)` adds its elements to the inner attributes.
proof fn lemma_inner_read(start: ParamsModel, attrs: Seq<DirectiveModel>)
    ensures
        fold(
            start,
            attrs_part("inner"@, attrs),
            attrs_part("inner"@, attrs).len() as int,
        ) == Ok::<ParamsModel, ConfigError>(
            ParamsModel { inner_attrs: start.inner_attrs + attrs, ..start },
        ),
{
    lemma_list_names_differ();
    if attrs.len() == 0 {
        assert(attrs_part("inner"@, attrs) =~= Seq::<DirectiveModel>::empty());
        assert(start.inner_attrs + attrs =~= start.inner_attrs);
        lemma_short(start, flag_model("inner"@));
    } else {
        assert(name_ident(ident_name("inner"@)) == Some("inner"@));
        lemma_short(start, list_model("inner"@, attrs));
    }
}

/// Every item that a rule is written with is read back into a rule.
proof fn lemma_rule_items_read(
    start: IdentRecordModel,
    rule: IdentRecordModel,
    name: Seq<char>,
    n: int,
)
    requires
        0 <= n <= record_items(rule, name).len(),
    ensures
        rule_fold(start, name, record_items(rule, name), n).is_ok(),
    decreases n,
{
    if n > 0 {
        lemma_rule_items_read(start, rule, name, n - 1);
        let items = record_items(rule, name);
        let before = rule_fold(start, name, items, n - 1).unwrap();
        let item = items[n - 1];
        let flags = record_flags(rule, name);
        assert(name_ident(ident_name("fn"@)) == Some("fn"@));
        assert(name_ident(ident_name("use"@)) == Some("use"@));
        assert(name_ident(ident_name("keep"@)) == Some("keep"@));
        assert(name_ident(ident_name("sync"@)) == Some("sync"@));
        assert(name_ident(ident_name("async"@)) == Some("async"@));
        if n - 1 < flags.len() {
            assert(item == flags[n - 1]);
            lemma_record_flag(rule, name, n - 1);
        } else {
            let names = rule.idents.unwrap();
            let k = n - 1 - flags.len();
            assert(item == record_pairs(names)[k]);
            assert(item == pair_model(names[k].0, names[k].1));
            assert(name_ident(ident_name(names[k].0)) == Some(names[k].0));
        }
        assert(rule_step(before, name, item).is_ok());
    }
}

/// What the flags and mode names of a rule are written as: one of the
/// five words, or a pair under `sync` or `async`.
pub open spec fn is_rule_flag(item: DirectiveModel) -> bool {
    ||| item == flag_model("fn"@)
    ||| item == flag_model("use"@)
    ||| item == flag_model("keep"@)
    ||| item == flag_model("sync"@)
    ||| item == flag_model("async"@)
    ||| exists|value: Seq<char>| item == pair_model("sync"@, value)
    ||| exists|value: Seq<char>| item == pair_model("async"@, value)
}

/// Each of the flags and mode names of a rule is written in such a form.
proof fn lemma_record_flag(rule: IdentRecordModel, name: Seq<char>, i: int)
    requires
        0 <= i < record_flags(rule, name).len(),
    ensures
        is_rule_flag(record_flags(rule, name)[i]),
{
    let a = flag_if(rule.fn_mode, "fn"@);
    let b = flag_if(rule.use_mode, "use"@);
    let c = flag_if(rule.keep, "keep"@);
    let d = mode_name_directives("async"@, rule.ident_async, name);
    let e = mode_name_directives("sync"@, rule.ident_sync, name);
    let item = record_flags(rule, name)[i];
    assert(record_flags(rule, name) == a + b + c + d + e);
    if i < a.len() {
        assert(item == a[i]);
    } else if i < a.len() + b.len() {
        assert(item == b[i - a.len()]);
    } else if i < a.len() + b.len() + c.len() {
        assert(item == c[i - a.len() - b.len()]);
    } else if i < a.len() + b.len() + c.len() + d.len() {
        assert(item == d[i - a.len() - b.len() - c.len()]);
        if let Some(value) = rule.ident_async {
            if value != name {
                assert(item == pair_model("async"@, value));
            }
        }
    } else {
        assert(item == e[i - a.len() - b.len() - c.len() - d.len()]);
        if let Some(value) = rule.ident_sync {
            if value != name {
                assert(item == pair_model("sync"@, value));
            }
        }
    }
}

/// Every rule that is written is read back as an element of `idents(..)`.
proof fn lemma_rules_read(
    table: Entries<IdentRecordModel>,
    idents: Entries<IdentRecordModel>,
    n: int,
)
    requires
        0 <= n <= idents.len(),
    ensures
        idents_fold(table, rule_directives(idents), n).is_ok(),
    decreases n,
{
    if n > 0 {
        lemma_rules_read(table, idents, n - 1);
        let rule = idents[n - 1].1;
        let name = idents[n - 1].0;
        let element = rule_directives(idents)[n - 1];
        assert(element == record_directive(rule, name));
        assert(name_ident(ident_name(name)) == Some(name));
        let items = record_items(rule, name);
        lemma_rule_items_read(plain_record(false), rule, name, items.len() as int);
        assert(ident_entry(element).is_ok());
    }
}

/// The list `idents(..)` keeps the settings.
proof fn lemma_idents_part_keeps(idents: Entries<IdentRecordModel>)
    ensures
        all_keep_settings(idents_part(idents)),
{
    reveal(keeps_settings);
    lemma_list_names_differ();
    let nested = rule_directives(idents);
    assert(name_ident(ident_name("idents"@)) == Some("idents"@));
    assert forall|built: ParamsModel|
        (#[trigger] step(built, list_model("idents"@, nested))).is_ok() && same_settings(
            step(built, list_model("idents"@, nested)).unwrap(),
            built,
        ) by {
        lemma_rules_read(built.idents, idents, idents.len() as int);
    }
    assert(keeps_settings(list_model("idents"@, nested)));
}

/// The lists `replace_feature(..)` keep the settings.
proof fn lemma_features_part_keeps(features: Entries<Seq<char>>)
    ensures
        all_keep_settings(features_part(features)),
{
    reveal(keeps_settings);
    lemma_list_names_differ();
    assert(name_ident(ident_name("replace_feature"@)) == Some("replace_feature"@));
    assert forall|i: int| 0 <= i < features.len() implies keeps_settings(
        #[trigger] features_part(features)[i],
    ) by {
        let nested = seq![text_model(features[i].0), text_model(features[i].1)];
        assert(nested.len() == 2);
        assert(features_part(features)[i] == list_model("replace_feature"@, nested));
        assert(keeps_settings(list_model("replace_feature"@, nested)));
    }
}

/// A variant is read back where its own configuration is.
proof fn lemma_version_keeps(mode: ConvertMode, nested: Seq<DirectiveModel>)
    requires
        parse(nested).is_ok(),
    ensures
        keeps_settings(list_model(mode_keyword(mode), nested)),
{
    reveal(keeps_settings);
    lemma_list_names_differ();
    let name = mode_keyword(mode);
    assert(name_ident(ident_name(name)) == Some(name));
    assert(keyword_mode(name).is_some());
}

/// The names that are written as bare words are read back in their order.
proof fn lemma_drops_read(start: Seq<Seq<char>>, names: Seq<Seq<char>>, n: int)
    requires
        0 <= n <= names.len(),
    ensures
        drop_fold(start, name_flags(names), n) == Ok::<Seq<Seq<char>>, ConfigError>(
            start + names.subrange(0, n),
        ),
    decreases n,
{
    if n == 0 {
        assert(start + names.subrange(0, 0) =~= start);
    } else {
        lemma_drops_read(start, names, n - 1);
        assert(name_ident(ident_name(names[n - 1])) == Some(names[n - 1]));
        assert(drop_name(name_flags(names)[n - 1]) == Ok::<Seq<char>, ConfigError>(names[n - 1]));
        assert((start + names.subrange(0, n - 1)).push(names[n - 1]) =~= start + names.subrange(
            0,
            n,
        ));
    }
}

/// The list `drop_attrs(..)` adds its names to the attributes to drop.
proof fn lemma_drops_part_read(start: ParamsModel, names: Seq<Seq<char>>)
    ensures
        fold(start, drops_part(names), drops_part(names).len() as int) == Ok::<
            ParamsModel,
            ConfigError,
        >(ParamsModel { drop_attrs: start.drop_attrs + names, ..start }),
{
    lemma_list_names_differ();
    if names.len() == 0 {
        assert(name_flags(names).len() == 0);
        assert(drops_part(names) =~= Seq::<DirectiveModel>::empty());
        assert(start.drop_attrs + names =~= start.drop_attrs);
        lemma_short(start, flag_model("drop_attrs"@));
    } else {
        assert(name_flags(names).len() != 0);
        assert(name_ident(ident_name("drop_attrs"@)) == Some("drop_attrs"@));
        lemma_drops_read(start.drop_attrs, names, names.len() as int);
        assert(names.subrange(0, names.len() as int) =~= names);
        lemma_short(start, list_model("drop_attrs"@, name_flags(names)));
    }
}

/// The flags and pairs that are written first.
pub open spec fn words_part(
    params: ParamsModel,
    add_mode: Option<ConvertMode>,
) -> Seq<DirectiveModel> {
    Seq::<DirectiveModel>::empty() + mode_part(params.mode, add_mode) + flag_if(
        params.disable,
        "disable"@,
    ) + flag_if(params.keep_self, "keep_self"@) + pair_if("key"@, params.key) + pair_if(
        "self"@,
        params.self_name,
    ) + pair_if("prefix"@, params.prefix) + send_part(params.send)
}

/// What is read from the flags and pairs.
pub open spec fn words_read(params: ParamsModel, add_mode: Option<ConvertMode>) -> ParamsModel {
    ParamsModel {
        mode: written_mode(params.mode, add_mode),
        disable: params.disable,
        keep_self: params.keep_self,
        key: params.key,
        self_name: params.self_name,
        prefix: params.prefix,
        send: params.send,
        ..empty_params()
    }
}

/// The flags and pairs are read back.
proof fn lemma_words_read(params: ParamsModel, add_mode: Option<ConvertMode>)
    ensures
        fold(
            empty_params(),
            words_part(params, add_mode),
            words_part(params, add_mode).len() as int,
        ) == Ok::<ParamsModel, ConfigError>(words_read(params, add_mode)),
{
    let start = empty_params();
    let none = Seq::<DirectiveModel>::empty();
    lemma_short(start, flag_model("disable"@));
    let part0 = mode_part(params.mode, add_mode);
    lemma_then(start, none, part0, start);
    lemma_mode_part_read(start, params.mode, add_mode);
    let b0 = fold(start, none + part0, (none + part0).len() as int).unwrap();
    let part1 = flag_if(params.disable, "disable"@);
    lemma_then(start, none + part0, part1, b0);
    lemma_disable_read(b0, params.disable);
    let s1 = none + part0 + part1;
    let b1 = fold(start, s1, s1.len() as int).unwrap();
    let part2 = flag_if(params.keep_self, "keep_self"@);
    lemma_then(start, s1, part2, b1);
    lemma_keep_self_read(b1, params.keep_self);
    let s2 = s1 + part2;
    let b2 = fold(start, s2, s2.len() as int).unwrap();
    let part3 = pair_if("key"@, params.key);
    lemma_then(start, s2, part3, b2);
    lemma_key_read(b2, params.key);
    let s3 = s2 + part3;
    let b3 = fold(start, s3, s3.len() as int).unwrap();
    let part4 = pair_if("self"@, params.self_name);
    lemma_then(start, s3, part4, b3);
    lemma_self_read(b3, params.self_name);
    let s4 = s3 + part4;
    let b4 = fold(start, s4, s4.len() as int).unwrap();
    let part5 = pair_if("prefix"@, params.prefix);
    lemma_then(start, s4, part5, b4);
    lemma_prefix_read(b4, params.prefix);
    let s5 = s4 + part5;
    let b5 = fold(start, s5, s5.len() as int).unwrap();
    let part6 = send_part(params.send);
    lemma_then(start, s5, part6, b5);
    lemma_send_read(b5, params.send);
}

/// All that is written before the rename rules.
pub open spec fn plain_part(
    params: ParamsModel,
    add_mode: Option<ConvertMode>,
) -> Seq<DirectiveModel> {
    words_part(params, add_mode) + cfg_part(params.cfg) + attrs_part(
        "outer"@,
        params.outer_attrs,
    ) + attrs_part("inner"@, params.inner_attrs)
}

/// What is read from it.
pub open spec fn plain_read(params: ParamsModel, add_mode: Option<ConvertMode>) -> ParamsModel {
    ParamsModel {
        cfg: params.cfg,
        outer_attrs: params.outer_attrs,
        inner_attrs: params.inner_attrs,
        ..words_read(params, add_mode)
    }
}

/// All that is written before the rename rules is read back.
proof fn lemma_plain_read(params: ParamsModel, add_mode: Option<ConvertMode>)
    ensures
        fold(
            empty_params(),
            plain_part(params, add_mode),
            plain_part(params, add_mode).len() as int,
        ) == Ok::<ParamsModel, ConfigError>(plain_read(params, add_mode)),
{
    let start = empty_params();
    let s0 = words_part(params, add_mode);
    let b0 = words_read(params, add_mode);
    lemma_words_read(params, add_mode);
    let part1 = cfg_part(params.cfg);
    lemma_then(start, s0, part1, b0);
    lemma_cfg_read(b0, params.cfg);
    let s1 = s0 + part1;
    let b1 = fold(start, s1, s1.len() as int).unwrap();
    let part2 = attrs_part("outer"@, params.outer_attrs);
    lemma_then(start, s1, part2, b1);
    lemma_outer_read(b1, params.outer_attrs);
    let s2 = s1 + part2;
    let b2 = fold(start, s2, s2.len() as int).unwrap();
    let part3 = attrs_part("inner"@, params.inner_attrs);
    lemma_then(start, s2, part3, b2);
    lemma_inner_read(b2, params.inner_attrs);
    assert(b1.outer_attrs + params.outer_attrs =~= params.outer_attrs);
    assert(b2.inner_attrs + params.inner_attrs =~= params.inner_attrs);
}

/// The parts of a written configuration read one after the other: what is
/// written first is read back as it was, the rename rules keep it, the
/// attributes to drop are added, and what follows keeps all of it.
proof fn lemma_read_parts(
    first: Seq<DirectiveModel>,
    read: ParamsModel,
    idents: Seq<DirectiveModel>,
    names: Seq<Seq<char>>,
    tail: Seq<DirectiveModel>,
)
    requires
        fold(empty_params(), first, first.len() as int) == Ok::<ParamsModel, ConfigError>(read),
        read.drop_attrs == Seq::<Seq<char>>::empty(),
        all_keep_settings(idents),
        all_keep_settings(tail),
    ensures
        ({
            let whole = ((first + idents) + drops_part(names)) + tail;
            &&& fold(empty_params(), whole, whole.len() as int).is_ok()
            &&& same_settings(
                fold(empty_params(), whole, whole.len() as int).unwrap(),
                ParamsModel { drop_attrs: names, ..read },
            )
        }),
{
    let start = empty_params();
    let drops = drops_part(names);
    lemma_then(start, first, idents, read);
    lemma_fold_keeps(read, idents, idents.len() as int);
    let s1 = first + idents;
    let b1 = fold(start, s1, s1.len() as int).unwrap();
    lemma_then(start, s1, drops, b1);
    lemma_drops_part_read(b1, names);
    assert(b1.drop_attrs + names =~= names);
    let s2 = s1 + drops;
    let b2 = fold(start, s2, s2.len() as int).unwrap();
    lemma_then(start, s2, tail, b2);
    lemma_fold_keeps(b2, tail, tail.len() as int);
}

/// The settings of `back` are those that `params` was written with: the
/// mode is the one that was asked for, or else the configuration's own,
/// and every other setting is the configuration's.
pub open spec fn read_back(
    params: ParamsModel,
    add_mode: Option<ConvertMode>,
    back: ParamsModel,
) -> bool {
    &&& back.mode == written_mode(params.mode, add_mode)
    &&& back.disable == params.disable
    &&& back.keep_self == params.keep_self
    &&& back.key == params.key
    &&& back.self_name == params.self_name
    &&& back.prefix == params.prefix
    &&& back.send == params.send
    &&& back.cfg == params.cfg
    &&& back.outer_attrs == params.outer_attrs
    &&& back.inner_attrs == params.inner_attrs
    &&& back.drop_attrs == params.drop_attrs
}

/// A configuration that is written as a directive list, with or without
/// the marker of a mode, is read back without error. What is read has the
/// settings that were written: it drops the same attributes in the same
/// order, and has the same flags, key, names, prefix, condition and
/// attributes.
pub proof fn lemma_round_trip(params: ParamsModel, add_mode: Option<ConvertMode>)
    ensures
        parse(serialized(params, add_mode)).is_ok(),
        read_back(params, add_mode, parse(serialized(params, add_mode)).unwrap()),
        parse(serialized(params, add_mode)).unwrap().drop_attrs == params.drop_attrs,
    decreases params,
{
    let first = plain_part(params, add_mode);
    let idents = idents_part(params.idents);
    let features = features_part(params.replace_features);
    let versions = versions_part(params.versions);
    lemma_plain_read(params, add_mode);
    lemma_idents_part_keeps(params.idents);
    lemma_features_part_keeps(params.replace_features);
    assert forall|i: int| 0 <= i < versions.len() implies keeps_settings(
        #[trigger] versions[i],
    ) by {
        let version = params.versions[i];
        lemma_round_trip(version.params, None);
        lemma_version_keeps(version.kind, serialized(version.params, None));
    }
    lemma_concat_keeps(features, versions);
    let tail = features + versions;
    let whole = serialized(params, add_mode);
    assert(whole =~= ((first + idents) + drops_part(params.drop_attrs)) + tail);
    lemma_read_parts(first, plain_read(params, add_mode), idents, params.drop_attrs, tail);
}

/// A directive that is read from every configuration, and changes the
/// variants alone.
#[verifier::opaque]
pub open spec fn adds_a_variant(directive: DirectiveModel) -> bool {
    forall|built: ParamsModel|
        (#[trigger] step(built, directive)).is_ok() && step(built, directive).unwrap() == (
        ParamsModel { versions: step(built, directive).unwrap().versions, ..built })
}

/// A variant that is read back changes the variants alone.
proof fn lemma_version_adds_a_variant(mode: ConvertMode, nested: Seq<DirectiveModel>)
    requires
        parse(nested).is_ok(),
    ensures
        adds_a_variant(list_model(mode_keyword(mode), nested)),
{
    reveal(adds_a_variant);
    lemma_list_names_differ();
    let name = mode_keyword(mode);
    assert(name_ident(ident_name(name)) == Some(name));
    assert(keyword_mode(name).is_some());
}

/// Directives that change the variants alone do so one after the other.
proof fn lemma_fold_adds_variants(start: ParamsModel, list: Seq<DirectiveModel>, n: int)
    requires
        forall|i: int| 0 <= i < list.len() ==> adds_a_variant(#[trigger] list[i]),
        0 <= n <= list.len(),
    ensures
        fold(start, list, n).is_ok(),
        fold(start, list, n).unwrap() == (ParamsModel {
            versions: fold(start, list, n).unwrap().versions,
            ..start
        }),
    decreases n,
{
    reveal(adds_a_variant);
    if n > 0 {
        lemma_fold_adds_variants(start, list, n - 1);
        let before = fold(start, list, n - 1).unwrap();
        assert(adds_a_variant(list[n - 1]));
        assert(step(before, list[n - 1]).is_ok());
    }
}

/// A well-formed rename table is read back from `idents(..)`.
proof fn lemma_idents_part_read(start: ParamsModel, idents: Entries<IdentRecordModel>)
    requires
        rules_well_formed(idents),
        start.idents == Seq::<(Seq<char>, IdentRecordModel)>::empty(),
    ensures
        fold(start, idents_part(idents), idents_part(idents).len() as int) == Ok::<
            ParamsModel,
            ConfigError,
        >(ParamsModel { idents, ..start }),
{
    lemma_list_names_differ();
    let nested = rule_directives(idents);
    if idents.len() == 0 {
        assert(idents_part(idents) =~= Seq::<DirectiveModel>::empty());
        assert(idents =~= start.idents);
        lemma_short(start, flag_model("idents"@));
    } else {
        assert(name_ident(ident_name("idents"@)) == Some("idents"@));
        lemma_rules_rebuilt(idents, idents.len() as int);
        assert(idents.subrange(0, idents.len() as int) =~= idents);
        lemma_short(start, list_model("idents"@, nested));
    }
}

/// Feature names without a repeated name are read back from the lists
/// `replace_feature(..)`, in their order.
proof fn lemma_features_part_read(start: ParamsModel, features: Entries<Seq<char>>, n: int)
    requires
        distinct(features),
        start.replace_features == Seq::<(Seq<char>, Seq<char>)>::empty(),
        0 <= n <= features.len(),
    ensures
        fold(start, features_part(features), n) == Ok::<ParamsModel, ConfigError>(
            ParamsModel { replace_features: features.subrange(0, n), ..start },
        ),
    decreases n,
{
    lemma_list_names_differ();
    if n == 0 {
        assert(features.subrange(0, 0) =~= start.replace_features);
    } else {
        lemma_features_part_read(start, features, n - 1);
        let held = features.subrange(0, n - 1);
        let old_name = features[n - 1].0;
        let new_name = features[n - 1].1;
        let nested = seq![text_model(old_name), text_model(new_name)];
        assert(nested.len() == 2);
        assert(nested[0] == text_model(old_name));
        assert(nested[1] == text_model(new_name));
        assert(features_part(features)[n - 1] == list_model("replace_feature"@, nested));
        assert(name_ident(ident_name("replace_feature"@)) == Some("replace_feature"@));
        assert forall|i: int| 0 <= i < held.len() implies (#[trigger] held[i]).0 != old_name by {
            assert(held[i] == features[i]);
        }
        lemma_with_entry_fresh(held, old_name, new_name);
        assert(held.push((old_name, new_name)) =~= features.subrange(0, n));
        let before = fold(start, features_part(features), n - 1).unwrap();
        assert(before.replace_features == held);
        assert(feature_pair(nested) == Ok::<(Seq<char>, Seq<char>), ConfigError>(
            (old_name, new_name),
        ));
        assert(step(before, list_model("replace_feature"@, nested)) == Ok::<
            ParamsModel,
            ConfigError,
        >(ParamsModel { replace_features: with_entry(held, old_name, new_name), ..before }));
    }
}

/// The parts of a well-formed written configuration read one after the
/// other, each as it was written.
proof fn lemma_read_parts_exactly(
    first: Seq<DirectiveModel>,
    read: ParamsModel,
    idents: Entries<IdentRecordModel>,
    names: Seq<Seq<char>>,
    features: Entries<Seq<char>>,
    versions: Seq<DirectiveModel>,
)
    requires
        fold(empty_params(), first, first.len() as int) == Ok::<ParamsModel, ConfigError>(read),
        read.idents == Seq::<(Seq<char>, IdentRecordModel)>::empty(),
        read.drop_attrs == Seq::<Seq<char>>::empty(),
        read.replace_features == Seq::<(Seq<char>, Seq<char>)>::empty(),
        rules_well_formed(idents),
        distinct(features),
        forall|i: int| 0 <= i < versions.len() ==> adds_a_variant(#[trigger] versions[i]),
    ensures
        ({
            let whole = (((first + idents_part(idents)) + drops_part(names)) + features_part(
                features,
            )) + versions;
            let built = fold(empty_params(), whole, whole.len() as int);
            &&& built.is_ok()
            &&& built.unwrap() == (ParamsModel {
                idents,
                drop_attrs: names,
                replace_features: features,
                versions: built.unwrap().versions,
                ..read
            })
        }),
{
    let start = empty_params();
    let part1 = idents_part(idents);
    lemma_then(start, first, part1, read);
    lemma_idents_part_read(read, idents);
    let s1 = first + part1;
    let b1 = fold(start, s1, s1.len() as int).unwrap();
    let part2 = drops_part(names);
    lemma_then(start, s1, part2, b1);
    lemma_drops_part_read(b1, names);
    assert(b1.drop_attrs + names =~= names);
    let s2 = s1 + part2;
    let b2 = fold(start, s2, s2.len() as int).unwrap();
    let part3 = features_part(features);
    lemma_then(start, s2, part3, b2);
    lemma_features_part_read(b2, features, features.len() as int);
    assert(features.subrange(0, features.len() as int) =~= features);
    let s3 = s2 + part3;
    let b3 = fold(start, s3, s3.len() as int).unwrap();
    lemma_then(start, s3, versions, b3);
    lemma_fold_adds_variants(b3, versions, versions.len() as int);
}

/// A well-formed configuration that is written as a directive list, with
/// or without the marker of a mode, is read back as the same
/// configuration but for two things: its mode is the one that was asked
/// for, where one was, and its variants have inherited once more. So what
/// is read renames every identifier as the configuration does, drops the
/// same attributes and replaces the same feature names.
pub proof fn lemma_round_trip_exactly(params: ParamsModel, add_mode: Option<ConvertMode>)
    requires
        rules_well_formed(params.idents),
        distinct(params.replace_features),
    ensures
        parse(serialized(params, add_mode)).is_ok(),
        ({
            let back = parse(serialized(params, add_mode)).unwrap();
            &&& back == (ParamsModel {
                mode: written_mode(params.mode, add_mode),
                versions: back.versions,
                ..params
            })
            &&& forall|ident: Seq<char>, mode: ConvertMode|
                #[trigger] renaming(back, ident, mode) == renaming(params, ident, mode)
        }),
{
    let first = plain_part(params, add_mode);
    let versions = versions_part(params.versions);
    lemma_plain_read(params, add_mode);
    assert forall|i: int| 0 <= i < versions.len() implies adds_a_variant(
        #[trigger] versions[i],
    ) by {
        let version = params.versions[i];
        lemma_round_trip(version.params, None);
        lemma_version_adds_a_variant(version.kind, serialized(version.params, None));
    }
    let whole = serialized(params, add_mode);
    assert(whole =~= (((first + idents_part(params.idents)) + drops_part(params.drop_attrs))
        + features_part(params.replace_features)) + versions);
    lemma_read_parts_exactly(
        first,
        plain_read(params, add_mode),
        params.idents,
        params.drop_attrs,
        params.replace_features,
        versions,
    );
}

} // verus!
