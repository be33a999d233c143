//! The configuration as a mathematical value, and what reading, inheriting
//! and writing one mean.
use vstd::prelude::*;
use crate::directive::{
    DirectiveModel, flag_if, flag_model, list_model, LiteralModel, MetaModel, name_ident,
    NameModel, pair_model, pair_name, text_model,
};
use crate::error::ConfigError;
use crate::ident::{
    fits, IdentRecordModel, name_choice, NameChoice, plain_record, record_directive,
};
use crate::mode::{ConvertMode, keyword_mode, mode_keyword};
use crate::table::{Entries, lemma_position, lemma_position_is, lookup, position, with_entry};

verus! {

/// Mathematical value of a configuration.
pub struct ParamsModel {
    /// The rewrite that this configuration asks for, if it asks for one.
    pub mode: Option<ConvertMode>,
    /// The unit is to be left as it is.
    pub disable: bool,
    /// The key of the variant that this configuration describes.
    pub key: Option<Seq<char>>,
    /// The name of the unit under `key`.
    pub self_name: Option<Seq<char>>,
    /// The unit's own name gets no rename rule.
    pub keep_self: bool,
    /// The prefix under which the attributes of this crate are written.
    pub prefix: Option<Seq<char>>,
    /// The rename rules, by identifier.
    pub idents: Entries<IdentRecordModel>,
    /// Whether generated asynchronous code may be shared between threads.
    pub send: Option<bool>,
    /// The condition under which a variant is compiled.
    pub cfg: Option<MetaModel>,
    /// Attributes written before the attribute that asks for the rewrite.
    pub outer_attrs: Seq<DirectiveModel>,
    /// Attributes written after it.
    pub inner_attrs: Seq<DirectiveModel>,
    /// Names of attributes that the rewrite removes.
    pub drop_attrs: Seq<Seq<char>>,
    /// Feature names and what takes their place.
    pub replace_features: Entries<Seq<char>>,
    /// The variants, in the order of their declaration.
    pub versions: Seq<VersionModel>,
}

/// Mathematical value of one variant.
pub struct VersionModel {
    pub kind: ConvertMode,
    pub params: ParamsModel,
}

/// The configuration that holds nothing.
pub open spec fn empty_params() -> ParamsModel {
    ParamsModel {
        mode: None,
        disable: false,
        key: None,
        self_name: None,
        keep_self: false,
        prefix: None,
        idents: Seq::empty(),
        send: None,
        cfg: None,
        outer_attrs: Seq::empty(),
        inner_attrs: Seq::empty(),
        drop_attrs: Seq::empty(),
        replace_features: Seq::empty(),
        versions: Seq::empty(),
    }
}

/// The marker of a rewrite into asynchronous code.
pub open spec fn marker_into_async() -> Seq<char> {
    "__into_async"@
}

/// The marker of a rewrite into synchronous code.
pub open spec fn marker_into_sync() -> Seq<char> {
    "__into_sync"@
}

/// What a value of `send` means.
pub open spec fn send_value(text: Seq<char>) -> Option<bool> {
    if text == ""@ || text == "Send"@ || text == "true"@ {
        Some(true)
    } else if text == "?Send"@ || text == "false"@ {
        Some(false)
    } else {
        None
    }
}

/// A rename rule after one more of its items.
pub open spec fn rule_step(
    rule: IdentRecordModel,
    ident: Seq<char>,
    item: DirectiveModel,
) -> Result<IdentRecordModel, ConfigError> {
    match item {
        DirectiveModel::Meta(MetaModel::Path(path)) => match name_ident(path) {
            None => Err(ConfigError::ExpectedIdent),
            Some(word) => if word == "fn"@ {
                Ok(IdentRecordModel { fn_mode: true, ..rule })
            } else if word == "use"@ {
                Ok(IdentRecordModel { use_mode: true, ..rule })
            } else if word == "keep"@ {
                Ok(IdentRecordModel { keep: true, ..rule })
            } else if word == "sync"@ {
                Ok(IdentRecordModel { ident_sync: Some(ident), ..rule })
            } else if word == "async"@ {
                Ok(IdentRecordModel { ident_async: Some(ident), ..rule })
            } else {
                Err(ConfigError::ExpectedRuleFlag)
            },
        },
        DirectiveModel::Meta(
            MetaModel::NameValue(path, LiteralModel::Str(value)),
        ) => match name_ident(path) {
            None => Err(ConfigError::ExpectedIdent),
            Some(word) => if word == "sync"@ {
                Ok(IdentRecordModel { ident_sync: Some(value), ..rule })
            } else if word == "async"@ {
                Ok(IdentRecordModel { ident_async: Some(value), ..rule })
            } else {
                Ok(
                    IdentRecordModel {
                        idents: Some(
                            with_entry(
                                match rule.idents {
                                    Some(names) => names,
                                    None => Seq::empty(),
                                },
                                word,
                                value,
                            ),
                        ),
                        ..rule
                    },
                )
            },
        },
        _ => Err(ConfigError::ExpectedRuleItem),
    }
}

/// A rename rule after the first `n` of its items.
pub open spec fn rule_fold(
    rule: IdentRecordModel,
    ident: Seq<char>,
    items: Seq<DirectiveModel>,
    n: int,
) -> Result<IdentRecordModel, ConfigError>
    decreases n,
{
    if n <= 0 {
        Ok(rule)
    } else {
        match rule_fold(rule, ident, items, n - 1) {
            Ok(before) => rule_step(before, ident, items[n - 1]),
            Err(error) => Err(error),
        }
    }
}

/// The identifier and the rule that one element of `idents(..)` declares.
pub open spec fn ident_entry(
    element: DirectiveModel,
) -> Result<(Seq<char>, IdentRecordModel), ConfigError> {
    match element {
        DirectiveModel::Meta(MetaModel::Path(path)) => match name_ident(path) {
            None => Err(ConfigError::ExpectedIdent),
            Some(ident) => Ok((ident, plain_record(false))),
        },
        DirectiveModel::Meta(MetaModel::List(path, items)) => match name_ident(path) {
            None => Err(ConfigError::ExpectedIdent),
            Some(ident) => match rule_fold(plain_record(false), ident, items, items.len() as int) {
                Ok(rule) => Ok((ident, rule)),
                Err(error) => Err(error),
            },
        },
        _ => Err(ConfigError::ExpectedRule),
    }
}

/// The rename table after the first `n` elements of `idents(..)`.
pub open spec fn idents_fold(
    table: Entries<IdentRecordModel>,
    list: Seq<DirectiveModel>,
    n: int,
) -> Result<Entries<IdentRecordModel>, ConfigError>
    decreases n,
{
    if n <= 0 {
        Ok(table)
    } else {
        match idents_fold(table, list, n - 1) {
            Ok(before) => match ident_entry(list[n - 1]) {
                Ok((ident, rule)) => Ok(with_entry(before, ident, rule)),
                Err(error) => Err(error),
            },
            Err(error) => Err(error),
        }
    }
}

/// The name that one element of `drop_attrs(..)` gives.
pub open spec fn drop_name(element: DirectiveModel) -> Result<Seq<char>, ConfigError> {
    match element {
        DirectiveModel::Meta(MetaModel::Path(path)) => match name_ident(path) {
            None => Err(ConfigError::ExpectedDropName),
            Some(name) => Ok(name),
        },
        _ => Err(ConfigError::ExpectedDropList),
    }
}

/// The names to drop after the first `n` elements of `drop_attrs(..)`.
pub open spec fn drop_fold(
    names: Seq<Seq<char>>,
    list: Seq<DirectiveModel>,
    n: int,
) -> Result<Seq<Seq<char>>, ConfigError>
    decreases n,
{
    if n <= 0 {
        Ok(names)
    } else {
        match drop_fold(names, list, n - 1) {
            Ok(before) => match drop_name(list[n - 1]) {
                Ok(name) => Ok(before.push(name)),
                Err(error) => Err(error),
            },
            Err(error) => Err(error),
        }
    }
}

/// The two feature names of `replace_feature(..)`.
pub open spec fn feature_pair(
    list: Seq<DirectiveModel>,
) -> Result<(Seq<char>, Seq<char>), ConfigError> {
    if list.len() != 2 {
        Err(ConfigError::ExpectedTwoStringLiterals)
    } else {
        match (list[0], list[1]) {
            (
                DirectiveModel::Lit(LiteralModel::Str(old_name)),
                DirectiveModel::Lit(LiteralModel::Str(new_name)),
            ) => Ok((old_name, new_name)),
            _ => Err(ConfigError::ExpectedStringLiteral),
        }
    }
}

/// The one condition of `cfg(..)`.
pub open spec fn cfg_condition(list: Seq<DirectiveModel>) -> Result<MetaModel, ConfigError> {
    if list.len() != 1 {
        Err(ConfigError::ExpectedCondition)
    } else {
        match list[0] {
            DirectiveModel::Meta(condition) => Ok(condition),
            _ => Err(ConfigError::ExpectedCondition),
        }
    }
}

/// A configuration after the pair `name = literal`, which `meta` is.
pub open spec fn pair_step(
    built: ParamsModel,
    name: Seq<char>,
    literal: LiteralModel,
    meta: MetaModel,
) -> Result<ParamsModel, ConfigError> {
    if name == "key"@ || name == "self"@ || name == "prefix"@ || name == "send"@ || name
        == "feature"@ {
        match literal {
            LiteralModel::Str(value) => if name == "key"@ {
                Ok(ParamsModel { key: Some(value), ..built })
            } else if name == "self"@ {
                Ok(ParamsModel { self_name: Some(value), ..built })
            } else if name == "prefix"@ {
                Ok(ParamsModel { prefix: Some(value), ..built })
            } else if name == "send"@ {
                match send_value(value) {
                    Some(send) => Ok(ParamsModel { send: Some(send), ..built }),
                    None => Err(ConfigError::WrongSendValue),
                }
            } else {
                Ok(ParamsModel { cfg: Some(meta), ..built })
            },
            LiteralModel::Other(_) => Err(ConfigError::ExpectedStringLiteral),
        }
    } else {
        Err(ConfigError::WrongNameValueName)
    }
}

/// A configuration after the bare word `name`, which `meta` is.
pub open spec fn flag_step(
    built: ParamsModel,
    name: Option<Seq<char>>,
    meta: MetaModel,
) -> ParamsModel {
    if name == Some(marker_into_async()) {
        ParamsModel { mode: Some(ConvertMode::IntoAsync), ..built }
    } else if name == Some(marker_into_sync()) {
        ParamsModel { mode: Some(ConvertMode::IntoSync), ..built }
    } else if name == Some("disable"@) {
        ParamsModel { disable: true, ..built }
    } else if name == Some("keep_self"@) {
        ParamsModel { keep_self: true, ..built }
    } else {
        ParamsModel { inner_attrs: built.inner_attrs.push(DirectiveModel::Meta(meta)), ..built }
    }
}

/// A configuration after one more directive. A list under a mode keyword
/// declares a variant, which is read as a configuration of its own; a list
/// or a word that nothing else answers to becomes an inner attribute.
pub open spec fn step(
    built: ParamsModel,
    directive: DirectiveModel,
) -> Result<ParamsModel, ConfigError>
    decreases directive, 0int,
{
    match directive {
        DirectiveModel::Meta(meta) => match meta {
            MetaModel::NameValue(path, literal) => match name_ident(path) {
                None => Err(ConfigError::ExpectedName),
                Some(name) => pair_step(built, name, literal, meta),
            },
            MetaModel::List(path, nested) => match name_ident(path) {
                None => Err(ConfigError::ExpectedName),
                Some(name) => if name == "cfg"@ {
                    match cfg_condition(nested) {
                        Ok(condition) => Ok(ParamsModel { cfg: Some(condition), ..built }),
                        Err(error) => Err(error),
                    }
                } else if name == "idents"@ {
                    match idents_fold(built.idents, nested, nested.len() as int) {
                        Ok(idents) => Ok(ParamsModel { idents, ..built }),
                        Err(error) => Err(error),
                    }
                } else if name == "any"@ || name == "all"@ || name == "not"@ {
                    Ok(ParamsModel { cfg: Some(meta), ..built })
                } else if name == "outer"@ {
                    Ok(ParamsModel { outer_attrs: built.outer_attrs + nested, ..built })
                } else if name == "inner"@ {
                    Ok(ParamsModel { inner_attrs: built.inner_attrs + nested, ..built })
                } else if name == "replace_feature"@ {
                    match feature_pair(nested) {
                        Ok((old_name, new_name)) => Ok(
                            ParamsModel {
                                replace_features: with_entry(
                                    built.replace_features,
                                    old_name,
                                    new_name,
                                ),
                                ..built
                            },
                        ),
                        Err(error) => Err(error),
                    }
                } else if name == "drop_attrs"@ {
                    match drop_fold(built.drop_attrs, nested, nested.len() as int) {
                        Ok(drop_attrs) => Ok(ParamsModel { drop_attrs, ..built }),
                        Err(error) => Err(error),
                    }
                } else {
                    match keyword_mode(name) {
                        Some(kind) => match parse(nested) {
                            Ok(params) => Ok(
                                ParamsModel {
                                    versions: built.versions.push(VersionModel { kind, params }),
                                    ..built
                                },
                            ),
                            Err(error) => Err(error),
                        },
                        None => Ok(
                            ParamsModel {
                                inner_attrs: built.inner_attrs.push(directive),
                                ..built
                            },
                        ),
                    }
                },
            },
            MetaModel::Path(path) => Ok(flag_step(built, name_ident(path), meta)),
        },
        DirectiveModel::Lit(literal) => match literal {
            LiteralModel::Str(_) => Ok(
                ParamsModel { inner_attrs: built.inner_attrs.push(directive), ..built },
            ),
            LiteralModel::Other(_) => Err(ConfigError::ExpectedStringLiteral),
        },
    }
}

/// Whether a directive is one that nothing answers to: a string, a bare
/// path that is none of the four flags, or a list under a single name that
/// is neither a reserved name nor a mode keyword.
pub open spec fn passes_through(directive: DirectiveModel) -> bool {
    match directive {
        DirectiveModel::Lit(literal) => literal is Str,
        DirectiveModel::Meta(MetaModel::Path(path)) => {
            let name = name_ident(path);
            &&& name != Some(marker_into_async())
            &&& name != Some(marker_into_sync())
            &&& name != Some("disable"@)
            &&& name != Some("keep_self"@)
        },
        DirectiveModel::Meta(MetaModel::List(path, _)) => match name_ident(path) {
            None => false,
            Some(name) => {
                &&& name != "cfg"@
                &&& name != "idents"@
                &&& name != "any"@
                &&& name != "all"@
                &&& name != "not"@
                &&& name != "outer"@
                &&& name != "inner"@
                &&& name != "replace_feature"@
                &&& name != "drop_attrs"@
                &&& keyword_mode(name).is_none()
            },
        },
        DirectiveModel::Meta(MetaModel::NameValue(_, _)) => false,
    }
}

/// A directive that nothing answers to is not refused: it becomes the last
/// inner attribute as it stands, and nothing else changes.
pub proof fn lemma_pass_through(built: ParamsModel, directive: DirectiveModel)
    requires
        passes_through(directive),
    ensures
        step(built, directive) == Ok::<ParamsModel, ConfigError>(
            ParamsModel { inner_attrs: built.inner_attrs.push(directive), ..built },
        ),
{
}

/// The configuration `start` after the first `n` directives of `list`, or
/// the error of the first directive that is refused.
pub open spec fn fold(
    start: ParamsModel,
    list: Seq<DirectiveModel>,
    n: int,
) -> Result<ParamsModel, ConfigError>
    decreases list, n,
{
    if n <= 0 || n > list.len() {
        Ok(start)
    } else {
        match fold(start, list, n - 1) {
            Ok(before) => step(before, list[n - 1]),
            Err(error) => Err(error),
        }
    }
}

/// The configuration that a directive list describes: its directives taken
/// in order, then each variant made to inherit from what was read.
pub open spec fn parse(list: Seq<DirectiveModel>) -> Result<ParamsModel, ConfigError>
    decreases list, list.len() + 1,
{
    match fold(empty_params(), list, list.len() as int) {
        Ok(built) => Ok(finalize(built)),
        Err(error) => Err(error),
    }
}

/// Whether the directive at `at` is the first of `list` that is refused.
pub open spec fn first_refused(list: Seq<DirectiveModel>, at: int) -> bool {
    &&& 0 <= at < list.len()
    &&& fold(empty_params(), list, at).is_ok()
    &&& fold(empty_params(), list, at + 1).is_err()
}

/// A list is read without error exactly where none of its directives is
/// the first to be refused, and a list has at most one such directive.
pub proof fn lemma_first_refused(list: Seq<DirectiveModel>, at: int, other: int)
    requires
        first_refused(list, at),
    ensures
        parse(list).is_err(),
        parse(list)->Err_0 == fold(empty_params(), list, at + 1)->Err_0,
        first_refused(list, other) ==> other == at,
{
    lemma_fold_stays(empty_params(), list, at + 1, list.len() as int);
    if first_refused(list, other) {
        if other < at {
            lemma_fold_stays(empty_params(), list, other + 1, at);
        } else if at < other {
            lemma_fold_stays(empty_params(), list, at + 1, other);
        }
    }
}

/// `child` with the first `n` entries of `parent` added, each under a name
/// that `child` did not have.
pub open spec fn absorb<T>(child: Entries<T>, parent: Entries<T>, n: int) -> Entries<T>
    decreases n,
{
    if n <= 0 {
        child
    } else {
        let before = absorb(child, parent, n - 1);
        if lookup(before, parent[n - 1].0).is_some() {
            before
        } else {
            before.push(parent[n - 1])
        }
    }
}

/// The entries of `child` and, under every other name, those of `parent`.
pub open spec fn merged<T>(child: Entries<T>, parent: Entries<T>) -> Entries<T> {
    absorb(child, parent, parent.len() as int)
}

/// A variant's configuration after it has inherited from `parent`: it is
/// disabled where the parent is, keeps its own name where the parent does,
/// has the parent's rename rules and feature names beside its own, and
/// drops the parent's attributes before its own.
pub open spec fn inherit(parent: ParamsModel, child: ParamsModel) -> ParamsModel {
    ParamsModel {
        disable: child.disable || parent.disable,
        keep_self: child.keep_self || parent.keep_self,
        idents: merged(child.idents, parent.idents),
        drop_attrs: parent.drop_attrs + child.drop_attrs,
        replace_features: merged(child.replace_features, parent.replace_features),
        ..child
    }
}

/// A variant as it stands in a finished configuration: it has inherited
/// from `parent`, and its key is that of its mode where it named none.
pub open spec fn finished_version(parent: ParamsModel, version: VersionModel) -> VersionModel {
    let inherited = inherit(parent, version.params);
    VersionModel {
        kind: version.kind,
        params: ParamsModel {
            key: match inherited.key {
                Some(key) => Some(key),
                None => Some(mode_keyword(version.kind)),
            },
            ..inherited
        },
    }
}

/// A configuration with its variants finished.
pub open spec fn finalize(built: ParamsModel) -> ParamsModel {
    ParamsModel {
        versions: Seq::new(
            built.versions.len(),
            |i: int| finished_version(built, built.versions[i]),
        ),
        ..built
    }
}

/// The rule that a unit's own name gets: where the configuration has both
/// a key and a name for the unit, the rule gives that name under that key.
pub open spec fn self_rule(params: ParamsModel, fn_mode: bool) -> IdentRecordModel {
    IdentRecordModel {
        idents: match (params.key, params.self_name) {
            (Some(key), Some(self_name)) => Some(seq![(key, self_name)]),
            _ => None,
        },
        ..plain_record(fn_mode)
    }
}

/// A configuration after the unit's own name was registered: nothing
/// changes where the configuration keeps the name or has a rule for it.
pub open spec fn registered(params: ParamsModel, name: Seq<char>, fn_mode: bool) -> ParamsModel {
    if params.keep_self || lookup(params.idents, name).is_some() {
        params
    } else {
        ParamsModel { idents: params.idents.push((name, self_rule(params, fn_mode))), ..params }
    }
}

/// The prefix of this crate's attributes: the one that is set, or else
/// the crate's name.
pub open spec fn prefix_or_default(params: ParamsModel) -> Seq<char> {
    match params.prefix {
        Some(prefix) => prefix,
        None => "maybe_async_cfg"@,
    }
}

/// The path of the attribute `name` of this crate.
pub open spec fn self_path(params: ParamsModel, name: Seq<char>) -> NameModel {
    pair_name(prefix_or_default(params), name)
}

/// How `ident` is renamed in a rewrite for `mode`, if it is. Nothing is
/// renamed where the configuration has no key, for then no variant is
/// asked for, or where it has no rule for the identifier; else the rule
/// decides, under the configuration's key.
pub open spec fn renaming(params: ParamsModel, ident: Seq<char>, mode: ConvertMode) -> Option<
    NameChoice,
> {
    if params.key.is_none() {
        None
    } else {
        match lookup(params.idents, ident) {
            None => None,
            Some(rule) => Some(name_choice(rule, ident, mode, params.key)),
        }
    }
}

/// What became of an identifier in a rewrite.
pub enum RenamedModel {
    /// The identifier stays: no variant is asked for, or no rule names it.
    Unchanged,
    /// The identifier that takes its place.
    To(Seq<char>),
    /// Its rule gives a name that the parser does not read as an
    /// identifier.
    Unwritable,
}

/// Whether `renamed` is what a decision leads to, whatever the parser makes
/// of an explicit name: without a decision the identifier stays, an
/// identifier that is kept or suffixed is written so, and an explicit name
/// is written as the parser reads it, or is refused.
pub open spec fn renamed_fits(
    decision: Option<NameChoice>,
    ident: Seq<char>,
    renamed: RenamedModel,
) -> bool {
    match decision {
        None => renamed == RenamedModel::Unchanged,
        Some(choice) => match renamed {
            RenamedModel::Unchanged => false,
            RenamedModel::To(text) => fits(choice, ident, Some(text)),
            RenamedModel::Unwritable => choice is Explicit,
        },
    }
}

/// A condition with its feature names replaced: wherever `feature = "name"`
/// stands in it, at any depth, and `name` has a replacement, the
/// replacement stands in its place. Nothing else changes.
pub open spec fn with_features(features: Entries<Seq<char>>, meta: MetaModel) -> MetaModel
    decreases meta,
{
    match meta {
        MetaModel::Path(_) => meta,
        MetaModel::NameValue(path, literal) => match literal {
            LiteralModel::Str(name) => if name_ident(path) == Some("feature"@) {
                match lookup(features, name) {
                    Some(replacement) => MetaModel::NameValue(
                        path,
                        LiteralModel::Str(replacement),
                    ),
                    None => meta,
                }
            } else {
                meta
            },
            LiteralModel::Other(_) => meta,
        },
        MetaModel::List(path, nested) => MetaModel::List(
            path,
            Seq::new(
                nested.len(),
                |i: int|
                    if 0 <= i < nested.len() {
                        match nested[i] {
                            DirectiveModel::Meta(inner) => DirectiveModel::Meta(
                                with_features(features, inner),
                            ),
                            DirectiveModel::Lit(_) => nested[i],
                        }
                    } else {
                        arbitrary()
                    },
            ),
        ),
    }
}

/// Where no feature name is replaced, a condition stays as it is.
pub proof fn lemma_no_features(meta: MetaModel)
    ensures
        with_features(Seq::empty(), meta) == meta,
    decreases meta,
{
    if let MetaModel::List(path, nested) = meta {
        let after = with_features(Seq::<(Seq<char>, Seq<char>)>::empty(), meta);
        assert(meta->List_1 == nested);
        assert forall|i: int| 0 <= i < nested.len() implies after->List_1[i] == nested[i] by {
            if let DirectiveModel::Meta(inner) = nested[i] {
                lemma_no_features(inner);
            }
        }
        assert(after->List_1 =~= nested);
    }
}

/// The marker of a mode.
pub open spec fn mode_marker(mode: ConvertMode) -> Seq<char> {
    match mode {
        ConvertMode::IntoAsync => marker_into_async(),
        ConvertMode::IntoSync => marker_into_sync(),
    }
}

/// The marker of the mode to write: the one asked for, or else the
/// configuration's own.
pub open spec fn mode_part(
    own: Option<ConvertMode>,
    add_mode: Option<ConvertMode>,
) -> Seq<DirectiveModel> {
    match add_mode {
        Some(mode) => seq![flag_model(mode_marker(mode))],
        None => match own {
            Some(mode) => seq![flag_model(mode_marker(mode))],
            None => seq![],
        },
    }
}

/// An optional text as the pair `name = "text"`.
pub open spec fn pair_if(name: Seq<char>, value: Option<Seq<char>>) -> Seq<DirectiveModel> {
    match value {
        Some(value) => seq![pair_model(name, value)],
        None => seq![],
    }
}

/// The text that stands for a value of `send`.
pub open spec fn send_text(send: bool) -> Seq<char> {
    if send {
        "Send"@
    } else {
        "?Send"@
    }
}

/// The setting of `send` as a pair.
pub open spec fn send_part(send: Option<bool>) -> Seq<DirectiveModel> {
    match send {
        Some(send) => seq![pair_model("send"@, send_text(send))],
        None => seq![],
    }
}

/// The condition as `cfg(condition)`.
pub open spec fn cfg_part(cfg: Option<MetaModel>) -> Seq<DirectiveModel> {
    match cfg {
        Some(condition) => seq![list_model("cfg"@, seq![DirectiveModel::Meta(condition)])],
        None => seq![],
    }
}

/// A list of attributes as `name(attributes..)`, or nothing where there
/// are none.
pub open spec fn attrs_part(name: Seq<char>, attrs: Seq<DirectiveModel>) -> Seq<DirectiveModel> {
    if attrs.len() == 0 {
        seq![]
    } else {
        seq![list_model(name, attrs)]
    }
}

/// The rename rules as directives, one for each identifier.
pub open spec fn rule_directives(idents: Entries<IdentRecordModel>) -> Seq<DirectiveModel> {
    Seq::new(idents.len(), |i: int| record_directive(idents[i].1, idents[i].0))
}

/// The rename table as `idents(rules..)`, or nothing where it is empty.
pub open spec fn idents_part(idents: Entries<IdentRecordModel>) -> Seq<DirectiveModel> {
    attrs_part("idents"@, rule_directives(idents))
}

/// Names as bare words.
pub open spec fn name_flags(names: Seq<Seq<char>>) -> Seq<DirectiveModel> {
    Seq::new(names.len(), |i: int| flag_model(names[i]))
}

/// The names to drop as `drop_attrs(names..)`, or nothing where there are
/// none.
pub open spec fn drops_part(names: Seq<Seq<char>>) -> Seq<DirectiveModel> {
    attrs_part("drop_attrs"@, name_flags(names))
}

/// The feature names, each pair as `replace_feature("old", "new")`.
pub open spec fn features_part(features: Entries<Seq<char>>) -> Seq<DirectiveModel> {
    Seq::new(
        features.len(),
        |i: int|
            list_model(
                "replace_feature"@,
                seq![text_model(features[i].0), text_model(features[i].1)],
            ),
    )
}

/// All of a configuration but its variants, as directives.
pub open spec fn settings_part(
    params: ParamsModel,
    add_mode: Option<ConvertMode>,
) -> Seq<DirectiveModel> {
    Seq::<DirectiveModel>::empty() + mode_part(params.mode, add_mode) + flag_if(
        params.disable,
        "disable"@,
    ) + flag_if(params.keep_self, "keep_self"@) + pair_if("key"@, params.key) + pair_if(
        "self"@,
        params.self_name,
    ) + pair_if("prefix"@, params.prefix) + send_part(params.send) + cfg_part(params.cfg)
        + attrs_part("outer"@, params.outer_attrs) + attrs_part("inner"@, params.inner_attrs)
        + idents_part(params.idents) + drops_part(params.drop_attrs) + features_part(
        params.replace_features,
    )
}

/// The variants as lists under their mode keywords.
pub open spec fn versions_part(versions: Seq<VersionModel>) -> Seq<DirectiveModel>
    decreases versions,
{
    Seq::new(
        versions.len(),
        |i: int|
            if 0 <= i < versions.len() {
                list_model(mode_keyword(versions[i].kind), serialized(versions[i].params, None))
            } else {
                arbitrary()
            },
    )
}

/// A configuration as a directive list, with the marker of `add_mode`
/// where one is given: what `parse` reads back.
pub open spec fn serialized(
    params: ParamsModel,
    add_mode: Option<ConvertMode>,
) -> Seq<DirectiveModel>
    decreases params,
{
    settings_part(params, add_mode) + versions_part(params.versions)
}

/// Once a rule's items are refused, more items change nothing.
pub proof fn lemma_rule_fold_stays(
    rule: IdentRecordModel,
    ident: Seq<char>,
    items: Seq<DirectiveModel>,
    n: int,
    m: int,
)
    requires
        0 <= n <= m,
        rule_fold(rule, ident, items, n).is_err(),
    ensures
        rule_fold(rule, ident, items, m) == rule_fold(rule, ident, items, n),
    decreases m - n,
{
    if n < m {
        lemma_rule_fold_stays(rule, ident, items, n, m - 1);
    }
}

/// Once an element of `idents(..)` is refused, more elements change
/// nothing.
pub proof fn lemma_idents_fold_stays(
    table: Entries<IdentRecordModel>,
    list: Seq<DirectiveModel>,
    n: int,
    m: int,
)
    requires
        0 <= n <= m,
        idents_fold(table, list, n).is_err(),
    ensures
        idents_fold(table, list, m) == idents_fold(table, list, n),
    decreases m - n,
{
    if n < m {
        lemma_idents_fold_stays(table, list, n, m - 1);
    }
}

/// Once an element of `drop_attrs(..)` is refused, more elements change
/// nothing.
pub proof fn lemma_drop_fold_stays(
    names: Seq<Seq<char>>,
    list: Seq<DirectiveModel>,
    n: int,
    m: int,
)
    requires
        0 <= n <= m,
        drop_fold(names, list, n).is_err(),
    ensures
        drop_fold(names, list, m) == drop_fold(names, list, n),
    decreases m - n,
{
    if n < m {
        lemma_drop_fold_stays(names, list, n, m - 1);
    }
}

/// Once a directive is refused, the directives behind it change nothing.
pub proof fn lemma_fold_stays(start: ParamsModel, list: Seq<DirectiveModel>, n: int, m: int)
    requires
        0 <= n <= m <= list.len(),
        fold(start, list, n).is_err(),
    ensures
        fold(start, list, m) == fold(start, list, n),
    decreases m - n,
{
    if n < m {
        lemma_fold_stays(start, list, n, m - 1);
    }
}

/// What a lookup finds after entries were absorbed: the child's own value
/// where it has one, and else the parent's.
pub proof fn lemma_absorb_lookup<T>(child: Entries<T>, parent: Entries<T>, n: int, key: Seq<char>)
    requires
        0 <= n <= parent.len(),
    ensures
        lookup(absorb(child, parent, n), key) == match lookup(child, key) {
            Some(value) => Some(value),
            None => lookup(parent.subrange(0, n), key),
        },
    decreases n,
{
    if n == 0 {
        assert(parent.subrange(0, 0) =~= Seq::<(Seq<char>, T)>::empty());
    } else {
        lemma_absorb_lookup(child, parent, n - 1, key);
        let before = absorb(child, parent, n - 1);
        let after = absorb(child, parent, n);
        let head = parent.subrange(0, n - 1);
        let upto = parent.subrange(0, n);
        let entry = parent[n - 1];
        lemma_position(before, key);
        lemma_position(head, key);
        lemma_position(before, entry.0);
        // what the longer prefix of the parent holds under the key
        if position(head, key) < head.len() {
            let at = position(head, key);
            assert forall|j: int| 0 <= j < at implies (#[trigger] upto[j]).0 != key by {
                assert(upto[j] == head[j]);
            }
            assert(upto[at] == head[at]);
            lemma_position_is(upto, key, at);
        } else if entry.0 == key {
            assert forall|j: int| 0 <= j < n - 1 implies (#[trigger] upto[j]).0 != key by {
                assert(upto[j] == head[j]);
            }
            lemma_position_is(upto, key, n - 1);
        } else {
            assert forall|j: int| 0 <= j < n implies (#[trigger] upto[j]).0 != key by {
                if j < n - 1 {
                    assert(upto[j] == head[j]);
                }
            }
            lemma_position_is(upto, key, n);
        }
        // what the absorbed entries hold under the key
        if lookup(before, entry.0).is_some() {
            assert(after == before);
        } else {
            assert(after == before.push(entry));
            if position(before, key) < before.len() {
                let at = position(before, key);
                assert forall|j: int| 0 <= j < at implies (#[trigger] after[j]).0 != key by {
                    assert(after[j] == before[j]);
                }
                assert(after[at] == before[at]);
                lemma_position_is(after, key, at);
            } else if entry.0 == key {
                assert forall|j: int| 0 <= j < before.len() implies (#[trigger] after[j]).0
                    != key by {
                    assert(after[j] == before[j]);
                }
                lemma_position_is(after, key, before.len() as int);
            } else {
                assert forall|j: int| 0 <= j < after.len() implies (#[trigger] after[j]).0
                    != key by {
                    if j < before.len() {
                        assert(after[j] == before[j]);
                    }
                }
                lemma_position_is(after, key, after.len() as int);
            }
        }
    }
}

/// In merged entries a name has the child's value where the child has one,
/// and else the parent's.
pub proof fn lemma_merged_lookup<T>(child: Entries<T>, parent: Entries<T>, key: Seq<char>)
    ensures
        lookup(merged(child, parent), key) == match lookup(child, key) {
            Some(value) => Some(value),
            None => lookup(parent, key),
        },
{
    lemma_absorb_lookup(child, parent, parent.len() as int, key);
    assert(parent.subrange(0, parent.len() as int) =~= parent);
}

/// A variant that has inherited holds, under every identifier, its own
/// rename rule where it declared one and else its parent's; the same holds
/// of feature names. It drops the parent's attributes first, then its own.
pub proof fn lemma_inherit(parent: ParamsModel, child: ParamsModel, key: Seq<char>)
    ensures
        lookup(inherit(parent, child).idents, key) == match lookup(child.idents, key) {
            Some(rule) => Some(rule),
            None => lookup(parent.idents, key),
        },
        lookup(inherit(parent, child).replace_features, key) == match lookup(
            child.replace_features,
            key,
        ) {
            Some(name) => Some(name),
            None => lookup(parent.replace_features, key),
        },
        inherit(parent, child).drop_attrs == parent.drop_attrs + child.drop_attrs,
        inherit(parent, child).disable == (parent.disable || child.disable),
        inherit(parent, child).keep_self == (parent.keep_self || child.keep_self),
{
    lemma_merged_lookup(child.idents, parent.idents, key);
    lemma_merged_lookup(child.replace_features, parent.replace_features, key);
}

} // verus!
