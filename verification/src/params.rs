//! The configuration of one attribute, and the builder that reads it from a
//! directive list.
use vstd::prelude::*;
use crate::attribute::{
    attr_decorations, attr_name, Attribute, cfg_decoration, Decoration, decorations_model,
    our_attr_name, push_attr_decorations,
};
use crate::directive::{
    append_directives, copy_directives, Directive, DirectiveModel, directives_model, flag_model,
    lemma_list_model, lemma_push_nothing, Literal, Meta, MetaModel, Name, push_directive,
    push_flag_if, text_model,
};
use crate::error::ConfigError;
use crate::ident::{
    copy_name_table, copy_rule_table, IdentRecord, IdentRecordModel, key_view, plain_record,
    record_directive,
};
use crate::mode::{ConvertMode, keyword_mode};
use crate::model::{
    absorb, attrs_part, cfg_condition, cfg_part, drop_fold, empty_params, feature_pair,
    features_part, finalize, finished_version, first_refused, fold, ident_entry, idents_fold,
    inherit, lemma_drop_fold_stays, lemma_fold_stays, lemma_idents_fold_stays,
    lemma_rule_fold_stays, merged, mode_part, name_flags, pair_if, pair_step, ParamsModel, parse,
    prefix_or_default, registered, renamed_fits, RenamedModel, renaming, rule_directives,
    rule_fold, rule_step, self_path, send_part, send_value, serialized, settings_part, step,
    VersionModel, versions_part, with_features,
};
use crate::table::{Entries, lemma_position, lookup, Table, with_entry};
use crate::text::{copy_names, copy_opt, names_view, opt_view, owned, str_eq};

verus! {

/// One declared variant: its mode and its configuration.
#[derive(Debug)]
pub struct MacroParameterVersion {
    pub kind: ConvertMode,
    pub params: MacroParameters,
}

/// The configuration of one attribute.
#[derive(Debug)]
pub struct MacroParameters {
    mode: Option<ConvertMode>,
    disable: bool,
    key: Option<String>,
    self_name: Option<String>,
    keep_self: bool,
    prefix: Option<String>,
    idents: Table<IdentRecord>,
    send: Option<bool>,
    cfg: Option<Meta>,
    outer_attrs: Vec<Directive>,
    inner_attrs: Vec<Directive>,
    drop_attrs: Vec<String>,
    replace_features: Table<String>,
    versions: Vec<MacroParameterVersion>,
}

/// The value of an optional condition.
pub open spec fn opt_meta_view(meta: Option<Meta>) -> Option<MetaModel> {
    match meta {
        Some(meta) => Some(meta@),
        None => None,
    }
}

impl MacroParameters {
    /// The value of this configuration.
    pub closed spec fn model(self) -> ParamsModel
        decreases self,
    {
        ParamsModel {
            mode: self.mode,
            disable: self.disable,
            key: opt_view(self.key),
            self_name: opt_view(self.self_name),
            keep_self: self.keep_self,
            prefix: opt_view(self.prefix),
            idents: self.idents@,
            send: self.send,
            cfg: opt_meta_view(self.cfg),
            outer_attrs: directives_model(self.outer_attrs@),
            inner_attrs: directives_model(self.inner_attrs@),
            drop_attrs: names_view(self.drop_attrs@),
            replace_features: self.replace_features@,
            versions: Seq::new(
                self.versions@.len(),
                |i: int|
                    if 0 <= i < self.versions@.len() {
                        VersionModel {
                            kind: self.versions@[i].kind,
                            params: self.versions@[i].params.model(),
                        }
                    } else {
                        arbitrary()
                    },
            ),
        }
    }
}

impl View for MacroParameters {
    type V = ParamsModel;

    open spec fn view(&self) -> ParamsModel {
        self.model()
    }
}

impl View for MacroParameterVersion {
    type V = VersionModel;

    open spec fn view(&self) -> VersionModel {
        VersionModel { kind: self.kind, params: self.params@ }
    }
}

/// The values of a list of variants.
pub open spec fn versions_model(versions: Seq<MacroParameterVersion>) -> Seq<VersionModel> {
    Seq::new(versions.len(), |i: int| versions[i]@)
}

impl MacroParameters {
    /// The declared variants, in the order of their declaration.
    pub fn versions(&self) -> (versions: &Vec<MacroParameterVersion>)
        ensures
            versions_model(versions@) == self@.versions,
    {
        assert(self@.versions =~= versions_model(self.versions@));
        &self.versions
    }
}

/// Reads a configuration from directives, one at a time.
#[derive(Debug)]
pub struct MacroParametersBuilder {
    params: MacroParameters,
}

impl View for MacroParametersBuilder {
    type V = ParamsModel;

    closed spec fn view(&self) -> ParamsModel {
        self.params@
    }
}

impl MacroParametersBuilder {
    /// A builder that has read nothing.
    pub fn new() -> (builder: Self)
        ensures
            builder@ == empty_params(),
    {
        let params = MacroParameters {
            mode: None,
            disable: false,
            key: None,
            self_name: None,
            keep_self: false,
            prefix: None,
            idents: Table::new(),
            send: None,
            cfg: None,
            outer_attrs: Vec::new(),
            inner_attrs: Vec::new(),
            drop_attrs: Vec::new(),
            replace_features: Table::new(),
            versions: Vec::new(),
        };
        assert(params@.outer_attrs =~= Seq::<DirectiveModel>::empty());
        assert(params@.inner_attrs =~= Seq::<DirectiveModel>::empty());
        assert(params@.drop_attrs =~= Seq::<Seq<char>>::empty());
        assert(params@.versions =~= Seq::<VersionModel>::empty());
        MacroParametersBuilder { params }
    }

    /// Asks for the rewrite into synchronous code.
    pub fn mode_into_sync(&mut self) -> (done: Result<(), ConfigError>)
        ensures
            done.is_ok(),
            final(self)@ == (ParamsModel { mode: Some(ConvertMode::IntoSync), ..old(self)@ }),
    {
        self.params.mode = Some(ConvertMode::IntoSync);
        Ok(())
    }

    /// Asks for the rewrite into asynchronous code.
    pub fn mode_into_async(&mut self) -> (done: Result<(), ConfigError>)
        ensures
            done.is_ok(),
            final(self)@ == (ParamsModel { mode: Some(ConvertMode::IntoAsync), ..old(self)@ }),
    {
        self.params.mode = Some(ConvertMode::IntoAsync);
        Ok(())
    }

    /// Sets the key of the variant.
    pub fn key(&mut self, key: String) -> (done: Result<(), ConfigError>)
        ensures
            done.is_ok(),
            final(self)@ == (ParamsModel { key: Some(key@), ..old(self)@ }),
    {
        self.params.key = Some(key);
        Ok(())
    }

    /// Sets the name of the unit under the key.
    pub fn self_name(&mut self, self_name: String) -> (done: Result<(), ConfigError>)
        ensures
            done.is_ok(),
            final(self)@ == (ParamsModel { self_name: Some(self_name@), ..old(self)@ }),
    {
        self.params.self_name = Some(self_name);
        Ok(())
    }

    /// Leaves the unit as it is.
    pub fn disable(&mut self)
        ensures
            final(self)@ == (ParamsModel { disable: true, ..old(self)@ }),
    {
        self.params.disable = true;
    }

    /// Gives the unit's own name no rename rule.
    pub fn keep_self(&mut self)
        ensures
            final(self)@ == (ParamsModel { keep_self: true, ..old(self)@ }),
    {
        self.params.keep_self = true;
    }

    /// Sets the prefix of this crate's attributes.
    pub fn prefix(&mut self, prefix: String) -> (done: Result<(), ConfigError>)
        ensures
            done.is_ok(),
            final(self)@ == (ParamsModel { prefix: Some(prefix@), ..old(self)@ }),
    {
        self.params.prefix = Some(prefix);
        Ok(())
    }

    /// Reads the value of `send`: `Send`, `true` or nothing allow sharing
    /// between threads, `?Send` and `false` do not.
    pub fn send(&mut self, send: String) -> (done: Result<(), ConfigError>)
        ensures
            match send_value(send@) {
                Some(shared) => done.is_ok() && final(self)@ == (ParamsModel {
                    send: Some(shared),
                    ..old(self)@
                }),
                None => {
                    &&& done == Err::<(), ConfigError>(ConfigError::WrongSendValue)
                    &&& final(self)@ == old(self)@
                },
            },
    {
        let text = send.as_str();
        if str_eq(text, "") || str_eq(text, "Send") || str_eq(text, "true") {
            self.params.send = Some(true);
            Ok(())
        } else if str_eq(text, "?Send") || str_eq(text, "false") {
            self.params.send = Some(false);
            Ok(())
        } else {
            Err(ConfigError::WrongSendValue)
        }
    }

    /// Takes `feature = ".."` as the condition of the variant.
    pub fn feature(&mut self, meta: &Meta) -> (done: Result<(), ConfigError>)
        ensures
            done.is_ok(),
            final(self)@ == (ParamsModel { cfg: Some(meta@), ..old(self)@ }),
    {
        self.cfg_meta(meta)
    }

    /// Takes the one condition of `cfg(..)` as the condition of the
    /// variant.
    pub fn cfg_list(&mut self, list: &Vec<Directive>) -> (done: Result<(), ConfigError>)
        ensures
            match cfg_condition(directives_model(list@)) {
                Ok(condition) => done.is_ok() && final(self)@ == (ParamsModel {
                    cfg: Some(condition),
                    ..old(self)@
                }),
                Err(error) => done == Err::<(), ConfigError>(error) && final(self)@ == old(self)@,
            },
    {
        if list.len() != 1 {
            return Err(ConfigError::ExpectedCondition);
        }
        match &list[0] {
            Directive::Meta(condition) => self.cfg_meta(condition),
            Directive::Lit(_) => Err(ConfigError::ExpectedCondition),
        }
    }

    /// Takes `meta` as the condition of the variant.
    pub fn cfg_meta(&mut self, meta: &Meta) -> (done: Result<(), ConfigError>)
        ensures
            done.is_ok(),
            final(self)@ == (ParamsModel { cfg: Some(meta@), ..old(self)@ }),
    {
        self.params.cfg = Some(meta.copy());
        Ok(())
    }

    /// Adds the elements of `list` to the outer attributes.
    pub fn outer_attrs(&mut self, list: &Vec<Directive>) -> (done: Result<(), ConfigError>)
        ensures
            done.is_ok(),
            final(self)@ == (ParamsModel {
                outer_attrs: old(self)@.outer_attrs + directives_model(list@),
                ..old(self)@
            }),
    {
        append_directives(&mut self.params.outer_attrs, list);
        Ok(())
    }

    /// Adds a string literal to the inner attributes.
    pub fn inner_attr_str(&mut self, lit: &Literal) -> (done: Result<(), ConfigError>)
        ensures
            done.is_ok(),
            final(self)@ == (ParamsModel {
                inner_attrs: old(self)@.inner_attrs.push(DirectiveModel::Lit(lit@)),
                ..old(self)@
            }),
    {
        self.params.inner_attrs.push(Directive::Lit(lit.copy()));
        assert(final(self)@.inner_attrs =~= old(self)@.inner_attrs.push(
            DirectiveModel::Lit(lit@),
        ));
        Ok(())
    }

    /// Adds a directive to the inner attributes.
    pub fn inner_attr(&mut self, meta: &Meta) -> (done: Result<(), ConfigError>)
        ensures
            done.is_ok(),
            final(self)@ == (ParamsModel {
                inner_attrs: old(self)@.inner_attrs.push(DirectiveModel::Meta(meta@)),
                ..old(self)@
            }),
    {
        self.params.inner_attrs.push(Directive::Meta(meta.copy()));
        assert(final(self)@.inner_attrs =~= old(self)@.inner_attrs.push(
            DirectiveModel::Meta(meta@),
        ));
        Ok(())
    }

    /// Adds the elements of `list` to the inner attributes.
    pub fn inner_attrs(&mut self, list: &Vec<Directive>) -> (done: Result<(), ConfigError>)
        ensures
            done.is_ok(),
            final(self)@ == (ParamsModel {
                inner_attrs: old(self)@.inner_attrs + directives_model(list@),
                ..old(self)@
            }),
    {
        append_directives(&mut self.params.inner_attrs, list);
        Ok(())
    }

    /// Adds the bare names of `meta` to the attributes to drop. Nothing is
    /// added where an element is refused.
    pub fn drop_attrs(&mut self, meta: &Vec<Directive>) -> (done: Result<(), ConfigError>)
        ensures
            match drop_fold(
                old(self)@.drop_attrs,
                directives_model(meta@),
                meta@.len() as int,
            ) {
                Ok(names) => done.is_ok() && final(self)@ == (ParamsModel {
                    drop_attrs: names,
                    ..old(self)@
                }),
                Err(error) => done == Err::<(), ConfigError>(error) && final(self)@ == old(self)@,
            },
    {
        let ghost list = directives_model(meta@);
        let ghost start = self@.drop_attrs;
        let mut names: Vec<String> = copy_names(&self.params.drop_attrs);
        let mut i: usize = 0;
        while i < meta.len()
            invariant
                i <= meta@.len(),
                list == directives_model(meta@),
                self@ == old(self)@,
                start == old(self)@.drop_attrs,
                drop_fold(start, list, i as int) == Ok::<Seq<Seq<char>>, ConfigError>(
                    names_view(names@),
                ),
            decreases meta@.len() - i,
        {
            assert(list[i as int] == meta@[i as int]@);
            match &meta[i] {
                Directive::Meta(Meta::Path(path)) => {
                    match path.get_ident() {
                        Some(name) => {
                            let ghost before = names@;
                            names.push(name);
                            assert(names_view(names@) =~= names_view(before).push(name@));
                        },
                        None => {
                            proof {
                                assert(drop_fold(start, list, i as int + 1).is_err());
                                lemma_drop_fold_stays(
                                    start,
                                    list,
                                    i as int + 1,
                                    meta@.len() as int,
                                );
                            }
                            return Err(ConfigError::ExpectedDropName);
                        },
                    }
                },
                _ => {
                    proof {
                        assert(drop_fold(start, list, i as int + 1).is_err());
                        lemma_drop_fold_stays(start, list, i as int + 1, meta@.len() as int);
                    }
                    return Err(ConfigError::ExpectedDropList);
                },
            }
            i += 1;
        }
        self.params.drop_attrs = names;
        Ok(())
    }

    /// Reads `replace_feature("old", "new")`.
    pub fn replace_feature(&mut self, meta: &Vec<Directive>) -> (done: Result<(), ConfigError>)
        ensures
            match feature_pair(directives_model(meta@)) {
                Ok((old_name, new_name)) => done.is_ok() && final(self)@ == (ParamsModel {
                    replace_features: with_entry(
                        old(self)@.replace_features,
                        old_name,
                        new_name,
                    ),
                    ..old(self)@
                }),
                Err(error) => done == Err::<(), ConfigError>(error) && final(self)@ == old(self)@,
            },
    {
        if meta.len() != 2 {
            return Err(ConfigError::ExpectedTwoStringLiterals);
        }
        let old_name = match &meta[0] {
            Directive::Lit(Literal::Str(value)) => value.clone(),
            _ => {
                return Err(ConfigError::ExpectedStringLiteral);
            },
        };
        let new_name = match &meta[1] {
            Directive::Lit(Literal::Str(value)) => value.clone(),
            _ => {
                return Err(ConfigError::ExpectedStringLiteral);
            },
        };
        self.params.replace_features.insert(old_name, new_name);
        Ok(())
    }

    /// Reads the elements of `idents(..)` into the rename table. The table
    /// stays as it was where an element is refused.
    pub fn idents(
        idents: &mut Table<IdentRecord>,
        list: &Vec<Directive>,
    ) -> (done: Result<(), ConfigError>)
        ensures
            match idents_fold(old(idents)@, directives_model(list@), list@.len() as int) {
                Ok(table) => done.is_ok() && final(idents)@ == table,
                Err(error) => {
                    &&& done == Err::<(), ConfigError>(error)
                    &&& final(idents)@ == old(idents)@
                },
            },
    {
        let ghost elements = directives_model(list@);
        let ghost start = idents@;
        let mut table = copy_rule_table(idents);
        let mut i: usize = 0;
        while i < list.len()
            invariant
                i <= list@.len(),
                elements == directives_model(list@),
                idents@ == old(idents)@,
                start == old(idents)@,
                idents_fold(start, elements, i as int) == Ok::<
                    Entries<IdentRecordModel>,
                    ConfigError,
                >(table@),
            decreases list@.len() - i,
        {
            assert(elements[i as int] == list@[i as int]@);
            match read_entry(&list[i]) {
                Ok((ident, rule)) => {
                    table.insert(ident, rule);
                },
                Err(error) => {
                    proof {
                        assert(idents_fold(start, elements, i as int + 1).is_err());
                        lemma_idents_fold_stays(start, elements, i as int + 1, list@.len() as int);
                    }
                    return Err(error);
                },
            }
            i += 1;
        }
        *idents = table;
        Ok(())
    }

    /// Declares a variant where `name` is a mode keyword, and else takes
    /// `meta`, the list as a whole, as an inner attribute.
    pub fn version_or_inner_attr(
        &mut self,
        name: &str,
        list: &Vec<Directive>,
        meta: &Meta,
    ) -> (done: Result<(), ConfigError>)
        ensures
            match keyword_mode(name@) {
                Some(kind) => match parse(directives_model(list@)) {
                    Ok(params) => done.is_ok() && final(self)@ == (ParamsModel {
                        versions: old(self)@.versions.push(VersionModel { kind, params }),
                        ..old(self)@
                    }),
                    Err(error) => {
                        &&& done == Err::<(), ConfigError>(error)
                        &&& final(self)@ == old(self)@
                    },
                },
                None => done.is_ok() && final(self)@ == (ParamsModel {
                    inner_attrs: old(self)@.inner_attrs.push(DirectiveModel::Meta(meta@)),
                    ..old(self)@
                }),
            },
        decreases list, 2int,
    {
        match ConvertMode::from_str(name) {
            Some(kind) => self.version(kind, list),
            None => self.inner_attr(meta),
        }
    }

    /// Declares a variant of the given mode, whose configuration `list`
    /// describes.
    pub fn version(
        &mut self,
        kind: ConvertMode,
        list: &Vec<Directive>,
    ) -> (done: Result<(), ConfigError>)
        ensures
            match parse(directives_model(list@)) {
                Ok(params) => done.is_ok() && final(self)@ == (ParamsModel {
                    versions: old(self)@.versions.push(VersionModel { kind, params }),
                    ..old(self)@
                }),
                Err(error) => done == Err::<(), ConfigError>(error) && final(self)@ == old(self)@,
            },
        decreases list, 1int,
    {
        match MacroParameters::from_args(list) {
            Ok(inner) => {
                self.params.versions.push(MacroParameterVersion { kind, params: inner });
                assert(final(self)@.versions =~= old(self)@.versions.push(
                    VersionModel { kind, params: inner@ },
                ));
                Ok(())
            },
            Err(error) => Err(error),
        }
    }

    /// Reads one directive. The builder stays as it was where the
    /// directive is refused.
    pub fn apply(&mut self, directive: &Directive) -> (done: Result<(), ConfigError>)
        ensures
            match step(old(self)@, directive@) {
                Ok(after) => done.is_ok() && final(self)@ == after,
                Err(error) => done == Err::<(), ConfigError>(error) && final(self)@ == old(self)@,
            },
        decreases directive, 3int,
    {
        match directive {
            Directive::Meta(meta) => {
                match meta {
                    Meta::NameValue(path, literal) => {
                        match path.get_ident() {
                            None => Err(ConfigError::ExpectedName),
                            Some(name) => self.apply_pair(name.as_str(), literal, meta),
                        }
                    },
                    Meta::List(path, nested) => {
                        proof {
                            lemma_list_model(*path, *nested);
                            assert(decreases_to!(*directive => directive->Meta_0));
                            assert(decreases_to!(*meta => meta->List_1));
                        }
                        match path.get_ident() {
                            None => Err(ConfigError::ExpectedName),
                            Some(name) => {
                                let name = name.as_str();
                                if str_eq(name, "cfg") {
                                    self.cfg_list(nested)
                                } else if str_eq(name, "idents") {
                                    MacroParametersBuilder::idents(&mut self.params.idents, nested)
                                } else if str_eq(name, "any") || str_eq(name, "all") || str_eq(
                                    name,
                                    "not",
                                ) {
                                    self.cfg_meta(meta)
                                } else if str_eq(name, "outer") {
                                    self.outer_attrs(nested)
                                } else if str_eq(name, "inner") {
                                    self.inner_attrs(nested)
                                } else if str_eq(name, "replace_feature") {
                                    self.replace_feature(nested)
                                } else if str_eq(name, "drop_attrs") {
                                    self.drop_attrs(nested)
                                } else {
                                    self.version_or_inner_attr(name, nested, meta)
                                }
                            },
                        }
                    },
                    Meta::Path(path) => {
                        match path.get_ident() {
                            Some(name) => {
                                let name = name.as_str();
                                if str_eq(name, "__into_async") {
                                    self.mode_into_async()
                                } else if str_eq(name, "__into_sync") {
                                    self.mode_into_sync()
                                } else if str_eq(name, "disable") {
                                    self.disable();
                                    Ok(())
                                } else if str_eq(name, "keep_self") {
                                    self.keep_self();
                                    Ok(())
                                } else {
                                    self.inner_attr(meta)
                                }
                            },
                            None => self.inner_attr(meta),
                        }
                    },
                }
            },
            Directive::Lit(literal) => {
                match literal {
                    Literal::Str(_) => self.inner_attr_str(literal),
                    Literal::Other(_) => Err(ConfigError::ExpectedStringLiteral),
                }
            },
        }
    }

    /// Reads the pair `name = literal`, which `meta` is.
    fn apply_pair(
        &mut self,
        name: &str,
        literal: &Literal,
        meta: &Meta,
    ) -> (done: Result<(), ConfigError>)
        ensures
            match pair_step(old(self)@, name@, literal@, meta@) {
                Ok(after) => done.is_ok() && final(self)@ == after,
                Err(error) => done == Err::<(), ConfigError>(error) && final(self)@ == old(self)@,
            },
    {
        let is_key = str_eq(name, "key");
        let is_self = str_eq(name, "self");
        let is_prefix = str_eq(name, "prefix");
        let is_send = str_eq(name, "send");
        let is_feature = str_eq(name, "feature");
        if is_key || is_self || is_prefix || is_send || is_feature {
            match literal {
                Literal::Str(value) => {
                    if is_key {
                        self.key(value.clone())
                    } else if is_self {
                        self.self_name(value.clone())
                    } else if is_prefix {
                        self.prefix(value.clone())
                    } else if is_send {
                        self.send(value.clone())
                    } else {
                        self.feature(meta)
                    }
                },
                Literal::Other(_) => Err(ConfigError::ExpectedStringLiteral),
            }
        } else {
            Err(ConfigError::WrongNameValueName)
        }
    }

    /// Finishes the configuration: each variant inherits from what was
    /// read, and gets the key of its mode where it named none.
    pub fn build(self) -> (built: Result<MacroParameters, ConfigError>)
        ensures
            built.is_ok(),
            built.unwrap()@ == finalize(self@),
    {
        let mut params = self.params;
        let ghost start = params@;
        let mut rest: Vec<MacroParameterVersion> = Vec::new();
        std::mem::swap(&mut rest, &mut params.versions);
        let ghost declared = versions_model(rest@);
        assert(declared =~= start.versions);
        let mut done: Vec<MacroParameterVersion> = Vec::new();
        let ghost parent = params@;
        while rest.len() > 0
            invariant
                params@ == parent,
                done@.len() + rest@.len() == declared.len(),
                forall|j: int|
                    0 <= j < done@.len() ==> (#[trigger] done@[j])@ == finished_version(
                        parent,
                        declared[j],
                    ),
                forall|j: int|
                    0 <= j < rest@.len() ==> (#[trigger] rest@[j])@ == declared[done@.len() + j],
            decreases rest@.len(),
        {
            let ghost at = done@.len() as int;
            let ghost before = rest@;
            let mut version = rest.remove(0);
            assert(version@ == declared[at]);
            assert forall|j: int| 0 <= j < rest@.len() implies (#[trigger] rest@[j])@
                == declared[at + 1 + j] by {
                assert(rest@[j] == before[j + 1]);
            }
            let _ = MacroParameters::apply_parent(&mut version.params, &params);
            if version.params.key.is_none() {
                version.params.key = Some(owned(version.kind.to_str()));
            }
            assert(version@ == finished_version(parent, declared[at]));
            done.push(version);
        }
        params.versions = done;
        assert(params@ =~= finalize(start)) by {
            assert(params@.versions =~= finalize(start).versions) by {
                assert forall|j: int| 0 <= j < declared.len() implies params@.versions[j]
                    == finalize(start).versions[j] by {
                    assert(done@[j]@ == finished_version(parent, declared[j]));
                    assert(finished_version(parent, declared[j]) == finished_version(
                        start,
                        start.versions[j],
                    ));
                }
            }
        }
        Ok(params)
    }
}

/// Reads the items of a rename rule for `ident`.
fn read_rule(ident: &String, items: &Vec<Directive>) -> (read: Result<IdentRecord, ConfigError>)
    ensures
        match rule_fold(
            plain_record(false),
            ident@,
            directives_model(items@),
            items@.len() as int,
        ) {
            Ok(rule) => read.is_ok() && read.unwrap()@ == rule,
            Err(error) => read.is_err() && read.unwrap_err() == error,
        },
{
    let ghost list = directives_model(items@);
    let ghost start = plain_record(false);
    let mut rule = IdentRecord::new();
    let mut i: usize = 0;
    while i < items.len()
        invariant
            i <= items@.len(),
            list == directives_model(items@),
            start == plain_record(false),
            rule_fold(start, ident@, list, i as int) == Ok::<IdentRecordModel, ConfigError>(
                rule@,
            ),
        decreases items@.len() - i,
    {
        assert(list[i as int] == items@[i as int]@);
        let ghost before = rule@;
        let step: Result<(), ConfigError> = match &items[i] {
            Directive::Meta(Meta::Path(path)) => {
                match path.get_ident() {
                    None => Err(ConfigError::ExpectedIdent),
                    Some(word) => {
                        if str_eq(word.as_str(), "fn") {
                            rule.fn_mode = true;
                            Ok(())
                        } else if str_eq(word.as_str(), "use") {
                            rule.use_mode = true;
                            Ok(())
                        } else if str_eq(word.as_str(), "keep") {
                            rule.keep = true;
                            Ok(())
                        } else if str_eq(word.as_str(), "sync") {
                            rule.ident_sync = Some(ident.clone());
                            Ok(())
                        } else if str_eq(word.as_str(), "async") {
                            rule.ident_async = Some(ident.clone());
                            Ok(())
                        } else {
                            Err(ConfigError::ExpectedRuleFlag)
                        }
                    },
                }
            },
            Directive::Meta(Meta::NameValue(path, Literal::Str(value))) => {
                match path.get_ident() {
                    None => Err(ConfigError::ExpectedIdent),
                    Some(word) => {
                        if str_eq(word.as_str(), "sync") {
                            rule.ident_sync = Some(value.clone());
                        } else if str_eq(word.as_str(), "async") {
                            rule.ident_async = Some(value.clone());
                        } else {
                            let mut names = match &rule.idents {
                                Some(names) => copy_name_table(names),
                                None => Table::new(),
                            };
                            names.insert(word, value.clone());
                            rule.idents = Some(names);
                        }
                        Ok(())
                    },
                }
            },
            _ => Err(ConfigError::ExpectedRuleItem),
        };
        assert(match rule_step(before, ident@, list[i as int]) {
            Ok(after) => step.is_ok() && rule@ == after,
            Err(error) => step == Err::<(), ConfigError>(error),
        });
        match step {
            Ok(()) => {},
            Err(error) => {
                proof {
                    assert(rule_fold(start, ident@, list, i as int + 1).is_err());
                    lemma_rule_fold_stays(start, ident@, list, i as int + 1, items@.len() as int);
                }
                return Err(error);
            },
        }
        i += 1;
    }
    Ok(rule)
}

/// Reads one element of `idents(..)`: an identifier with its rule.
fn read_entry(element: &Directive) -> (read: Result<(String, IdentRecord), ConfigError>)
    ensures
        match ident_entry(element@) {
            Ok((ident, rule)) => read.is_ok() && read.unwrap().0@ == ident && read.unwrap().1@
                == rule,
            Err(error) => read.is_err() && read.unwrap_err() == error,
        },
{
    match element {
        Directive::Meta(Meta::Path(path)) => {
            match path.get_ident() {
                None => Err(ConfigError::ExpectedIdent),
                Some(ident) => Ok((ident, IdentRecord::new())),
            }
        },
        Directive::Meta(Meta::List(path, items)) => {
            proof {
                lemma_list_model(*path, *items);
            }
            match path.get_ident() {
                None => Err(ConfigError::ExpectedIdent),
                Some(ident) => {
                    match read_rule(&ident, items) {
                        Ok(rule) => Ok((ident, rule)),
                        Err(error) => Err(error),
                    }
                },
            }
        },
        _ => Err(ConfigError::ExpectedRule),
    }
}

impl MacroParameters {
    /// The configuration that holds nothing.
    pub fn new() -> (params: Self)
        ensures
            params@ == empty_params(),
    {
        MacroParametersBuilder::new().params
    }

    /// Reads a configuration from a directive list: the directives are
    /// taken in order, the first that is refused gives the error, and at
    /// the end each variant inherits from what was read.
    pub fn from_args(args: &Vec<Directive>) -> (read: Result<MacroParameters, ConfigError>)
        ensures
            match parse(directives_model(args@)) {
                Ok(params) => read.is_ok() && read.unwrap()@ == params,
                Err(error) => read.is_err() && read.unwrap_err() == error,
            },
        decreases args, 0int,
    {
        let ghost list = directives_model(args@);
        let mut builder = MacroParametersBuilder::new();
        let mut i: usize = 0;
        while i < args.len()
            invariant
                i <= args@.len(),
                list == directives_model(args@),
                fold(empty_params(), list, i as int) == Ok::<ParamsModel, ConfigError>(builder@),
            decreases args@.len() - i,
        {
            assert(list[i as int] == args@[i as int]@);
            proof {
                assert(decreases_to!(*args => args[i as int]));
            }
            match builder.apply(&args[i]) {
                Ok(()) => {},
                Err(error) => {
                    proof {
                        assert(fold(empty_params(), list, i as int + 1).is_err());
                        lemma_fold_stays(empty_params(), list, i as int + 1, args@.len() as int);
                    }
                    return Err(error);
                },
            }
            i += 1;
        }
        builder.build()
    }
}

impl MacroParameters {
    /// A copy of this configuration, variants included.
    pub fn copy(&self) -> (copy: Self)
        ensures
            copy@ == self@,
        decreases self,
    {
        let mut versions: Vec<MacroParameterVersion> = Vec::new();
        let mut i: usize = 0;
        while i < self.versions.len()
            invariant
                i <= self.versions@.len(),
                versions@.len() == i,
                forall|j: int| 0 <= j < i ==> (#[trigger] versions@[j])@ == self.versions@[j]@,
            decreases self.versions@.len() - i,
        {
            proof {
                assert(decreases_to!(*self => self.versions));
                assert(decreases_to!(self.versions => self.versions[i as int]));
                assert(decreases_to!(self.versions[i as int] => self.versions[i as int].params));
            }
            let version = &self.versions[i];
            versions.push(
                MacroParameterVersion { kind: version.kind, params: version.params.copy() },
            );
            i += 1;
        }
        let copy = MacroParameters {
            mode: self.mode,
            disable: self.disable,
            key: copy_opt(&self.key),
            self_name: copy_opt(&self.self_name),
            keep_self: self.keep_self,
            prefix: copy_opt(&self.prefix),
            idents: copy_rule_table(&self.idents),
            send: self.send,
            cfg: match &self.cfg {
                Some(condition) => Some(condition.copy()),
                None => None,
            },
            outer_attrs: copy_directives(&self.outer_attrs),
            inner_attrs: copy_directives(&self.inner_attrs),
            drop_attrs: copy_names(&self.drop_attrs),
            replace_features: copy_name_table(&self.replace_features),
            versions,
        };
        assert(copy@.versions =~= self@.versions);
        copy
    }
}

impl MacroParameters {
    /// The place of the first directive of `args` that is refused, for a
    /// report at its position; nothing where the list is read without
    /// error.
    pub fn refused_at(args: &Vec<Directive>) -> (at: Option<usize>)
        ensures
            match at {
                Some(index) => first_refused(directives_model(args@), index as int),
                None => parse(directives_model(args@)).is_ok(),
            },
    {
        let ghost list = directives_model(args@);
        let mut builder = MacroParametersBuilder::new();
        let mut i: usize = 0;
        while i < args.len()
            invariant
                i <= args@.len(),
                list == directives_model(args@),
                fold(empty_params(), list, i as int) == Ok::<ParamsModel, ConfigError>(builder@),
            decreases args@.len() - i,
        {
            assert(list[i as int] == args@[i as int]@);
            if builder.apply(&args[i]).is_err() {
                return Some(i);
            }
            i += 1;
        }
        None
    }
}

/// Adds to `child` the rules of `parent` under names that `child` lacks.
fn absorb_rules(child: &mut Table<IdentRecord>, parent: &Table<IdentRecord>)
    ensures
        final(child)@ == merged(old(child)@, parent@),
{
    let mut i: usize = 0;
    while i < parent.len()
        invariant
            i <= parent@.len(),
            child@ == absorb(old(child)@, parent@, i as int),
        decreases parent@.len() - i,
    {
        let key = parent.key_at(i);
        if !child.contains_key(key.as_str()) {
            let value = parent.value_at(i).copy();
            proof {
                lemma_position(child@, key@);
                assert(with_entry(child@, key@, value@) =~= child@.push(parent@[i as int]));
            }
            child.insert(key.clone(), value);
        }
        i += 1;
    }
}

/// Adds to `child` the names of `parent` under names that `child` lacks.
fn absorb_names(child: &mut Table<String>, parent: &Table<String>)
    ensures
        final(child)@ == merged(old(child)@, parent@),
{
    let mut i: usize = 0;
    while i < parent.len()
        invariant
            i <= parent@.len(),
            child@ == absorb(old(child)@, parent@, i as int),
        decreases parent@.len() - i,
    {
        let key = parent.key_at(i);
        if !child.contains_key(key.as_str()) {
            let value = parent.value_at(i).clone();
            proof {
                lemma_position(child@, key@);
                assert(with_entry(child@, key@, value@) =~= child@.push(parent@[i as int]));
            }
            child.insert(key.clone(), value);
        }
        i += 1;
    }
}

impl MacroParameters {
    /// Makes the variant `child` inherit from `parent`: it is disabled
    /// where the parent is, keeps its own name where the parent does, gets
    /// the parent's rename rules and feature names under the names it has
    /// none for, and drops the parent's attributes before its own.
    pub fn apply_parent(
        child: &mut MacroParameters,
        parent: &MacroParameters,
    ) -> (done: Result<(), ConfigError>)
        ensures
            done.is_ok(),
            final(child)@ == inherit(parent@, old(child)@),
    {
        if parent.disable {
            child.disable = true;
        }
        if parent.keep_self {
            child.keep_self = true;
        }
        absorb_rules(&mut child.idents, &parent.idents);
        let mut drop_attrs = copy_names(&parent.drop_attrs);
        let mut i: usize = 0;
        while i < child.drop_attrs.len()
            invariant
                i <= child.drop_attrs@.len(),
                names_view(drop_attrs@) == names_view(parent.drop_attrs@) + names_view(
                    child.drop_attrs@.subrange(0, i as int),
                ),
            decreases child.drop_attrs@.len() - i,
        {
            let ghost before = drop_attrs@;
            drop_attrs.push(child.drop_attrs[i].clone());
            i += 1;
            assert(names_view(drop_attrs@) =~= names_view(parent.drop_attrs@) + names_view(
                child.drop_attrs@.subrange(0, i as int),
            )) by {
                assert(names_view(drop_attrs@) =~= names_view(before).push(
                    child.drop_attrs@[i - 1]@,
                ));
                assert(names_view(child.drop_attrs@.subrange(0, i as int)) =~= names_view(
                    child.drop_attrs@.subrange(0, i - 1),
                ).push(child.drop_attrs@[i - 1]@));
            }
        }
        assert(child.drop_attrs@.subrange(0, i as int) =~= child.drop_attrs@);
        child.drop_attrs = drop_attrs;
        absorb_names(&mut child.replace_features, &parent.replace_features);
        assert(final(child)@.versions =~= old(child)@.versions);
        Ok(())
    }
}

/// Appends the marker of the mode to write.
fn push_mode(list: &mut Vec<Directive>, own: Option<ConvertMode>, add_mode: Option<ConvertMode>)
    ensures
        directives_model(final(list)@) == directives_model(old(list)@) + mode_part(own, add_mode),
{
    let mode = match add_mode {
        Some(mode) => Some(mode),
        None => own,
    };
    match mode {
        Some(ConvertMode::IntoAsync) => push_directive(list, Directive::flag("__into_async")),
        Some(ConvertMode::IntoSync) => push_directive(list, Directive::flag("__into_sync")),
        None => {
            proof {
                lemma_push_nothing(list@);
            }
        },
    }
}

/// Appends `name = "value"` where there is a value.
fn push_pair(list: &mut Vec<Directive>, name: &str, value: &Option<String>)
    ensures
        directives_model(final(list)@) == directives_model(old(list)@) + pair_if(
            name@,
            opt_view(*value),
        ),
{
    match value {
        Some(value) => push_directive(list, Directive::pair(name, value.as_str())),
        None => {
            proof {
                lemma_push_nothing(list@);
            }
        },
    }
}

/// Appends the setting of `send`.
fn push_send(list: &mut Vec<Directive>, send: Option<bool>)
    ensures
        directives_model(final(list)@) == directives_model(old(list)@) + send_part(send),
{
    match send {
        Some(true) => push_directive(list, Directive::pair("send", "Send")),
        Some(false) => push_directive(list, Directive::pair("send", "?Send")),
        None => {
            proof {
                lemma_push_nothing(list@);
            }
        },
    }
}

/// Appends the condition as `cfg(condition)`.
fn push_cfg(list: &mut Vec<Directive>, cfg: &Option<Meta>)
    ensures
        directives_model(final(list)@) == directives_model(old(list)@) + cfg_part(
            opt_meta_view(*cfg),
        ),
{
    match cfg {
        Some(condition) => {
            let mut nested: Vec<Directive> = Vec::new();
            nested.push(Directive::Meta(condition.copy()));
            assert(directives_model(nested@) =~= seq![DirectiveModel::Meta(condition@)]);
            push_directive(list, Directive::list("cfg", nested));
        },
        None => {
            proof {
                lemma_push_nothing(list@);
            }
        },
    }
}

/// Appends `name(nested..)` where `nested` is not empty.
fn push_list(list: &mut Vec<Directive>, name: &str, nested: Vec<Directive>)
    ensures
        directives_model(final(list)@) == directives_model(old(list)@) + attrs_part(
            name@,
            directives_model(nested@),
        ),
{
    if nested.len() == 0 {
        proof {
            lemma_push_nothing(list@);
        }
    } else {
        push_directive(list, Directive::list(name, nested));
    }
}

/// The rename rules as directives.
fn rules_to_directives(idents: &Table<IdentRecord>) -> (nested: Vec<Directive>)
    ensures
        directives_model(nested@) == rule_directives(idents@),
{
    let mut nested: Vec<Directive> = Vec::new();
    let mut i: usize = 0;
    while i < idents.len()
        invariant
            i <= idents@.len(),
            nested@.len() == i,
            forall|j: int|
                0 <= j < i ==> (#[trigger] nested@[j])@ == record_directive(
                    idents@[j].1,
                    idents@[j].0,
                ),
        decreases idents@.len() - i,
    {
        nested.push(idents.value_at(i).to_nestedmeta(idents.key_at(i).as_str()));
        i += 1;
    }
    assert(directives_model(nested@) =~= rule_directives(idents@));
    nested
}

/// Names as bare words.
fn names_to_flags(names: &Vec<String>) -> (nested: Vec<Directive>)
    ensures
        directives_model(nested@) == name_flags(names_view(names@)),
{
    let mut nested: Vec<Directive> = Vec::new();
    let mut i: usize = 0;
    while i < names.len()
        invariant
            i <= names@.len(),
            nested@.len() == i,
            forall|j: int| 0 <= j < i ==> (#[trigger] nested@[j])@ == flag_model(names@[j]@),
        decreases names@.len() - i,
    {
        nested.push(Directive::flag(names[i].as_str()));
        i += 1;
    }
    assert(directives_model(nested@) =~= name_flags(names_view(names@)));
    nested
}

/// Appends `replace_feature("old", "new")` for each pair of feature names.
fn push_features(list: &mut Vec<Directive>, features: &Table<String>)
    ensures
        directives_model(final(list)@) == directives_model(old(list)@) + features_part(
            features@,
        ),
{
    let ghost head = directives_model(list@);
    let mut i: usize = 0;
    while i < features.len()
        invariant
            i <= features@.len(),
            head == directives_model(old(list)@),
            directives_model(list@) == head + features_part(features@).subrange(0, i as int),
        decreases features@.len() - i,
    {
        let mut inner: Vec<Directive> = Vec::new();
        inner.push(Directive::text(features.key_at(i).as_str()));
        inner.push(Directive::text(features.value_at(i).as_str()));
        assert(directives_model(inner@) =~= seq![
            text_model(features@[i as int].0),
            text_model(features@[i as int].1),
        ]);
        let ghost before = directives_model(list@);
        push_directive(list, Directive::list("replace_feature", inner));
        i += 1;
        assert(directives_model(list@) =~= head + features_part(features@).subrange(
            0,
            i as int,
        ));
    }
    assert(features_part(features@).subrange(0, i as int) =~= features_part(features@));
}

impl MacroParameters {
    /// This configuration as a directive list, with the marker of
    /// `add_mode` where one is given, and else with that of its own mode.
    pub fn to_nestedmeta(&self, add_mode: Option<ConvertMode>) -> (args: Vec<Directive>)
        ensures
            directives_model(args@) == serialized(self@, add_mode),
        decreases self,
    {
        let mut args: Vec<Directive> = Vec::new();
        assert(directives_model(args@) =~= Seq::<DirectiveModel>::empty());
        push_mode(&mut args, self.mode, add_mode);
        push_flag_if(&mut args, self.disable, "disable");
        push_flag_if(&mut args, self.keep_self, "keep_self");
        push_pair(&mut args, "key", &self.key);
        push_pair(&mut args, "self", &self.self_name);
        push_pair(&mut args, "prefix", &self.prefix);
        push_send(&mut args, self.send);
        push_cfg(&mut args, &self.cfg);
        push_list(&mut args, "outer", copy_directives(&self.outer_attrs));
        push_list(&mut args, "inner", copy_directives(&self.inner_attrs));
        push_list(&mut args, "idents", rules_to_directives(&self.idents));
        push_list(&mut args, "drop_attrs", names_to_flags(&self.drop_attrs));
        push_features(&mut args, &self.replace_features);
        assert(directives_model(args@) == settings_part(self@, add_mode));
        let ghost head = directives_model(args@);
        let ghost tail = versions_part(self@.versions);
        let mut i: usize = 0;
        while i < self.versions.len()
            invariant
                i <= self.versions@.len(),
                tail == versions_part(self@.versions),
                tail.len() == self.versions@.len(),
                directives_model(args@) == head + tail.subrange(0, i as int),
            decreases self.versions@.len() - i,
        {
            proof {
                assert(decreases_to!(*self => self.versions));
                assert(decreases_to!(self.versions => self.versions[i as int]));
                assert(decreases_to!(self.versions[i as int] => self.versions[i as int].params));
            }
            let version = &self.versions[i];
            let nested = version.params.to_nestedmeta(None);
            assert(self@.versions[i as int] == version@);
            push_directive(&mut args, Directive::list(version.kind.to_str(), nested));
            i += 1;
            assert(directives_model(args@) =~= head + tail.subrange(0, i as int));
        }
        assert(tail.subrange(0, i as int) =~= tail);
        args
    }
}

/// What became of an identifier in a rewrite.
#[derive(Debug, PartialEq, Eq)]
pub enum Renamed {
    /// The identifier stays: no variant is asked for, or no rule names it.
    Unchanged,
    /// The identifier that takes its place.
    To(String),
    /// Its rule gives a name that the parser does not read as an
    /// identifier.
    Unwritable,
}

impl View for Renamed {
    type V = RenamedModel;

    open spec fn view(&self) -> RenamedModel {
        match *self {
            Renamed::Unchanged => RenamedModel::Unchanged,
            Renamed::To(name) => RenamedModel::To(name@),
            Renamed::Unwritable => RenamedModel::Unwritable,
        }
    }
}

impl MacroParameters {
    /// The rule that an identifier gets where none is declared for it.
    pub fn default_ident_record(&self, fn_mode: bool) -> (record: IdentRecord)
        ensures
            record@ == plain_record(fn_mode),
    {
        IdentRecord::with_fn_mode(fn_mode)
    }

    /// Whether the unit is to be left as it is.
    pub fn disable_get(&self) -> (disable: bool)
        ensures
            disable == self@.disable,
    {
        self.disable
    }

    /// The rewrite that this configuration asks for, if it asks for one.
    pub fn mode_get(&self) -> (mode: Option<ConvertMode>)
        ensures
            mode == self@.mode,
    {
        self.mode
    }

    /// The key of the variant that this configuration describes.
    pub fn key_get(&self) -> (key: Option<&str>)
        ensures
            key_view(key) == self@.key,
    {
        match &self.key {
            Some(key) => Some(key.as_str()),
            None => None,
        }
    }

    /// Registers the unit's own name: it gets a rule, unless the
    /// configuration keeps the name or has a rule for it. Where the
    /// configuration has a key and a name for the unit, the rule gives that
    /// name under that key.
    pub fn original_self_name_set(&mut self, name: &str, fn_mode: bool)
        ensures
            final(self)@ == registered(old(self)@, name@, fn_mode),
    {
        if !self.keep_self {
            if !self.idents.contains_key(name) {
                let mut rule = self.default_ident_record(fn_mode);
                if let Some(key) = &self.key {
                    if let Some(self_name) = &self.self_name {
                        let mut names: Table<String> = Table::new();
                        names.insert(key.clone(), self_name.clone());
                        assert(names@ =~= seq![(key@, self_name@)]);
                        rule.idents = Some(names);
                    }
                }
                proof {
                    lemma_position(self@.idents, name@);
                    assert(with_entry(self@.idents, name@, rule@) =~= self@.idents.push(
                        (name@, rule@),
                    ));
                }
                self.idents.insert(owned(name), rule);
            }
        }
    }

    /// Sets the prefix of this crate's attributes.
    pub fn prefix_set(&mut self, prefix: String)
        ensures
            final(self)@ == (ParamsModel { prefix: Some(prefix@), ..old(self)@ }),
    {
        self.prefix = Some(prefix);
    }

    /// The prefix of this crate's attributes: the one that is set, or else
    /// the crate's name.
    pub fn prefix_get(&self) -> (prefix: &str)
        ensures
            prefix@ == prefix_or_default(self@),
    {
        match &self.prefix {
            Some(prefix) => prefix.as_str(),
            None => crate::default_crate_name(),
        }
    }

    /// Whether generated asynchronous code may be shared between threads.
    pub fn send_get(&self) -> (send: Option<bool>)
        ensures
            send == self@.send,
    {
        self.send
    }

    /// The rename rule of `name`, if there is one.
    pub fn idents_get(&self, name: &str) -> (rule: Option<&IdentRecord>)
        ensures
            match rule {
                Some(found) => lookup(self@.idents, name@) == Some(found@),
                None => lookup(self@.idents, name@).is_none(),
            },
    {
        self.idents.get(name)
    }

    /// Whether no feature name is replaced.
    pub fn replace_features_is_empty(&self) -> (empty: bool)
        ensures
            empty == (self@.replace_features.len() == 0),
    {
        self.replace_features.is_empty()
    }

    /// The feature name that takes the place of `name`, if one does.
    pub fn replace_features_get(&self, name: &str) -> (replacement: Option<&str>)
        ensures
            key_view(replacement) == lookup(self@.replace_features, name@),
    {
        match self.replace_features.get(name) {
            Some(replacement) => Some(replacement.as_str()),
            None => None,
        }
    }

    /// The condition `meta` with its feature names replaced: wherever
    /// `feature = "name"` stands in it, at any depth, and `name` has a
    /// replacement, the replacement stands in its place.
    pub fn replace_features_in(&self, meta: &Meta) -> (replaced: Meta)
        ensures
            replaced@ == with_features(self@.replace_features, meta@),
        decreases meta,
    {
        match meta {
            Meta::Path(_) => meta.copy(),
            Meta::NameValue(path, literal) => {
                if let Literal::Str(name) = literal {
                    if let Some(word) = path.get_ident() {
                        if str_eq(word.as_str(), "feature") {
                            if let Some(replacement) = self.replace_features.get(name.as_str()) {
                                return Meta::NameValue(
                                    path.copy(),
                                    Literal::Str(replacement.clone()),
                                );
                            }
                        }
                    }
                }
                meta.copy()
            },
            Meta::List(path, nested) => {
                proof {
                    lemma_list_model(*path, *nested);
                }
                let mut items: Vec<Directive> = Vec::new();
                let mut i: usize = 0;
                while i < nested.len()
                    invariant
                        i <= nested@.len(),
                        items@.len() == i,
                        meta == Meta::List(*path, *nested),
                        forall|j: int|
                            0 <= j < i ==> (#[trigger] items@[j])@ == with_features(
                                self@.replace_features,
                                meta@,
                            )->List_1[j],
                        meta@ == MetaModel::List(path@, directives_model(nested@)),
                    decreases nested@.len() - i,
                {
                    proof {
                        assert(decreases_to!(*meta => meta->List_1));
                        assert(decreases_to!(*nested => nested[i as int]));
                        assert(directives_model(nested@)[i as int] == nested@[i as int]@);
                    }
                    let item = match &nested[i] {
                        Directive::Meta(inner) => Directive::Meta(self.replace_features_in(inner)),
                        Directive::Lit(lit) => Directive::Lit(lit.copy()),
                    };
                    items.push(item);
                    i += 1;
                }
                let name = path.copy();
                proof {
                    lemma_list_model(name, items);
                    assert(directives_model(items@) =~= with_features(
                        self@.replace_features,
                        meta@,
                    )->List_1);
                }
                Meta::List(name, items)
            },
        }
    }

    /// Whether no attribute is dropped.
    pub fn drop_attrs_is_empty(&self) -> (empty: bool)
        ensures
            empty == (self@.drop_attrs.len() == 0),
    {
        self.drop_attrs.len() == 0
    }

    /// Whether attributes named `name` are dropped.
    pub fn drop_attrs_contains(&self, name: &String) -> (found: bool)
        ensures
            found == self@.drop_attrs.contains(name@),
    {
        let mut i: usize = 0;
        while i < self.drop_attrs.len()
            invariant
                i <= self.drop_attrs@.len(),
                forall|j: int| 0 <= j < i ==> self@.drop_attrs[j] != name@,
            decreases self.drop_attrs@.len() - i,
        {
            if self.drop_attrs[i] == *name {
                assert(self@.drop_attrs[i as int] == name@);
                return true;
            }
            i += 1;
        }
        false
    }

    /// The name of `attr` as an attribute of this crate: the last segment
    /// of an outer attribute `first::last` without arguments, where `first`
    /// is the prefix or no prefix is set.
    pub fn is_our_attr(&self, attr: &Attribute) -> (name: Option<String>)
        ensures
            opt_view(name) == our_attr_name(self@.prefix, attr@),
    {
        if attr.outer && !attr.leading_colon && attr.segments.len() == 2 {
            let first = &attr.segments[0];
            let last = &attr.segments[1];
            assert(attr@.segments[0] == (first.ident@, first.has_arguments));
            assert(attr@.segments[1] == (last.ident@, last.has_arguments));
            if !first.has_arguments && !last.has_arguments {
                match &self.prefix {
                    Some(prefix) => {
                        if first.ident == *prefix {
                            return Some(last.ident.clone());
                        }
                    },
                    None => {
                        return Some(last.ident.clone());
                    },
                }
            }
        }
        None
    }

    /// Whether `attr` is dropped: whether its path is a single identifier
    /// that the attributes to drop hold.
    pub fn drops_attr(&self, attr: &Attribute) -> (dropped: bool)
        ensures
            dropped == match attr_name(attr@) {
                Some(name) => self@.drop_attrs.contains(name),
                None => false,
            },
    {
        if !attr.leading_colon && attr.segments.len() == 1 && !attr.segments[0].has_arguments {
            assert(attr@.segments[0] == (
                attr.segments@[0].ident@,
                attr.segments@[0].has_arguments,
            ));
            self.drop_attrs_contains(&attr.segments[0].ident)
        } else {
            false
        }
    }

    /// The path of the attribute `name` of this crate: the prefix, `::`,
    /// and the name.
    pub fn make_self_path(&self, name: &str) -> (path: Name)
        ensures
            path@ == self_path(self@, name@),
    {
        let mut segments: Vec<String> = Vec::new();
        segments.push(owned(self.prefix_get()));
        segments.push(owned(name));
        let path = Name { leading_colon: false, segments };
        assert(path@.segments =~= seq![prefix_or_default(self@), name@]);
        path
    }

    /// What becomes of `ident` in a rewrite for `convert_mode`. Nothing is
    /// renamed where this configuration has no key, or no rule for the
    /// identifier. A name that a rule gives outright is written as the
    /// parser reads it, and refused where the parser refuses it.
    pub fn rename_ident(&self, ident: &str, convert_mode: ConvertMode) -> (renamed: Renamed)
        ensures
            renamed_fits(renaming(self@, ident@, convert_mode), ident@, renamed@),
    {
        let key = match &self.key {
            Some(key) => key.as_str(),
            None => {
                return Renamed::Unchanged;
            },
        };
        match self.idents.get(ident) {
            None => Renamed::Unchanged,
            Some(rule) => {
                match rule.ident_add_suffix(ident, convert_mode, Some(key)) {
                    Some(name) => Renamed::To(name),
                    None => Renamed::Unwritable,
                }
            },
        }
    }

    /// Writes the condition and the outer attributes in front of a copy:
    /// `cfg(..)` first, then the attributes in their order.
    pub fn extend_tokenstream2_with_cfg_outer_attrs(&self, ts: &mut Vec<Decoration>)
        ensures
            decorations_model(final(ts)@) == decorations_model(old(ts)@) + cfg_decoration(
                self@.cfg,
            ) + attr_decorations(self@.outer_attrs),
    {
        match &self.cfg {
            Some(condition) => {
                ts.push(Decoration::Cfg(condition.copy()));
                assert(decorations_model(ts@) =~= decorations_model(old(ts)@) + cfg_decoration(
                    self@.cfg,
                ));
            },
            None => {
                assert(decorations_model(ts@) =~= decorations_model(old(ts)@) + cfg_decoration(
                    self@.cfg,
                ));
            },
        }
        push_attr_decorations(ts, &self.outer_attrs);
    }

    /// Writes the inner attributes in front of a copy, in their order.
    pub fn extend_tokenstream2_with_inner_attrs(&self, ts: &mut Vec<Decoration>)
        ensures
            decorations_model(final(ts)@) == decorations_model(old(ts)@) + attr_decorations(
                self@.inner_attrs,
            ),
    {
        push_attr_decorations(ts, &self.inner_attrs);
    }
}

} // verus!
