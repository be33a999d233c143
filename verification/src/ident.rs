//! Rename rules: how one identifier is named in each mode and variant.
use vstd::prelude::*;
use crate::directive::{
    Directive, DirectiveModel, directives_model, flag_if, flag_model, list_model, pair_model,
    push_flag_if,
};
use crate::mode::ConvertMode;
use crate::table::{Entries, entries_view, lookup, Table};
use crate::text::{copy_opt, opt_view, owned, str_eq};

verus! {

/// The rule for one identifier.
#[derive(Debug)]
pub struct IdentRecord {
    /// The identifier is written like a function: its suffix is lower case.
    pub fn_mode: bool,
    /// The identifier stands in imports.
    pub use_mode: bool,
    /// The identifier is never renamed.
    pub keep: bool,
    /// The name in synchronous code.
    pub ident_sync: Option<String>,
    /// The name in asynchronous code.
    pub ident_async: Option<String>,
    /// The names under given variant keys.
    pub idents: Option<Table<String>>,
}

/// Mathematical value of an `IdentRecord`.
pub struct IdentRecordModel {
    pub fn_mode: bool,
    pub use_mode: bool,
    pub keep: bool,
    pub ident_sync: Option<Seq<char>>,
    pub ident_async: Option<Seq<char>>,
    pub idents: Option<Entries<Seq<char>>>,
}

impl View for IdentRecord {
    type V = IdentRecordModel;

    open spec fn view(&self) -> IdentRecordModel {
        IdentRecordModel {
            fn_mode: self.fn_mode,
            use_mode: self.use_mode,
            keep: self.keep,
            ident_sync: opt_view(self.ident_sync),
            ident_async: opt_view(self.ident_async),
            idents: match self.idents {
                Some(table) => Some(table@),
                None => None,
            },
        }
    }
}

/// The rule that holds nothing but the way the identifier is written.
pub open spec fn plain_record(fn_mode: bool) -> IdentRecordModel {
    IdentRecordModel {
        fn_mode,
        use_mode: false,
        keep: false,
        ident_sync: None,
        ident_async: None,
        idents: None,
    }
}

/// The suffix that tells the two forms of an identifier apart.
pub open spec fn mode_suffix(fn_mode: bool, mode: ConvertMode) -> Seq<char> {
    match (fn_mode, mode) {
        (false, ConvertMode::IntoAsync) => "Async"@,
        (false, ConvertMode::IntoSync) => "Sync"@,
        (true, ConvertMode::IntoAsync) => "_async"@,
        (true, ConvertMode::IntoSync) => "_sync"@,
    }
}

/// The name that a rule gives for a variant key.
pub open spec fn variant_name(rule: IdentRecordModel, key: Option<Seq<char>>) -> Option<Seq<char>> {
    match (key, rule.idents) {
        (Some(key), Some(names)) => lookup(names, key),
        _ => None,
    }
}

/// The name that a rule gives for a mode.
pub open spec fn mode_name(rule: IdentRecordModel, mode: ConvertMode) -> Option<Seq<char>> {
    match mode {
        ConvertMode::IntoSync => rule.ident_sync,
        ConvertMode::IntoAsync => rule.ident_async,
    }
}

/// How an identifier is to be named.
pub enum NameChoice {
    /// The identifier stays as it is.
    Keep,
    /// The rule names the identifier outright.
    Explicit(Seq<char>),
    /// The identifier gets its mode's suffix.
    Suffixed(Seq<char>),
}

/// The choice that a rule makes for `ident`: a kept identifier stays; else
/// the name under the variant key wins, then the name for the mode, then
/// the suffix.
pub open spec fn name_choice(
    rule: IdentRecordModel,
    ident: Seq<char>,
    mode: ConvertMode,
    key: Option<Seq<char>>,
) -> NameChoice {
    if rule.keep {
        NameChoice::Keep
    } else if let Some(name) = variant_name(rule, key) {
        NameChoice::Explicit(name)
    } else if let Some(name) = mode_name(rule, mode) {
        NameChoice::Explicit(name)
    } else {
        NameChoice::Suffixed(ident + mode_suffix(rule.fn_mode, mode))
    }
}

/// A name for a mode as a directive: the bare mode keyword where the name
/// is the identifier itself, else `keyword = "name"`.
pub open spec fn mode_name_directives(
    keyword: Seq<char>,
    value: Option<Seq<char>>,
    name: Seq<char>,
) -> Seq<DirectiveModel> {
    match value {
        Some(value) => if value == name {
            seq![flag_model(keyword)]
        } else {
            seq![pair_model(keyword, value)]
        },
        None => seq![],
    }
}

/// The flags and mode names of a rule as directives.
pub open spec fn record_flags(rule: IdentRecordModel, name: Seq<char>) -> Seq<DirectiveModel> {
    flag_if(rule.fn_mode, "fn"@) + flag_if(rule.use_mode, "use"@) + flag_if(rule.keep, "keep"@)
        + mode_name_directives("async"@, rule.ident_async, name) + mode_name_directives(
        "sync"@,
        rule.ident_sync,
        name,
    )
}

/// The names under variant keys as `key = "name"` directives.
pub open spec fn record_pairs(names: Entries<Seq<char>>) -> Seq<DirectiveModel> {
    Seq::new(names.len(), |i: int| pair_model(names[i].0, names[i].1))
}

/// All that a rule holds, as directives.
pub open spec fn record_items(rule: IdentRecordModel, name: Seq<char>) -> Seq<DirectiveModel> {
    record_flags(rule, name) + match rule.idents {
        Some(names) => record_pairs(names),
        None => seq![],
    }
}

/// A rule as a directive under `name`.
pub open spec fn record_directive(rule: IdentRecordModel, name: Seq<char>) -> DirectiveModel {
    let items = record_items(rule, name);
    if items.len() == 0 {
        flag_model(name)
    } else {
        list_model(name, items)
    }
}

/// What `IdentRecord::resolve` found.
#[derive(Debug, PartialEq, Eq)]
pub enum Resolved {
    /// The identifier stays as it is.
    Keep,
    /// The rule names the identifier outright.
    Explicit(String),
    /// The identifier with its mode's suffix.
    Suffixed(String),
}

impl View for Resolved {
    type V = NameChoice;

    open spec fn view(&self) -> NameChoice {
        match *self {
            Resolved::Keep => NameChoice::Keep,
            Resolved::Explicit(name) => NameChoice::Explicit(name@),
            Resolved::Suffixed(name) => NameChoice::Suffixed(name@),
        }
    }
}

/// The identifier that a choice is written as, where `parsed` is what the
/// parser made of an explicit name as a raw identifier: a kept identifier
/// is written as it is, a suffixed one with its suffix, and an explicit
/// name as the parser has read it, if it has.
pub open spec fn written_as(
    choice: NameChoice,
    ident: Seq<char>,
    parsed: Option<Seq<char>>,
) -> Option<Seq<char>> {
    match choice {
        NameChoice::Keep => Some(ident),
        NameChoice::Explicit(_) => parsed,
        NameChoice::Suffixed(name) => Some(name),
    }
}

/// Whether `outcome` is what a choice is written as, whatever the parser
/// makes of an explicit name.
pub open spec fn fits(choice: NameChoice, ident: Seq<char>, outcome: Option<Seq<char>>) -> bool {
    match choice {
        NameChoice::Keep => outcome == Some(ident),
        NameChoice::Explicit(_) => true,
        NameChoice::Suffixed(name) => outcome == Some(name),
    }
}

/// The view of an optional string slice.
pub open spec fn key_view(key: Option<&str>) -> Option<Seq<char>> {
    match key {
        Some(text) => Some(text@),
        None => None,
    }
}

impl Resolved {
    /// The identifier that this choice is written as, where `parsed` is
    /// what the parser made of an explicit name as a raw identifier.
    pub fn written(self, ident: &str, parsed: Option<String>) -> (text: Option<String>)
        ensures
            opt_view(text) == written_as(self@, ident@, opt_view(parsed)),
    {
        match self {
            Resolved::Keep => Some(owned(ident)),
            Resolved::Explicit(_) => parsed,
            Resolved::Suffixed(name) => Some(name),
        }
    }
}

/// Calls `syn::parse_str::<syn::Ident>` on `r#` followed by `name`, and
/// gives the text of the identifier that was read, or nothing where the
/// parser refused the input. Nothing is claimed of the outcome: the parser
/// is the one of the process that the call is made in.
#[verifier::external_body]
fn parse_raw_identifier(name: &str) -> (text: Option<String>) {
    match syn::parse_str::<syn::Ident>(&format!("r#{}", name)) {
        Ok(ident) => Some(ident.to_string()),
        Err(_) => None,
    }
}

/// A copy of a table of names.
pub fn copy_name_table(table: &Table<String>) -> (copy: Table<String>)
    ensures
        copy@ == table@,
{
    let mut entries: Vec<(String, String)> = Vec::new();
    let mut i: usize = 0;
    while i < table.len()
        invariant
            i <= table@.len(),
            entries@.len() == i,
            forall|j: int|
                0 <= j < i ==> (#[trigger] entries@[j]).0@ == table@[j].0 && entries@[j].1@
                    == table@[j].1,
        decreases table@.len() - i,
    {
        entries.push((table.key_at(i).clone(), table.value_at(i).clone()));
        i += 1;
    }
    table.names_differ();
    assert(entries_view(entries@) =~= table@);
    Table::from_entries(entries)
}

/// A copy of a table of rename rules.
pub fn copy_rule_table(table: &Table<IdentRecord>) -> (copy: Table<IdentRecord>)
    ensures
        copy@ == table@,
{
    let mut entries: Vec<(String, IdentRecord)> = Vec::new();
    let mut i: usize = 0;
    while i < table.len()
        invariant
            i <= table@.len(),
            entries@.len() == i,
            forall|j: int|
                0 <= j < i ==> (#[trigger] entries@[j]).0@ == table@[j].0 && entries@[j].1@
                    == table@[j].1,
        decreases table@.len() - i,
    {
        entries.push((table.key_at(i).clone(), table.value_at(i).copy()));
        i += 1;
    }
    table.names_differ();
    assert(entries_view(entries@) =~= table@);
    Table::from_entries(entries)
}

impl IdentRecord {
    /// The rule of an identifier that is written like a type.
    pub fn new() -> (record: Self)
        ensures
            record@ == plain_record(false),
    {
        IdentRecord {
            fn_mode: false,
            use_mode: false,
            keep: false,
            ident_sync: None,
            ident_async: None,
            idents: None,
        }
    }

    /// The rule of an identifier that is written like a function
    /// (`fn_mode`) or like a type.
    pub fn with_fn_mode(fn_mode: bool) -> (record: Self)
        ensures
            record@ == plain_record(fn_mode),
    {
        IdentRecord {
            fn_mode,
            use_mode: false,
            keep: false,
            ident_sync: None,
            ident_async: None,
            idents: None,
        }
    }

    /// A copy of this rule.
    pub fn copy(&self) -> (copy: Self)
        ensures
            copy@ == self@,
    {
        IdentRecord {
            fn_mode: self.fn_mode,
            use_mode: self.use_mode,
            keep: self.keep,
            ident_sync: copy_opt(&self.ident_sync),
            ident_async: copy_opt(&self.ident_async),
            idents: match &self.idents {
                Some(table) => Some(copy_name_table(table)),
                None => None,
            },
        }
    }

    /// Decides how `ident` is named for `convert_mode`, under the variant
    /// key `version_name` where one is given.
    pub fn resolve(
        &self,
        ident: &str,
        convert_mode: ConvertMode,
        version_name: Option<&str>,
    ) -> (choice: Resolved)
        ensures
            choice@ == name_choice(self@, ident@, convert_mode, key_view(version_name)),
    {
        if self.keep {
            return Resolved::Keep;
        }
        if let Some(key) = version_name {
            if let Some(names) = &self.idents {
                if let Some(name) = names.get(key) {
                    return Resolved::Explicit(name.clone());
                }
            }
        }
        match convert_mode {
            ConvertMode::IntoSync => {
                if let Some(name) = &self.ident_sync {
                    return Resolved::Explicit(name.clone());
                }
            },
            ConvertMode::IntoAsync => {
                if let Some(name) = &self.ident_async {
                    return Resolved::Explicit(name.clone());
                }
            },
        }
        let suffix = match (self.fn_mode, convert_mode) {
            (false, ConvertMode::IntoAsync) => "Async",
            (false, ConvertMode::IntoSync) => "Sync",
            (true, ConvertMode::IntoAsync) => "_async",
            (true, ConvertMode::IntoSync) => "_sync",
        };
        Resolved::Suffixed(owned(ident).concat(suffix))
    }

    /// The identifier that takes the place of `ident` for `convert_mode`,
    /// under the variant key `version_name` where one is given. An explicit
    /// name is written as a raw identifier, as the parser reads it; nothing
    /// comes back where the parser refuses it.
    pub fn ident_add_suffix(
        &self,
        ident: &str,
        convert_mode: ConvertMode,
        version_name: Option<&str>,
    ) -> (renamed: Option<String>)
        ensures
            fits(
                name_choice(self@, ident@, convert_mode, key_view(version_name)),
                ident@,
                opt_view(renamed),
            ),
    {
        let choice = self.resolve(ident, convert_mode, version_name);
        let parsed = match &choice {
            Resolved::Explicit(name) => parse_raw_identifier(name.as_str()),
            _ => None,
        };
        choice.written(ident, parsed)
    }

    /// This rule as a directive under `name`: the bare name where the rule
    /// holds nothing, else a list of what it holds.
    pub fn to_nestedmeta(&self, name: &str) -> (directive: Directive)
        ensures
            directive@ == record_directive(self@, name@),
    {
        let mut nested: Vec<Directive> = Vec::new();
        assert(directives_model(nested@) =~= Seq::<DirectiveModel>::empty());
        push_flag_if(&mut nested, self.fn_mode, "fn");
        push_flag_if(&mut nested, self.use_mode, "use");
        push_flag_if(&mut nested, self.keep, "keep");
        push_mode_name(&mut nested, "async", &self.ident_async, name);
        push_mode_name(&mut nested, "sync", &self.ident_sync, name);
        assert(directives_model(nested@) =~= record_flags(self@, name@));
        if let Some(names) = &self.idents {
            push_pairs(&mut nested, names);
        } else {
            assert(directives_model(nested@) =~= record_items(self@, name@));
        }
        if nested.len() == 0 {
            Directive::flag(name)
        } else {
            Directive::list(name, nested)
        }
    }
}

/// Appends the directive of a name for a mode to `list`.
fn push_mode_name(list: &mut Vec<Directive>, keyword: &str, value: &Option<String>, name: &str)
    ensures
        directives_model(final(list)@) == directives_model(old(list)@) + mode_name_directives(
            keyword@,
            opt_view(*value),
            name@,
        ),
{
    if let Some(value) = value {
        if str_eq(value.as_str(), name) {
            list.push(Directive::flag(keyword));
        } else {
            list.push(Directive::pair(keyword, value.as_str()));
        }
    }
    assert(directives_model(list@) =~= directives_model(old(list)@) + mode_name_directives(
        keyword@,
        opt_view(*value),
        name@,
    ));
}

/// Appends `key = "name"` to `list` for each entry of `names`.
fn push_pairs(list: &mut Vec<Directive>, names: &Table<String>)
    ensures
        directives_model(final(list)@) == directives_model(old(list)@) + record_pairs(names@),
{
    let mut i: usize = 0;
    while i < names.len()
        invariant
            i <= names@.len(),
            list@.len() == old(list)@.len() + i,
            forall|j: int| 0 <= j < old(list)@.len() ==> list@[j] == old(list)@[j],
            forall|j: int|
                0 <= j < i ==> (#[trigger] list@[old(list)@.len() + j])@ == pair_model(
                    names@[j].0,
                    names@[j].1,
                ),
        decreases names@.len() - i,
    {
        list.push(Directive::pair(names.key_at(i).as_str(), names.value_at(i).as_str()));
        i += 1;
    }
    assert(directives_model(list@) =~= directives_model(old(list)@) + record_pairs(names@)) by {
        let want = directives_model(old(list)@) + record_pairs(names@);
        assert forall|j: int| 0 <= j < list@.len() implies directives_model(list@)[j]
            == want[j] by {
            if j >= old(list)@.len() {
                let k = j - old(list)@.len();
                assert(list@[old(list)@.len() + k]@ == pair_model(names@[k].0, names@[k].1));
            }
        }
    }
}

/// An identifier without an explicit rule gets the suffix of the mode, for
/// every variant key: `Async` or `Sync` behind a name written like a type,
/// `_async` or `_sync` behind one written like a function. It is written
/// so whatever the parser does.
pub proof fn lemma_default_rename(
    ident: Seq<char>,
    fn_mode: bool,
    mode: ConvertMode,
    key: Option<Seq<char>>,
    outcome: Option<Seq<char>>,
)
    ensures
        name_choice(plain_record(fn_mode), ident, mode, key) == NameChoice::Suffixed(
            ident + mode_suffix(fn_mode, mode),
        ),
        fits(name_choice(plain_record(fn_mode), ident, mode, key), ident, outcome) <==> outcome
            == Some(ident + mode_suffix(fn_mode, mode)),
        mode_suffix(false, ConvertMode::IntoAsync) == "Async"@,
        mode_suffix(false, ConvertMode::IntoSync) == "Sync"@,
        mode_suffix(true, ConvertMode::IntoAsync) == "_async"@,
        mode_suffix(true, ConvertMode::IntoSync) == "_sync"@,
{
}

/// Where a rule that renames has a name under the variant key, that name is
/// chosen, whatever the rule holds for the mode.
pub proof fn lemma_variant_name_wins(
    rule: IdentRecordModel,
    ident: Seq<char>,
    mode: ConvertMode,
    key: Seq<char>,
)
    requires
        !rule.keep,
        variant_name(rule, Some(key)).is_some(),
    ensures
        name_choice(rule, ident, mode, Some(key)) == NameChoice::Explicit(
            variant_name(rule, Some(key)).unwrap(),
        ),
{
}

/// A rule that keeps its identifier gives it back for every mode and key,
/// whatever else the rule holds.
pub proof fn lemma_keep_is_identity(
    rule: IdentRecordModel,
    ident: Seq<char>,
    mode: ConvertMode,
    key: Option<Seq<char>>,
    outcome: Option<Seq<char>>,
)
    requires
        rule.keep,
    ensures
        name_choice(rule, ident, mode, key) == NameChoice::Keep,
        fits(name_choice(rule, ident, mode, key), ident, outcome) <==> outcome == Some(ident),
{
}

/// What is written for a choice fits it, whatever the parser has read.
pub proof fn lemma_written_fits(choice: NameChoice, ident: Seq<char>, parsed: Option<Seq<char>>)
    ensures
        fits(choice, ident, written_as(choice, ident, parsed)),
{
}

} // verus!
