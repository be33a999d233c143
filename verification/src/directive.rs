//! The directive tree that a configuration is read from and written to.
//!
//! A directive list is what stands between the brackets of an attribute:
//! bare paths, `name = literal` pairs, named lists of further directives, and
//! literals. The types here hold such a list as plain values.
use vstd::prelude::*;
use crate::text::{copy_names, names_view, opt_view, owned};

verus! {

/// A path of identifiers separated by `::`, with or without a leading `::`.
#[derive(Debug, PartialEq, Eq)]
pub struct Name {
    pub leading_colon: bool,
    pub segments: Vec<String>,
}

/// A literal: a string with its value, or any other literal with its text.
#[derive(Debug, PartialEq, Eq)]
pub enum Literal {
    Str(String),
    Other(String),
}

/// A structured directive.
#[derive(Debug, PartialEq, Eq)]
pub enum Meta {
    /// A bare path, such as `disable`.
    Path(Name),
    /// A named list, such as `drop_attrs(a, b)`.
    List(Name, Vec<Directive>),
    /// A pair, such as `key = "fast"`.
    NameValue(Name, Literal),
}

/// One element of a directive list.
#[derive(Debug, PartialEq, Eq)]
pub enum Directive {
    Meta(Meta),
    Lit(Literal),
}

/// Mathematical value of a `Name`.
pub struct NameModel {
    pub leading_colon: bool,
    pub segments: Seq<Seq<char>>,
}

/// Mathematical value of a `Literal`.
pub enum LiteralModel {
    Str(Seq<char>),
    Other(Seq<char>),
}

/// Mathematical value of a `Meta`.
pub enum MetaModel {
    Path(NameModel),
    List(NameModel, Seq<DirectiveModel>),
    NameValue(NameModel, LiteralModel),
}

/// Mathematical value of a `Directive`.
pub enum DirectiveModel {
    Meta(MetaModel),
    Lit(LiteralModel),
}

impl View for Name {
    type V = NameModel;

    open spec fn view(&self) -> NameModel {
        NameModel { leading_colon: self.leading_colon, segments: names_view(self.segments@) }
    }
}

impl View for Literal {
    type V = LiteralModel;

    open spec fn view(&self) -> LiteralModel {
        match *self {
            Literal::Str(value) => LiteralModel::Str(value@),
            Literal::Other(text) => LiteralModel::Other(text@),
        }
    }
}

/// The value of a structured directive.
pub open spec fn meta_model(meta: Meta) -> MetaModel
    decreases meta,
{
    match meta {
        Meta::Path(name) => MetaModel::Path(name@),
        Meta::List(name, nested) => MetaModel::List(
            name@,
            Seq::new(
                nested@.len(),
                |i: int|
                    if 0 <= i < nested@.len() {
                        directive_model(nested@[i])
                    } else {
                        arbitrary()
                    },
            ),
        ),
        Meta::NameValue(name, lit) => MetaModel::NameValue(name@, lit@),
    }
}

/// The value of a directive.
pub open spec fn directive_model(directive: Directive) -> DirectiveModel
    decreases directive,
{
    match directive {
        Directive::Meta(meta) => DirectiveModel::Meta(meta_model(meta)),
        Directive::Lit(lit) => DirectiveModel::Lit(lit@),
    }
}

/// The values of a directive list, in order.
pub open spec fn directives_model(list: Seq<Directive>) -> Seq<DirectiveModel> {
    Seq::new(list.len(), |i: int| directive_model(list[i]))
}

impl View for Meta {
    type V = MetaModel;

    open spec fn view(&self) -> MetaModel {
        meta_model(*self)
    }
}

impl View for Directive {
    type V = DirectiveModel;

    open spec fn view(&self) -> DirectiveModel {
        directive_model(*self)
    }
}

/// A named list's value is its name with the values of its elements.
pub proof fn lemma_list_model(name: Name, nested: Vec<Directive>)
    ensures
        meta_model(Meta::List(name, nested)) == MetaModel::List(name@, directives_model(nested@)),
{
    assert(meta_model(Meta::List(name, nested)) matches MetaModel::List(_, items)
        && items =~= directives_model(nested@));
}

/// The single identifier that a path consists of, if it is one.
pub open spec fn name_ident(name: NameModel) -> Option<Seq<char>> {
    if !name.leading_colon && name.segments.len() == 1 {
        Some(name.segments[0])
    } else {
        None
    }
}

/// The path that consists of one identifier.
pub open spec fn ident_name(ident: Seq<char>) -> NameModel {
    NameModel { leading_colon: false, segments: seq![ident] }
}

/// The path `first::last`.
pub open spec fn pair_name(first: Seq<char>, last: Seq<char>) -> NameModel {
    NameModel { leading_colon: false, segments: seq![first, last] }
}

/// The directive that is the bare identifier `ident`.
pub open spec fn flag_model(ident: Seq<char>) -> DirectiveModel {
    DirectiveModel::Meta(MetaModel::Path(ident_name(ident)))
}

/// The directive `name = "value"`.
pub open spec fn pair_model(name: Seq<char>, value: Seq<char>) -> DirectiveModel {
    DirectiveModel::Meta(MetaModel::NameValue(ident_name(name), LiteralModel::Str(value)))
}

/// The directive `name(nested..)`.
pub open spec fn list_model(name: Seq<char>, nested: Seq<DirectiveModel>) -> DirectiveModel {
    DirectiveModel::Meta(MetaModel::List(ident_name(name), nested))
}

/// The directive that is the string literal `"value"`.
pub open spec fn text_model(value: Seq<char>) -> DirectiveModel {
    DirectiveModel::Lit(LiteralModel::Str(value))
}

impl Name {
    /// The path made of the single identifier `ident`.
    pub fn from_ident(ident: &str) -> (name: Name)
        ensures
            name@ == ident_name(ident@),
    {
        let mut segments: Vec<String> = Vec::new();
        segments.push(owned(ident));
        let name = Name { leading_colon: false, segments };
        assert(name@.segments =~= seq![ident@]);
        name
    }

    /// The identifier of a path that is a single identifier without a
    /// leading `::`; no other path has one.
    pub fn get_ident(&self) -> (ident: Option<String>)
        ensures
            opt_view(ident) == name_ident(self@),
    {
        if !self.leading_colon && self.segments.len() == 1 {
            Some(self.segments[0].clone())
        } else {
            None
        }
    }

    /// A copy of this path.
    pub fn copy(&self) -> (copy: Name)
        ensures
            copy@ == self@,
    {
        Name { leading_colon: self.leading_colon, segments: copy_names(&self.segments) }
    }
}

impl Literal {
    /// A copy of this literal.
    pub fn copy(&self) -> (copy: Literal)
        ensures
            copy@ == self@,
    {
        match self {
            Literal::Str(value) => Literal::Str(value.clone()),
            Literal::Other(text) => Literal::Other(text.clone()),
        }
    }
}

impl Meta {
    /// A copy of this directive, nested lists included.
    pub fn copy(&self) -> (copy: Meta)
        ensures
            copy@ == self@,
        decreases self,
    {
        match self {
            Meta::Path(name) => Meta::Path(name.copy()),
            Meta::List(name, nested) => {
                let mut items: Vec<Directive> = Vec::new();
                let mut i: usize = 0;
                while i < nested.len()
                    invariant
                        i <= nested.len(),
                        items@.len() == i,
                        self == Meta::List(*name, *nested),
                        forall|j: int| 0 <= j < i ==> items@[j]@ == nested@[j]@,
                    decreases nested.len() - i,
                {
                    proof {
                        assert(decreases_to!(*self => self->List_1));
                        assert(decreases_to!(*nested => nested[i as int]));
                    }
                    let item = match &nested[i] {
                        Directive::Meta(inner) => Directive::Meta(inner.copy()),
                        Directive::Lit(lit) => Directive::Lit(lit.copy()),
                    };
                    items.push(item);
                    i += 1;
                }
                let copy_name = name.copy();
                proof {
                    lemma_list_model(*name, *nested);
                    lemma_list_model(copy_name, items);
                    assert(directives_model(items@) =~= directives_model(nested@));
                }
                Meta::List(copy_name, items)
            },
            Meta::NameValue(name, lit) => Meta::NameValue(name.copy(), lit.copy()),
        }
    }
}

impl Directive {
    /// The bare identifier `ident` as a directive.
    pub fn flag(ident: &str) -> (directive: Directive)
        ensures
            directive@ == flag_model(ident@),
    {
        Directive::Meta(Meta::Path(Name::from_ident(ident)))
    }

    /// The directive `name = "value"`.
    pub fn pair(name: &str, value: &str) -> (directive: Directive)
        ensures
            directive@ == pair_model(name@, value@),
    {
        Directive::Meta(Meta::NameValue(Name::from_ident(name), Literal::Str(owned(value))))
    }

    /// The directive `name(nested..)`.
    pub fn list(name: &str, nested: Vec<Directive>) -> (directive: Directive)
        ensures
            directive@ == list_model(name@, directives_model(nested@)),
    {
        let path = Name::from_ident(name);
        proof {
            lemma_list_model(path, nested);
        }
        Directive::Meta(Meta::List(path, nested))
    }

    /// The string literal `"value"` as a directive.
    pub fn text(value: &str) -> (directive: Directive)
        ensures
            directive@ == text_model(value@),
    {
        Directive::Lit(Literal::Str(owned(value)))
    }

    /// A copy of this directive, nested lists included.
    pub fn copy(&self) -> (copy: Directive)
        ensures
            copy@ == self@,
    {
        match self {
            Directive::Meta(meta) => Directive::Meta(meta.copy()),
            Directive::Lit(lit) => Directive::Lit(lit.copy()),
        }
    }
}

/// A copy of a directive list.
pub fn copy_directives(list: &Vec<Directive>) -> (copy: Vec<Directive>)
    ensures
        directives_model(copy@) == directives_model(list@),
{
    let mut copy: Vec<Directive> = Vec::new();
    let mut i: usize = 0;
    while i < list.len()
        invariant
            i <= list.len(),
            copy@.len() == i,
            forall|j: int| 0 <= j < i ==> copy@[j]@ == list@[j]@,
        decreases list.len() - i,
    {
        copy.push(list[i].copy());
        i += 1;
    }
    assert(directives_model(copy@) =~= directives_model(list@));
    copy
}

/// Appends copies of the elements of `more` to `list`.
pub fn append_directives(list: &mut Vec<Directive>, more: &Vec<Directive>)
    ensures
        directives_model(final(list)@) == directives_model(old(list)@) + directives_model(more@),
{
    let mut i: usize = 0;
    while i < more.len()
        invariant
            i <= more.len(),
            list@.len() == old(list)@.len() + i,
            forall|j: int| 0 <= j < old(list)@.len() ==> list@[j] == old(list)@[j],
            forall|j: int| 0 <= j < i ==> list@[old(list)@.len() + j]@ == more@[j]@,
        decreases more.len() - i,
    {
        list.push(more[i].copy());
        i += 1;
    }
    assert(directives_model(list@) =~= directives_model(old(list)@) + directives_model(more@));
}

/// Appends one directive to `list`.
pub fn push_directive(list: &mut Vec<Directive>, directive: Directive)
    ensures
        directives_model(final(list)@) == directives_model(old(list)@) + seq![directive@],
{
    list.push(directive);
    assert(directives_model(list@) =~= directives_model(old(list)@) + seq![directive@]);
}

/// Appends nothing to `list`: its value with an empty list behind it.
pub proof fn lemma_push_nothing(list: Seq<Directive>)
    ensures
        directives_model(list) == directives_model(list) + Seq::<DirectiveModel>::empty(),
{
    assert(directives_model(list) =~= directives_model(list) + Seq::<DirectiveModel>::empty());
}

/// One optional flag as a directive list.
pub open spec fn flag_if(set: bool, keyword: Seq<char>) -> Seq<DirectiveModel> {
    if set {
        seq![flag_model(keyword)]
    } else {
        seq![]
    }
}

/// Appends the flag `keyword` to `list` where `set` holds.
pub fn push_flag_if(list: &mut Vec<Directive>, set: bool, keyword: &str)
    ensures
        directives_model(final(list)@) == directives_model(old(list)@) + flag_if(set, keyword@),
{
    if set {
        push_directive(list, Directive::flag(keyword));
    } else {
        proof {
            lemma_push_nothing(list@);
        }
    }
}

} // verus!
