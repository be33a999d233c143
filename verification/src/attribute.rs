//! Attributes as they stand on a unit, and the decorations that an
//! expansion writes in front of a copy of it.
use vstd::prelude::*;
use crate::directive::{
    Directive, DirectiveModel, directives_model, Meta, MetaModel, Name, NameModel,
};

verus! {

/// One segment of an attribute's path.
#[derive(Debug, PartialEq, Eq)]
pub struct PathSegment {
    pub ident: String,
    /// The segment carries arguments in angle or round brackets.
    pub has_arguments: bool,
}

/// What is read of an attribute: where it stands and its path.
#[derive(Debug, PartialEq, Eq)]
pub struct Attribute {
    /// The attribute stands before its item, not inside it.
    pub outer: bool,
    pub leading_colon: bool,
    pub segments: Vec<PathSegment>,
}

/// Mathematical value of an `Attribute`.
pub struct AttributeModel {
    pub outer: bool,
    pub leading_colon: bool,
    pub segments: Seq<(Seq<char>, bool)>,
}

impl View for Attribute {
    type V = AttributeModel;

    open spec fn view(&self) -> AttributeModel {
        AttributeModel {
            outer: self.outer,
            leading_colon: self.leading_colon,
            segments: Seq::new(
                self.segments@.len(),
                |i: int| (self.segments@[i].ident@, self.segments@[i].has_arguments),
            ),
        }
    }
}

/// The name of an attribute of this crate: the last segment of an outer
/// attribute `first::last` without arguments, where `first` is the prefix
/// or no prefix is set. Any other attribute is none of this crate.
pub open spec fn our_attr_name(
    prefix: Option<Seq<char>>,
    attr: AttributeModel,
) -> Option<Seq<char>> {
    if attr.outer && !attr.leading_colon && attr.segments.len() == 2 && !attr.segments[0].1
        && !attr.segments[1].1 && (prefix.is_none() || prefix == Some(attr.segments[0].0)) {
        Some(attr.segments[1].0)
    } else {
        None
    }
}

/// The name by which an attribute is dropped: its own name, where its
/// path is a single identifier without arguments.
pub open spec fn attr_name(attr: AttributeModel) -> Option<Seq<char>> {
    if !attr.leading_colon && attr.segments.len() == 1 && !attr.segments[0].1 {
        Some(attr.segments[0].0)
    } else {
        None
    }
}

/// One thing written in front of a copy of a unit.
#[derive(Debug, PartialEq, Eq)]
pub enum Decoration {
    /// `#[cfg(condition)]`.
    Cfg(Meta),
    /// An attribute: a directive between `#[` and `]`, or the text of an
    /// attribute as a string literal.
    Attr(Directive),
    /// The attribute that asks for the rewrite: its path and its
    /// directive list.
    Reinvoke(Name, Vec<Directive>),
}

/// Mathematical value of a `Decoration`.
pub enum DecorationModel {
    Cfg(MetaModel),
    Attr(DirectiveModel),
    Reinvoke(NameModel, Seq<DirectiveModel>),
}

impl View for Decoration {
    type V = DecorationModel;

    open spec fn view(&self) -> DecorationModel {
        match *self {
            Decoration::Cfg(condition) => DecorationModel::Cfg(condition@),
            Decoration::Attr(directive) => DecorationModel::Attr(directive@),
            Decoration::Reinvoke(path, args) => DecorationModel::Reinvoke(
                path@,
                directives_model(args@),
            ),
        }
    }
}

/// The values of a list of decorations.
pub open spec fn decorations_model(list: Seq<Decoration>) -> Seq<DecorationModel> {
    Seq::new(list.len(), |i: int| list[i]@)
}

/// A condition as a decoration, or nothing where there is none.
pub open spec fn cfg_decoration(cfg: Option<MetaModel>) -> Seq<DecorationModel> {
    match cfg {
        Some(condition) => seq![DecorationModel::Cfg(condition)],
        None => seq![],
    }
}

/// Attributes as decorations, in order.
pub open spec fn attr_decorations(attrs: Seq<DirectiveModel>) -> Seq<DecorationModel> {
    Seq::new(attrs.len(), |i: int| DecorationModel::Attr(attrs[i]))
}

/// Appends each of `attrs` to `list` as a decoration.
pub fn push_attr_decorations(list: &mut Vec<Decoration>, attrs: &Vec<Directive>)
    ensures
        decorations_model(final(list)@) == decorations_model(old(list)@) + attr_decorations(
            directives_model(attrs@),
        ),
{
    let mut i: usize = 0;
    while i < attrs.len()
        invariant
            i <= attrs@.len(),
            list@.len() == old(list)@.len() + i,
            forall|j: int| 0 <= j < old(list)@.len() ==> list@[j] == old(list)@[j],
            forall|j: int|
                0 <= j < i ==> (#[trigger] list@[old(list)@.len() + j])@ == DecorationModel::Attr(
                    attrs@[j]@,
                ),
        decreases attrs@.len() - i,
    {
        list.push(Decoration::Attr(attrs[i].copy()));
        i += 1;
    }
    assert(decorations_model(list@) =~= decorations_model(old(list)@) + attr_decorations(
        directives_model(attrs@),
    )) by {
        let want = decorations_model(old(list)@) + attr_decorations(
            directives_model(attrs@),
        );
        assert forall|j: int| 0 <= j < list@.len() implies decorations_model(list@)[j]
            == want[j] by {
            if j >= old(list)@.len() {
                let k = j - old(list)@.len();
                assert(list@[old(list)@.len() + k]@ == DecorationModel::Attr(attrs@[k]@));
            }
        }
    }
}

} // verus!
