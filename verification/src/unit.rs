//! The rewrite of one unit: which structural edits it receives for a mode,
//! and how its own name is registered and renamed.
use vstd::prelude::*;
use crate::error::ConvertError;
use crate::ident::{fits, NameChoice};
use crate::mode::ConvertMode;
use crate::model::{ParamsModel, registered, renamed_fits, RenamedModel, renaming};
use crate::params::{MacroParameters, Renamed};
use crate::text::{copy_names, copy_opt, names_view, opt_view, owned};

verus! {

/// The syntactic kind of a unit.
#[derive(Debug, Clone, Copy, PartialEq, Eq, Structural)]
pub enum UnitKind {
    Impl,
    Struct,
    Enum,
    Trait,
    Fn,
    Use,
    Mod,
    /// Any other item.
    Other,
}

/// One item inside an impl block or a trait.
#[derive(Debug, Clone, Copy, PartialEq, Eq, Structural)]
pub struct Member {
    /// The item is a method.
    pub is_method: bool,
    /// Its signature carries the suspension marker.
    pub is_async: bool,
}

/// What a rewrite reads and changes of a unit.
#[derive(Debug, PartialEq, Eq)]
pub struct Unit {
    pub kind: UnitKind,
    /// The unit's own name: that of the item, or of the type that an impl
    /// block is written for.
    pub name: Option<String>,
    /// The unit's own signature carries the suspension marker.
    pub is_async: bool,
    /// The items inside an impl block or a trait, in order.
    pub members: Vec<Member>,
    /// The attributes that rewrites have put on the unit, in order.
    pub attrs: Vec<String>,
}

/// Mathematical value of a `Unit`.
pub struct UnitModel {
    pub kind: UnitKind,
    pub name: Option<Seq<char>>,
    pub is_async: bool,
    pub members: Seq<Member>,
    pub attrs: Seq<Seq<char>>,
}

impl View for Unit {
    type V = UnitModel;

    open spec fn view(&self) -> UnitModel {
        UnitModel {
            kind: self.kind,
            name: opt_view(self.name),
            is_async: self.is_async,
            members: self.members@,
            attrs: names_view(self.attrs@),
        }
    }
}

/// The values of a list of units.
pub open spec fn units_model(units: Seq<Unit>) -> Seq<UnitModel> {
    Seq::new(units.len(), |i: int| units[i]@)
}

/// Whether a unit of this kind registers its own name, and if so, whether
/// the name is written like a function: functions and modules are,
/// types and traits are not, and an import has no name of its own.
pub open spec fn registers(kind: UnitKind) -> Option<bool> {
    match kind {
        UnitKind::Fn | UnitKind::Mod => Some(true),
        UnitKind::Impl | UnitKind::Struct | UnitKind::Enum | UnitKind::Trait => Some(false),
        UnitKind::Use | UnitKind::Other => None,
    }
}

/// A member without the suspension marker, where it is a method.
pub open spec fn stripped_member(member: Member) -> Member {
    if member.is_method {
        Member { is_method: true, is_async: false }
    } else {
        member
    }
}

/// The members with the suspension marker taken from every method.
pub open spec fn stripped(members: Seq<Member>) -> Seq<Member> {
    Seq::new(members.len(), |i: int| stripped_member(members[i]))
}

/// The attribute that makes the methods of an impl block able to suspend:
/// the form for code that is shared between threads, or the other one.
pub open spec fn suspension_attr(send: bool) -> Seq<char> {
    if send {
        "async_trait::async_trait"@
    } else {
        "async_trait::async_trait(?Send)"@
    }
}

/// A unit after the structural edits of a rewrite. Into synchronous code,
/// a function loses the suspension marker and the methods of an impl block
/// or a trait lose theirs; into asynchronous code, an impl block gets the
/// suspension attribute where `send` is set. Nothing else changes.
pub open spec fn edited(unit: UnitModel, mode: ConvertMode, send: Option<bool>) -> UnitModel {
    match (unit.kind, mode) {
        (UnitKind::Impl, ConvertMode::IntoSync) => UnitModel {
            members: stripped(unit.members),
            ..unit
        },
        (UnitKind::Impl, ConvertMode::IntoAsync) => match send {
            Some(send) => UnitModel { attrs: unit.attrs.push(suspension_attr(send)), ..unit },
            None => unit,
        },
        (UnitKind::Trait, ConvertMode::IntoSync) => UnitModel {
            members: stripped(unit.members),
            ..unit
        },
        (UnitKind::Fn, ConvertMode::IntoSync) => UnitModel { is_async: false, ..unit },
        _ => unit,
    }
}

/// The configuration after the unit's own name was registered.
pub open spec fn unit_params(params: ParamsModel, unit: UnitModel) -> ParamsModel {
    match (registers(unit.kind), unit.name) {
        (Some(fn_mode), Some(name)) => registered(params, name, fn_mode),
        _ => params,
    }
}

/// How the unit's own name is renamed, if it is.
pub open spec fn unit_renaming(
    params: ParamsModel,
    unit: UnitModel,
    mode: ConvertMode,
) -> Option<NameChoice> {
    match (registers(unit.kind), unit.name) {
        (Some(_), Some(name)) => renaming(params, name, mode),
        _ => None,
    }
}

/// Whether `after` is the name that a decision leads to from `before`,
/// whatever the parser makes of an explicit name.
pub open spec fn name_fits(
    decision: Option<NameChoice>,
    before: Option<Seq<char>>,
    after: Option<Seq<char>>,
) -> bool {
    match (decision, before) {
        (Some(choice), Some(ident)) => after.is_some() && fits(choice, ident, after),
        _ => after == before,
    }
}

/// What a rewrite of one unit for `mode` leaves behind. The configuration
/// knows the unit's name. A unit of another kind is refused. Any other
/// unit has got the structural edits of its kind, and its name is renamed
/// as the configuration says; the one rewrite that may be refused is that
/// of a unit whose rule gives its name outright, where the parser does not
/// read that name as an identifier. A refused unit stays as it was.
pub open spec fn converts(
    params: ParamsModel,
    unit: UnitModel,
    mode: ConvertMode,
    params_after: ParamsModel,
    unit_after: UnitModel,
    done: Result<(), ConvertError>,
) -> bool {
    let known = unit_params(params, unit);
    &&& params_after == known
    &&& if unit.kind == UnitKind::Other {
        done == Err::<(), ConvertError>(ConvertError::UnsupportedUnit) && unit_after == unit
    } else {
        match done {
            Ok(_) => {
                &&& unit_after == (UnitModel {
                    name: unit_after.name,
                    ..edited(unit, mode, known.send)
                })
                &&& name_fits(unit_renaming(known, unit, mode), unit.name, unit_after.name)
            },
            Err(error) => {
                &&& error == ConvertError::UnwritableName
                &&& unit_after == unit
                &&& unit_renaming(known, unit, mode) matches Some(NameChoice::Explicit(_))
            },
        }
    }
}

impl Unit {
    /// A copy of this unit.
    pub fn copy(&self) -> (copy: Unit)
        ensures
            copy@ == self@,
    {
        let mut members: Vec<Member> = Vec::new();
        let mut i: usize = 0;
        while i < self.members.len()
            invariant
                i <= self.members@.len(),
                members@ == self.members@.subrange(0, i as int),
            decreases self.members@.len() - i,
        {
            members.push(self.members[i]);
            i += 1;
            assert(members@ =~= self.members@.subrange(0, i as int));
        }
        assert(members@ =~= self.members@);
        Unit {
            kind: self.kind,
            name: copy_opt(&self.name),
            is_async: self.is_async,
            members,
            attrs: copy_names(&self.attrs),
        }
    }
}

/// A copy of a list of units.
pub fn copy_units(units: &Vec<Unit>) -> (copy: Vec<Unit>)
    ensures
        units_model(copy@) == units_model(units@),
{
    let mut copy: Vec<Unit> = Vec::new();
    let mut i: usize = 0;
    while i < units.len()
        invariant
            i <= units@.len(),
            copy@.len() == i,
            forall|j: int| 0 <= j < i ==> copy@[j]@ == units@[j]@,
        decreases units@.len() - i,
    {
        copy.push(units[i].copy());
        i += 1;
    }
    assert(units_model(copy@) =~= units_model(units@));
    copy
}

/// Takes the suspension marker from every method.
fn strip_methods(members: &mut Vec<Member>)
    ensures
        final(members)@ == stripped(old(members)@),
{
    let mut i: usize = 0;
    while i < members.len()
        invariant
            i <= members@.len(),
            members@.len() == old(members)@.len(),
            forall|j: int| 0 <= j < i ==> members@[j] == stripped_member(old(members)@[j]),
            forall|j: int| i <= j < members@.len() ==> members@[j] == old(members)@[j],
        decreases members@.len() - i,
    {
        let member = members[i];
        if member.is_method {
            if member.is_async {
                members.set(i, Member { is_method: true, is_async: false });
            }
        }
        i += 1;
    }
    assert(members@ =~= stripped(old(members)@));
}

/// Registers the name of `item` as that of a unit of its kind, and finds
/// what becomes of the name.
fn register_name(
    params: &mut MacroParameters,
    item: &Unit,
    fn_mode: bool,
    mode: ConvertMode,
) -> (renamed: Renamed)
    requires
        registers(item.kind) == Some(fn_mode),
    ensures
        final(params)@ == unit_params(old(params)@, item@),
        match item@.name {
            Some(name) => renamed_fits(
                unit_renaming(final(params)@, item@, mode),
                name,
                renamed@,
            ),
            None => renamed@ == RenamedModel::Unchanged,
        },
{
    match &item.name {
        Some(name) => {
            params.original_self_name_set(name.as_str(), fn_mode);
            params.rename_ident(name.as_str(), mode)
        },
        None => Renamed::Unchanged,
    }
}

/// Rewrites an impl block: its type's name is registered as a type's; into
/// synchronous code its methods lose the suspension marker, into
/// asynchronous code it gets the suspension attribute where `send` is set.
fn convert_impl(
    params: &mut MacroParameters,
    item: &mut Unit,
    convert_mode: ConvertMode,
) -> (done: Result<(), ConvertError>)
    requires
        old(item).kind == UnitKind::Impl,
    ensures
        converts(old(params)@, old(item)@, convert_mode, final(params)@, final(item)@, done),
{
    let renamed = register_name(params, item, false, convert_mode);
    let name = match renamed {
        Renamed::Unwritable => {
            return Err(ConvertError::UnwritableName);
        },
        Renamed::Unchanged => None,
        Renamed::To(name) => Some(name),
    };
    let send = params.send_get();
    match convert_mode {
        ConvertMode::IntoSync => {
            strip_methods(&mut item.members);
        },
        ConvertMode::IntoAsync => {
            if let Some(send) = send {
                let attr_str = if send {
                    "async_trait::async_trait"
                } else {
                    "async_trait::async_trait(?Send)"
                };
                let ghost before = item.attrs@;
                item.attrs.push(owned(attr_str));
                assert(names_view(item.attrs@) =~= names_view(before).push(suspension_attr(send)));
            }
        },
    }
    if let Some(name) = name {
        item.name = Some(name);
    }
    Ok(())
}

/// Rewrites a type or a module, which get no structural edit: the name is
/// registered and renamed.
fn convert_named(
    params: &mut MacroParameters,
    item: &mut Unit,
    fn_mode: bool,
    convert_mode: ConvertMode,
) -> (done: Result<(), ConvertError>)
    requires
        old(item).kind == UnitKind::Struct || old(item).kind == UnitKind::Enum || old(item).kind
            == UnitKind::Mod,
        registers(old(item).kind) == Some(fn_mode),
    ensures
        converts(old(params)@, old(item)@, convert_mode, final(params)@, final(item)@, done),
{
    match register_name(params, item, fn_mode, convert_mode) {
        Renamed::Unwritable => Err(ConvertError::UnwritableName),
        Renamed::Unchanged => Ok(()),
        Renamed::To(name) => {
            item.name = Some(name);
            Ok(())
        },
    }
}

/// Rewrites a struct: its name is registered as a type's.
fn convert_struct(
    params: &mut MacroParameters,
    item: &mut Unit,
    convert_mode: ConvertMode,
) -> (done: Result<(), ConvertError>)
    requires
        old(item).kind == UnitKind::Struct,
    ensures
        converts(old(params)@, old(item)@, convert_mode, final(params)@, final(item)@, done),
{
    convert_named(params, item, false, convert_mode)
}

/// Rewrites an enum: its name is registered as a type's.
fn convert_enum(
    params: &mut MacroParameters,
    item: &mut Unit,
    convert_mode: ConvertMode,
) -> (done: Result<(), ConvertError>)
    requires
        old(item).kind == UnitKind::Enum,
    ensures
        converts(old(params)@, old(item)@, convert_mode, final(params)@, final(item)@, done),
{
    convert_named(params, item, false, convert_mode)
}

/// Rewrites a trait: its name is registered as a type's; into synchronous
/// code its methods lose the suspension marker.
fn convert_trait(
    params: &mut MacroParameters,
    item: &mut Unit,
    convert_mode: ConvertMode,
) -> (done: Result<(), ConvertError>)
    requires
        old(item).kind == UnitKind::Trait,
    ensures
        converts(old(params)@, old(item)@, convert_mode, final(params)@, final(item)@, done),
{
    let renamed = register_name(params, item, false, convert_mode);
    let name = match renamed {
        Renamed::Unwritable => {
            return Err(ConvertError::UnwritableName);
        },
        Renamed::Unchanged => None,
        Renamed::To(name) => Some(name),
    };
    match convert_mode {
        ConvertMode::IntoSync => {
            strip_methods(&mut item.members);
        },
        ConvertMode::IntoAsync => {},
    }
    if let Some(name) = name {
        item.name = Some(name);
    }
    Ok(())
}

/// Rewrites a function: its name is registered as a function's; into
/// synchronous code its signature loses the suspension marker.
fn convert_fn(
    params: &mut MacroParameters,
    item: &mut Unit,
    convert_mode: ConvertMode,
) -> (done: Result<(), ConvertError>)
    requires
        old(item).kind == UnitKind::Fn,
    ensures
        converts(old(params)@, old(item)@, convert_mode, final(params)@, final(item)@, done),
{
    let renamed = register_name(params, item, true, convert_mode);
    let name = match renamed {
        Renamed::Unwritable => {
            return Err(ConvertError::UnwritableName);
        },
        Renamed::Unchanged => None,
        Renamed::To(name) => Some(name),
    };
    match convert_mode {
        ConvertMode::IntoSync => {
            if item.is_async {
                item.is_async = false;
            }
        },
        ConvertMode::IntoAsync => {},
    }
    if let Some(name) = name {
        item.name = Some(name);
    }
    Ok(())
}

/// Rewrites an import, which has no name of its own and gets no
/// structural edit.
fn convert_use(
    params: &mut MacroParameters,
    item: &mut Unit,
    convert_mode: ConvertMode,
) -> (done: Result<(), ConvertError>)
    requires
        old(item).kind == UnitKind::Use,
    ensures
        converts(old(params)@, old(item)@, convert_mode, final(params)@, final(item)@, done),
{
    Ok(())
}

/// Rewrites a module: its name is registered as a function's.
fn convert_mod(
    params: &mut MacroParameters,
    item: &mut Unit,
    convert_mode: ConvertMode,
) -> (done: Result<(), ConvertError>)
    requires
        old(item).kind == UnitKind::Mod,
    ensures
        converts(old(params)@, old(item)@, convert_mode, final(params)@, final(item)@, done),
{
    convert_named(params, item, true, convert_mode)
}

/// Rewrites one unit for `convert_mode`, by its kind. A unit that is no
/// impl, struct, enum, trait, fn, use or mod item is refused, and so is a
/// unit whose rule gives it a name that the parser does not read as an
/// identifier; the unit then stays as it was.
pub fn convert_unit(
    params: &mut MacroParameters,
    item: &mut Unit,
    convert_mode: ConvertMode,
) -> (done: Result<(), ConvertError>)
    ensures
        converts(old(params)@, old(item)@, convert_mode, final(params)@, final(item)@, done),
{
    match item.kind {
        UnitKind::Impl => convert_impl(params, item, convert_mode),
        UnitKind::Struct => convert_struct(params, item, convert_mode),
        UnitKind::Enum => convert_enum(params, item, convert_mode),
        UnitKind::Trait => convert_trait(params, item, convert_mode),
        UnitKind::Fn => convert_fn(params, item, convert_mode),
        UnitKind::Use => convert_use(params, item, convert_mode),
        UnitKind::Mod => convert_mod(params, item, convert_mode),
        UnitKind::Other => Err(ConvertError::UnsupportedUnit),
    }
}

/// The rewrite of an impl block or a trait into synchronous code, where it
/// succeeds, takes the suspension marker from every method and leaves
/// every other member, and the number and order of the members, as they
/// were.
pub proof fn lemma_sync_strips_methods(
    params: ParamsModel,
    unit: UnitModel,
    params_after: ParamsModel,
    unit_after: UnitModel,
)
    requires
        unit.kind == UnitKind::Impl || unit.kind == UnitKind::Trait,
        converts(
            params,
            unit,
            ConvertMode::IntoSync,
            params_after,
            unit_after,
            Ok::<(), ConvertError>(()),
        ),
    ensures
        unit_after.members.len() == unit.members.len(),
        unit_after.is_async == unit.is_async,
        unit_after.attrs == unit.attrs,
        forall|i: int|
            0 <= i < unit.members.len() ==> if unit.members[i].is_method {
                (#[trigger] unit_after.members[i]).is_method && !unit_after.members[i].is_async
            } else {
                unit_after.members[i] == unit.members[i]
            },
{
}

/// The rewrite into asynchronous code removes no suspension marker: the
/// members and the unit's own marker stay as they were.
pub proof fn lemma_async_keeps_markers(
    params: ParamsModel,
    unit: UnitModel,
    params_after: ParamsModel,
    unit_after: UnitModel,
)
    requires
        converts(
            params,
            unit,
            ConvertMode::IntoAsync,
            params_after,
            unit_after,
            Ok::<(), ConvertError>(()),
        ),
    ensures
        unit_after.members == unit.members,
        unit_after.is_async == unit.is_async,
{
}

/// Under a configuration without a key no variant is asked for: the
/// rewrite of a unit of a known kind succeeds, and the unit keeps its name.
pub proof fn lemma_no_key_keeps_the_name(
    params: ParamsModel,
    unit: UnitModel,
    mode: ConvertMode,
    params_after: ParamsModel,
    unit_after: UnitModel,
    done: Result<(), ConvertError>,
)
    requires
        params.key.is_none(),
        unit.kind != UnitKind::Other,
        converts(params, unit, mode, params_after, unit_after, done),
    ensures
        done.is_ok(),
        unit_after == edited(unit, mode, params.send),
        unit_after.name == unit.name,
{
}

/// A rewrite is refused only for a unit of another kind, or for a unit
/// whose rule gives its name outright.
pub proof fn lemma_refusals(
    params: ParamsModel,
    unit: UnitModel,
    mode: ConvertMode,
    params_after: ParamsModel,
    unit_after: UnitModel,
    done: Result<(), ConvertError>,
)
    requires
        converts(params, unit, mode, params_after, unit_after, done),
        unit.kind != UnitKind::Other,
        !(unit_renaming(unit_params(params, unit), unit, mode) matches Some(
            NameChoice::Explicit(_),
        )),
    ensures
        done.is_ok(),
{
}

} // verus!
