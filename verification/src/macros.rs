//! The two entry points: the expansion of a unit into its decorated
//! variants, and the rewrite of units for one mode.
use vstd::prelude::*;
use crate::attribute::{
    attr_decorations, cfg_decoration, Decoration, DecorationModel, decorations_model,
};
use crate::directive::{Directive, DirectiveModel, directives_model};
use crate::error::{ConvertError, MacroError};
use crate::mode::ConvertMode;
use crate::model::{ParamsModel, parse, self_path, serialized, VersionModel};
use crate::params::{MacroParameters, MacroParameterVersion, versions_model};
use crate::unit::{convert_unit, converts, copy_units, Unit, unit_params, UnitModel, units_model};

verus! {

/// One copy of the units that an expansion emits, with what is written in
/// front of it.
#[derive(Debug, PartialEq, Eq)]
pub struct Emitted {
    pub decorations: Vec<Decoration>,
    pub units: Vec<Unit>,
}

/// Mathematical value of an `Emitted`.
pub struct EmittedModel {
    pub decorations: Seq<DecorationModel>,
    pub units: Seq<UnitModel>,
}

impl View for Emitted {
    type V = EmittedModel;

    open spec fn view(&self) -> EmittedModel {
        EmittedModel {
            decorations: decorations_model(self.decorations@),
            units: units_model(self.units@),
        }
    }
}

/// The values of a list of emitted copies.
pub open spec fn emitted_model(list: Seq<Emitted>) -> Seq<EmittedModel> {
    Seq::new(list.len(), |i: int| list[i]@)
}

/// The configuration after the first `n` units have registered their
/// names.
pub open spec fn known_after(params: ParamsModel, units: Seq<UnitModel>, n: int) -> ParamsModel
    decreases n,
{
    if n <= 0 {
        params
    } else {
        unit_params(known_after(params, units, n - 1), units[n - 1])
    }
}

/// Whether `after` is what the rewrite for `mode` makes of `units`: each
/// unit is rewritten with the names of the units before it known.
pub open spec fn units_converted(
    params: ParamsModel,
    units: Seq<UnitModel>,
    mode: ConvertMode,
    after: Seq<UnitModel>,
) -> bool {
    &&& after.len() == units.len()
    &&& forall|i: int|
        0 <= i < units.len() ==> converts(
            known_after(params, units, i),
            #[trigger] units[i],
            mode,
            known_after(params, units, i + 1),
            after[i],
            Ok::<(), ConvertError>(()),
        )
}

/// Whether the rewrite of one of `units` may be refused with `error`.
pub open spec fn unit_refused(
    params: ParamsModel,
    units: Seq<UnitModel>,
    mode: ConvertMode,
    error: ConvertError,
) -> bool {
    exists|i: int|
        0 <= i < units.len() && converts(
            known_after(params, units, i),
            #[trigger] units[i],
            mode,
            known_after(params, units, i + 1),
            units[i],
            Err::<(), ConvertError>(error),
        )
}

/// What the rewrite of units leaves behind: the rewritten units, or the
/// refusal of one of them.
pub open spec fn conversion(
    params: ParamsModel,
    units: Seq<UnitModel>,
    mode: ConvertMode,
    output: Result<Seq<UnitModel>, ConvertError>,
) -> bool {
    match output {
        Ok(after) => units_converted(params, units, mode, after),
        Err(error) => unit_refused(params, units, mode, error),
    }
}

/// The name of the attribute that asks for a rewrite.
pub open spec fn maybe_name() -> Seq<char> {
    "maybe"@
}

/// What is written in front of the copy for one variant: its condition,
/// its outer attributes, the attribute that asks for the variant's rewrite
/// under the variant's own configuration and mode, and its inner
/// attributes.
pub open spec fn variant_decorations(
    params: ParamsModel,
    version: VersionModel,
) -> Seq<DecorationModel> {
    cfg_decoration(version.params.cfg) + attr_decorations(version.params.outer_attrs) + seq![
        DecorationModel::Reinvoke(
            self_path(params, maybe_name()),
            serialized(version.params, Some(version.kind)),
        ),
    ] + attr_decorations(version.params.inner_attrs)
}

/// The copy that stands for one variant.
pub open spec fn variant_copy(
    params: ParamsModel,
    version: VersionModel,
    units: Seq<UnitModel>,
) -> EmittedModel {
    EmittedModel { decorations: variant_decorations(params, version), units }
}

/// The units as they are, with nothing in front of them.
pub open spec fn plain_copy(units: Seq<UnitModel>) -> EmittedModel {
    EmittedModel { decorations: Seq::empty(), units }
}

/// The copies of `units` for the variants of `params`, in the order of
/// their declaration.
pub open spec fn variant_copies(params: ParamsModel, units: Seq<UnitModel>) -> Seq<EmittedModel> {
    Seq::new(params.versions.len(), |i: int| variant_copy(params, params.versions[i], units))
}

/// What a configuration makes of units. A disabled configuration gives
/// them back as they are. One that asks for a rewrite gives the rewritten
/// units in one copy with nothing in front of it, or the refusal of a
/// unit. Any other gives one decorated copy of the units as they are for
/// each variant, in the order of declaration.
pub open spec fn expands(
    params: ParamsModel,
    units: Seq<UnitModel>,
    copies: Result<Seq<EmittedModel>, ConvertError>,
) -> bool {
    if params.disable {
        copies == Ok::<Seq<EmittedModel>, ConvertError>(seq![plain_copy(units)])
    } else {
        match params.mode {
            Some(mode) => match copies {
                Ok(list) => {
                    &&& list.len() == 1
                    &&& list[0].decorations == Seq::<DecorationModel>::empty()
                    &&& units_converted(params, units, mode, list[0].units)
                },
                Err(error) => unit_refused(params, units, mode, error),
            },
            None => copies == Ok::<Seq<EmittedModel>, ConvertError>(variant_copies(params, units)),
        }
    }
}

/// What an attribute with the directive list `args` makes of units: the
/// refusal of the list, or what the configuration that is read from it
/// makes of them.
pub open spec fn expansion(
    args: Seq<DirectiveModel>,
    units: Seq<UnitModel>,
    copies: Result<Seq<EmittedModel>, MacroError>,
) -> bool {
    match parse(args) {
        Err(error) => copies == Err::<Seq<EmittedModel>, MacroError>(MacroError::Config(error)),
        Ok(params) => match copies {
            Ok(list) => expands(params, units, Ok(list)),
            Err(MacroError::Convert(error)) => expands(params, units, Err(error)),
            Err(MacroError::Config(_)) => false,
        },
    }
}

/// The values of the outcome of an expansion.
pub open spec fn outcome_model<E>(copies: Result<Vec<Emitted>, E>) -> Result<Seq<EmittedModel>, E> {
    match copies {
        Ok(list) => Ok(emitted_model(list@)),
        Err(error) => Err(error),
    }
}

/// Rewrites the units of `input` for `convert_mode`, in order. Each unit
/// registers its own name, so a later unit is rewritten with the names of
/// the earlier ones known. The first unit that is refused stops the
/// rewrite.
pub fn convert(
    params: MacroParameters,
    input: Vec<Unit>,
    convert_mode: ConvertMode,
) -> (output: Result<Vec<Unit>, ConvertError>)
    ensures
        conversion(
            params@,
            units_model(input@),
            convert_mode,
            match output {
                Ok(after) => Ok(units_model(after@)),
                Err(error) => Err(error),
            },
        ),
{
    let ghost start = params@;
    let ghost units = units_model(input@);
    let mut known = params;
    let mut output: Vec<Unit> = Vec::new();
    let mut i: usize = 0;
    while i < input.len()
        invariant
            i <= input@.len(),
            units == units_model(input@),
            start == params@,
            known@ == known_after(start, units, i as int),
            output@.len() == i,
            forall|j: int|
                0 <= j < i ==> converts(
                    known_after(start, units, j),
                    #[trigger] units[j],
                    convert_mode,
                    known_after(start, units, j + 1),
                    output@[j]@,
                    Ok::<(), ConvertError>(()),
                ),
        decreases input@.len() - i,
    {
        assert(units[i as int] == input@[i as int]@);
        let mut item = input[i].copy();
        match convert_unit(&mut known, &mut item, convert_mode) {
            Ok(()) => {
                output.push(item);
            },
            Err(error) => {
                assert(converts(
                    known_after(start, units, i as int),
                    units[i as int],
                    convert_mode,
                    known_after(start, units, i as int + 1),
                    units[i as int],
                    Err::<(), ConvertError>(error),
                ));
                return Err(error);
            },
        }
        i += 1;
    }
    assert forall|j: int| 0 <= j < units.len() implies converts(
        known_after(start, units, j),
        #[trigger] units[j],
        convert_mode,
        known_after(start, units, j + 1),
        units_model(output@)[j],
        Ok::<(), ConvertError>(()),
    ) by {
        assert(units_model(output@)[j] == output@[j]@);
    }
    Ok(output)
}

/// The decorated copy of `input` for one variant of `params`.
fn variant(
    params: &MacroParameters,
    version: &MacroParameterVersion,
    input: &Vec<Unit>,
) -> (copy: Emitted)
    ensures
        copy@ == variant_copy(params@, version@, units_model(input@)),
{
    let mut decorations: Vec<Decoration> = Vec::new();
    assert(decorations_model(decorations@) =~= Seq::<DecorationModel>::empty());
    version.params.extend_tokenstream2_with_cfg_outer_attrs(&mut decorations);
    let name = params.make_self_path(crate::macro_maybe_name());
    let args = version.params.to_nestedmeta(Some(version.kind));
    let ghost before = decorations_model(decorations@);
    decorations.push(Decoration::Reinvoke(name, args));
    assert(decorations_model(decorations@) =~= before + seq![
        DecorationModel::Reinvoke(
            self_path(params@, maybe_name()),
            serialized(version@.params, Some(version@.kind)),
        ),
    ]);
    version.params.extend_tokenstream2_with_inner_attrs(&mut decorations);
    assert(decorations_model(decorations@) =~= variant_decorations(params@, version@));
    Emitted { decorations, units: copy_units(input) }
}

/// Expands `input` as `params` says: as it is where the configuration is
/// disabled, rewritten where the configuration asks for a rewrite, and
/// else as one decorated copy for each variant.
pub fn expand(
    params: MacroParameters,
    input: &Vec<Unit>,
) -> (copies: Result<Vec<Emitted>, ConvertError>)
    ensures
        expands(params@, units_model(input@), outcome_model(copies)),
{
    let mut copies: Vec<Emitted> = Vec::new();
    if params.disable_get() {
        let plain = Emitted { decorations: Vec::new(), units: copy_units(input) };
        assert(plain@.decorations =~= Seq::<DecorationModel>::empty());
        copies.push(plain);
        assert(emitted_model(copies@) =~= seq![plain_copy(units_model(input@))]);
        return Ok(copies);
    }
    if let Some(convert_mode) = params.mode_get() {
        return match convert(params, copy_units(input), convert_mode) {
            Ok(units) => {
                let plain = Emitted { decorations: Vec::new(), units };
                assert(plain@.decorations =~= Seq::<DecorationModel>::empty());
                copies.push(plain);
                assert(emitted_model(copies@)[0] == plain@);
                Ok(copies)
            },
            Err(error) => Err(error),
        };
    }
    let versions = params.versions();
    let mut i: usize = 0;
    while i < versions.len()
        invariant
            i <= versions@.len(),
            versions_model(versions@) == params@.versions,
            copies@.len() == i,
            forall|j: int|
                0 <= j < i ==> (#[trigger] copies@[j])@ == variant_copy(
                    params@,
                    params@.versions[j],
                    units_model(input@),
                ),
        decreases versions@.len() - i,
    {
        assert(params@.versions[i as int] == versions@[i as int]@);
        copies.push(variant(&params, &versions[i], input));
        i += 1;
    }
    assert(emitted_model(copies@) =~= variant_copies(params@, units_model(input@))) by {
        assert(versions_model(versions@).len() == versions@.len());
    }
    Ok(copies)
}

/// Expands `input` under the attribute whose directive list is `args`: the
/// list is read as a configuration, which then decides as in `expand`.
pub fn maybe(
    args: &Vec<Directive>,
    input: &Vec<Unit>,
) -> (copies: Result<Vec<Emitted>, MacroError>)
    ensures
        expansion(directives_model(args@), units_model(input@), outcome_model(copies)),
{
    let params = match MacroParameters::from_args(args) {
        Ok(params) => params,
        Err(error) => {
            return Err(MacroError::Config(error));
        },
    };
    match expand(params, input) {
        Ok(copies) => Ok(copies),
        Err(error) => Err(MacroError::Convert(error)),
    }
}

/// A disabled configuration gives the units back as they are, in one copy
/// with nothing in front of it.
pub proof fn lemma_disabled_is_identity(
    params: ParamsModel,
    units: Seq<UnitModel>,
    copies: Result<Seq<EmittedModel>, ConvertError>,
)
    requires
        params.disable,
        expands(params, units, copies),
    ensures
        copies == Ok::<Seq<EmittedModel>, ConvertError>(
            seq![EmittedModel { decorations: Seq::empty(), units }],
        ),
{
}

/// A configuration that is not disabled and asks for no rewrite gives one
/// copy for each of its variants, in their order, and each copy holds the
/// units as they are.
pub proof fn lemma_one_copy_per_variant(
    params: ParamsModel,
    units: Seq<UnitModel>,
    copies: Result<Seq<EmittedModel>, ConvertError>,
)
    requires
        !params.disable,
        params.mode.is_none(),
        expands(params, units, copies),
    ensures
        copies.is_ok(),
        copies.unwrap().len() == params.versions.len(),
        forall|i: int|
            0 <= i < params.versions.len() ==> (#[trigger] copies.unwrap()[i]).units == units
                && copies.unwrap()[i].decorations == variant_decorations(
                params,
                params.versions[i],
            ),
{
}

/// A configuration that asks for a rewrite gives, where no unit is
/// refused, one copy with nothing in front of it, which holds as many
/// units as it was given.
pub proof fn lemma_rewrite_gives_one_copy(
    params: ParamsModel,
    units: Seq<UnitModel>,
    copies: Result<Seq<EmittedModel>, ConvertError>,
)
    requires
        !params.disable,
        params.mode.is_some(),
        expands(params, units, copies),
        copies.is_ok(),
    ensures
        copies.unwrap().len() == 1,
        copies.unwrap()[0].decorations.len() == 0,
        copies.unwrap()[0].units.len() == units.len(),
{
}

/// The copy of a variant asks for the rewrite under the variant's own
/// configuration and mode, between the variant's outer and inner
/// attributes.
pub proof fn lemma_variant_asks_for_its_rewrite(params: ParamsModel, version: VersionModel)
    ensures
        variant_decorations(params, version).contains(
            DecorationModel::Reinvoke(
                self_path(params, maybe_name()),
                serialized(version.params, Some(version.kind)),
            ),
        ),
{
    let list = variant_decorations(params, version);
    let at = cfg_decoration(version.params.cfg).len() + attr_decorations(
        version.params.outer_attrs,
    ).len();
    assert(list[at as int] == DecorationModel::Reinvoke(
        self_path(params, maybe_name()),
        serialized(version.params, Some(version.kind)),
    ));
}

} // verus!
