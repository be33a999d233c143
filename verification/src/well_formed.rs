//! What holds of every configuration that is read from a directive list:
//! no identifier has two rules, no feature name is replaced twice, and
//! every rule is well formed. The same holds of its variants.
use vstd::prelude::*;
use crate::directive::{DirectiveModel, LiteralModel, MetaModel, name_ident};
use crate::ident::{IdentRecordModel, plain_record};
use crate::model::{
    absorb, empty_params, feature_pair, finalize, finished_version, fold, ident_entry,
    idents_fold, inherit, ParamsModel, parse, rule_fold, rule_step, serialized, step,
};
use crate::round_trip::lemma_round_trip_exactly;
use crate::rule_round_trip::{rule_well_formed, rules_well_formed};
use crate::table::{
    distinct, Entries, lemma_position, lemma_with_entry_distinct, lookup, with_entry,
};

verus! {

/// No identifier has two rules, every rule is well formed, and no feature
/// name is replaced twice.
pub open spec fn well_formed(params: ParamsModel) -> bool {
    &&& rules_well_formed(params.idents)
    &&& distinct(params.replace_features)
}

/// The configuration of every variant is well formed.
pub open spec fn variants_well_formed(params: ParamsModel) -> bool {
    forall|i: int|
        0 <= i < params.versions.len() ==> well_formed((#[trigger] params.versions[i]).params)
}

/// Every entry after `with_entry` is an entry from before, or the new
/// one.
proof fn lemma_with_entry_entries<T>(entries: Entries<T>, key: Seq<char>, value: T, j: int)
    requires
        0 <= j < with_entry(entries, key, value).len(),
    ensures
        with_entry(entries, key, value)[j] == (key, value) || (j < entries.len() && with_entry(
            entries,
            key,
            value,
        )[j] == entries[j]),
{
    lemma_position(entries, key);
}

/// A well-formed rule stays well formed with one more item.
proof fn lemma_rule_step_well_formed(rule: IdentRecordModel, ident: Seq<char>, item: DirectiveModel)
    requires
        rule_well_formed(rule),
        rule_step(rule, ident, item).is_ok(),
    ensures
        rule_well_formed(rule_step(rule, ident, item).unwrap()),
{
    let after = rule_step(rule, ident, item).unwrap();
    if after.idents != rule.idents {
        if let DirectiveModel::Meta(MetaModel::NameValue(path, LiteralModel::Str(value))) = item {
            let word = name_ident(path).unwrap();
            let held = match rule.idents {
                Some(names) => names,
                None => Seq::empty(),
            };
            let names = with_entry(held, word, value);
            assert(after.idents == Some(names));
            lemma_with_entry_distinct(held, word, value);
            lemma_position(held, word);
            assert forall|i: int| 0 <= i < names.len() implies (#[trigger] names[i]).0
                != "sync"@ && names[i].0 != "async"@ by {
                lemma_with_entry_entries(held, word, value, i);
            }
        }
    }
}

/// The rule that is read from items is well formed.
proof fn lemma_rule_fold_well_formed(
    rule: IdentRecordModel,
    ident: Seq<char>,
    items: Seq<DirectiveModel>,
    n: int,
)
    requires
        rule_well_formed(rule),
        0 <= n,
        rule_fold(rule, ident, items, n).is_ok(),
    ensures
        rule_well_formed(rule_fold(rule, ident, items, n).unwrap()),
    decreases n,
{
    if n > 0 {
        lemma_rule_fold_well_formed(rule, ident, items, n - 1);
        lemma_rule_step_well_formed(
            rule_fold(rule, ident, items, n - 1).unwrap(),
            ident,
            items[n - 1],
        );
    }
}

/// The rename table that is read from `idents(..)` is well formed.
proof fn lemma_idents_fold_well_formed(
    table: Entries<IdentRecordModel>,
    list: Seq<DirectiveModel>,
    n: int,
)
    requires
        rules_well_formed(table),
        0 <= n,
        idents_fold(table, list, n).is_ok(),
    ensures
        rules_well_formed(idents_fold(table, list, n).unwrap()),
    decreases n,
{
    if n > 0 {
        lemma_idents_fold_well_formed(table, list, n - 1);
        let before = idents_fold(table, list, n - 1).unwrap();
        let (ident, rule) = ident_entry(list[n - 1]).unwrap();
        if let DirectiveModel::Meta(MetaModel::List(_, items)) = list[n - 1] {
            lemma_rule_fold_well_formed(plain_record(false), ident, items, items.len() as int);
        }
        assert(rule_well_formed(rule));
        let after = with_entry(before, ident, rule);
        lemma_with_entry_distinct(before, ident, rule);
        assert forall|i: int| 0 <= i < after.len() implies rule_well_formed(
            (#[trigger] after[i]).1,
        ) by {
            lemma_with_entry_entries(before, ident, rule, i);
        }
    }
}

/// Entries that have absorbed others hold no name twice, and each of them
/// is an entry of the child or of the parent.
proof fn lemma_absorb_entries<T>(child: Entries<T>, parent: Entries<T>, n: int)
    requires
        distinct(child),
        0 <= n <= parent.len(),
    ensures
        distinct(absorb(child, parent, n)),
        forall|j: int|
            0 <= j < absorb(child, parent, n).len() ==> (j < child.len() && (#[trigger] absorb(
                child,
                parent,
                n,
            )[j]) == child[j]) || exists|k: int|
                0 <= k < n && absorb(child, parent, n)[j] == parent[k],
    decreases n,
{
    if n > 0 {
        lemma_absorb_entries(child, parent, n - 1);
        let before = absorb(child, parent, n - 1);
        let after = absorb(child, parent, n);
        let entry = parent[n - 1];
        if lookup(before, entry.0).is_none() {
            lemma_position(before, entry.0);
            assert(after == before.push(entry));
            assert forall|i: int, j: int| 0 <= i < j < after.len() implies (#[trigger] after[i]).0
                != (#[trigger] after[j]).0 by {
                if j < before.len() {
                    assert(after[i] == before[i]);
                    assert(after[j] == before[j]);
                } else {
                    assert(after[i] == before[i]);
                }
            }
            assert forall|j: int| 0 <= j < after.len() implies (j < child.len() && (
            #[trigger] after[j]) == child[j]) || exists|k: int|
                0 <= k < n && after[j] == parent[k] by {
                if j < before.len() {
                    assert(after[j] == before[j]);
                    if !(j < child.len() && before[j] == child[j]) {
                        let k = choose|k: int| 0 <= k < n - 1 && before[j] == parent[k];
                        assert(0 <= k < n && after[j] == parent[k]);
                    }
                } else {
                    assert(after[j] == parent[n - 1]);
                }
            }
        } else {
            assert forall|j: int| 0 <= j < after.len() implies (j < child.len() && (
            #[trigger] after[j]) == child[j]) || exists|k: int|
                0 <= k < n && after[j] == parent[k] by {
                if !(j < child.len() && before[j] == child[j]) {
                    let k = choose|k: int| 0 <= k < n - 1 && before[j] == parent[k];
                    assert(0 <= k < n && after[j] == parent[k]);
                }
            }
        }
    }
}

/// A well-formed variant that inherits from a well-formed configuration
/// is well formed.
pub proof fn lemma_inherit_well_formed(parent: ParamsModel, child: ParamsModel)
    requires
        well_formed(parent),
        well_formed(child),
    ensures
        well_formed(inherit(parent, child)),
{
    let idents = inherit(parent, child).idents;
    lemma_absorb_entries(child.idents, parent.idents, parent.idents.len() as int);
    lemma_absorb_entries(
        child.replace_features,
        parent.replace_features,
        parent.replace_features.len() as int,
    );
    assert forall|i: int| 0 <= i < idents.len() implies rule_well_formed(
        (#[trigger] idents[i]).1,
    ) by {
        if !(i < child.idents.len() && idents[i] == child.idents[i]) {
            let k = choose|k: int| 0 <= k < parent.idents.len() && idents[i] == parent.idents[k];
            assert(rule_well_formed(parent.idents[k].1));
        }
    }
}

/// A well-formed configuration whose variants are well formed stays so
/// with one more directive.
proof fn lemma_step_well_formed(built: ParamsModel, directive: DirectiveModel)
    requires
        well_formed(built),
        variants_well_formed(built),
        step(built, directive).is_ok(),
    ensures
        well_formed(step(built, directive).unwrap()),
        variants_well_formed(step(built, directive).unwrap()),
    decreases directive, 0int,
{
    let after = step(built, directive).unwrap();
    if after.idents != built.idents {
        if let DirectiveModel::Meta(MetaModel::List(_, nested)) = directive {
            lemma_idents_fold_well_formed(built.idents, nested, nested.len() as int);
        }
    }
    if after.replace_features != built.replace_features {
        if let DirectiveModel::Meta(MetaModel::List(_, nested)) = directive {
            let (old_name, new_name) = feature_pair(nested).unwrap();
            assert(after.replace_features == with_entry(
                built.replace_features,
                old_name,
                new_name,
            ));
            lemma_with_entry_distinct(built.replace_features, old_name, new_name);
        }
    }
    if after.versions != built.versions {
        if let DirectiveModel::Meta(MetaModel::List(_, nested)) = directive {
            lemma_parse_well_formed(nested);
            let added = after.versions[built.versions.len() as int];
            assert forall|i: int| 0 <= i < after.versions.len() implies well_formed(
                (#[trigger] after.versions[i]).params,
            ) by {
                if i < built.versions.len() {
                    assert(after.versions[i] == built.versions[i]);
                }
            }
        }
    }
}

/// The configuration that is read from the first directives of a list is
/// well formed, and so are its variants.
proof fn lemma_fold_well_formed(list: Seq<DirectiveModel>, n: int)
    requires
        0 <= n <= list.len(),
        fold(empty_params(), list, n).is_ok(),
    ensures
        well_formed(fold(empty_params(), list, n).unwrap()),
        variants_well_formed(fold(empty_params(), list, n).unwrap()),
    decreases list, n,
{
    if n > 0 {
        lemma_fold_well_formed(list, n - 1);
        lemma_step_well_formed(fold(empty_params(), list, n - 1).unwrap(), list[n - 1]);
    }
}

/// Every configuration that is read from a directive list is well formed,
/// and so is the configuration of each of its variants.
pub proof fn lemma_parse_well_formed(list: Seq<DirectiveModel>)
    requires
        parse(list).is_ok(),
    ensures
        well_formed(parse(list).unwrap()),
        variants_well_formed(parse(list).unwrap()),
    decreases list, list.len() + 1,
{
    lemma_fold_well_formed(list, list.len() as int);
    let built = fold(empty_params(), list, list.len() as int).unwrap();
    let read = finalize(built);
    assert forall|i: int| 0 <= i < read.versions.len() implies well_formed(
        (#[trigger] read.versions[i]).params,
    ) by {
        lemma_inherit_well_formed(built, built.versions[i].params);
        assert(read.versions[i] == finished_version(built, built.versions[i]));
    }
}

/// The configuration of a variant, written with the marker of the
/// variant's mode as its copy of the unit carries it, is read back as the
/// variant's configuration with that mode; only the variants of the
/// variant may differ.
pub proof fn lemma_variant_is_read_back(list: Seq<DirectiveModel>, i: int)
    requires
        parse(list).is_ok(),
        0 <= i < parse(list).unwrap().versions.len(),
    ensures
        ({
            let version = parse(list).unwrap().versions[i];
            let written = serialized(version.params, Some(version.kind));
            &&& parse(written).is_ok()
            &&& parse(written).unwrap() == (ParamsModel {
                mode: Some(version.kind),
                versions: parse(written).unwrap().versions,
                ..version.params
            })
        }),
{
    lemma_parse_well_formed(list);
    let version = parse(list).unwrap().versions[i];
    lemma_round_trip_exactly(version.params, Some(version.kind));
}

} // verus!
