//! A rename rule that is written as a directive and read back is the same
//! rule.
use vstd::prelude::*;
use crate::directive::{DirectiveModel, flag_if, flag_model, ident_name, name_ident, pair_model};
use crate::error::ConfigError;
use crate::ident::{
    IdentRecordModel, mode_name_directives, plain_record, record_directive, record_flags,
    record_items, record_pairs,
};
use crate::model::{ident_entry, idents_fold, rule_directives, rule_fold, rule_step};
use crate::table::{distinct, Entries, lemma_position_is, with_entry};

verus! {

/// No name of the entries is a mode keyword.
pub open spec fn plain_keys(names: Entries<Seq<char>>) -> bool {
    forall|i: int|
        0 <= i < names.len() ==> (#[trigger] names[i]).0 != "sync"@ && names[i].0 != "async"@
}

/// A rule as a directive list gives it: where it has names under variant
/// keys, there is at least one, no key occurs twice, and none is a mode
/// keyword.
pub open spec fn rule_well_formed(rule: IdentRecordModel) -> bool {
    match rule.idents {
        Some(names) => names.len() > 0 && distinct(names) && plain_keys(names),
        None => true,
    }
}

/// A rename table as a directive list gives it: no identifier occurs
/// twice, and every rule is well formed.
pub open spec fn rules_well_formed(idents: Entries<IdentRecordModel>) -> bool {
    &&& distinct(idents)
    &&& forall|i: int| 0 <= i < idents.len() ==> rule_well_formed((#[trigger] idents[i]).1)
}

/// The words of a rule differ from each other.
proof fn lemma_rule_words_differ()
    ensures
        "use"@ != "fn"@,
        "keep"@ != "fn"@,
        "keep"@ != "use"@,
        "sync"@ != "fn"@,
        "sync"@ != "use"@,
        "sync"@ != "keep"@,
        "async"@ != "fn"@,
        "async"@ != "use"@,
        "async"@ != "keep"@,
        "async"@ != "sync"@,
{
    reveal_strlit("fn");
    reveal_strlit("use");
    reveal_strlit("keep");
    reveal_strlit("sync");
    reveal_strlit("async");
    assert("fn"@.len() == 2);
    assert("use"@.len() == 3);
    assert("keep"@.len() == 4);
    assert("sync"@.len() == 4);
    assert("async"@.len() == 5);
    assert("keep"@[0] == 'k');
    assert("sync"@[0] == 's');
}

/// An entry under a name that the entries do not have is added at the
/// end.
pub proof fn lemma_with_entry_fresh<T>(entries: Entries<T>, key: Seq<char>, value: T)
    requires
        forall|i: int| 0 <= i < entries.len() ==> (#[trigger] entries[i]).0 != key,
    ensures
        with_entry(entries, key, value) == entries.push((key, value)),
{
    lemma_position_is(entries, key, entries.len() as int);
}

/// Reading a prefix of a rule's items does not depend on what follows it.
proof fn lemma_rule_fold_prefix(
    rule: IdentRecordModel,
    ident: Seq<char>,
    items: Seq<DirectiveModel>,
    more: Seq<DirectiveModel>,
    n: int,
)
    requires
        0 <= n <= items.len(),
    ensures
        rule_fold(rule, ident, items + more, n) == rule_fold(rule, ident, items, n),
    decreases n,
{
    if n > 0 {
        lemma_rule_fold_prefix(rule, ident, items, more, n - 1);
        assert((items + more)[n - 1] == items[n - 1]);
    }
}

/// Reading two lists of items one after the other is reading the second
/// from where the first has led.
proof fn lemma_rule_fold_concat(
    rule: IdentRecordModel,
    ident: Seq<char>,
    items: Seq<DirectiveModel>,
    more: Seq<DirectiveModel>,
    n: int,
)
    requires
        0 <= n <= more.len(),
        rule_fold(rule, ident, items, items.len() as int).is_ok(),
    ensures
        rule_fold(rule, ident, items + more, items.len() + n) == rule_fold(
            rule_fold(rule, ident, items, items.len() as int).unwrap(),
            ident,
            more,
            n,
        ),
    decreases n,
{
    if n == 0 {
        lemma_rule_fold_prefix(rule, ident, items, more, items.len() as int);
    } else {
        lemma_rule_fold_concat(rule, ident, items, more, n - 1);
        assert((items + more)[items.len() + n - 1] == more[n - 1]);
    }
}

/// Reading a list of items and then one more part.
proof fn lemma_rule_then(
    rule: IdentRecordModel,
    ident: Seq<char>,
    items: Seq<DirectiveModel>,
    part: Seq<DirectiveModel>,
    middle: IdentRecordModel,
)
    requires
        rule_fold(rule, ident, items, items.len() as int) == Ok::<IdentRecordModel, ConfigError>(
            middle,
        ),
    ensures
        rule_fold(rule, ident, items + part, (items + part).len() as int) == rule_fold(
            middle,
            ident,
            part,
            part.len() as int,
        ),
{
    lemma_rule_fold_concat(rule, ident, items, part, part.len() as int);
}

/// Reading no item, or one.
proof fn lemma_rule_short(rule: IdentRecordModel, ident: Seq<char>, item: DirectiveModel)
    ensures
        rule_fold(rule, ident, Seq::<DirectiveModel>::empty(), 0) == Ok::<
            IdentRecordModel,
            ConfigError,
        >(rule),
        rule_fold(rule, ident, seq![item], 1) == rule_step(rule, ident, item),
{
    assert(rule_fold(rule, ident, seq![item], 0) == Ok::<IdentRecordModel, ConfigError>(rule));
    assert(seq![item][0] == item);
}

/// One of the flags `fn`, `use` and `keep` is read back.
proof fn lemma_rule_flag_read(rule: IdentRecordModel, ident: Seq<char>, set: bool, word: Seq<char>)
    requires
        word == "fn"@ || word == "use"@ || word == "keep"@,
    ensures
        rule_fold(rule, ident, flag_if(set, word), flag_if(set, word).len() as int) == Ok::<
            IdentRecordModel,
            ConfigError,
        >(
            if !set {
                rule
            } else if word == "fn"@ {
                IdentRecordModel { fn_mode: true, ..rule }
            } else if word == "use"@ {
                IdentRecordModel { use_mode: true, ..rule }
            } else {
                IdentRecordModel { keep: true, ..rule }
            },
        ),
{
    lemma_rule_words_differ();
    assert(name_ident(ident_name(word)) == Some(word));
    lemma_rule_short(rule, ident, flag_model(word));
    if !set {
        assert(flag_if(set, word) =~= Seq::<DirectiveModel>::empty());
    }
}

/// The name for asynchronous code is read back.
proof fn lemma_rule_async_read(rule: IdentRecordModel, ident: Seq<char>, value: Option<Seq<char>>)
    ensures
        ({
            let part = mode_name_directives("async"@, value, ident);
            rule_fold(rule, ident, part, part.len() as int) == Ok::<IdentRecordModel, ConfigError>(
                match value {
                    Some(name) => IdentRecordModel { ident_async: Some(name), ..rule },
                    None => rule,
                },
            )
        }),
{
    lemma_rule_words_differ();
    let part = mode_name_directives("async"@, value, ident);
    assert(name_ident(ident_name("async"@)) == Some("async"@));
    match value {
        Some(name) => {
            if name == ident {
                lemma_rule_short(rule, ident, flag_model("async"@));
            } else {
                lemma_rule_short(rule, ident, pair_model("async"@, name));
            }
        },
        None => {
            assert(part =~= Seq::<DirectiveModel>::empty());
            lemma_rule_short(rule, ident, flag_model("async"@));
        },
    }
}

/// The name for synchronous code is read back.
proof fn lemma_rule_sync_read(rule: IdentRecordModel, ident: Seq<char>, value: Option<Seq<char>>)
    ensures
        ({
            let part = mode_name_directives("sync"@, value, ident);
            rule_fold(rule, ident, part, part.len() as int) == Ok::<IdentRecordModel, ConfigError>(
                match value {
                    Some(name) => IdentRecordModel { ident_sync: Some(name), ..rule },
                    None => rule,
                },
            )
        }),
{
    lemma_rule_words_differ();
    let part = mode_name_directives("sync"@, value, ident);
    assert(name_ident(ident_name("sync"@)) == Some("sync"@));
    match value {
        Some(name) => {
            if name == ident {
                lemma_rule_short(rule, ident, flag_model("sync"@));
            } else {
                lemma_rule_short(rule, ident, pair_model("sync"@, name));
            }
        },
        None => {
            assert(part =~= Seq::<DirectiveModel>::empty());
            lemma_rule_short(rule, ident, flag_model("sync"@));
        },
    }
}

/// The flags and mode names of a rule are read back.
proof fn lemma_rule_flags_read(rule: IdentRecordModel, ident: Seq<char>)
    ensures
        rule_fold(
            plain_record(false),
            ident,
            record_flags(rule, ident),
            record_flags(rule, ident).len() as int,
        ) == Ok::<IdentRecordModel, ConfigError>(IdentRecordModel { idents: None, ..rule }),
{
    let start = plain_record(false);
    let part0 = flag_if(rule.fn_mode, "fn"@);
    lemma_rule_flag_read(start, ident, rule.fn_mode, "fn"@);
    let b0 = rule_fold(start, ident, part0, part0.len() as int).unwrap();
    let part1 = flag_if(rule.use_mode, "use"@);
    lemma_rule_then(start, ident, part0, part1, b0);
    lemma_rule_words_differ();
    lemma_rule_flag_read(b0, ident, rule.use_mode, "use"@);
    let s1 = part0 + part1;
    let b1 = rule_fold(start, ident, s1, s1.len() as int).unwrap();
    let part2 = flag_if(rule.keep, "keep"@);
    lemma_rule_then(start, ident, s1, part2, b1);
    lemma_rule_flag_read(b1, ident, rule.keep, "keep"@);
    let s2 = s1 + part2;
    let b2 = rule_fold(start, ident, s2, s2.len() as int).unwrap();
    let part3 = mode_name_directives("async"@, rule.ident_async, ident);
    lemma_rule_then(start, ident, s2, part3, b2);
    lemma_rule_async_read(b2, ident, rule.ident_async);
    let s3 = s2 + part3;
    let b3 = rule_fold(start, ident, s3, s3.len() as int).unwrap();
    let part4 = mode_name_directives("sync"@, rule.ident_sync, ident);
    lemma_rule_then(start, ident, s3, part4, b3);
    lemma_rule_sync_read(b3, ident, rule.ident_sync);
}

/// The names under variant keys are read back, in their order.
proof fn lemma_rule_pairs_read(
    start: IdentRecordModel,
    ident: Seq<char>,
    names: Entries<Seq<char>>,
    n: int,
)
    requires
        start.idents.is_none(),
        distinct(names),
        plain_keys(names),
        0 <= n <= names.len(),
    ensures
        rule_fold(start, ident, record_pairs(names), n) == Ok::<IdentRecordModel, ConfigError>(
            if n == 0 {
                start
            } else {
                IdentRecordModel { idents: Some(names.subrange(0, n)), ..start }
            },
        ),
    decreases n,
{
    if n > 0 {
        lemma_rule_pairs_read(start, ident, names, n - 1);
        let before = rule_fold(start, ident, record_pairs(names), n - 1).unwrap();
        let key = names[n - 1].0;
        let value = names[n - 1].1;
        assert(record_pairs(names)[n - 1] == pair_model(key, value));
        assert(name_ident(ident_name(key)) == Some(key));
        let held = match before.idents {
            Some(held) => held,
            None => Seq::empty(),
        };
        assert(held =~= names.subrange(0, n - 1));
        assert forall|i: int| 0 <= i < held.len() implies (#[trigger] held[i]).0 != key by {
            assert(held[i] == names[i]);
        }
        lemma_with_entry_fresh(held, key, value);
        assert(held.push((key, value)) =~= names.subrange(0, n));
    }
}

/// A well-formed rule that is written under its identifier is read back as
/// the same rule.
pub proof fn lemma_rule_read(rule: IdentRecordModel, ident: Seq<char>)
    requires
        rule_well_formed(rule),
    ensures
        ident_entry(record_directive(rule, ident)) == Ok::<
            (Seq<char>, IdentRecordModel),
            ConfigError,
        >((ident, rule)),
{
    let flags = record_flags(rule, ident);
    let items = record_items(rule, ident);
    let start = plain_record(false);
    lemma_rule_flags_read(rule, ident);
    let middle = IdentRecordModel { idents: None, ..rule };
    assert(name_ident(ident_name(ident)) == Some(ident));
    match rule.idents {
        Some(names) => {
            lemma_rule_then(start, ident, flags, record_pairs(names), middle);
            lemma_rule_pairs_read(middle, ident, names, names.len() as int);
            assert(names.subrange(0, names.len() as int) =~= names);
            assert(items.len() > 0);
        },
        None => {
            assert(items =~= flags);
            if items.len() == 0 {
                assert(!rule.fn_mode) by {
                    if rule.fn_mode {
                        assert(flag_if(rule.fn_mode, "fn"@).len() == 1);
                    }
                }
                assert(!rule.use_mode) by {
                    if rule.use_mode {
                        assert(flag_if(rule.use_mode, "use"@).len() == 1);
                    }
                }
                assert(!rule.keep) by {
                    if rule.keep {
                        assert(flag_if(rule.keep, "keep"@).len() == 1);
                    }
                }
                assert(rule.ident_async.is_none()) by {
                    if rule.ident_async.is_some() {
                        assert(mode_name_directives("async"@, rule.ident_async, ident).len() == 1);
                    }
                }
                assert(rule.ident_sync.is_none()) by {
                    if rule.ident_sync.is_some() {
                        assert(mode_name_directives("sync"@, rule.ident_sync, ident).len() == 1);
                    }
                }
                assert(rule == plain_record(false));
            }
        },
    }
}

/// A well-formed rename table that is written is read back as the same
/// table.
pub proof fn lemma_rules_rebuilt(idents: Entries<IdentRecordModel>, n: int)
    requires
        rules_well_formed(idents),
        0 <= n <= idents.len(),
    ensures
        idents_fold(Seq::empty(), rule_directives(idents), n) == Ok::<
            Entries<IdentRecordModel>,
            ConfigError,
        >(idents.subrange(0, n)),
    decreases n,
{
    if n == 0 {
        assert(idents.subrange(0, 0) =~= Seq::<(Seq<char>, IdentRecordModel)>::empty());
    } else {
        lemma_rules_rebuilt(idents, n - 1);
        let held = idents.subrange(0, n - 1);
        let ident = idents[n - 1].0;
        let rule = idents[n - 1].1;
        assert(rule_directives(idents)[n - 1] == record_directive(rule, ident));
        lemma_rule_read(rule, ident);
        assert forall|i: int| 0 <= i < held.len() implies (#[trigger] held[i]).0 != ident by {
            assert(held[i] == idents[i]);
        }
        lemma_with_entry_fresh(held, ident, rule);
        assert(held.push((ident, rule)) =~= idents.subrange(0, n));
    }
}

} // verus!
