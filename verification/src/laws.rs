//! The library's general guarantees, proved once over the mathematical
//! model: totality of parsing, determinism, rejection of conflicting
//! tables, default completion, pass-through preservation, and idempotence
//! of re-validation.

use vstd::prelude::*;

use crate::config::{
    build_registry, check_mapping_keys, lemma_lookup_entry, lemma_none_means_no_key, lookup,
    lookup_from, reg_entries, spec_validate, CmdV, ConfigV, KwV,
};
use crate::engine::{
    spec_compose_from, spec_defaults_from, spec_first_match, spec_joined, spec_matched,
    spec_pair, spec_rewrite, spec_token_pairs,
};
use crate::rules::{table_out, table_parse, PredV, ReplV};

verus! {

/// A parse consumes its entire input: every token contributes exactly one
/// pair, at its own position, and only the appended default pairs follow.
pub proof fn lemma_rewrite_covers_input(ks: Seq<KwV>, toks: Seq<Seq<char>>)
    ensures
        spec_rewrite(ks, toks).len() == toks.len() + spec_defaults_from(ks, toks, 0).len(),
        forall|i: int|
            0 <= i < toks.len() ==> #[trigger] spec_rewrite(ks, toks)[i] == spec_pair(
                ks,
                toks[i],
            ),
{
}

/// A handler table consumes its entire input likewise: one output token per
/// input token, each at its own position.
pub proof fn lemma_table_parse_total(
    kws: Seq<(Seq<char>, ReplV)>,
    hs: Seq<(PredV, ReplV)>,
    args: Seq<Seq<char>>,
)
    ensures
        table_parse(kws, hs, args).len() == args.len(),
        forall|i: int|
            0 <= i < args.len() ==> #[trigger] table_parse(kws, hs, args)[i] == table_out(
                kws,
                hs,
                args[i],
            ),
{
}

/// Determinism: a rewrite result is a function of the table's and the
/// tokens' views alone, so two parses of the same input against the same
/// table are identical.
pub proof fn lemma_rewrite_deterministic(
    ks: Seq<KwV>,
    toks: Seq<Seq<char>>,
    r1: Seq<(Seq<char>, Seq<char>)>,
    r2: Seq<(Seq<char>, Seq<char>)>,
)
    requires
        r1 == spec_rewrite(ks, toks),
        r2 == spec_rewrite(ks, toks),
    ensures
        r1 == r2,
{
}

/// A token that no rule claims passes through verbatim, at its own
/// position, with an empty key.
pub proof fn lemma_passthrough_preserved(ks: Seq<KwV>, toks: Seq<Seq<char>>, i: int)
    requires
        0 <= i < toks.len(),
        spec_first_match(ks, toks[i]) is None,
    ensures
        spec_rewrite(ks, toks)[i] == (Seq::<char>::empty(), toks[i]),
{
}

/// Composing under a delimiter keeps one output token per pair, in order.
pub proof fn lemma_compose_delim_pointwise(prs: Seq<(Seq<char>, Seq<char>)>, d: Seq<char>, t: int)
    requires
        0 <= t <= prs.len(),
    ensures
        spec_compose_from(prs, Some(d), t).len() == prs.len() - t,
        forall|k: int|
            0 <= k < prs.len() - t ==> #[trigger] spec_compose_from(prs, Some(d), t)[k]
                == spec_joined(prs[t + k], d),
    decreases prs.len() - t,
{
    if t >= prs.len() {
    } else {
        lemma_compose_delim_pointwise(prs, d, t + 1);
    }
}

/// Under a delimiter, a pass-through pair's token appears verbatim in the
/// composed output, at its own position.
pub proof fn lemma_compose_passthrough(prs: Seq<(Seq<char>, Seq<char>)>, d: Seq<char>, i: int)
    requires
        0 <= i < prs.len(),
        prs[i].0.len() == 0,
    ensures
        crate::engine::spec_compose(prs, Some(d))[i] == prs[i].1,
{
    lemma_compose_delim_pointwise(prs, d, 0);
}

/// How often `e` occurs in the pair sequence.
pub open spec fn count_matching(s: Seq<(Seq<char>, Seq<char>)>, e: (Seq<char>, Seq<char>)) -> int
    decreases s.len(),
{
    if s.len() <= 0 {
        0
    } else {
        (if s[0] == e {
            1int
        } else {
            0int
        }) + count_matching(s.drop_first(), e)
    }
}

proof fn lemma_defaults_count(ks: Seq<KwV>, toks: Seq<Seq<char>>, t: int, j: int)
    requires
        0 <= t <= ks.len(),
        0 <= j < ks.len(),
        ks[j].default is Some,
        !spec_matched(ks, toks, j),
        forall|l: int| 0 <= l < ks.len() && l != j ==> (#[trigger] ks[l].name) != ks[j].name,
    ensures
        count_matching(spec_defaults_from(ks, toks, t), (ks[j].name, ks[j].default->0)) == (
        if t <= j {
            1int
        } else {
            0int
        }),
    decreases ks.len() - t,
{
    let entry = (ks[j].name, ks[j].default->0);
    if t >= ks.len() {
    } else {
        lemma_defaults_count(ks, toks, t + 1, j);
        let rest = spec_defaults_from(ks, toks, t + 1);
        if ks[t].default is Some && !spec_matched(ks, toks, t) {
            let d = spec_defaults_from(ks, toks, t);
            assert(d == seq![(ks[t].name, ks[t].default->0)] + rest);
            assert(d[0] == (ks[t].name, ks[t].default->0));
            assert(d.drop_first() =~= rest);
            if t != j {
                assert(ks[t].name != ks[j].name);
                assert(d[0] != entry);
            }
        } else {
            assert(t != j);
        }
    }
}

/// Default completion: a rule with a `default` that claimed no token
/// contributes its `(name, default)` pair exactly once, in the default
/// section appended after the per-token pairs. Rule names must not repeat,
/// else two like-named rules would contribute indistinguishable pairs.
pub proof fn lemma_default_completion(ks: Seq<KwV>, toks: Seq<Seq<char>>, j: int)
    requires
        0 <= j < ks.len(),
        ks[j].default is Some,
        !spec_matched(ks, toks, j),
        forall|l: int| 0 <= l < ks.len() && l != j ==> (#[trigger] ks[l].name) != ks[j].name,
    ensures
        spec_rewrite(ks, toks) == spec_token_pairs(ks, toks) + spec_defaults_from(ks, toks, 0),
        count_matching(spec_defaults_from(ks, toks, 0), (ks[j].name, ks[j].default->0)) == 1,
{
    lemma_defaults_count(ks, toks, 0, j);
}

/// Whether `key` is one of the rule's match-keys: a mapping key, or the
/// rule's own name when it has no mapping.
pub open spec fn defines_key(k: KwV, key: Seq<char>) -> bool {
    match k.mapping {
        Some(m) => exists|x: int| 0 <= x < m.len() && (#[trigger] m[x].0) == key,
        None => key == k.name,
    }
}

proof fn lemma_no_key_means_none<V>(m: Seq<(Seq<char>, V)>, key: Seq<char>, i: int)
    requires
        0 <= i,
        forall|k: int| i <= k < m.len() ==> (#[trigger] m[k].0) != key,
    ensures
        lookup_from(m, key, i) is None,
    decreases m.len() - i,
{
    if i >= m.len() {
    } else {
        lemma_no_key_means_none(m, key, i + 1);
    }
}

proof fn lemma_entry_means_some<V>(m: Seq<(Seq<char>, V)>, key: Seq<char>, x: int)
    requires
        0 <= x < m.len(),
        m[x].0 == key,
    ensures
        lookup(m, key) is Some,
{
    if lookup_from(m, key, 0) is None {
        lemma_none_means_no_key(m, key, 0);
        assert(m[x].0 != key);
    }
}

proof fn lemma_lookup_some_append<V>(m: Seq<(Seq<char>, V)>, t: Seq<(Seq<char>, V)>, key: Seq<
    char,
>)
    requires
        lookup(m, key) is Some,
    ensures
        lookup(m + t, key) is Some,
{
    lemma_lookup_entry(m, key, 0);
    let x = choose|x: int|
        #![auto]
        0 <= x < m.len() && m[x].0 == key && m[x].1 == lookup_from(m, key, 0)->0;
    assert((m + t)[x].0 == key);
    lemma_entry_means_some(m + t, key, x);
}

proof fn lemma_mapping_conflict_found(
    reg: Seq<(Seq<char>, Seq<char>)>,
    m: Seq<(Seq<char>, Seq<char>)>,
    name: Seq<char>,
    i: int,
    x: int,
)
    requires
        0 <= i <= x < m.len(),
        lookup(reg, m[x].0) is Some,
    ensures
        check_mapping_keys(reg, m, name, i) is Some,
    decreases x - i,
{
    if i == x {
    } else {
        match lookup(reg, m[i].0) {
            Some(owner) => {},
            None => {
                lemma_lookup_some_append(reg, seq![(m[i].0, name)], m[x].0);
                assert(reg.push((m[i].0, name)) =~= reg + seq![(m[i].0, name)]);
                lemma_mapping_conflict_found(reg.push((m[i].0, name)), m, name, i + 1, x);
            },
        }
    }
}

proof fn lemma_registered_key_rejected(
    ks: Seq<KwV>,
    t: int,
    reg: Seq<(Seq<char>, Seq<char>)>,
    prefs: Seq<(Seq<char>, Seq<char>)>,
    j: int,
    key: Seq<char>,
)
    requires
        0 <= t <= j < ks.len(),
        lookup(reg, key) is Some,
        defines_key(ks[j], key),
    ensures
        build_registry(ks, t, reg, prefs) is Err,
    decreases j - t,
{
    let k = ks[t];
    if k.prefix is Some && lookup(prefs, k.prefix->0) is Some {
    } else {
        let prefs2 = if k.prefix is Some {
            prefs.push((k.prefix->0, k.name))
        } else {
            prefs
        };
        if t == j {
            match k.mapping {
                Some(m) => {
                    let x = choose|x: int| 0 <= x < m.len() && (#[trigger] m[x].0) == key;
                    lemma_mapping_conflict_found(reg, m, k.name, 0, x);
                },
                None => {},
            }
        } else {
            match k.mapping {
                Some(m) => {
                    match check_mapping_keys(reg, m, k.name, 0) {
                        Some(e) => {},
                        None => {
                            lemma_lookup_some_append(reg, reg_entries(k), key);
                            lemma_registered_key_rejected(
                                ks,
                                t + 1,
                                reg + reg_entries(k),
                                prefs2,
                                j,
                                key,
                            );
                        },
                    }
                },
                None => {
                    if lookup(reg, k.name) is Some {
                    } else {
                        lemma_lookup_some_append(reg, reg_entries(k), key);
                        lemma_registered_key_rejected(
                            ks,
                            t + 1,
                            reg + reg_entries(k),
                            prefs2,
                            j,
                            key,
                        );
                    }
                },
            }
        }
    }
}

proof fn lemma_conflict_rejected_from(
    ks: Seq<KwV>,
    t: int,
    reg: Seq<(Seq<char>, Seq<char>)>,
    prefs: Seq<(Seq<char>, Seq<char>)>,
    i: int,
    j: int,
    key: Seq<char>,
)
    requires
        0 <= t <= i < j < ks.len(),
        defines_key(ks[i], key),
        defines_key(ks[j], key),
    ensures
        build_registry(ks, t, reg, prefs) is Err,
    decreases i - t,
{
    let k = ks[t];
    if k.prefix is Some && lookup(prefs, k.prefix->0) is Some {
    } else {
        let prefs2 = if k.prefix is Some {
            prefs.push((k.prefix->0, k.name))
        } else {
            prefs
        };
        if t == i {
            match k.mapping {
                Some(m) => {
                    match check_mapping_keys(reg, m, k.name, 0) {
                        Some(e) => {},
                        None => {
                            let x = choose|x: int| 0 <= x < m.len() && (#[trigger] m[x].0) == key;
                            assert(reg_entries(k)[x].0 == key);
                            assert((reg + reg_entries(k))[reg.len() + x].0 == key);
                            lemma_entry_means_some(
                                reg + reg_entries(k),
                                key,
                                reg.len() as int + x,
                            );
                            lemma_registered_key_rejected(
                                ks,
                                t + 1,
                                reg + reg_entries(k),
                                prefs2,
                                j,
                                key,
                            );
                        },
                    }
                },
                None => {
                    if lookup(reg, k.name) is Some {
                    } else {
                        assert(reg_entries(k) =~= seq![(k.name, k.name)]);
                        assert((reg + reg_entries(k))[reg.len() as int].0 == key);
                        lemma_entry_means_some(reg + reg_entries(k), key, reg.len() as int);
                        lemma_registered_key_rejected(
                            ks,
                            t + 1,
                            reg + reg_entries(k),
                            prefs2,
                            j,
                            key,
                        );
                    }
                },
            }
        } else {
            match k.mapping {
                Some(m) => {
                    match check_mapping_keys(reg, m, k.name, 0) {
                        Some(e) => {},
                        None => {
                            lemma_conflict_rejected_from(
                                ks,
                                t + 1,
                                reg + reg_entries(k),
                                prefs2,
                                i,
                                j,
                                key,
                            );
                        },
                    }
                },
                None => {
                    if lookup(reg, k.name) is Some {
                    } else {
                        lemma_conflict_rejected_from(
                            ks,
                            t + 1,
                            reg + reg_entries(k),
                            prefs2,
                            i,
                            j,
                            key,
                        );
                    }
                },
            }
        }
    }
}

/// Key uniqueness: a table in which two rules define the same match-key is
/// rejected by validation, whatever their declaration order; the error
/// reported by `validate` names both rules of the first conflict found.
pub proof fn lemma_validate_rejects_key_conflict(
    ks: Seq<KwV>,
    cs: Seq<CmdV>,
    i: int,
    j: int,
    key: Seq<char>,
)
    requires
        0 <= i < j < ks.len(),
        defines_key(ks[i], key),
        defines_key(ks[j], key),
    ensures
        spec_validate(ks, cs) is Some,
{
    lemma_conflict_rejected_from(
        ks,
        0,
        Seq::<(Seq<char>, Seq<char>)>::empty(),
        Seq::<(Seq<char>, Seq<char>)>::empty(),
        i,
        j,
        key,
    );
}

/// No two rules declare the same prefix.
pub open spec fn prefixes_distinct(ks: Seq<KwV>) -> bool {
    forall|i: int, j: int|
        #![trigger ks[i].prefix, ks[j].prefix]
        0 <= i < j < ks.len() && ks[i].prefix is Some && ks[j].prefix is Some ==> ks[i].prefix->0
            != ks[j].prefix->0
}

/// No two rules share a match-key.
pub open spec fn match_keys_disjoint(ks: Seq<KwV>) -> bool {
    forall|i: int, j: int, key: Seq<char>|
        #![trigger defines_key(ks[i], key), defines_key(ks[j], key)]
        0 <= i < j < ks.len() && defines_key(ks[i], key) ==> !defines_key(ks[j], key)
}

/// Within each rule's mapping, keys are distinct.
pub open spec fn mapping_keys_distinct(ks: Seq<KwV>) -> bool {
    forall|i: int, a: int, b: int|
        #![trigger (ks[i].mapping->0)[a], (ks[i].mapping->0)[b]]
        0 <= i < ks.len() && ks[i].mapping is Some && 0 <= a < b < (ks[i].mapping->0).len()
            ==> (ks[i].mapping->0)[a].0 != (ks[i].mapping->0)[b].0
}

/// No two command records share a name.
pub open spec fn command_names_distinct(cs: Seq<CmdV>) -> bool {
    forall|i: int, j: int|
        0 <= i < j < cs.len() ==> (#[trigger] cs[i].name) != (#[trigger] cs[j].name)
}

/// No command name is a match-key of any rule.
pub open spec fn commands_fresh(ks: Seq<KwV>, cs: Seq<CmdV>) -> bool {
    forall|i: int, j: int|
        0 <= i < cs.len() && 0 <= j < ks.len() ==> !#[trigger] defines_key(ks[j], cs[i].name)
}

/// Every registry entry's key is a match-key of some rule before `t`.
pub open spec fn reg_from_rules(ks: Seq<KwV>, t: int, reg: Seq<(Seq<char>, Seq<char>)>) -> bool {
    forall|e: int|
        #![trigger reg[e]]
        0 <= e < reg.len() ==> exists|l: int|
            #![auto]
            0 <= l < t && defines_key(ks[l], reg[e].0)
}

/// Every prefix-registry entry comes from some rule before `t`.
pub open spec fn prefs_from_rules(
    ks: Seq<KwV>,
    t: int,
    prefs: Seq<(Seq<char>, Seq<char>)>,
) -> bool {
    forall|e: int|
        #![trigger prefs[e]]
        0 <= e < prefs.len() ==> exists|l: int|
            #![auto]
            0 <= l < t && ks[l].prefix == Some(prefs[e].0)
}

proof fn lemma_mapping_pass(
    ks: Seq<KwV>,
    t: int,
    m: Seq<(Seq<char>, Seq<char>)>,
    reg0: Seq<(Seq<char>, Seq<char>)>,
    i: int,
    reg: Seq<(Seq<char>, Seq<char>)>,
)
    requires
        0 <= t < ks.len(),
        ks[t].mapping == Some(m),
        match_keys_disjoint(ks),
        mapping_keys_distinct(ks),
        0 <= i <= m.len(),
        reg == reg0 + m.subrange(0, i).map_values(
            |p: (Seq<char>, Seq<char>)| (p.0, ks[t].name),
        ),
        reg_from_rules(ks, t, reg0),
    ensures
        check_mapping_keys(reg, m, ks[t].name, i) is None,
    decreases m.len() - i,
{
    if i >= m.len() {
    } else {
        let key = m[i].0;
        assert(defines_key(ks[t], key)) by {
            assert((ks[t].mapping->0)[i].0 == key);
        }
        assert forall|e: int| 0 <= e < reg.len() implies (#[trigger] reg[e].0) != key by {
            if e < reg0.len() {
                assert(reg[e] == reg0[e]);
                let l = choose|l: int| #![auto] 0 <= l < t && defines_key(ks[l], reg0[e].0);
                if reg0[e].0 == key {
                    assert(defines_key(ks[l], key));
                }
            } else {
                let a = e - reg0.len();
                assert(reg[e].0 == m[a].0);
                assert((ks[t].mapping->0)[a].0 != (ks[t].mapping->0)[i].0);
            }
        }
        lemma_no_key_means_none(reg, key, 0);
        let next = reg.push((m[i].0, ks[t].name));
        assert(next =~= reg0 + m.subrange(0, i + 1).map_values(
            |p: (Seq<char>, Seq<char>)| (p.0, ks[t].name),
        ));
        lemma_mapping_pass(ks, t, m, reg0, i + 1, next);
    }
}

proof fn lemma_accepts_from(
    ks: Seq<KwV>,
    t: int,
    reg: Seq<(Seq<char>, Seq<char>)>,
    prefs: Seq<(Seq<char>, Seq<char>)>,
)
    requires
        0 <= t <= ks.len(),
        prefixes_distinct(ks),
        match_keys_disjoint(ks),
        mapping_keys_distinct(ks),
        reg_from_rules(ks, t, reg),
        prefs_from_rules(ks, t, prefs),
    ensures
        build_registry(ks, t, reg, prefs) is Ok,
        reg_from_rules(ks, ks.len() as int, build_registry(ks, t, reg, prefs)->Ok_0),
    decreases ks.len() - t,
{
    if t >= ks.len() {
        assert(reg_from_rules(ks, ks.len() as int, reg)) by {
            assert forall|e: int| #![trigger reg[e]] 0 <= e < reg.len() implies exists|l: int|
                #![auto]
                0 <= l < ks.len() && defines_key(ks[l], reg[e].0) by {
                let l = choose|l: int| #![auto] 0 <= l < t && defines_key(ks[l], reg[e].0);
                assert(0 <= l < ks.len() && defines_key(ks[l], reg[e].0));
            }
        }
    } else {
        let k = ks[t];
        if k.prefix is Some && lookup(prefs, k.prefix->0) is Some {
            lemma_lookup_entry(prefs, k.prefix->0, 0);
            let e = choose|e: int|
                #![auto]
                0 <= e < prefs.len() && prefs[e].0 == k.prefix->0 && prefs[e].1 == lookup_from(
                    prefs,
                    k.prefix->0,
                    0,
                )->0;
            let l = choose|l: int| #![auto] 0 <= l < t && ks[l].prefix == Some(prefs[e].0);
            assert(ks[l].prefix is Some && ks[t].prefix is Some && ks[l].prefix->0
                == ks[t].prefix->0);
            assert(false);
        }
        let prefs2 = if k.prefix is Some {
            prefs.push((k.prefix->0, k.name))
        } else {
            prefs
        };
        assert(prefs_from_rules(ks, t + 1, prefs2)) by {
            assert forall|e: int| #![trigger prefs2[e]] 0 <= e < prefs2.len() implies exists|l: int|
                #![auto]
                0 <= l < t + 1 && ks[l].prefix == Some(prefs2[e].0) by {
                if e < prefs.len() {
                    let l = choose|l: int|
                        #![auto]
                        0 <= l < t && ks[l].prefix == Some(prefs[e].0);
                    assert(0 <= l < t + 1 && ks[l].prefix == Some(prefs2[e].0));
                } else {
                    assert(ks[t].prefix == Some(prefs2[e].0));
                    assert(0 <= t < t + 1 && ks[t].prefix == Some(prefs2[e].0));
                }
            }
        }
        let reg2 = reg + reg_entries(k);
        assert(reg_from_rules(ks, t + 1, reg2)) by {
            assert forall|e: int| #![trigger reg2[e]] 0 <= e < reg2.len() implies exists|l: int|
                #![auto]
                0 <= l < t + 1 && defines_key(ks[l], reg2[e].0) by {
                if e < reg.len() {
                    let l = choose|l: int| #![auto] 0 <= l < t && defines_key(ks[l], reg[e].0);
                    assert(0 <= l < t + 1 && defines_key(ks[l], reg2[e].0));
                } else {
                    let a = e - reg.len();
                    match k.mapping {
                        Some(m) => {
                            assert(reg2[e].0 == m[a].0);
                            assert((ks[t].mapping->0)[a].0 == reg2[e].0);
                            assert(defines_key(ks[t], reg2[e].0));
                        },
                        None => {
                            assert(reg2[e].0 == k.name);
                            assert(defines_key(ks[t], reg2[e].0));
                        },
                    }
                    assert(0 <= t < t + 1 && defines_key(ks[t], reg2[e].0));
                }
            }
        }
        match k.mapping {
            Some(m) => {
                assert(reg =~= reg + m.subrange(0, 0).map_values(
                    |p: (Seq<char>, Seq<char>)| (p.0, ks[t].name),
                ));
                lemma_mapping_pass(ks, t, m, reg, 0, reg);
                lemma_accepts_from(ks, t + 1, reg2, prefs2);
            },
            None => {
                if lookup(reg, k.name) is Some {
                    lemma_lookup_entry(reg, k.name, 0);
                    let e = choose|e: int|
                        #![auto]
                        0 <= e < reg.len() && reg[e].0 == k.name && reg[e].1 == lookup_from(
                            reg,
                            k.name,
                            0,
                        )->0;
                    let l = choose|l: int| #![auto] 0 <= l < t && defines_key(ks[l], reg[e].0);
                    assert(defines_key(ks[t], k.name));
                    assert(false);
                }
                assert(reg2 =~= reg.push((k.name, k.name)));
                lemma_accepts_from(ks, t + 1, reg2, prefs2);
            },
        }
    }
}

proof fn lemma_commands_pass(
    ks: Seq<KwV>,
    cs: Seq<CmdV>,
    i: int,
    reg: Seq<(Seq<char>, Seq<char>)>,
    seen: Seq<Seq<char>>,
)
    requires
        command_names_distinct(cs),
        commands_fresh(ks, cs),
        reg_from_rules(ks, ks.len() as int, reg),
        0 <= i <= cs.len(),
        forall|e: int|
            #![trigger seen[e]]
            0 <= e < seen.len() ==> exists|l: int| #![auto] 0 <= l < i && cs[l].name == seen[e],
    ensures
        crate::config::check_commands(cs, i, reg, seen) is None,
    decreases cs.len() - i,
{
    if i >= cs.len() {
    } else {
        if seen.contains(cs[i].name) {
            let e = choose|e: int| 0 <= e < seen.len() && seen[e] == cs[i].name;
            let l = choose|l: int| #![auto] 0 <= l < i && cs[l].name == seen[e];
            assert(cs[l].name == cs[i].name);
            assert(false);
        }
        if lookup(reg, cs[i].name) is Some {
            lemma_lookup_entry(reg, cs[i].name, 0);
            let e = choose|e: int|
                #![auto]
                0 <= e < reg.len() && reg[e].0 == cs[i].name && reg[e].1 == lookup_from(
                    reg,
                    cs[i].name,
                    0,
                )->0;
            let l = choose|l: int|
                #![auto]
                0 <= l < ks.len() && defines_key(ks[l], reg[e].0);
            assert(defines_key(ks[l], cs[i].name));
            assert(false);
        }
        let seen2 = seen.push(cs[i].name);
        assert forall|e: int| #![trigger seen2[e]] 0 <= e < seen2.len() implies exists|l: int|
            #![auto]
            0 <= l < i + 1 && cs[l].name == seen2[e] by {
            if e < seen.len() {
                let l = choose|l: int| #![auto] 0 <= l < i && cs[l].name == seen[e];
                assert(0 <= l < i + 1 && cs[l].name == seen2[e]);
            } else {
                assert(0 <= i < i + 1 && cs[i].name == seen2[e]);
            }
        }
        lemma_commands_pass(ks, cs, i + 1, reg, seen2);
    }
}

/// The converse of conflict rejection: a table with distinct prefixes,
/// disjoint match-keys across rules, distinct keys within each mapping,
/// and fresh, distinct command names is accepted whole.
pub proof fn lemma_validate_accepts_conflict_free(ks: Seq<KwV>, cs: Seq<CmdV>)
    requires
        prefixes_distinct(ks),
        match_keys_disjoint(ks),
        mapping_keys_distinct(ks),
        command_names_distinct(cs),
        commands_fresh(ks, cs),
    ensures
        spec_validate(ks, cs) is None,
{
    let empty = Seq::<(Seq<char>, Seq<char>)>::empty();
    lemma_accepts_from(ks, 0, empty, empty);
    let reg = build_registry(ks, 0, empty, empty)->Ok_0;
    lemma_commands_pass(ks, cs, 0, reg, Seq::<Seq<char>>::empty());
}

/// Idempotence of re-validation: the outcome depends on the table's
/// mathematical view alone, so validating a second table whose records read
/// the same succeeds too; and `validate` keeps a table's records, so an
/// already-validated table re-validates into an equivalent one.
pub proof fn lemma_revalidation_succeeds(c1: ConfigV, c2: ConfigV)
    requires
        c1.keywords == c2.keywords,
        c1.commands == c2.commands,
        spec_validate(c1.keywords, c1.commands) is None,
    ensures
        spec_validate(c2.keywords, c2.commands) is None,
{
}

} // verus!
