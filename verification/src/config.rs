//! Keyword rule tables: declaration records, their mathematical views, and
//! global conflict validation.
//!
//! A table is built from unvalidated records and must pass [`ZmConfig::validate`]
//! before the rewrite engine will accept it; the `Validated` marker type makes
//! an unvalidated table unusable for parsing.

use vstd::prelude::*;

use core::marker::PhantomData;

use crate::error::{ErrV, ZmError};
use crate::strutil::{
    contains_str, is_char_prefix, map_view, str_eq, str_starts_with, strip_prefix_owned,
    strs_view,
};

verus! {

/// Marker: a table fresh from configuration, not yet conflict-checked.
pub struct NotValidated;

/// Marker: a table that passed conflict validation.
pub struct Validated;

/// Implemented exactly by the markers whose tables a rewrite engine may read.
pub trait Validation {}

impl Validation for Validated {
}

/// Mathematical view of one keyword rule.
pub ghost struct KwV {
    pub name: Seq<char>,
    pub help: Seq<char>,
    pub mapping: Option<Seq<(Seq<char>, Seq<char>)>>,
    pub default: Option<Seq<char>>,
    pub prefix: Option<Seq<char>>,
}

/// Mathematical view of one command record.
pub ghost struct CmdV {
    pub name: Seq<char>,
    pub help: Seq<char>,
    pub priority: int,
    pub requirements: Seq<Seq<char>>,
    pub pre: Seq<Seq<char>>,
    pub post: Seq<Seq<char>>,
}

/// Mathematical view of a whole table.
pub ghost struct ConfigV {
    pub keywords: Seq<KwV>,
    pub commands: Seq<CmdV>,
}

/// One keyword rule: how raw tokens map to an output value.
///
/// With a `prefix`, a candidate token must start with it and the remainder is
/// the comparison key; without one, the token itself is. With a `mapping`,
/// the comparison key is looked up there; without one, the rule matches
/// exactly when the comparison key equals `name`.
pub struct ZmKeywordConfig {
    pub name: String,
    pub help: String,
    pub mapping: Option<Vec<(String, String)>>,
    pub default: Option<String>,
    pub prefix: Option<String>,
}

impl View for ZmKeywordConfig {
    type V = KwV;

    open spec fn view(&self) -> KwV {
        KwV {
            name: self.name@,
            help: self.help@,
            mapping: match self.mapping {
                Some(m) => Some(map_view(m@)),
                None => None,
            },
            default: match self.default {
                Some(d) => Some(d@),
                None => None,
            },
            prefix: match self.prefix {
                Some(p) => Some(p@),
                None => None,
            },
        }
    }
}

/// View of a sequence of keyword records.
pub open spec fn kws_view(ks: Seq<ZmKeywordConfig>) -> Seq<KwV> {
    ks.map_values(|k: ZmKeywordConfig| k@)
}

/// One command record of the configuration (display and execution metadata).
pub struct ZmCommandConfig {
    pub name: String,
    pub help: String,
    pub priority: i32,
    pub requirements: Vec<String>,
    pub pre: Vec<String>,
    pub post: Vec<String>,
}

impl View for ZmCommandConfig {
    type V = CmdV;

    open spec fn view(&self) -> CmdV {
        CmdV {
            name: self.name@,
            help: self.help@,
            priority: self.priority as int,
            requirements: strs_view(self.requirements@),
            pre: strs_view(self.pre@),
            post: strs_view(self.post@),
        }
    }
}

/// View of a sequence of command records.
pub open spec fn cmds_view(cs: Seq<ZmCommandConfig>) -> Seq<CmdV> {
    cs.map_values(|c: ZmCommandConfig| c@)
}

/// First value bound to `key` in the association list, scanning from `i`.
pub open spec fn lookup_from<V>(m: Seq<(Seq<char>, V)>, key: Seq<char>, i: int) -> Option<V>
    decreases m.len() - i,
{
    if i < 0 || i >= m.len() {
        None
    } else if m[i].0 == key {
        Some(m[i].1)
    } else {
        lookup_from(m, key, i + 1)
    }
}

/// First value bound to `key` in the association list.
pub open spec fn lookup<V>(m: Seq<(Seq<char>, V)>, key: Seq<char>) -> Option<V> {
    lookup_from(m, key, 0)
}

/// A successful lookup names an actual entry of the list.
pub proof fn lemma_lookup_entry<V>(m: Seq<(Seq<char>, V)>, key: Seq<char>, i: int)
    requires
        lookup_from(m, key, i) is Some,
    ensures
        exists|k: int|
            #![auto]
            i <= k < m.len() && m[k].0 == key && m[k].1 == lookup_from(m, key, i)->0,
    decreases m.len() - i,
{
    if i < 0 || i >= m.len() {
    } else if m[i].0 == key {
        assert(i <= i < m.len() && m[i].0 == key && m[i].1 == lookup_from(m, key, i)->0);
    } else {
        lemma_lookup_entry(m, key, i + 1);
    }
}

/// What `replace` returns: the rule's output for `tok`, or `None` when the
/// rule does not match.
pub open spec fn spec_replace(k: KwV, tok: Seq<char>) -> Option<Seq<char>> {
    match k.prefix {
        Some(p) => if is_char_prefix(tok, p) {
            spec_replace_stripped(k, tok.skip(p.len() as int))
        } else {
            None
        },
        None => spec_replace_stripped(k, tok),
    }
}

/// Matching of the comparison key once any prefix has been stripped.
pub open spec fn spec_replace_stripped(k: KwV, key: Seq<char>) -> Option<Seq<char>> {
    match k.mapping {
        Some(m) => lookup(m, key),
        None => if key == k.name {
            Some(k.name)
        } else {
            None
        },
    }
}

/// Looks `key` up in the association list, first binding wins.
pub fn assoc_get(m: &Vec<(String, String)>, key: &str) -> (r: Option<String>)
    ensures
        match r {
            Some(v) => lookup(map_view(m@), key@) == Some(v@),
            None => lookup(map_view(m@), key@) is None,
        },
{
    let mut i: usize = 0;
    while i < m.len()
        invariant
            i <= m@.len(),
            lookup(map_view(m@), key@) == lookup_from(map_view(m@), key@, i as int),
        decreases m@.len() - i,
    {
        let pair = &m[i];
        if str_eq(pair.0.as_str(), key) {
            return Some(pair.1.clone());
        }
        i += 1;
    }
    None
}

/// A `None` from `lookup_from` means no entry at or after `i` has the key.
pub proof fn lemma_none_means_no_key<V>(m: Seq<(Seq<char>, V)>, key: Seq<char>, i: int)
    requires
        0 <= i,
        lookup_from(m, key, i) is None,
    ensures
        forall|k: int| i <= k < m.len() ==> (#[trigger] m[k].0) != key,
    decreases m.len() - i,
{
    if i >= m.len() {
    } else {
        assert(m[i].0 != key);
        lemma_none_means_no_key(m, key, i + 1);
    }
}

/// An element-wise copy of an association list; the copy's view is the
/// original's.
pub fn clone_mapping(m: &Vec<(String, String)>) -> (r: Vec<(String, String)>)
    ensures
        r@ == m@,
{
    let mut r: Vec<(String, String)> = Vec::new();
    let mut i: usize = 0;
    while i < m.len()
        invariant
            i <= m@.len(),
            r@.len() == i,
            forall|k: int| 0 <= k < i ==> r@[k] == m@[k],
        decreases m@.len() - i,
    {
        let pair = &m[i];
        r.push((pair.0.clone(), pair.1.clone()));
        i += 1;
    }
    proof {
        assert(r@ =~= m@);
    }
    r
}

impl ZmKeywordConfig {
    /// Matches one raw token against this rule: `Some` holds the rule's
    /// output text, `None` means the rule does not apply.
    pub fn replace(&self, arg: &str) -> (r: Option<String>)
        ensures
            match r {
                Some(v) => spec_replace(self@, arg@) == Some(v@),
                None => spec_replace(self@, arg@) is None,
            },
    {
        match &self.prefix {
            Some(prefix) => {
                if str_starts_with(arg, prefix.as_str()) {
                    let stripped = strip_prefix_owned(arg, prefix.as_str());
                    self.replace_stripped(stripped.as_str())
                } else {
                    None
                }
            },
            None => self.replace_stripped(arg),
        }
    }

    /// Matches an already prefix-stripped comparison key.
    fn replace_stripped(&self, key: &str) -> (r: Option<String>)
        ensures
            match r {
                Some(v) => spec_replace_stripped(self@, key@) == Some(v@),
                None => spec_replace_stripped(self@, key@) is None,
            },
    {
        match &self.mapping {
            Some(m) => assoc_get(m, key),
            None => {
                if str_eq(key, self.name.as_str()) {
                    Some(self.name.clone())
                } else {
                    None
                }
            },
        }
    }
}

/// Entries that one keyword registers in the match-key registry: each entry
/// pairs a match-key with the name of the rule that owns it. A rule with a
/// mapping registers every mapping key; a rule without one registers its own
/// name.
pub open spec fn reg_entries(k: KwV) -> Seq<(Seq<char>, Seq<char>)> {
    match k.mapping {
        Some(m) => m.map_values(|p: (Seq<char>, Seq<char>)| (p.0, k.name)),
        None => seq![(k.name, k.name)],
    }
}

/// Scans the mapping keys of rule `name` from position `i` against the
/// registry, registering each as it goes; the first key already claimed
/// yields the conflict error.
pub open spec fn check_mapping_keys(
    reg: Seq<(Seq<char>, Seq<char>)>,
    m: Seq<(Seq<char>, Seq<char>)>,
    name: Seq<char>,
    i: int,
) -> Option<ErrV>
    decreases m.len() - i,
{
    if i < 0 || i >= m.len() {
        None
    } else {
        match lookup(reg, m[i].0) {
            Some(owner) => Some(ErrV::MappingKeyConflict { key: m[i].0, name: name, other: owner }),
            None => check_mapping_keys(reg.push((m[i].0, name)), m, name, i + 1),
        }
    }
}

/// Walks the keyword records from position `i`, threading the match-key
/// registry `reg` and the prefix registry `prefs`; yields the registry of
/// all match-keys, or the first conflict found.
pub open spec fn build_registry(
    ks: Seq<KwV>,
    i: int,
    reg: Seq<(Seq<char>, Seq<char>)>,
    prefs: Seq<(Seq<char>, Seq<char>)>,
) -> Result<Seq<(Seq<char>, Seq<char>)>, ErrV>
    decreases ks.len() - i,
{
    if i < 0 || i >= ks.len() {
        Ok(reg)
    } else {
        let k = ks[i];
        if k.prefix is Some && lookup(prefs, k.prefix->0) is Some {
            Err(
                ErrV::PrefixConflict {
                    prefix: k.prefix->0,
                    name: k.name,
                    other: lookup(prefs, k.prefix->0)->0,
                },
            )
        } else {
            let prefs2 = if k.prefix is Some {
                prefs.push((k.prefix->0, k.name))
            } else {
                prefs
            };
            match k.mapping {
                Some(m) => match check_mapping_keys(reg, m, k.name, 0) {
                    Some(e) => Err(e),
                    None => build_registry(ks, i + 1, reg + reg_entries(k), prefs2),
                },
                None => {
                    if lookup(reg, k.name) is Some {
                        Err(ErrV::NameConflict { name: k.name, other: lookup(reg, k.name)->0 })
                    } else {
                        build_registry(ks, i + 1, reg + reg_entries(k), prefs2)
                    }
                },
            }
        }
    }
}

/// Checks the command records from position `i`: a name may neither repeat
/// an earlier command (`seen`) nor collide with a registered match-key.
pub open spec fn check_commands(
    cs: Seq<CmdV>,
    i: int,
    reg: Seq<(Seq<char>, Seq<char>)>,
    seen: Seq<Seq<char>>,
) -> Option<ErrV>
    decreases cs.len() - i,
{
    if i < 0 || i >= cs.len() {
        None
    } else if seen.contains(cs[i].name) {
        Some(ErrV::CommandDuplicate { name: cs[i].name })
    } else {
        match lookup(reg, cs[i].name) {
            Some(owner) => Some(ErrV::CommandConflict { name: cs[i].name, other: owner }),
            None => check_commands(cs, i + 1, reg, seen.push(cs[i].name)),
        }
    }
}

/// The first conflict in a table, if any: prefix and match-key conflicts in
/// keyword declaration order, then command-name conflicts.
pub open spec fn spec_validate(ks: Seq<KwV>, cs: Seq<CmdV>) -> Option<ErrV> {
    match build_registry(ks, 0, Seq::empty(), Seq::empty()) {
        Err(e) => Some(e),
        Ok(reg) => check_commands(cs, 0, reg, Seq::empty()),
    }
}

/// A rule table, either fresh from configuration (`S = NotValidated`) or
/// conflict-checked (`S = Validated`). Only a validated table exposes its
/// rules, so the rewrite engine can never consume an unvalidated one.
pub struct ZmConfig<S> {
    keywords: Vec<ZmKeywordConfig>,
    commands: Vec<ZmCommandConfig>,
    marker: PhantomData<S>,
}

impl<S> View for ZmConfig<S> {
    type V = ConfigV;

    closed spec fn view(&self) -> ConfigV {
        ConfigV { keywords: kws_view(self.keywords@), commands: cmds_view(self.commands@) }
    }
}

impl ZmConfig<NotValidated> {
    /// An unvalidated table holding the given records.
    pub fn new(keywords: Vec<ZmKeywordConfig>, commands: Vec<ZmCommandConfig>) -> (r: ZmConfig<
        NotValidated,
    >)
        ensures
            r@.keywords == kws_view(keywords@),
            r@.commands == cmds_view(commands@),
    {
        ZmConfig { keywords, commands, marker: PhantomData }
    }
}

impl<S> ZmConfig<S> {
    /// Conflict-checks the whole table: no two rules may share a prefix, no
    /// two match-keys may collide, and command names must be fresh. The
    /// table is accepted whole or rejected whole, with the first conflict
    /// reported against both offending rule names.
    #[verifier::loop_isolation(false)]
    pub fn validate(self) -> (r: Result<ZmConfig<Validated>, ZmError>)
        ensures
            match r {
                Ok(c) => spec_validate(self@.keywords, self@.commands) is None && c@ == self@,
                Err(e) => spec_validate(self@.keywords, self@.commands) == Some(e@),
            },
    {
        let ghost ksv = kws_view(self.keywords@);
        let ghost csv = cmds_view(self.commands@);
        let mut reg: Vec<(String, String)> = Vec::new();
        let mut prefs: Vec<(String, String)> = Vec::new();
        proof {
            assert(map_view(reg@) =~= Seq::<(Seq<char>, Seq<char>)>::empty());
            assert(map_view(prefs@) =~= Seq::<(Seq<char>, Seq<char>)>::empty());
        }
        let mut i: usize = 0;
        while i < self.keywords.len()
            invariant
                i <= self.keywords@.len(),
                ksv == kws_view(self.keywords@),
                build_registry(ksv, 0, Seq::empty(), Seq::empty()) == build_registry(
                    ksv,
                    i as int,
                    map_view(reg@),
                    map_view(prefs@),
                ),
            decreases self.keywords@.len() - i,
        {
            let ghost reg_i = map_view(reg@);
            let ghost prefs_i = map_view(prefs@);
            let k = &self.keywords[i];
            proof {
                assert(ksv[i as int] == k@);
            }
            match &k.prefix {
                Some(prefix) => {
                    match assoc_get(&prefs, prefix.as_str()) {
                        Some(owner) => {
                            return Err(
                                ZmError::PrefixConflict {
                                    prefix: prefix.clone(),
                                    name: k.name.clone(),
                                    other: owner,
                                },
                            );
                        },
                        None => {
                            prefs.push((prefix.clone(), k.name.clone()));
                            proof {
                                assert(map_view(prefs@) =~= prefs_i.push((prefix@, k.name@)));
                            }
                        },
                    }
                },
                None => {},
            }
            match &k.mapping {
                Some(m) => {
                    let ghost mv = map_view(m@);
                    let mut j: usize = 0;
                    while j < m.len()
                        invariant
                            j <= m@.len(),
                            mv == map_view(m@),
                            check_mapping_keys(reg_i, mv, k.name@, 0) == check_mapping_keys(
                                map_view(reg@),
                                mv,
                                k.name@,
                                j as int,
                            ),
                            map_view(reg@) =~= reg_i + mv.subrange(0, j as int).map_values(
                                |p: (Seq<char>, Seq<char>)| (p.0, k.name@),
                            ),
                        decreases m@.len() - j,
                    {
                        let ghost reg_j = map_view(reg@);
                        let pair = &m[j];
                        proof {
                            assert(mv[j as int] == (pair.0@, pair.1@));
                        }
                        match assoc_get(&reg, pair.0.as_str()) {
                            Some(owner) => {
                                return Err(
                                    ZmError::MappingKeyConflict {
                                        key: pair.0.clone(),
                                        name: k.name.clone(),
                                        other: owner,
                                    },
                                );
                            },
                            None => {
                                reg.push((pair.0.clone(), k.name.clone()));
                                proof {
                                    assert(map_view(reg@) =~= reg_j.push((pair.0@, k.name@)));
                                    assert(mv.subrange(0, j + 1).map_values(
                                        |p: (Seq<char>, Seq<char>)| (p.0, k.name@),
                                    ) =~= mv.subrange(0, j as int).map_values(
                                        |p: (Seq<char>, Seq<char>)| (p.0, k.name@),
                                    ).push((pair.0@, k.name@)));
                                }
                            },
                        }
                        j += 1;
                    }
                    proof {
                        assert(mv.subrange(0, m@.len() as int) =~= mv);
                        assert(reg_entries(k@) =~= mv.map_values(
                            |p: (Seq<char>, Seq<char>)| (p.0, k.name@),
                        ));
                        assert(map_view(reg@) =~= reg_i + reg_entries(k@));
                    }
                },
                None => {
                    match assoc_get(&reg, k.name.as_str()) {
                        Some(owner) => {
                            return Err(
                                ZmError::NameConflict { name: k.name.clone(), other: owner },
                            );
                        },
                        None => {
                            reg.push((k.name.clone(), k.name.clone()));
                            proof {
                                assert(map_view(reg@) =~= reg_i.push((k.name@, k.name@)));
                                assert(map_view(reg@) =~= reg_i + reg_entries(k@));
                            }
                        },
                    }
                },
            }
            i += 1;
        }
        let ghost regv = map_view(reg@);
        let mut seen: Vec<String> = Vec::new();
        proof {
            assert(seen@.map_values(|t: String| t@) =~= Seq::<Seq<char>>::empty());
        }
        let mut c_i: usize = 0;
        while c_i < self.commands.len()
            invariant
                c_i <= self.commands@.len(),
                csv == cmds_view(self.commands@),
                regv == map_view(reg@),
                check_commands(csv, 0, regv, Seq::empty()) == check_commands(
                    csv,
                    c_i as int,
                    regv,
                    seen@.map_values(|t: String| t@),
                ),
            decreases self.commands@.len() - c_i,
        {
            let ghost seenv = seen@.map_values(|t: String| t@);
            let c = &self.commands[c_i];
            proof {
                assert(csv[c_i as int] == c@);
            }
            if contains_str(&seen, c.name.as_str()) {
                return Err(ZmError::CommandDuplicate { name: c.name.clone() });
            }
            match assoc_get(&reg, c.name.as_str()) {
                Some(owner) => {
                    return Err(ZmError::CommandConflict { name: c.name.clone(), other: owner });
                },
                None => {},
            }
            seen.push(c.name.clone());
            proof {
                assert(seen@.map_values(|t: String| t@) =~= seenv.push(c.name@));
            }
            c_i += 1;
        }
        Ok(ZmConfig { keywords: self.keywords, commands: self.commands, marker: PhantomData })
    }
}

impl<S: Validation> ZmConfig<S> {
    /// Read-only access to the rules of a validated table, in declaration
    /// order.
    pub fn get_keyword(&self) -> (r: &Vec<ZmKeywordConfig>)
        ensures
            kws_view(r@) == self@.keywords,
    {
        &self.keywords
    }
}

} // verus!
