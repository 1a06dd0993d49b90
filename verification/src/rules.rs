//! Tagged predicate and replacer rules for the handler tables.
//!
//! A table pairs a predicate (does this rule claim the current token?) with
//! a replacer (what does the token become?). Every replacer emits exactly
//! one output token and advances the cursor by one.

use vstd::prelude::*;

use crate::config::{lookup, lookup_from};
use crate::strutil::{
    is_char_prefix, map_view, str_eq, str_starts_with, strip_prefix_owned, strs_view,
};

verus! {

/// Mathematical view of a predicate.
pub ghost enum PredV {
    Word { word: Seq<char> },
    PrefixedName { prefix: Seq<char>, name: Seq<char> },
    PrefixedMapping { prefix: Seq<char>, mapping: Seq<(Seq<char>, Seq<char>)> },
    Mapping { mapping: Seq<(Seq<char>, Seq<char>)> },
}

/// Mathematical view of a replacer.
pub ghost enum ReplV {
    Literal { text: Seq<char> },
    PrefixedMapping { prefix: Seq<char>, mapping: Seq<(Seq<char>, Seq<char>)> },
    Mapping { mapping: Seq<(Seq<char>, Seq<char>)> },
}

/// Decides whether a rule claims the token under the cursor.
pub enum PredicateFn {
    /// The token equals `word` exactly.
    Word { word: String },
    /// The token starts with `prefix` and the remainder equals `name`.
    PrefixedName { prefix: String, name: String },
    /// The token starts with `prefix` and the remainder is a mapping key.
    PrefixedMapping { prefix: String, mapping: Vec<(String, String)> },
    /// The token is a mapping key.
    Mapping { mapping: Vec<(String, String)> },
}

/// Produces the replacement for a claimed token.
pub enum ReplacerFn {
    /// The token becomes `text`.
    Literal { text: String },
    /// The token, prefix-stripped, is looked up in the mapping.
    PrefixedMapping { prefix: String, mapping: Vec<(String, String)> },
    /// The token is looked up in the mapping.
    Mapping { mapping: Vec<(String, String)> },
}

impl View for PredicateFn {
    type V = PredV;

    open spec fn view(&self) -> PredV {
        match self {
            PredicateFn::Word { word } => PredV::Word { word: word@ },
            PredicateFn::PrefixedName { prefix, name } => PredV::PrefixedName {
                prefix: prefix@,
                name: name@,
            },
            PredicateFn::PrefixedMapping { prefix, mapping } => PredV::PrefixedMapping {
                prefix: prefix@,
                mapping: map_view(mapping@),
            },
            PredicateFn::Mapping { mapping } => PredV::Mapping { mapping: map_view(mapping@) },
        }
    }
}

impl View for ReplacerFn {
    type V = ReplV;

    open spec fn view(&self) -> ReplV {
        match self {
            ReplacerFn::Literal { text } => ReplV::Literal { text: text@ },
            ReplacerFn::PrefixedMapping { prefix, mapping } => ReplV::PrefixedMapping {
                prefix: prefix@,
                mapping: map_view(mapping@),
            },
            ReplacerFn::Mapping { mapping } => ReplV::Mapping { mapping: map_view(mapping@) },
        }
    }
}

/// Whether the predicate claims `tok`.
pub open spec fn pred_matches(p: PredV, tok: Seq<char>) -> bool {
    match p {
        PredV::Word { word } => tok == word,
        PredV::PrefixedName { prefix, name } => is_char_prefix(tok, prefix) && tok.skip(
            prefix.len() as int,
        ) == name,
        PredV::PrefixedMapping { prefix, mapping } => is_char_prefix(tok, prefix) && lookup(
            mapping,
            tok.skip(prefix.len() as int),
        ) is Some,
        PredV::Mapping { mapping } => lookup(mapping, tok) is Some,
    }
}

/// Whether the replacer has an output for `tok`.
pub open spec fn repl_applicable(r: ReplV, tok: Seq<char>) -> bool {
    match r {
        ReplV::Literal { text } => true,
        ReplV::PrefixedMapping { prefix, mapping } => is_char_prefix(tok, prefix) && lookup(
            mapping,
            tok.skip(prefix.len() as int),
        ) is Some,
        ReplV::Mapping { mapping } => lookup(mapping, tok) is Some,
    }
}

/// The replacer's output for `tok`, where it has one.
pub open spec fn repl_output(r: ReplV, tok: Seq<char>) -> Seq<char> {
    match r {
        ReplV::Literal { text } => text,
        ReplV::PrefixedMapping { prefix, mapping } => lookup(
            mapping,
            tok.skip(prefix.len() as int),
        )->0,
        ReplV::Mapping { mapping } => lookup(mapping, tok)->0,
    }
}

/// A predicate–replacer pair is consistent when the replacer can handle
/// every token the predicate claims.
pub open spec fn consistent(p: PredV, r: ReplV) -> bool {
    forall|tok: Seq<char>| #[trigger] pred_matches(p, tok) ==> repl_applicable(r, tok)
}

impl PredicateFn {
    /// Whether this rule claims `args[i]`.
    pub fn eval(&self, args: &Vec<String>, i: usize) -> (r: bool)
        requires
            i < args@.len(),
        ensures
            r == pred_matches(self@, args@[i as int]@),
    {
        let tok = &args[i];
        match self {
            PredicateFn::Word { word } => str_eq(tok.as_str(), word.as_str()),
            PredicateFn::PrefixedName { prefix, name } => {
                if str_starts_with(tok.as_str(), prefix.as_str()) {
                    let rest = strip_prefix_owned(tok.as_str(), prefix.as_str());
                    str_eq(rest.as_str(), name.as_str())
                } else {
                    false
                }
            },
            PredicateFn::PrefixedMapping { prefix, mapping } => {
                if str_starts_with(tok.as_str(), prefix.as_str()) {
                    let rest = strip_prefix_owned(tok.as_str(), prefix.as_str());
                    crate::config::assoc_get(mapping, rest.as_str()).is_some()
                } else {
                    false
                }
            },
            PredicateFn::Mapping { mapping } => {
                crate::config::assoc_get(mapping, tok.as_str()).is_some()
            },
        }
    }
}

impl ReplacerFn {
    /// The replacement for `args[i]`: the output tokens and the new cursor,
    /// always one past `i`.
    pub fn apply(&self, args: &Vec<String>, i: usize) -> (r: (Vec<String>, usize))
        requires
            i < args@.len(),
            repl_applicable(self@, args@[i as int]@),
        ensures
            strs_view(r.0@) == seq![repl_output(self@, args@[i as int]@)],
            r.1 == i + 1,
    {
        let n = args.len();
        proof {
            assert(i < n);
        }
        let tok = &args[i];
        let out: String = match self {
            ReplacerFn::Literal { text } => text.clone(),
            ReplacerFn::PrefixedMapping { prefix, mapping } => {
                let rest = strip_prefix_owned(tok.as_str(), prefix.as_str());
                match crate::config::assoc_get(mapping, rest.as_str()) {
                    Some(v) => v,
                    None => {
                        proof {
                            assert(false);
                        }
                        String::new()
                    },
                }
            },
            ReplacerFn::Mapping { mapping } => {
                match crate::config::assoc_get(mapping, tok.as_str()) {
                    Some(v) => v,
                    None => {
                        proof {
                            assert(false);
                        }
                        String::new()
                    },
                }
            },
        };
        let mut outs: Vec<String> = Vec::new();
        outs.push(out);
        proof {
            assert(strs_view(outs@) =~= seq![repl_output(self@, args@[i as int]@)]);
        }
        (outs, i + 1)
    }
}

/// A mapping predicate is consistent with the replacer built from the same
/// prefix and mapping.
pub proof fn lemma_same_mapping_consistent(p: PredV, r: ReplV)
    requires
        match (p, r) {
            (
                PredV::PrefixedMapping { prefix: pp, mapping: pm },
                ReplV::PrefixedMapping { prefix: rp, mapping: rm },
            ) => pp == rp && pm == rm,
            (PredV::Mapping { mapping: pm }, ReplV::Mapping { mapping: rm }) => pm == rm,
            _ => false,
        },
    ensures
        consistent(p, r),
{
    assert forall|tok: Seq<char>| #[trigger]
        pred_matches(p, tok) implies repl_applicable(r, tok) by {}
}

/// A found handler index lies in range, its predicate claims the token, and
/// no earlier one does.
pub proof fn lemma_handler_first_props(hs: Seq<(PredV, ReplV)>, tok: Seq<char>, i: int)
    requires
        handler_first(hs, tok, i) is Some,
    ensures
        i <= handler_first(hs, tok, i)->0 < hs.len(),
        pred_matches(hs[handler_first(hs, tok, i)->0].0, tok),
    decreases hs.len() - i,
{
    if i < 0 || i >= hs.len() {
    } else if pred_matches(hs[i].0, tok) {
    } else {
        lemma_handler_first_props(hs, tok, i + 1);
    }
}

/// First value bound to `tok` among the exact-word rules.
pub open spec fn kw_lookup(kws: Seq<(Seq<char>, ReplV)>, tok: Seq<char>) -> Option<ReplV> {
    lookup(kws, tok)
}

/// Index of the first handler at or after `i` whose predicate claims `tok`.
pub open spec fn handler_first(hs: Seq<(PredV, ReplV)>, tok: Seq<char>, i: int) -> Option<int>
    decreases hs.len() - i,
{
    if i < 0 || i >= hs.len() {
        None
    } else if pred_matches(hs[i].0, tok) {
        Some(i)
    } else {
        handler_first(hs, tok, i + 1)
    }
}

/// Well-formedness shared by the tables: exact-word keys are unique, every
/// word-keyed replacer can handle its own key, and every handler pair is
/// consistent.
pub open spec fn table_wf(kws: Seq<(Seq<char>, ReplV)>, hs: Seq<(PredV, ReplV)>) -> bool {
    &&& forall|a: int, b: int|
        0 <= a < b < kws.len() ==> #[trigger] kws[a].0 != #[trigger] kws[b].0
    &&& forall|k: int| 0 <= k < kws.len() ==> repl_applicable(#[trigger] kws[k].1, kws[k].0)
    &&& forall|h: int| 0 <= h < hs.len() ==> consistent(#[trigger] hs[h].0, hs[h].1)
}

/// What one token becomes: the word-keyed replacer's output, else the first
/// claiming handler's output, else the token itself.
pub open spec fn table_out(
    kws: Seq<(Seq<char>, ReplV)>,
    hs: Seq<(PredV, ReplV)>,
    tok: Seq<char>,
) -> Seq<char> {
    match kw_lookup(kws, tok) {
        Some(rf) => repl_output(rf, tok),
        None => match handler_first(hs, tok, 0) {
            Some(h) => repl_output(hs[h].1, tok),
            None => tok,
        },
    }
}

/// What a whole token sequence becomes, token by token.
pub open spec fn table_parse(
    kws: Seq<(Seq<char>, ReplV)>,
    hs: Seq<(PredV, ReplV)>,
    args: Seq<Seq<char>>,
) -> Seq<Seq<char>> {
    Seq::new(args.len(), |i: int| table_out(kws, hs, args[i]))
}

/// View of a word-to-replacer list.
pub open spec fn kws_pairs_view(kws: Seq<(String, ReplacerFn)>) -> Seq<(Seq<char>, ReplV)> {
    kws.map_values(|p: (String, ReplacerFn)| (p.0@, p.1@))
}

/// View of a handler list.
pub open spec fn hs_pairs_view(hs: Seq<(PredicateFn, ReplacerFn)>) -> Seq<(PredV, ReplV)> {
    hs.map_values(|p: (PredicateFn, ReplacerFn)| (p.0@, p.1@))
}

/// The replacer registered for the exact word, if any.
pub(crate) fn word_find<'a>(kws: &'a Vec<(String, ReplacerFn)>, word: &str) -> (r: Option<
    &'a ReplacerFn,
>)
    ensures
        match r {
            Some(rf) => kw_lookup(kws_pairs_view(kws@), word@) == Some(rf@),
            None => kw_lookup(kws_pairs_view(kws@), word@) is None,
        },
{
    let ghost kv = kws_pairs_view(kws@);
    let mut i: usize = 0;
    while i < kws.len()
        invariant
            i <= kws@.len(),
            kv == kws_pairs_view(kws@),
            lookup(kv, word@) == lookup_from(kv, word@, i as int),
        decreases kws@.len() - i,
    {
        proof {
            assert(kv[i as int] == (kws@[i as int].0@, kws@[i as int].1@));
        }
        if crate::strutil::str_eq(kws[i].0.as_str(), word) {
            return Some(&kws[i].1);
        }
        i += 1;
    }
    None
}

/// Whether the exact word is registered.
pub(crate) fn word_present(kws: &Vec<(String, ReplacerFn)>, word: &str) -> (r: bool)
    ensures
        r == (kw_lookup(kws_pairs_view(kws@), word@) is Some),
{
    word_find(kws, word).is_some()
}

/// Index of the first handler claiming `args[i]`, if any.
pub(crate) fn handler_scan(hs: &Vec<(PredicateFn, ReplacerFn)>, args: &Vec<String>, i: usize) -> (
    r: Option<usize>)
    requires
        i < args@.len(),
    ensures
        match r {
            Some(h) => (h as int) < hs@.len() && handler_first(
                hs_pairs_view(hs@),
                args@[i as int]@,
                0,
            ) == Some(h as int),
            None => handler_first(hs_pairs_view(hs@), args@[i as int]@, 0) is None,
        },
{
    let ghost hv = hs_pairs_view(hs@);
    let ghost tok = args@[i as int]@;
    let mut h: usize = 0;
    while h < hs.len()
        invariant
            h <= hs@.len(),
            hv == hs_pairs_view(hs@),
            i < args@.len(),
            tok == args@[i as int]@,
            handler_first(hv, tok, 0) == handler_first(hv, tok, h as int),
        decreases hs@.len() - h,
    {
        proof {
            assert(hv[h as int] == (hs@[h as int].0@, hs@[h as int].1@));
        }
        if hs[h].0.eval(args, i) {
            return Some(h);
        }
        h += 1;
    }
    None
}

/// Moves every string of `src` onto the end of `dst`.
pub(crate) fn extend_strings(dst: &mut Vec<String>, src: Vec<String>)
    ensures
        final(dst)@ == old(dst)@ + src@,
{
    let mut j: usize = 0;
    let n = src.len();
    while j < n
        invariant
            j <= src@.len(),
            n == src@.len(),
            dst@ == old(dst)@ + src@.subrange(0, j as int),
        decreases src@.len() - j,
    {
        dst.push(src[j].clone());
        proof {
            assert(dst@ =~= old(dst)@ + src@.subrange(0, j + 1));
        }
        j += 1;
    }
    proof {
        assert(dst@ =~= old(dst)@ + src@);
    }
}

/// Rewrites `args` against a well-formed table, token by token: the
/// word-keyed replacer first, else the first claiming handler, else the
/// token itself.
#[verifier::loop_isolation(false)]
pub(crate) fn run_table(
    kws: &Vec<(String, ReplacerFn)>,
    hs: &Vec<(PredicateFn, ReplacerFn)>,
    args: &Vec<String>,
) -> (r: Vec<String>)
    requires
        table_wf(kws_pairs_view(kws@), hs_pairs_view(hs@)),
    ensures
        strs_view(r@) == table_parse(kws_pairs_view(kws@), hs_pairs_view(hs@), strs_view(args@)),
{
    let ghost kv = kws_pairs_view(kws@);
    let ghost hv = hs_pairs_view(hs@);
    let ghost argsv = strs_view(args@);
    let mut newer: Vec<String> = Vec::new();
    let mut i: usize = 0;
    while i < args.len()
        invariant
            i <= args@.len(),
            strs_view(newer@).len() == i,
            forall|k: int|
                0 <= k < i ==> #[trigger] strs_view(newer@)[k] == table_out(kv, hv, argsv[k]),
        decreases args@.len() - i,
    {
        let ghost newer_seq = newer@;
        let ghost newer_i = strs_view(newer@);
        let arg = &args[i];
        proof {
            assert(argsv[i as int] == arg@);
        }
        match word_find(kws, arg.as_str()) {
            Some(rf) => {
                proof {
                    crate::config::lemma_lookup_entry(kv, arg@, 0);
                    let k = choose|k: int|
                        #![auto]
                        0 <= k < kv.len() && kv[k].0 == arg@ && kv[k].1 == lookup_from(
                            kv,
                            arg@,
                            0,
                        )->0;
                    assert(repl_applicable(kv[k].1, kv[k].0));
                }
                let (replaced, new_i) = rf.apply(args, i);
                let ghost repl_seq = replaced@;
                extend_strings(&mut newer, replaced);
                proof {
                    assert(newer@ == newer_seq + repl_seq);
                    assert(strs_view(repl_seq)[0] == repl_output(rf@, arg@));
                    assert(strs_view(repl_seq).len() == 1);
                    assert(repl_seq.len() == 1);
                    assert(newer_seq.len() == i);
                    assert(table_out(kv, hv, arg@) == repl_output(rf@, arg@));
                    assert(strs_view(newer@) =~= newer_i.push(table_out(kv, hv, arg@)));
                }
                i = new_i;
            },
            None => {
                match handler_scan(hs, args, i) {
                    Some(h) => {
                        proof {
                            lemma_handler_first_props(hv, arg@, 0);
                            assert(consistent(hv[h as int].0, hv[h as int].1));
                            assert(hv[h as int] == (hs@[h as int].0@, hs@[h as int].1@));
                        }
                        let (replaced, new_i) = hs[h].1.apply(args, i);
                        let ghost repl_seq = replaced@;
                        extend_strings(&mut newer, replaced);
                        proof {
                            assert(newer@ == newer_seq + repl_seq);
                            assert(strs_view(repl_seq)[0] == repl_output(hv[h as int].1, arg@));
                            assert(strs_view(repl_seq).len() == 1);
                            assert(repl_seq.len() == 1);
                            assert(newer_seq.len() == i);
                            assert(table_out(kv, hv, arg@) == repl_output(hv[h as int].1, arg@));
                            assert(strs_view(newer@) =~= newer_i.push(table_out(kv, hv, arg@)));
                        }
                        i = new_i;
                    },
                    None => {
                        newer.push(arg.clone());
                        proof {
                            assert(strs_view(newer@) =~= newer_i.push(table_out(kv, hv, arg@)));
                        }
                        i += 1;
                    },
                }
            },
        }
    }
    proof {
        assert(strs_view(newer@) =~= table_parse(kv, hv, argsv));
    }
    newer
}

} // verus!
