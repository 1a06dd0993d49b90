//! A handler table that tracks every registered match-key in one set.
//!
//! Unlike [`crate::cmdline::CommandLine`], which only guards its exact-word
//! entries, this table records exact words and mapping keys alike in a
//! registration set, so a keyword whose mapping reuses any earlier key is
//! rejected whole.

use vstd::prelude::*;

use crate::config::{clone_mapping, ZmKeywordConfig};
use crate::error::ZmError;
use crate::rules::{
    consistent, hs_pairs_view, kws_pairs_view, run_table, table_parse, table_wf, PredicateFn,
    PredV, ReplacerFn, ReplV,
};
use crate::strutil::{contains_str, map_view, strs_view};

verus! {

/// Mathematical view of a [`HandlerTable`].
pub ghost struct HandlerTableV {
    pub registerred: Seq<Seq<char>>,
    pub keywords: Seq<(Seq<char>, ReplV)>,
    pub handlers: Seq<(PredV, ReplV)>,
}

/// A rewriting table whose exact words and mapping keys all pass through
/// one registration set.
pub struct HandlerTable {
    registerred: Vec<String>,
    keywords: Vec<(String, ReplacerFn)>,
    handlers: Vec<(PredicateFn, ReplacerFn)>,
}

impl View for HandlerTable {
    type V = HandlerTableV;

    closed spec fn view(&self) -> HandlerTableV {
        HandlerTableV {
            registerred: strs_view(self.registerred@),
            keywords: kws_pairs_view(self.keywords@),
            handlers: hs_pairs_view(self.handlers@),
        }
    }
}

/// The keys of an association list, in order.
pub open spec fn keys_of(m: Seq<(Seq<char>, Seq<char>)>) -> Seq<Seq<char>> {
    m.map_values(|p: (Seq<char>, Seq<char>)| p.0)
}

/// Whether some key of the mapping is already in the registration set.
pub open spec fn has_registered_key(regs: Seq<Seq<char>>, m: Seq<(Seq<char>, Seq<char>)>) -> bool {
    exists|x: int| 0 <= x < m.len() && regs.contains(#[trigger] m[x].0)
}

impl HandlerTable {
    /// The table's structural invariant: the shared table shape, and every
    /// exact word recorded in the registration set.
    pub open spec fn wf(&self) -> bool {
        &&& table_wf(self@.keywords, self@.handlers)
        &&& forall|k: int|
            0 <= k < self@.keywords.len() ==> self@.registerred.contains(
                #[trigger] self@.keywords[k].0,
            )
    }

    /// An empty table.
    pub fn new() -> (r: Self)
        ensures
            r.wf(),
            r@.registerred == Seq::<Seq<char>>::empty(),
            r@.keywords == Seq::<(Seq<char>, ReplV)>::empty(),
            r@.handlers == Seq::<(PredV, ReplV)>::empty(),
    {
        let r = HandlerTable {
            registerred: Vec::new(),
            keywords: Vec::new(),
            handlers: Vec::new(),
        };
        proof {
            assert(r@.registerred =~= Seq::<Seq<char>>::empty());
            assert(r@.keywords =~= Seq::<(Seq<char>, ReplV)>::empty());
            assert(r@.handlers =~= Seq::<(PredV, ReplV)>::empty());
        }
        r
    }

    /// Registers `word` to be replaced by the literal `replaced`; refused
    /// when the word is already in the registration set.
    pub fn add_word_to_word(&mut self, word: &str, replaced: &str) -> (r: bool)
        requires
            old(self).wf(),
        ensures
            final(self).wf(),
            final(self)@.handlers == old(self)@.handlers,
            r == !old(self)@.registerred.contains(word@),
            r ==> final(self)@.registerred == old(self)@.registerred.push(word@)
                && final(self)@.keywords == old(self)@.keywords.push(
                (word@, ReplV::Literal { text: replaced@ }),
            ),
            !r ==> final(self)@.registerred == old(self)@.registerred && final(self)@.keywords
                == old(self)@.keywords,
    {
        self.add_word_to_replacer(word, ReplacerFn::Literal { text: replaced.to_owned() })
    }

    /// Registers `word` with an arbitrary replacer that can handle it;
    /// refused when the word is already in the registration set.
    pub fn add_word_to_replacer(&mut self, word: &str, replacer: ReplacerFn) -> (r: bool)
        requires
            old(self).wf(),
            crate::rules::repl_applicable(replacer@, word@),
        ensures
            final(self).wf(),
            final(self)@.handlers == old(self)@.handlers,
            r == !old(self)@.registerred.contains(word@),
            r ==> final(self)@.registerred == old(self)@.registerred.push(word@)
                && final(self)@.keywords == old(self)@.keywords.push((word@, replacer@)),
            !r ==> final(self)@.registerred == old(self)@.registerred && final(self)@.keywords
                == old(self)@.keywords,
    {
        if !contains_str(&self.registerred, word) {
            self.registerred.push(word.to_owned());
            self.keywords.push((word.to_owned(), replacer));
            proof {
                assert(self@.registerred =~= old(self)@.registerred.push(word@));
                assert(self@.keywords =~= old(self)@.keywords.push((word@, replacer@)));
                assert(self@.handlers =~= old(self)@.handlers);
                lemma_table_still_wf(*old(self), *self, word@, replacer@);
            }
            return true;
        }
        false
    }

    /// Appends a handler whose replacement is the literal `replaced`.
    pub fn add_pred_to_word(&mut self, pred: PredicateFn, replaced: &str)
        requires
            old(self).wf(),
        ensures
            final(self).wf(),
            final(self)@.registerred == old(self)@.registerred,
            final(self)@.keywords == old(self)@.keywords,
            final(self)@.handlers == old(self)@.handlers.push(
                (pred@, ReplV::Literal { text: replaced@ }),
            ),
    {
        self.add_pred_to_replacer(pred, ReplacerFn::Literal { text: replaced.to_owned() })
    }

    /// Appends a handler pair; the replacer must handle every token the
    /// predicate claims.
    pub fn add_pred_to_replacer(&mut self, pred: PredicateFn, replacer: ReplacerFn)
        requires
            old(self).wf(),
            consistent(pred@, replacer@),
        ensures
            final(self).wf(),
            final(self)@.registerred == old(self)@.registerred,
            final(self)@.keywords == old(self)@.keywords,
            final(self)@.handlers == old(self)@.handlers.push((pred@, replacer@)),
    {
        self.handlers.push((pred, replacer));
        proof {
            assert(self@.registerred =~= old(self)@.registerred);
            assert(self@.keywords =~= old(self)@.keywords);
            assert(self@.handlers =~= old(self)@.handlers.push((pred@, replacer@)));
        }
    }

    /// Installs one keyword rule: a bare name as an exact word, a prefixed
    /// name as a handler, a mapping as a handler with all of its keys
    /// registered first. A mapping any of whose keys is already registered
    /// is rejected whole, with nothing registered.
    pub fn add_keyword(&mut self, keyword: &ZmKeywordConfig) -> (r: bool)
        requires
            old(self).wf(),
        ensures
            final(self).wf(),
            spec_add_keyword_post(*old(self), *final(self), keyword@, r),
    {
        match (&keyword.prefix, &keyword.mapping) {
            (Some(prefix), None) => {
                let pred = PredicateFn::PrefixedName {
                    prefix: prefix.clone(),
                    name: keyword.name.clone(),
                };
                self.add_pred_to_word(pred, keyword.name.as_str());
                true
            },
            (Some(prefix), Some(mapping)) => {
                if self.any_key_registered(mapping) {
                    return false;
                }
                self.register_keys(mapping);
                let pred = PredicateFn::PrefixedMapping {
                    prefix: prefix.clone(),
                    mapping: clone_mapping(mapping),
                };
                let repl = ReplacerFn::PrefixedMapping {
                    prefix: prefix.clone(),
                    mapping: clone_mapping(mapping),
                };
                proof {
                    crate::rules::lemma_same_mapping_consistent(pred@, repl@);
                }
                self.add_pred_to_replacer(pred, repl);
                true
            },
            (None, Some(mapping)) => {
                if self.any_key_registered(mapping) {
                    return false;
                }
                self.register_keys(mapping);
                let pred = PredicateFn::Mapping { mapping: clone_mapping(mapping) };
                let repl = ReplacerFn::Mapping { mapping: clone_mapping(mapping) };
                proof {
                    crate::rules::lemma_same_mapping_consistent(pred@, repl@);
                }
                self.add_pred_to_replacer(pred, repl);
                true
            },
            (None, None) => self.add_word_to_word(keyword.name.as_str(), keyword.name.as_str()),
        }
    }

    /// Whether any key of the mapping is already in the registration set.
    #[verifier::loop_isolation(false)]
    fn any_key_registered(&self, mapping: &Vec<(String, String)>) -> (r: bool)
        ensures
            r == has_registered_key(self@.registerred, map_view(mapping@)),
    {
        let mut j: usize = 0;
        while j < mapping.len()
            invariant
                j <= mapping@.len(),
                forall|x: int|
                    0 <= x < j ==> !self@.registerred.contains(
                        #[trigger] map_view(mapping@)[x].0,
                    ),
            decreases mapping@.len() - j,
        {
            proof {
                assert(map_view(mapping@)[j as int] == (mapping@[j as int].0@,
                mapping@[j as int].1@));
            }
            if contains_str(&self.registerred, mapping[j].0.as_str()) {
                proof {
                    assert(self@.registerred.contains(map_view(mapping@)[j as int].0));
                }
                return true;
            }
            j += 1;
        }
        proof {
            assert(!has_registered_key(self@.registerred, map_view(mapping@)));
        }
        false
    }

    /// Appends every key of the mapping to the registration set.
    #[verifier::loop_isolation(false)]
    fn register_keys(&mut self, mapping: &Vec<(String, String)>)
        requires
            old(self).wf(),
        ensures
            final(self).wf(),
            final(self)@.registerred == old(self)@.registerred + keys_of(map_view(mapping@)),
            final(self)@.keywords == old(self)@.keywords,
            final(self)@.handlers == old(self)@.handlers,
    {
        let mut j: usize = 0;
        while j < mapping.len()
            invariant
                j <= mapping@.len(),
                self@.registerred =~= old(self)@.registerred + keys_of(
                    map_view(mapping@),
                ).subrange(0, j as int),
                self@.keywords == old(self)@.keywords,
                self@.handlers == old(self)@.handlers,
            decreases mapping@.len() - j,
        {
            let ghost regs_j = self@.registerred;
            self.registerred.push(mapping[j].0.clone());
            proof {
                assert(self@.registerred =~= regs_j.push(mapping@[j as int].0@));
                assert(keys_of(map_view(mapping@))[j as int] == mapping@[j as int].0@);
                assert(self@.registerred =~= old(self)@.registerred + keys_of(
                    map_view(mapping@),
                ).subrange(0, j + 1));
            }
            j += 1;
        }
        proof {
            assert(keys_of(map_view(mapping@)).subrange(
                0,
                map_view(mapping@).len() as int,
            ) =~= keys_of(map_view(mapping@)));
            assert forall|k: int|
                0 <= k < self@.keywords.len() implies self@.registerred.contains(
                #[trigger] self@.keywords[k].0,
            ) by {
                lemma_contains_append(
                    old(self)@.registerred,
                    keys_of(map_view(mapping@)),
                    self@.keywords[k].0,
                );
            }
        }
    }

    /// Rewrites `args` token by token: the word-keyed replacer if the token
    /// is a registered word, else the first claiming handler, else the
    /// token unchanged. Never fails.
    pub fn parse_args(&self, args: &Vec<String>) -> (r: Result<Vec<String>, ZmError>)
        requires
            self.wf(),
        ensures
            r is Ok,
            strs_view(r->Ok_0@) == table_parse(self@.keywords, self@.handlers, strs_view(args@)),
    {
        Ok(run_table(&self.keywords, &self.handlers, args))
    }
}

/// What `add_keyword` does, case by case over the keyword's shape.
pub open spec fn spec_add_keyword_post(
    old_t: HandlerTable,
    new_t: HandlerTable,
    kv: crate::config::KwV,
    r: bool,
) -> bool {
    match (kv.prefix, kv.mapping) {
        (Some(p), None) => {
            &&& r
            &&& new_t@.registerred == old_t@.registerred
            &&& new_t@.keywords == old_t@.keywords
            &&& new_t@.handlers == old_t@.handlers.push(
                (
                    PredV::PrefixedName { prefix: p, name: kv.name },
                    ReplV::Literal { text: kv.name },
                ),
            )
        },
        (Some(p), Some(m)) => {
            &&& r == !has_registered_key(old_t@.registerred, m)
            &&& r ==> new_t@.registerred == old_t@.registerred + keys_of(m) && new_t@.keywords
                == old_t@.keywords && new_t@.handlers == old_t@.handlers.push(
                (
                    PredV::PrefixedMapping { prefix: p, mapping: m },
                    ReplV::PrefixedMapping { prefix: p, mapping: m },
                ),
            )
            &&& !r ==> new_t@ == old_t@
        },
        (None, Some(m)) => {
            &&& r == !has_registered_key(old_t@.registerred, m)
            &&& r ==> new_t@.registerred == old_t@.registerred + keys_of(m) && new_t@.keywords
                == old_t@.keywords && new_t@.handlers == old_t@.handlers.push(
                (PredV::Mapping { mapping: m }, ReplV::Mapping { mapping: m }),
            )
            &&& !r ==> new_t@ == old_t@
        },
        (None, None) => {
            &&& new_t@.handlers == old_t@.handlers
            &&& r == !old_t@.registerred.contains(kv.name)
            &&& r ==> new_t@.registerred == old_t@.registerred.push(kv.name)
                && new_t@.keywords == old_t@.keywords.push(
                (kv.name, ReplV::Literal { text: kv.name }),
            )
            &&& !r ==> new_t@.registerred == old_t@.registerred && new_t@.keywords
                == old_t@.keywords
        },
    }
}

/// An element stays in a sequence that is extended on the right.
proof fn lemma_contains_append<A>(s: Seq<A>, t: Seq<A>, x: A)
    requires
        s.contains(x),
    ensures
        (s + t).contains(x),
{
    let idx = choose|idx: int| 0 <= idx < s.len() && s[idx] == x;
    assert((s + t)[idx] == x);
}

/// The shared table invariant survives pushing a fresh word entry.
proof fn lemma_table_still_wf(old_t: HandlerTable, new_t: HandlerTable, word: Seq<char>, rv: ReplV)
    requires
        old_t.wf(),
        !old_t@.registerred.contains(word),
        crate::rules::repl_applicable(rv, word),
        new_t@.registerred == old_t@.registerred.push(word),
        new_t@.keywords == old_t@.keywords.push((word, rv)),
        new_t@.handlers == old_t@.handlers,
    ensures
        new_t.wf(),
{
    let kws = new_t@.keywords;
    let n = old_t@.keywords.len() as int;
    assert forall|a: int, b: int| 0 <= a < b < kws.len() implies #[trigger] kws[a].0
        != #[trigger] kws[b].0 by {
        if b == n {
            assert(old_t@.registerred.contains(old_t@.keywords[a].0));
            if kws[a].0 == word {
                assert(old_t@.registerred.contains(word));
            }
        }
    }
    let rn = old_t@.registerred.len() as int;
    assert forall|k: int| 0 <= k < kws.len() implies new_t@.registerred.contains(
        #[trigger] kws[k].0,
    ) by {
        if k < n {
            lemma_contains_append(old_t@.registerred, seq![word], kws[k].0);
            assert(old_t@.registerred + seq![word] =~= old_t@.registerred.push(word));
        } else {
            assert(new_t@.registerred[rn] == word);
        }
    }
}

} // verus!
