//! A handler table built directly from words, predicates and replacers.
//!
//! Exact words are tried first, then the predicate handlers in registration
//! order; an unclaimed token passes through unchanged.

use vstd::prelude::*;

use crate::config::{clone_mapping, lemma_none_means_no_key, ZmKeywordConfig};
use crate::strutil::{map_view, strs_view};
use crate::error::ZmError;
use crate::rules::{
    consistent, hs_pairs_view, kw_lookup, kws_pairs_view, run_table, table_parse, table_wf,
    word_present, PredicateFn, PredV, ReplacerFn, ReplV,
};

verus! {

/// Mathematical view of a [`CommandLine`] table.
pub ghost struct CommandLineV {
    pub keywords: Seq<(Seq<char>, ReplV)>,
    pub handlers: Seq<(PredV, ReplV)>,
}

/// A rewriting table assembled by hand: exact words mapped to replacers,
/// plus ordered predicate handlers.
pub struct CommandLine {
    keywords: Vec<(String, ReplacerFn)>,
    handlers: Vec<(PredicateFn, ReplacerFn)>,
}

impl View for CommandLine {
    type V = CommandLineV;

    closed spec fn view(&self) -> CommandLineV {
        CommandLineV {
            keywords: kws_pairs_view(self.keywords@),
            handlers: hs_pairs_view(self.handlers@),
        }
    }
}

impl CommandLine {
    /// The table's structural invariant; established by `new` and kept by
    /// every registration.
    pub open spec fn wf(&self) -> bool {
        table_wf(self@.keywords, self@.handlers)
    }

    /// An empty table.
    pub fn new() -> (r: Self)
        ensures
            r.wf(),
            r@.keywords == Seq::<(Seq<char>, ReplV)>::empty(),
            r@.handlers == Seq::<(PredV, ReplV)>::empty(),
    {
        let r = CommandLine { keywords: Vec::new(), handlers: Vec::new() };
        proof {
            assert(r@.keywords =~= Seq::<(Seq<char>, ReplV)>::empty());
            assert(r@.handlers =~= Seq::<(PredV, ReplV)>::empty());
        }
        r
    }

    /// Registers `word` to be replaced by the literal `replaced`; refused
    /// when the word is already registered.
    pub fn add_word_to_word(&mut self, word: &str, replaced: &str) -> (r: bool)
        requires
            old(self).wf(),
        ensures
            final(self).wf(),
            final(self)@.handlers == old(self)@.handlers,
            r == (kw_lookup(old(self)@.keywords, word@) is None),
            r ==> final(self)@.keywords == old(self)@.keywords.push(
                (word@, ReplV::Literal { text: replaced@ }),
            ),
            !r ==> final(self)@.keywords == old(self)@.keywords,
    {
        self.add_word_to_replacer(word, ReplacerFn::Literal { text: replaced.to_owned() })
    }

    /// Registers `word` with an arbitrary replacer that can handle it;
    /// refused when the word is already registered.
    pub fn add_word_to_replacer(&mut self, word: &str, replacer: ReplacerFn) -> (r: bool)
        requires
            old(self).wf(),
            crate::rules::repl_applicable(replacer@, word@),
        ensures
            final(self).wf(),
            final(self)@.handlers == old(self)@.handlers,
            r == (kw_lookup(old(self)@.keywords, word@) is None),
            r ==> final(self)@.keywords == old(self)@.keywords.push((word@, replacer@)),
            !r ==> final(self)@.keywords == old(self)@.keywords,
    {
        if !word_present(&self.keywords, word) {
            proof {
                lemma_none_means_no_key(self@.keywords, word@, 0);
            }
            self.keywords.push((word.to_owned(), replacer));
            proof {
                assert(self@.keywords =~= old(self)@.keywords.push((word@, replacer@)));
                assert(self@.handlers =~= old(self)@.handlers);
            }
            return true;
        }
        false
    }

    /// Appends a handler whose replacement is the literal `replaced`.
    pub fn add_pred_to_word(&mut self, pred: PredicateFn, replaced: &str)
        requires
            old(self).wf(),
        ensures
            final(self).wf(),
            final(self)@.keywords == old(self)@.keywords,
            final(self)@.handlers == old(self)@.handlers.push(
                (pred@, ReplV::Literal { text: replaced@ }),
            ),
    {
        self.add_pred_to_replacer(pred, ReplacerFn::Literal { text: replaced.to_owned() })
    }

    /// Appends a handler pair; the replacer must handle every token the
    /// predicate claims.
    pub fn add_pred_to_replacer(&mut self, pred: PredicateFn, replacer: ReplacerFn)
        requires
            old(self).wf(),
            consistent(pred@, replacer@),
        ensures
            final(self).wf(),
            final(self)@.keywords == old(self)@.keywords,
            final(self)@.handlers == old(self)@.handlers.push((pred@, replacer@)),
    {
        self.handlers.push((pred, replacer));
        proof {
            assert(self@.keywords =~= old(self)@.keywords);
            assert(self@.handlers =~= old(self)@.handlers.push((pred@, replacer@)));
        }
    }

    /// Installs one keyword rule as the fitting word or handler entry: a
    /// bare name as a word, a prefixed name as a handler, a mapping as a
    /// handler provided none of its keys is a registered word.
    pub fn add_keyword(&mut self, keyword: &ZmKeywordConfig) -> (r: bool)
        requires
            old(self).wf(),
        ensures
            final(self).wf(),
            spec_add_keyword_post(*old(self), *final(self), keyword@, r),
    {
        match (&keyword.prefix, &keyword.mapping) {
            (Some(prefix), None) => {
                let pred = PredicateFn::PrefixedName {
                    prefix: prefix.clone(),
                    name: keyword.name.clone(),
                };
                self.add_pred_to_word(pred, keyword.name.as_str());
                true
            },
            (Some(prefix), Some(mapping)) => {
                if self.any_key_registered(mapping) {
                    return false;
                }
                let pred = PredicateFn::PrefixedMapping {
                    prefix: prefix.clone(),
                    mapping: clone_mapping(mapping),
                };
                let repl = ReplacerFn::PrefixedMapping {
                    prefix: prefix.clone(),
                    mapping: clone_mapping(mapping),
                };
                proof {
                    crate::rules::lemma_same_mapping_consistent(pred@, repl@);
                }
                self.add_pred_to_replacer(pred, repl);
                true
            },
            (None, Some(mapping)) => {
                if self.any_key_registered(mapping) {
                    return false;
                }
                let pred = PredicateFn::Mapping { mapping: clone_mapping(mapping) };
                let repl = ReplacerFn::Mapping { mapping: clone_mapping(mapping) };
                proof {
                    crate::rules::lemma_same_mapping_consistent(pred@, repl@);
                }
                self.add_pred_to_replacer(pred, repl);
                true
            },
            (None, None) => self.add_word_to_word(keyword.name.as_str(), keyword.name.as_str()),
        }
    }

    /// Whether any key of the mapping is already a registered exact word.
    #[verifier::loop_isolation(false)]
    fn any_key_registered(&self, mapping: &Vec<(String, String)>) -> (r: bool)
        ensures
            r == !(forall|x: int|
                0 <= x < map_view(mapping@).len() ==> kw_lookup(
                    self@.keywords,
                    #[trigger] map_view(mapping@)[x].0,
                ) is None),
    {
        let mut j: usize = 0;
        while j < mapping.len()
            invariant
                j <= mapping@.len(),
                forall|x: int|
                    0 <= x < j ==> kw_lookup(self@.keywords, #[trigger] map_view(mapping@)[x].0)
                        is None,
            decreases mapping@.len() - j,
        {
            proof {
                assert(map_view(mapping@)[j as int] == (mapping@[j as int].0@,
                mapping@[j as int].1@));
            }
            if word_present(&self.keywords, mapping[j].0.as_str()) {
                proof {
                    assert(kw_lookup(self@.keywords, map_view(mapping@)[j as int].0) is Some);
                }
                return true;
            }
            j += 1;
        }
        false
    }

    /// Rewrites `args` token by token: the word-keyed replacer if the token
    /// is a registered word, else the first claiming handler, else the
    /// token unchanged. Never fails.
    pub fn parse_args(&self, args: &Vec<String>) -> (r: Result<Vec<String>, ZmError>)
        requires
            self.wf(),
        ensures
            r is Ok,
            strs_view(r->Ok_0@) == table_parse(self@.keywords, self@.handlers, strs_view(args@)),
    {
        Ok(run_table(&self.keywords, &self.handlers, args))
    }
}

/// What `add_keyword` does, case by case over the keyword's shape.
pub open spec fn spec_add_keyword_post(
    old_t: CommandLine,
    new_t: CommandLine,
    kv: crate::config::KwV,
    r: bool,
) -> bool {
    match (kv.prefix, kv.mapping) {
        (Some(p), None) => {
            &&& r
            &&& new_t@.keywords == old_t@.keywords
            &&& new_t@.handlers == old_t@.handlers.push(
                (
                    PredV::PrefixedName { prefix: p, name: kv.name },
                    ReplV::Literal { text: kv.name },
                ),
            )
        },
        (Some(p), Some(m)) => {
            if forall|x: int| 0 <= x < m.len() ==> kw_lookup(old_t@.keywords, #[trigger] m[x].0)
                is None {
                &&& r
                &&& new_t@.keywords == old_t@.keywords
                &&& new_t@.handlers == old_t@.handlers.push(
                    (
                        PredV::PrefixedMapping { prefix: p, mapping: m },
                        ReplV::PrefixedMapping { prefix: p, mapping: m },
                    ),
                )
            } else {
                !r && new_t@ == old_t@
            }
        },
        (None, Some(m)) => {
            if forall|x: int| 0 <= x < m.len() ==> kw_lookup(old_t@.keywords, #[trigger] m[x].0)
                is None {
                &&& r
                &&& new_t@.keywords == old_t@.keywords
                &&& new_t@.handlers == old_t@.handlers.push(
                    (PredV::Mapping { mapping: m }, ReplV::Mapping { mapping: m }),
                )
            } else {
                !r && new_t@ == old_t@
            }
        },
        (None, None) => {
            &&& new_t@.handlers == old_t@.handlers
            &&& r == (kw_lookup(old_t@.keywords, kv.name) is None)
            &&& r ==> new_t@.keywords == old_t@.keywords.push(
                (kv.name, ReplV::Literal { text: kv.name }),
            )
            &&& !r ==> new_t@.keywords == old_t@.keywords
        },
    }
}

} // verus!
