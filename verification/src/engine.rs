//! The rewrite engine and output composer.
//!
//! [`rewrite`] consumes a token sequence against a validated table, one token
//! at a time: the first rule that matches a token claims it, an unmatched
//! token passes through, and every rule with a `default` that never matched
//! contributes one trailing pair. [`compose`] turns the resulting pairs into
//! the final token list, either plain or delimiter-joined.

use vstd::prelude::*;

use crate::config::{kws_view, spec_replace, KwV, Validated, ZmConfig, ZmKeywordConfig};
use crate::strutil::{map_view, strs_view};

verus! {

/// Index of the first rule at or after `j` that matches `tok`.
pub open spec fn spec_first_match_from(ks: Seq<KwV>, tok: Seq<char>, j: int) -> Option<int>
    decreases ks.len() - j,
{
    if j < 0 || j >= ks.len() {
        None
    } else if spec_replace(ks[j], tok) is Some {
        Some(j)
    } else {
        spec_first_match_from(ks, tok, j + 1)
    }
}

/// Index of the first rule that matches `tok`, if any.
pub open spec fn spec_first_match(ks: Seq<KwV>, tok: Seq<char>) -> Option<int> {
    spec_first_match_from(ks, tok, 0)
}

/// The pair one token contributes: the claiming rule's name with the rule's
/// output, or an empty key with the token itself passed through.
pub open spec fn spec_pair(ks: Seq<KwV>, tok: Seq<char>) -> (Seq<char>, Seq<char>) {
    match spec_first_match(ks, tok) {
        Some(j) => (ks[j].name, spec_replace(ks[j], tok)->0),
        None => (Seq::empty(), tok),
    }
}

/// Whether some token of the first `n` is claimed by rule `j`.
pub open spec fn spec_matched_upto(ks: Seq<KwV>, toks: Seq<Seq<char>>, n: int, j: int) -> bool {
    exists|t: int| 0 <= t < n && #[trigger] spec_first_match(ks, toks[t]) == Some(j)
}

/// Whether any token of the sequence is claimed by rule `j`.
pub open spec fn spec_matched(ks: Seq<KwV>, toks: Seq<Seq<char>>, j: int) -> bool {
    spec_matched_upto(ks, toks, toks.len() as int, j)
}

/// The pairs contributed by the tokens themselves, in input order.
pub open spec fn spec_token_pairs(ks: Seq<KwV>, toks: Seq<Seq<char>>) -> Seq<
    (Seq<char>, Seq<char>),
> {
    Seq::new(toks.len(), |i: int| spec_pair(ks, toks[i]))
}

/// The trailing default pairs: one per rule at or after `j` that has a
/// `default` and claimed no token, in table order.
pub open spec fn spec_defaults_from(ks: Seq<KwV>, toks: Seq<Seq<char>>, j: int) -> Seq<
    (Seq<char>, Seq<char>),
>
    decreases ks.len() - j,
{
    if j < 0 || j >= ks.len() {
        Seq::empty()
    } else {
        let rest = spec_defaults_from(ks, toks, j + 1);
        if ks[j].default is Some && !spec_matched(ks, toks, j) {
            seq![(ks[j].name, ks[j].default->0)] + rest
        } else {
            rest
        }
    }
}

/// Everything a parse of `toks` against `ks` produces: the per-token pairs
/// followed by the default pairs.
pub open spec fn spec_rewrite(ks: Seq<KwV>, toks: Seq<Seq<char>>) -> Seq<(Seq<char>, Seq<char>)> {
    spec_token_pairs(ks, toks) + spec_defaults_from(ks, toks, 0)
}

/// Scans the rules in table order for the first one matching `tok`; returns
/// its index and its output.
#[verifier::loop_isolation(false)]
fn find_match(ks: &Vec<ZmKeywordConfig>, tok: &String) -> (r: Option<(usize, String)>)
    ensures
        match r {
            Some(p) => {
                &&& (p.0 as int) < ks@.len()
                &&& spec_first_match(kws_view(ks@), tok@) == Some(p.0 as int)
                &&& spec_replace(kws_view(ks@)[p.0 as int], tok@) == Some(p.1@)
            },
            None => spec_first_match(kws_view(ks@), tok@) is None,
        },
{
    let ghost ksv = kws_view(ks@);
    let mut j: usize = 0;
    while j < ks.len()
        invariant
            j <= ks@.len(),
            spec_first_match(ksv, tok@) == spec_first_match_from(ksv, tok@, j as int),
        decreases ks@.len() - j,
    {
        proof {
            assert(ksv[j as int] == ks@[j as int]@);
        }
        match ks[j].replace(tok.as_str()) {
            Some(out) => {
                return Some((j, out));
            },
            None => {},
        }
        j += 1;
    }
    None
}

/// Parses `tokens` against the validated table: every token yields exactly
/// one pair, in input order, and every never-matched rule with a `default`
/// appends one pair at the end, in table order. Total: no token sequence is
/// rejected.
#[verifier::loop_isolation(false)]
pub fn rewrite(config: &ZmConfig<Validated>, tokens: &Vec<String>) -> (pairs: Vec<
    (String, String),
>)
    ensures
        map_view(pairs@) == spec_rewrite(config@.keywords, strs_view(tokens@)),
{
    let ks = config.get_keyword();
    let ghost ksv = config@.keywords;
    let ghost toksv = strs_view(tokens@);
    let mut pairs: Vec<(String, String)> = Vec::new();
    let mut matched: Vec<bool> = Vec::new();
    let mut j: usize = 0;
    while j < ks.len()
        invariant
            j <= ks@.len(),
            matched@.len() == j,
            forall|r: int| 0 <= r < j ==> !matched@[r],
        decreases ks@.len() - j,
    {
        matched.push(false);
        j += 1;
    }
    let mut i: usize = 0;
    while i < tokens.len()
        invariant
            i <= tokens@.len(),
            matched@.len() == ksv.len(),
            map_view(pairs@).len() == i,
            forall|k: int| 0 <= k < i ==> #[trigger] map_view(pairs@)[k] == spec_pair(
                ksv,
                toksv[k],
            ),
            forall|r: int| 0 <= r < ksv.len() ==> #[trigger] matched@[r] == spec_matched_upto(
                ksv,
                toksv,
                i as int,
                r,
            ),
        decreases tokens@.len() - i,
    {
        let ghost pairs_i = map_view(pairs@);
        let tok = &tokens[i];
        proof {
            assert(toksv[i as int] == tok@);
        }
        match find_match(ks, tok) {
            Some(hit) => {
                let (r_idx, out) = hit;
                let name = ks[r_idx].name.clone();
                pairs.push((name, out));
                matched.set(r_idx, true);
                proof {
                    assert(map_view(pairs@) =~= pairs_i.push(
                        (ksv[r_idx as int].name, spec_replace(ksv[r_idx as int], tok@)->0),
                    ));
                    assert forall|r: int| 0 <= r < ksv.len() implies #[trigger] matched@[r]
                        == spec_matched_upto(ksv, toksv, i + 1, r) by {
                        if r == r_idx {
                            assert(spec_first_match(ksv, toksv[i as int]) == Some(r));
                        } else {
                            if matched@[r] {
                                let t = choose|t: int|
                                    0 <= t < i && #[trigger] spec_first_match(ksv, toksv[t])
                                        == Some(r);
                                assert(spec_first_match(ksv, toksv[t]) == Some(r));
                            } else {
                                assert(forall|t: int|
                                    0 <= t < i + 1 ==> #[trigger] spec_first_match(ksv, toksv[t])
                                        != Some(r));
                            }
                        }
                    }
                }
            },
            None => {
                pairs.push((String::new(), tok.clone()));
                proof {
                    assert(map_view(pairs@) =~= pairs_i.push((Seq::empty(), tok@)));
                    assert forall|r: int| 0 <= r < ksv.len() implies #[trigger] matched@[r]
                        == spec_matched_upto(ksv, toksv, i + 1, r) by {
                        if matched@[r] {
                            let t = choose|t: int|
                                0 <= t < i && #[trigger] spec_first_match(ksv, toksv[t]) == Some(
                                    r,
                                );
                            assert(spec_first_match(ksv, toksv[t]) == Some(r));
                        } else {
                            assert(forall|t: int|
                                0 <= t < i + 1 ==> #[trigger] spec_first_match(ksv, toksv[t])
                                    != Some(r));
                        }
                    }
                }
            },
        }
        i += 1;
    }
    proof {
        assert(map_view(pairs@) =~= spec_token_pairs(ksv, toksv));
        assert(forall|r: int|
            0 <= r < ksv.len() ==> #[trigger] matched@[r] == spec_matched(ksv, toksv, r));
    }
    let mut d: usize = 0;
    while d < ks.len()
        invariant
            d <= ks@.len(),
            matched@.len() == ksv.len(),
            forall|r: int|
                0 <= r < ksv.len() ==> #[trigger] matched@[r] == spec_matched(ksv, toksv, r),
            spec_rewrite(ksv, toksv) == map_view(pairs@) + spec_defaults_from(
                ksv,
                toksv,
                d as int,
            ),
        decreases ks@.len() - d,
    {
        let ghost pairs_d = map_view(pairs@);
        proof {
            assert(ksv[d as int] == ks@[d as int]@);
        }
        if !matched[d] {
            match &ks[d].default {
                Some(def) => {
                    let name = ks[d].name.clone();
                    pairs.push((name, def.clone()));
                    proof {
                        let entry = (ksv[d as int].name, ksv[d as int].default->0);
                        assert(map_view(pairs@) =~= pairs_d.push(entry));
                        assert(pairs_d + spec_defaults_from(ksv, toksv, d as int) =~= pairs_d.push(
                            entry,
                        ) + spec_defaults_from(ksv, toksv, d + 1));
                    }
                },
                None => {},
            }
        }
        d += 1;
    }
    proof {
        assert(map_view(pairs@) + spec_defaults_from(ksv, toksv, ksv.len() as int) =~= map_view(
            pairs@,
        ));
    }
    pairs
}

/// The composed form of one pair under an optional delimiter.
pub open spec fn spec_joined(p: (Seq<char>, Seq<char>), d: Seq<char>) -> Seq<char> {
    if p.0.len() > 0 {
        p.0 + d + p.1
    } else {
        p.1
    }
}

/// The final token list for the pairs at or after `i`: with a delimiter,
/// every pair becomes one token (`key`, delimiter, `value`, or the bare
/// value for a pass-through); without one, the values alone, dropping pairs
/// that are empty-valued pass-throughs.
pub open spec fn spec_compose_from(
    prs: Seq<(Seq<char>, Seq<char>)>,
    delim: Option<Seq<char>>,
    i: int,
) -> Seq<Seq<char>>
    decreases prs.len() - i,
{
    if i < 0 || i >= prs.len() {
        Seq::empty()
    } else {
        let rest = spec_compose_from(prs, delim, i + 1);
        match delim {
            Some(d) => seq![spec_joined(prs[i], d)] + rest,
            None => if prs[i].0.len() > 0 || prs[i].1.len() > 0 {
                seq![prs[i].1] + rest
            } else {
                rest
            },
        }
    }
}

/// The final token list for a whole pair sequence.
pub open spec fn spec_compose(prs: Seq<(Seq<char>, Seq<char>)>, delim: Option<Seq<char>>) -> Seq<
    Seq<char>,
> {
    spec_compose_from(prs, delim, 0)
}

/// Turns rewrite pairs into the final token list, preserving their order.
#[verifier::loop_isolation(false)]
pub fn compose(pairs: &Vec<(String, String)>, delim: Option<&String>) -> (r: Vec<String>)
    ensures
        strs_view(r@) == spec_compose(
            map_view(pairs@),
            match delim {
                Some(d) => Some(d@),
                None => None,
            },
        ),
{
    let ghost prs = map_view(pairs@);
    let ghost dv: Option<Seq<char>> = match delim {
        Some(d) => Some(d@),
        None => None,
    };
    let mut r: Vec<String> = Vec::new();
    let mut i: usize = 0;
    while i < pairs.len()
        invariant
            i <= pairs@.len(),
            spec_compose(prs, dv) == strs_view(r@) + spec_compose_from(prs, dv, i as int),
        decreases pairs@.len() - i,
    {
        let ghost r_i = strs_view(r@);
        let pair = &pairs[i];
        proof {
            assert(prs[i as int] == (pair.0@, pair.1@));
        }
        match delim {
            Some(d) => {
                if !pair.0.as_str().is_empty() {
                    let mut s = pair.0.clone();
                    s.append(d.as_str());
                    s.append(pair.1.as_str());
                    r.push(s);
                } else {
                    r.push(pair.1.clone());
                }
                proof {
                    assert(strs_view(r@) =~= r_i.push(spec_joined(prs[i as int], dv->0)));
                    assert(r_i + spec_compose_from(prs, dv, i as int) =~= r_i.push(
                        spec_joined(prs[i as int], dv->0),
                    ) + spec_compose_from(prs, dv, i + 1));
                }
            },
            None => {
                if !pair.0.as_str().is_empty() || !pair.1.as_str().is_empty() {
                    r.push(pair.1.clone());
                    proof {
                        assert(strs_view(r@) =~= r_i.push(prs[i as int].1));
                        assert(r_i + spec_compose_from(prs, dv, i as int) =~= r_i.push(
                            prs[i as int].1,
                        ) + spec_compose_from(prs, dv, i + 1));
                    }
                }
            },
        }
        i += 1;
    }
    proof {
        assert(strs_view(r@) + spec_compose_from(prs, dv, prs.len() as int) =~= strs_view(r@));
    }
    r
}

} // verus!
