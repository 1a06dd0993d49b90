//! Named command generators: the handler-table superset.
//!
//! Parameter tokens of the form `key=value` are collected into a keyword
//! table; bare tokens name commands. Each command is backed by a registered
//! generator — a tagged, pure function from the collected keywords to a
//! list of command lines — and is gated by its required keywords.

use vstd::prelude::*;

use crate::config::{lookup, lookup_from, CmdV, ZmCommandConfig};
use crate::error::{ErrV, ZmError};
use crate::strutil::{contains_str, str_eq, strs_view};

verus! {

/// Mathematical view of a generator.
pub ghost enum GenV {
    JoinValues { key: Seq<char> },
}

/// A command generator: what argv lines a command expands to, as a pure
/// function of the collected keywords.
pub enum GeneratorFn {
    /// One command line: the values collected under `key`, joined with
    /// single spaces.
    JoinValues { key: String },
}

impl View for GeneratorFn {
    type V = GenV;

    open spec fn view(&self) -> GenV {
        match self {
            GeneratorFn::JoinValues { key } => GenV::JoinValues { key: key@ },
        }
    }
}

/// View of a collected keyword table.
pub open spec fn kwmap_view(kw: Seq<(String, Vec<String>)>) -> Seq<(Seq<char>, Seq<Seq<char>>)> {
    kw.map_values(|p: (String, Vec<String>)| (p.0@, strs_view(p.1@)))
}

/// The strings at or after `i`, joined with single spaces.
pub open spec fn join_from(vs: Seq<Seq<char>>, i: int) -> Seq<char>
    decreases vs.len() - i,
{
    if i < 0 || i >= vs.len() {
        Seq::empty()
    } else if i == vs.len() - 1 {
        vs[i]
    } else {
        vs[i] + seq![' '] + join_from(vs, i + 1)
    }
}

/// Joins the strings with single spaces.
fn join_with_spaces(vs: &Vec<String>) -> (r: String)
    ensures
        r@ == join_from(strs_view(vs@), 0),
{
    let ghost vsv = strs_view(vs@);
    let mut r = String::new();
    let mut i: usize = 0;
    while i < vs.len()
        invariant
            i <= vs@.len(),
            vsv == strs_view(vs@),
            i == 0 ==> r@ == Seq::<char>::empty(),
            0 < i < vs@.len() ==> join_from(vsv, 0) == r@ + seq![' '] + join_from(vsv, i as int),
            i == vs@.len() && i > 0 ==> join_from(vsv, 0) == r@,
        decreases vs@.len() - i,
    {
        proof {
            assert(vsv[i as int] == vs@[i as int]@);
        }
        if i > 0 {
            r.append(" ");
            proof {
                reveal_strlit(" ");
                assert((" ")@ =~= seq![' ']);
            }
        }
        r.append(vs[i].as_str());
        i += 1;
    }
    r
}

/// The value list collected under `key`, if any.
fn kw_values<'a>(kw: &'a Vec<(String, Vec<String>)>, key: &str) -> (r: Option<&'a Vec<String>>)
    ensures
        match r {
            Some(vs) => lookup(kwmap_view(kw@), key@) == Some(strs_view(vs@)),
            None => lookup(kwmap_view(kw@), key@) is None,
        },
{
    let ghost kv = kwmap_view(kw@);
    let mut i: usize = 0;
    while i < kw.len()
        invariant
            i <= kw@.len(),
            kv == kwmap_view(kw@),
            lookup(kv, key@) == lookup_from(kv, key@, i as int),
        decreases kw@.len() - i,
    {
        proof {
            assert(kv[i as int] == (kw@[i as int].0@, strs_view(kw@[i as int].1@)));
        }
        if str_eq(kw[i].0.as_str(), key) {
            return Some(&kw[i].1);
        }
        i += 1;
    }
    None
}

/// What a generator produces for the collected keywords: its command
/// lines, or the keyword it needs and did not find.
pub open spec fn spec_apply(g: GenV, kw: Seq<(Seq<char>, Seq<Seq<char>>)>) -> Result<
    Seq<Seq<char>>,
    ErrV,
> {
    match g {
        GenV::JoinValues { key } => match lookup(kw, key) {
            Some(vs) => Ok(seq![join_from(vs, 0)]),
            None => Err(ErrV::RequirementMissing { name: key }),
        },
    }
}

impl GeneratorFn {
    /// Runs the generator on the collected keywords.
    pub fn apply(&self, kw: &Vec<(String, Vec<String>)>) -> (r: Result<Vec<String>, ZmError>)
        ensures
            match r {
                Ok(ts) => spec_apply(self@, kwmap_view(kw@)) == Ok::<Seq<Seq<char>>, ErrV>(
                    strs_view(ts@),
                ),
                Err(e) => spec_apply(self@, kwmap_view(kw@)) == Err::<Seq<Seq<char>>, ErrV>(e@),
            },
    {
        match self {
            GeneratorFn::JoinValues { key } => {
                match kw_values(kw, key.as_str()) {
                    Some(vs) => {
                        let joined = join_with_spaces(vs);
                        let mut out: Vec<String> = Vec::new();
                        out.push(joined);
                        proof {
                            assert(strs_view(out@) =~= seq![
                                join_from(lookup(kwmap_view(kw@), key@)->0, 0),
                            ]);
                        }
                        Ok(out)
                    },
                    None => Err(ZmError::RequirementMissing { name: key.clone() }),
                }
            },
        }
    }
}

/// Position of the first `'='` at or after `i`.
pub open spec fn first_eq_from(s: Seq<char>, i: int) -> Option<int>
    decreases s.len() - i,
{
    if i < 0 || i >= s.len() {
        None
    } else if s[i] == '=' {
        Some(i)
    } else {
        first_eq_from(s, i + 1)
    }
}

/// Index of the first entry with the given key, at or after `i`.
pub open spec fn kw_index_from(
    kw: Seq<(Seq<char>, Seq<Seq<char>>)>,
    key: Seq<char>,
    i: int,
) -> Option<int>
    decreases kw.len() - i,
{
    if i < 0 || i >= kw.len() {
        None
    } else if kw[i].0 == key {
        Some(i)
    } else {
        kw_index_from(kw, key, i + 1)
    }
}

/// The table with `value` recorded under `key`: appended to the existing
/// entry, or as a fresh entry at the end.
pub open spec fn spec_add_kw(
    kw: Seq<(Seq<char>, Seq<Seq<char>>)>,
    key: Seq<char>,
    value: Seq<char>,
) -> Seq<(Seq<char>, Seq<Seq<char>>)> {
    match kw_index_from(kw, key, 0) {
        Some(idx) => kw.update(idx, (kw[idx].0, kw[idx].1.push(value))),
        None => kw.push((key, seq![value])),
    }
}

/// Splits the raw parameters from position `i`: a token with an `'='`
/// records a keyword value under the part before its first `'='`; a bare
/// token joins the command-name set (once).
pub open spec fn spec_collect(
    argv: Seq<Seq<char>>,
    i: int,
    kw: Seq<(Seq<char>, Seq<Seq<char>>)>,
    args: Seq<Seq<char>>,
) -> (Seq<(Seq<char>, Seq<Seq<char>>)>, Seq<Seq<char>>)
    decreases argv.len() - i,
{
    if i < 0 || i >= argv.len() {
        (kw, args)
    } else {
        let a = argv[i];
        match first_eq_from(a, 0) {
            Some(p) => spec_collect(
                argv,
                i + 1,
                spec_add_kw(kw, a.subrange(0, p), a.skip(p + 1)),
                args,
            ),
            None => spec_collect(
                argv,
                i + 1,
                kw,
                if args.contains(a) {
                    args
                } else {
                    args.push(a)
                },
            ),
        }
    }
}

/// Position of the first `'='` of the token, if any.
fn find_eq(s: &str) -> (r: Option<usize>)
    ensures
        match r {
            Some(p) => (p as int) < s@.len() && first_eq_from(s@, 0) == Some(p as int),
            None => first_eq_from(s@, 0) is None,
        },
{
    let n = s.unicode_len();
    let mut i: usize = 0;
    while i < n
        invariant
            i <= n,
            n == s@.len(),
            first_eq_from(s@, 0) == first_eq_from(s@, i as int),
        decreases n - i,
    {
        if s.get_char(i) == '=' {
            return Some(i);
        }
        i += 1;
    }
    None
}

/// An element-wise copy of a string list; the copy's view is the
/// original's.
fn clone_strings(v: &Vec<String>) -> (r: Vec<String>)
    ensures
        r@ == v@,
{
    let mut r: Vec<String> = Vec::new();
    let mut i: usize = 0;
    while i < v.len()
        invariant
            i <= v@.len(),
            r@.len() == i,
            forall|k: int| 0 <= k < i ==> r@[k] == v@[k],
        decreases v@.len() - i,
    {
        r.push(v[i].clone());
        i += 1;
    }
    proof {
        assert(r@ =~= v@);
    }
    r
}

/// Index of the existing entry for `key`, if any.
fn kw_find_index(kw: &Vec<(String, Vec<String>)>, key: &str) -> (r: Option<usize>)
    ensures
        match r {
            Some(idx) => (idx as int) < kw@.len() && kw_index_from(kwmap_view(kw@), key@, 0)
                == Some(idx as int),
            None => kw_index_from(kwmap_view(kw@), key@, 0) is None,
        },
{
    let ghost kv = kwmap_view(kw@);
    let mut i: usize = 0;
    while i < kw.len()
        invariant
            i <= kw@.len(),
            kv == kwmap_view(kw@),
            kw_index_from(kv, key@, 0) == kw_index_from(kv, key@, i as int),
        decreases kw@.len() - i,
    {
        proof {
            assert(kv[i as int] == (kw@[i as int].0@, strs_view(kw@[i as int].1@)));
        }
        if str_eq(kw[i].0.as_str(), key) {
            return Some(i);
        }
        i += 1;
    }
    None
}

/// Splits raw parameters into the collected keyword table (`key=value`
/// tokens, values in arrival order) and the set of requested command names
/// (bare tokens, first occurrence kept).
#[verifier::loop_isolation(false)]
pub fn parse_args(argv: &Vec<String>) -> (r: (Vec<(String, Vec<String>)>, Vec<String>))
    ensures
        ({
            let folded = spec_collect(
                strs_view(argv@),
                0,
                Seq::empty(),
                Seq::empty(),
            );
            kwmap_view(r.0@) == folded.0 && strs_view(r.1@) == folded.1
        }),
{
    let ghost argvv = strs_view(argv@);
    let mut kw: Vec<(String, Vec<String>)> = Vec::new();
    let mut args: Vec<String> = Vec::new();
    proof {
        assert(kwmap_view(kw@) =~= Seq::<(Seq<char>, Seq<Seq<char>>)>::empty());
        assert(strs_view(args@) =~= Seq::<Seq<char>>::empty());
    }
    let mut i: usize = 0;
    while i < argv.len()
        invariant
            i <= argv@.len(),
            spec_collect(argvv, 0, Seq::empty(), Seq::empty()) == spec_collect(
                argvv,
                i as int,
                kwmap_view(kw@),
                strs_view(args@),
            ),
        decreases argv@.len() - i,
    {
        let ghost kw_i = kwmap_view(kw@);
        let ghost args_i = strs_view(args@);
        let a = &argv[i];
        proof {
            assert(argvv[i as int] == a@);
        }
        match find_eq(a.as_str()) {
            Some(p) => {
                let alen = a.as_str().unicode_len();
                let key = a.as_str().substring_char(0, p);
                let value = a.as_str().substring_char(p + 1, alen).to_owned();
                proof {
                    assert(key@ =~= a@.subrange(0, p as int));
                    assert(value@ =~= a@.skip(p + 1));
                }
                match kw_find_index(&kw, key) {
                    Some(idx) => {
                        let entry_key = kw[idx].0.clone();
                        let mut vals = clone_strings(&kw[idx].1);
                        vals.push(value);
                        let ghost vals_v = strs_view(vals@);
                        kw.set(idx, (entry_key, vals));
                        proof {
                            assert(vals_v =~= kw_i[idx as int].1.push(a@.skip(p + 1)));
                            assert(kwmap_view(kw@) =~= kw_i.update(
                                idx as int,
                                (kw_i[idx as int].0, kw_i[idx as int].1.push(a@.skip(p + 1))),
                            ));
                            assert(kwmap_view(kw@) =~= spec_add_kw(
                                kw_i,
                                a@.subrange(0, p as int),
                                a@.skip(p + 1),
                            ));
                        }
                    },
                    None => {
                        let key_owned = key.to_owned();
                        let mut vals: Vec<String> = Vec::new();
                        vals.push(value);
                        kw.push((key_owned, vals));
                        proof {
                            assert(strs_view(vals@) =~= seq![a@.skip(p + 1)]);
                            assert(kwmap_view(kw@) =~= kw_i.push(
                                (a@.subrange(0, p as int), seq![a@.skip(p + 1)]),
                            ));
                            assert(kwmap_view(kw@) =~= spec_add_kw(
                                kw_i,
                                a@.subrange(0, p as int),
                                a@.skip(p + 1),
                            ));
                        }
                    },
                }
            },
            None => {
                if !contains_str(&args, a.as_str()) {
                    args.push(a.clone());
                    proof {
                        assert(strs_view(args@) =~= args_i.push(a@));
                    }
                }
            },
        }
        i += 1;
    }
    (kw, args)
}

/// Mathematical view of a generator table.
pub ghost struct MersV {
    pub handlers: Seq<(Seq<char>, GenV)>,
}

/// A table of command generators, one per command name.
pub struct Mers {
    handlers: Vec<(String, GeneratorFn)>,
}

impl View for Mers {
    type V = MersV;

    closed spec fn view(&self) -> MersV {
        MersV {
            handlers: self.handlers@.map_values(|p: (String, GeneratorFn)| (p.0@, p.1@)),
        }
    }
}

/// Whether every required keyword at or after `i` was collected.
pub open spec fn all_reqs_present(
    kw: Seq<(Seq<char>, Seq<Seq<char>>)>,
    reqs: Seq<Seq<char>>,
    i: int,
) -> bool
    decreases reqs.len() - i,
{
    if i < 0 || i >= reqs.len() {
        true
    } else {
        lookup(kw, reqs[i]) is Some && all_reqs_present(kw, reqs, i + 1)
    }
}

/// The command lines generated for the commands at or after `i` that were
/// requested: each must be registered and have its requirements collected,
/// else the first failure is the result.
pub open spec fn spec_gen_tasks(
    hs: Seq<(Seq<char>, GenV)>,
    kw: Seq<(Seq<char>, Seq<Seq<char>>)>,
    args: Seq<Seq<char>>,
    cs: Seq<CmdV>,
    i: int,
) -> Result<Seq<Seq<char>>, ErrV>
    decreases cs.len() - i,
{
    if i < 0 || i >= cs.len() {
        Ok(Seq::empty())
    } else {
        let c = cs[i];
        if !args.contains(c.name) {
            spec_gen_tasks(hs, kw, args, cs, i + 1)
        } else if lookup(hs, c.name) is None {
            Err(ErrV::CommandNotRegistered { name: c.name })
        } else if !all_reqs_present(kw, c.requirements, 0) {
            Err(ErrV::RequirementMissing { name: c.name })
        } else {
            match spec_apply(lookup(hs, c.name)->0, kw) {
                Ok(cmds) => match spec_gen_tasks(hs, kw, args, cs, i + 1) {
                    Ok(rest) => Ok(cmds + rest),
                    Err(e) => Err(e),
                },
                Err(e) => Err(e),
            }
        }
    }
}

/// `r` with `acc` prepended to its command lines.
pub open spec fn prepend_tasks(acc: Seq<Seq<char>>, r: Result<Seq<Seq<char>>, ErrV>) -> Result<
    Seq<Seq<char>>,
    ErrV,
> {
    match r {
        Ok(rest) => Ok(acc + rest),
        Err(e) => Err(e),
    }
}

impl Mers {
    /// Generator names are registered at most once.
    pub open spec fn wf(&self) -> bool {
        forall|a: int, b: int|
            0 <= a < b < self@.handlers.len() ==> (#[trigger] self@.handlers[a].0) != (
            #[trigger] self@.handlers[b].0)
    }

    /// An empty generator table.
    pub fn new() -> (r: Self)
        ensures
            r.wf(),
            r@.handlers == Seq::<(Seq<char>, GenV)>::empty(),
    {
        let r = Mers { handlers: Vec::new() };
        proof {
            assert(r@.handlers =~= Seq::<(Seq<char>, GenV)>::empty());
        }
        r
    }

    /// Registers a generator under a fresh command name; a name registered
    /// twice is an error and leaves the table unchanged.
    pub fn push(&mut self, name: &str, f: GeneratorFn) -> (r: Result<(), ZmError>)
        requires
            old(self).wf(),
        ensures
            final(self).wf(),
            match r {
                Ok(u) => lookup(old(self)@.handlers, name@) is None && final(self)@.handlers
                    == old(self)@.handlers.push((name@, f@)),
                Err(e) => lookup(old(self)@.handlers, name@) is Some && e@ == (
                ErrV::DupCommand { name: name@ }) && final(self)@.handlers
                    == old(self)@.handlers,
            },
    {
        if self.contains_name(name) {
            return Err(ZmError::DupCommand { name: name.to_owned() });
        }
        proof {
            crate::config::lemma_none_means_no_key(self@.handlers, name@, 0);
        }
        self.handlers.push((name.to_owned(), f));
        proof {
            assert(self@.handlers =~= old(self)@.handlers.push((name@, f@)));
        }
        Ok(())
    }

    /// Whether a generator is registered under `name`.
    fn contains_name(&self, name: &str) -> (r: bool)
        ensures
            r == (lookup(self@.handlers, name@) is Some),
    {
        let mut i: usize = 0;
        while i < self.handlers.len()
            invariant
                i <= self.handlers@.len(),
                lookup(self@.handlers, name@) == lookup_from(self@.handlers, name@, i as int),
            decreases self.handlers@.len() - i,
        {
            proof {
                assert(self@.handlers[i as int] == (self.handlers@[i as int].0@,
                self.handlers@[i as int].1@));
            }
            if str_eq(self.handlers[i].0.as_str(), name) {
                return true;
            }
            i += 1;
        }
        false
    }

    /// The generator registered under `name`, if any.
    fn get_generator<'a>(&'a self, name: &str) -> (r: Option<&'a GeneratorFn>)
        ensures
            match r {
                Some(g) => lookup(self@.handlers, name@) == Some(g@),
                None => lookup(self@.handlers, name@) is None,
            },
    {
        let mut i: usize = 0;
        while i < self.handlers.len()
            invariant
                i <= self.handlers@.len(),
                lookup(self@.handlers, name@) == lookup_from(self@.handlers, name@, i as int),
            decreases self.handlers@.len() - i,
        {
            proof {
                assert(self@.handlers[i as int] == (self.handlers@[i as int].0@,
                self.handlers@[i as int].1@));
            }
            if str_eq(self.handlers[i].0.as_str(), name) {
                return Some(&self.handlers[i].1);
            }
            i += 1;
        }
        None
    }

    /// Whether every requirement of the list was collected.
    fn reqs_present(&self, kw: &Vec<(String, Vec<String>)>, reqs: &Vec<String>) -> (r: bool)
        ensures
            r == all_reqs_present(kwmap_view(kw@), strs_view(reqs@), 0),
    {
        let ghost kv = kwmap_view(kw@);
        let ghost rv = strs_view(reqs@);
        let mut i: usize = 0;
        while i < reqs.len()
            invariant
                i <= reqs@.len(),
                kv == kwmap_view(kw@),
                rv == strs_view(reqs@),
                all_reqs_present(kv, rv, 0) == all_reqs_present(kv, rv, i as int),
            decreases reqs@.len() - i,
        {
            proof {
                assert(rv[i as int] == reqs@[i as int]@);
            }
            if kw_values(kw, reqs[i].as_str()).is_none() {
                proof {
                    assert(!all_reqs_present(kv, rv, i as int));
                }
                return false;
            }
            i += 1;
        }
        true
    }

    /// Expands every requested, registered command into its command lines,
    /// in configuration order; the first unregistered command, unmet
    /// requirement, or generator failure is the result instead.
    #[verifier::loop_isolation(false)]
    pub fn gen_tasks(
        &self,
        kw: &Vec<(String, Vec<String>)>,
        args: &Vec<String>,
        configs: &Vec<ZmCommandConfig>,
    ) -> (r: Result<Vec<String>, ZmError>)
        ensures
            match r {
                Ok(ts) => spec_gen_tasks(
                    self@.handlers,
                    kwmap_view(kw@),
                    strs_view(args@),
                    crate::config::cmds_view(configs@),
                    0,
                ) == Ok::<Seq<Seq<char>>, ErrV>(strs_view(ts@)),
                Err(e) => spec_gen_tasks(
                    self@.handlers,
                    kwmap_view(kw@),
                    strs_view(args@),
                    crate::config::cmds_view(configs@),
                    0,
                ) == Err::<Seq<Seq<char>>, ErrV>(e@),
            },
    {
        let ghost hv = self@.handlers;
        let ghost kv = kwmap_view(kw@);
        let ghost av = strs_view(args@);
        let ghost cv = crate::config::cmds_view(configs@);
        let mut tasks: Vec<String> = Vec::new();
        proof {
            assert(strs_view(tasks@) =~= Seq::<Seq<char>>::empty());
        }
        let mut i: usize = 0;
        while i < configs.len()
            invariant
                i <= configs@.len(),
                spec_gen_tasks(hv, kv, av, cv, 0) == prepend_tasks(
                    strs_view(tasks@),
                    spec_gen_tasks(hv, kv, av, cv, i as int),
                ),
            decreases configs@.len() - i,
        {
            let ghost tasks_i = strs_view(tasks@);
            let c = &configs[i];
            proof {
                assert(cv[i as int] == c@);
            }
            if contains_str(args, c.name.as_str()) {
                match self.get_generator(c.name.as_str()) {
                    None => {
                        return Err(ZmError::CommandNotRegistered { name: c.name.clone() });
                    },
                    Some(g) => {
                        if !self.reqs_present(kw, &c.requirements) {
                            return Err(ZmError::RequirementMissing { name: c.name.clone() });
                        }
                        match g.apply(kw) {
                            Ok(cmds) => {
                                let ghost cmds_v = strs_view(cmds@);
                                crate::rules::extend_strings(&mut tasks, cmds);
                                proof {
                                    assert(strs_view(tasks@) =~= tasks_i + cmds_v);
                                    if spec_gen_tasks(hv, kv, av, cv, i + 1) is Ok {
                                        let rest = spec_gen_tasks(hv, kv, av, cv, i + 1)->Ok_0;
                                        assert(tasks_i + (cmds_v + rest) =~= strs_view(tasks@)
                                            + rest);
                                    }
                                }
                            },
                            Err(e) => {
                                return Err(e);
                            },
                        }
                    },
                }
            }
            i += 1;
        }
        proof {
            assert(strs_view(tasks@) + Seq::<Seq<char>>::empty() =~= strs_view(tasks@));
        }
        Ok(tasks)
    }
}

} // verus!
