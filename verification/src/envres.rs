//! Login-environment resolution.
//!
//! A tray daemon started at login can inherit a minimal environment — most
//! painfully on macOS, where a LaunchAgent gets a bare `PATH`. The caller reads
//! the process environment and asks the user's login shell to print its own
//! (`env`); this module merges the two into the environment every job gets.

use crate::text::{char_vecs, lines, lines_of, split_once, find_char, lemma_split_once_at, string_from_chars};
use vstd::prelude::*;

verus! {

/// A list of `(name, value)` pairs as characters.
pub open spec fn pairs_view(v: Seq<(String, String)>) -> Seq<(Seq<char>, Seq<char>)> {
    v.map_values(|p: (String, String)| (p.0@, p.1@))
}

/// The environment a list of assignments leaves: each sets its variable, a
/// later one overriding an earlier one.
pub open spec fn env_map(s: Seq<(Seq<char>, Seq<char>)>) -> Map<Seq<char>, Seq<char>>
    decreases s.len(),
{
    if s.len() == 0 {
        Map::empty()
    } else {
        env_map(s.drop_last()).insert(s.last().0, s.last().1)
    }
}

/// No variable is named twice.
pub open spec fn distinct_names(s: Seq<(Seq<char>, Seq<char>)>) -> bool {
    forall|i: int, j: int| 0 <= i < j < s.len() ==> s[i].0 != s[j].0
}

/// The assignments printed by `env`: each line with an `=` names a variable
/// (before the first `=`) and its value (after it).
pub open spec fn env_assignments(ls: Seq<Seq<char>>) -> Seq<(Seq<char>, Seq<char>)>
    decreases ls.len(),
{
    if ls.len() == 0 {
        Seq::empty()
    } else {
        let rest = env_assignments(ls.drop_last());
        match split_once(ls.last(), '=') {
            Some(kv) => rest.push(kv),
            None => rest,
        }
    }
}

/// The assignments the login shell printed, if it was asked.
pub open spec fn login_assignments(out: Option<String>) -> Seq<(Seq<char>, Seq<char>)> {
    match out {
        Some(o) => env_assignments(lines(o@)),
        None => Seq::empty(),
    }
}

/// The environment of the jobs: each variable listed once.
#[derive(Debug)]
pub struct BaseEnv {
    vars: Vec<(String, String)>,
}

impl BaseEnv {
    /// No variable is listed twice.
    #[verifier::type_invariant]
    spec fn names_once(self) -> bool {
        distinct_names(pairs_view(self.vars@))
    }
}

impl Clone for BaseEnv {
    fn clone(&self) -> (c: BaseEnv)
        ensures
            c@ == self@,
    {
        proof {
            use_type_invariant(self);
        }
        let n = self.vars.len();
        let mut vars: Vec<(String, String)> = Vec::new();
        for i in 0..n
            invariant
                n == self.vars@.len(),
                vars@ == self.vars@.take(i as int),
        {
            let (k, v) = &self.vars[i];
            vars.push((k.clone(), v.clone()));
            assert(vars@ =~= self.vars@.take(i + 1));
        }
        assert(vars@ =~= self.vars@);
        BaseEnv { vars }
    }
}

impl Default for BaseEnv {
    /// The empty environment.
    fn default() -> (e: BaseEnv)
        ensures
            e@ == Map::<Seq<char>, Seq<char>>::empty(),
    {
        let e = BaseEnv { vars: Vec::new() };
        assert(pairs_view(e.vars@) =~= Seq::<(Seq<char>, Seq<char>)>::empty());
        e
    }
}

impl View for BaseEnv {
    type V = Map<Seq<char>, Seq<char>>;

    closed spec fn view(&self) -> Map<Seq<char>, Seq<char>> {
        env_map(pairs_view(self.vars@))
    }
}

/// In a list that names each variable once, setting an already named
/// variable in place sets it in the environment.
proof fn lemma_env_map_update(s: Seq<(Seq<char>, Seq<char>)>, i: int, v: Seq<char>)
    requires
        distinct_names(s),
        0 <= i < s.len(),
    ensures
        env_map(s.update(i, (s[i].0, v))) == env_map(s).insert(s[i].0, v),
    decreases s.len(),
{
    let t = s.update(i, (s[i].0, v));
    if i == s.len() - 1 {
        assert(t.drop_last() =~= s.drop_last());
        assert(env_map(t) =~= env_map(s).insert(s[i].0, v));
    } else {
        assert(t.drop_last() =~= s.drop_last().update(i, (s[i].0, v)));
        lemma_env_map_update(s.drop_last(), i, v);
        assert(s.last().0 != s[i].0);
        assert(env_map(t) =~= env_map(s).insert(s[i].0, v));
    }
}

/// A list that names each variable once names exactly the variables of its
/// environment.
proof fn lemma_env_map_dom(s: Seq<(Seq<char>, Seq<char>)>, k: Seq<char>)
    ensures
        env_map(s).contains_key(k) <==> exists|i: int| 0 <= i < s.len() && s[i].0 == k,
    decreases s.len(),
{
    if s.len() > 0 {
        lemma_env_map_dom(s.drop_last(), k);
        if env_map(s).contains_key(k) && k != s.last().0 {
            let i = choose|i: int| 0 <= i < s.len() - 1 && s.drop_last()[i].0 == k;
            assert(s[i].0 == k);
        }
        if exists|i: int| 0 <= i < s.len() && s[i].0 == k {
            let i = choose|i: int| 0 <= i < s.len() && s[i].0 == k;
            if i < s.len() - 1 {
                assert(s.drop_last()[i].0 == k);
            }
        }
    }
}

impl BaseEnv {
    /// The variables, in no particular order; setting them in this order
    /// gives the environment.
    pub fn iter(&self) -> (r: &[(String, String)])
        ensures
            env_map(pairs_view(r@)) == self@,
            distinct_names(pairs_view(r@)),
    {
        proof {
            use_type_invariant(self);
        }
        self.vars.as_slice()
    }

    /// The environment of the jobs: the process's variables, then the
    /// assignments the login shell printed (`None` when it could not be asked
    /// or failed), later ones overriding earlier ones.
    pub fn resolve(process_vars: Vec<(String, String)>, login_output: Option<String>) -> (e: BaseEnv)
        ensures
            e@ == env_map(pairs_view(process_vars@) + login_assignments(login_output)),
    {
        let ghost all = pairs_view(process_vars@) + login_assignments(login_output);
        let mut vars: Vec<(String, String)> = Vec::new();
        let n = process_vars.len();
        assert(pairs_view(process_vars@).take(0) =~= Seq::<(Seq<char>, Seq<char>)>::empty());
        for i in 0..n
            invariant
                n == process_vars@.len(),
                distinct_names(pairs_view(vars@)),
                env_map(pairs_view(vars@)) == env_map(pairs_view(process_vars@).take(i as int)),
        {
            let (k, v) = &process_vars[i];
            set_var(&mut vars, k.clone(), v.clone());
            proof {
                let pv = pairs_view(process_vars@);
                assert(pv.take(i + 1).drop_last() =~= pv.take(i as int));
                assert(pv.take(i + 1).last() == (k@, v@));
            }
        }
        assert(pairs_view(process_vars@).take(n as int) =~= pairs_view(process_vars@));
        match &login_output {
            None => {
                assert(all =~= pairs_view(process_vars@));
            },
            Some(out) => {
                let ls = lines_of(out.as_str());
                let m = ls.len();
                let ghost a = env_assignments(lines(out@));
                let ghost base = pairs_view(process_vars@);
                assert(char_vecs(ls@) == lines(out@));
                assert(lines(out@).take(0) =~= Seq::<Seq<char>>::empty());
                assert(base + env_assignments(lines(out@).take(0)) =~= base);
                for j in 0..m
                    invariant
                        m == ls@.len(),
                        char_vecs(ls@) == lines(out@),
                        distinct_names(pairs_view(vars@)),
                        env_map(pairs_view(vars@)) == env_map(base + env_assignments(lines(out@).take(j as int))),
                {
                    let line = &ls[j];
                    let ghost before = env_assignments(lines(out@).take(j as int));
                    proof {
                        assert(lines(out@).take(j + 1).drop_last() =~= lines(out@).take(j as int));
                        assert(lines(out@).take(j + 1).last() == line@);
                        assert(char_vecs(ls@)[j as int] == line@);
                    }
                    let ll = line.len();
                    match find_char(line.as_slice(), '=') {
                        Some(at) => {
                            proof {
                                lemma_split_once_at(line@, '=', at as int);
                            }
                            let key = string_from_chars(&line.as_slice()[0..at]);
                            let value = string_from_chars(&line.as_slice()[at + 1..ll]);
                            assert(key@ =~= line@.take(at as int));
                            assert(value@ =~= line@.skip(at + 1));
                            let ghost kv = (key@, value@);
                            set_var(&mut vars, key, value);
                            proof {
                                let x = (base + before).push(kv);
                                assert(x.drop_last() =~= base + before);
                                assert(x.last() == kv);
                                assert(env_map(x) == env_map(base + before).insert(kv.0, kv.1));
                                assert(env_assignments(lines(out@).take(j + 1)) == before.push(kv));
                                assert(x =~= base + before.push(kv));
                            }
                        },
                        None => {
                            proof {
                                assert(split_once(line@, '=') is None);
                                assert(env_assignments(lines(out@).take(j + 1)) == before);
                            }
                        },
                    }
                }
                assert(lines(out@).take(m as int) =~= lines(out@));
            },
        }
        BaseEnv { vars }
    }
}

/// Sets variable `k` to `v` in a list that names each variable once.
fn set_var(vars: &mut Vec<(String, String)>, k: String, v: String)
    requires
        distinct_names(pairs_view(old(vars)@)),
    ensures
        distinct_names(pairs_view(final(vars)@)),
        env_map(pairs_view(final(vars)@)) == env_map(pairs_view(old(vars)@)).insert(k@, v@),
{
    let n = vars.len();
    let ghost s = pairs_view(vars@);
    for i in 0..n
        invariant
            n == vars@.len(),
            vars@ == old(vars)@,
            s == pairs_view(vars@),
            distinct_names(s),
            forall|j: int| 0 <= j < i ==> s[j].0 != k@,
    {
        if vars[i].0 == k {
            proof {
                lemma_env_map_update(s, i as int, v@);
            }
            let ghost kv = k@;
            let ghost vv = v@;
            vars.set(i, (k, v));
            assert(pairs_view(vars@) =~= s.update(i as int, (s[i as int].0, vv)));
            assert(distinct_names(pairs_view(vars@)));
            return;
        }
    }
    let ghost kv = k@;
    let ghost vv = v@;
    vars.push((k, v));
    assert(pairs_view(vars@) =~= s.push((kv, vv)));
    assert(pairs_view(vars@).drop_last() =~= s);
}

} // verus!
