//! The environment: a stack of lexical scopes mapping names to values,
//! with a fallback query path into the command cache.

use vstd::prelude::*;

use crate::commands::Commands;
use crate::eval::EvalErrorKind;
use crate::lexer::str_eq;
use crate::tree::ElemV;
use crate::val::{Val, ValV};

verus! {

/// What a call name resolves to: a lambda to apply, or an external
/// command to spawn.
#[derive(Debug)]
pub enum FuncOrCommand {
    /// a lambda value: the whole `Lambda` syntax node
    Func(Val),
    /// the path of an external command
    Command(String),
}

/// A chain of lexical scopes, innermost last, over a command cache.
#[derive(Debug)]
pub struct Env {
    /// the scopes, outermost first; never empty
    pub scopes: Vec<Vec<(String, Val)>>,
    /// the external command cache consulted as a fallback
    pub commands: Commands,
}

/// The mapping one scope denotes: each binding stored in order, so a
/// later binding of the same name overwrites an earlier one.
pub open spec fn scope_map(s: Seq<(String, Val)>) -> Map<Seq<char>, ValV>
    decreases s.len(),
{
    if s.len() == 0 {
        Map::empty()
    } else {
        scope_map(s.drop_last()).insert(s.last().0@, s.last().1@)
    }
}

/// A name behind the last binding carrying it maps to that binding's
/// value.
pub proof fn lemma_scope_map_at(s: Seq<(String, Val)>, j: int, name: Seq<char>)
    requires
        0 <= j < s.len(),
        s[j].0@ == name,
        forall|k: int| j < k < s.len() ==> (#[trigger] s[k].0@) != name,
    ensures
        scope_map(s).contains_key(name),
        scope_map(s)[name] == s[j].1@,
    decreases s.len(),
{
    if j < s.len() - 1 {
        assert(s.drop_last()[j] == s[j]);
        assert forall|k: int| j < k < s.drop_last().len() implies (#[trigger] s.drop_last()[k].0@)
            != name by {
            assert(s.drop_last()[k] == s[k]);
        }
        lemma_scope_map_at(s.drop_last(), j, name);
    }
}

/// A name no binding carries maps to nothing.
pub proof fn lemma_scope_map_none(s: Seq<(String, Val)>, name: Seq<char>)
    requires
        forall|k: int| 0 <= k < s.len() ==> (#[trigger] s[k].0@) != name,
    ensures
        !scope_map(s).contains_key(name),
    decreases s.len(),
{
    if s.len() > 0 {
        assert forall|k: int| 0 <= k < s.drop_last().len() implies (#[trigger] s.drop_last()[k].0@)
            != name by {
            assert(s.drop_last()[k] == s[k]);
        }
        lemma_scope_map_none(s.drop_last(), name);
    }
}

/// Walks the scope chain outward: the innermost scope that binds the
/// name decides its value.
pub open spec fn lookup_chain(envs: Seq<Map<Seq<char>, ValV>>, name: Seq<char>) -> Option<ValV>
    decreases envs.len(),
{
    if envs.len() == 0 {
        None
    } else if envs.last().contains_key(name) {
        Some(envs.last()[name])
    } else {
        lookup_chain(envs.drop_last(), name)
    }
}

/// What a name resolves to when called.
pub enum ResolvedS {
    /// a lambda value bound to the name
    Func(ElemV),
    /// the path of a cached external command
    Command(Seq<char>),
    /// nothing: the error to report
    Missing(EvalErrorKind),
}

/// Resolution of a call name: a binding holding a lambda wins; then the
/// command cache; a binding holding anything else only counts once the
/// cache has no entry either.
pub open spec fn resolve_spec(
    envs: Seq<Map<Seq<char>, ValV>>,
    cmds: Map<Seq<char>, Seq<char>>,
    name: Seq<char>,
) -> ResolvedS {
    match lookup_chain(envs, name) {
        Some(ValV::Lambda(e)) => ResolvedS::Func(e),
        Some(v) => if cmds.contains_key(name) {
            ResolvedS::Command(cmds[name])
        } else {
            ResolvedS::Missing(EvalErrorKind::CallNonLambda { ty: v.ty() })
        },
        None => if cmds.contains_key(name) {
            ResolvedS::Command(cmds[name])
        } else {
            ResolvedS::Missing(EvalErrorKind::FuncOrCommandDoesNotExist)
        },
    }
}

/// Fetches a name's value from one scope, innermost binding first.
fn scope_get(scope: &Vec<(String, Val)>, name: &str) -> (r: Option<Val>)
    ensures
        match r {
            Some(v) => scope_map(scope@).contains_key(name@) && scope_map(scope@)[name@] == v@,
            None => !scope_map(scope@).contains_key(name@),
        },
{
    let n = scope.len();
    let mut j: usize = n;
    while j > 0
        invariant
            n == scope@.len(),
            j <= n,
            forall|k: int| j <= k < n ==> (#[trigger] scope@[k].0@) != name@,
        decreases j,
    {
        j = j - 1;
        if str_eq(scope[j].0.as_str(), name) {
            proof {
                lemma_scope_map_at(scope@, j as int, name@);
            }
            return Some(scope[j].1.dup());
        }
    }
    proof {
        lemma_scope_map_none(scope@, name@);
    }
    None
}

/// Scopes whose bindings agree pairwise denote the same mapping.
pub proof fn lemma_scope_map_congruent(a: Seq<(String, Val)>, b: Seq<(String, Val)>)
    requires
        a.len() == b.len(),
        forall|k: int|
            0 <= k < a.len() ==> (#[trigger] a[k]).0@ == b[k].0@ && a[k].1@ == b[k].1@,
    ensures
        scope_map(a) == scope_map(b),
    decreases a.len(),
{
    if a.len() > 0 {
        assert forall|k: int|
            0 <= k < a.drop_last().len() implies (#[trigger] a.drop_last()[k]).0@
            == b.drop_last()[k].0@ && a.drop_last()[k].1@ == b.drop_last()[k].1@ by {
            assert(a.drop_last()[k] == a[k]);
            assert(b.drop_last()[k] == b[k]);
        }
        lemma_scope_map_congruent(a.drop_last(), b.drop_last());
    }
}

/// Command lists whose entries agree pairwise denote the same mapping.
pub proof fn lemma_cmd_map_congruent(a: Seq<(String, String)>, b: Seq<(String, String)>)
    requires
        a.len() == b.len(),
        forall|k: int|
            0 <= k < a.len() ==> (#[trigger] a[k]).0@ == b[k].0@ && a[k].1@ == b[k].1@,
    ensures
        crate::commands::cmd_map(a) == crate::commands::cmd_map(b),
    decreases a.len(),
{
    if a.len() > 0 {
        assert forall|k: int|
            0 <= k < a.drop_last().len() implies (#[trigger] a.drop_last()[k]).0@
            == b.drop_last()[k].0@ && a.drop_last()[k].1@ == b.drop_last()[k].1@ by {
            assert(a.drop_last()[k] == a[k]);
            assert(b.drop_last()[k] == b[k]);
        }
        lemma_cmd_map_congruent(a.drop_last(), b.drop_last());
    }
}

impl Env {
    /// The scope chain as mappings, outermost first.
    pub open spec fn view_scopes(self) -> Seq<Map<Seq<char>, ValV>> {
        Seq::new(self.scopes@.len(), |i: int| scope_map(self.scopes@[i]@))
    }

    /// The command cache's mapping.
    pub open spec fn view_cmds(self) -> Map<Seq<char>, Seq<char>> {
        self.commands.view_map()
    }

    /// The environment has at least its root scope.
    pub open spec fn wf(self) -> bool {
        self.scopes@.len() > 0
    }

    /// A fresh environment: one empty root scope over the given
    /// command cache.
    pub fn new(commands: Commands) -> (r: Env)
        ensures
            r.wf(),
            r.view_scopes() =~= seq![Map::<Seq<char>, ValV>::empty()],
            r.view_cmds() == commands.view_map(),
    {
        let mut scopes: Vec<Vec<(String, Val)>> = Vec::new();
        scopes.push(Vec::new());
        Env { scopes, commands }
    }

    /// Copies the whole environment: every scope, every binding, and
    /// the command cache.
    pub fn dup(&self) -> (r: Env)
        ensures
            r.view_scopes() == self.view_scopes(),
            r.view_cmds() == self.view_cmds(),
            r.wf() == self.wf(),
    {
        let mut scopes: Vec<Vec<(String, Val)>> = Vec::new();
        let n = self.scopes.len();
        let mut i: usize = 0;
        while i < n
            invariant
                n == self.scopes@.len(),
                i <= n,
                scopes@.len() == i,
                forall|k: int|
                    0 <= k < i ==> scope_map(#[trigger] scopes@[k]@) == scope_map(
                        self.scopes@[k]@,
                    ),
            decreases n - i,
        {
            let src_scope = &self.scopes[i];
            let m = src_scope.len();
            let mut entries: Vec<(String, Val)> = Vec::new();
            let mut j: usize = 0;
            while j < m
                invariant
                    m == src_scope@.len(),
                    j <= m,
                    entries@.len() == j,
                    forall|k: int|
                        0 <= k < j ==> (#[trigger] entries@[k]).0@ == src_scope@[k].0@
                            && entries@[k].1@ == src_scope@[k].1@,
                decreases m - j,
            {
                let name = src_scope[j].0.clone();
                let value = src_scope[j].1.dup();
                entries.push((name, value));
                j = j + 1;
            }
            proof {
                lemma_scope_map_congruent(entries@, src_scope@);
            }
            scopes.push(entries);
            i = i + 1;
        }
        let src_entries = &self.commands.entries;
        let m = src_entries.len();
        let mut entries: Vec<(String, String)> = Vec::new();
        let mut j: usize = 0;
        while j < m
            invariant
                m == src_entries@.len(),
                j <= m,
                entries@.len() == j,
                forall|k: int|
                    0 <= k < j ==> (#[trigger] entries@[k]).0@ == src_entries@[k].0@
                        && entries@[k].1@ == src_entries@[k].1@,
            decreases m - j,
        {
            entries.push((src_entries[j].0.clone(), src_entries[j].1.clone()));
            j = j + 1;
        }
        proof {
            lemma_cmd_map_congruent(entries@, src_entries@);
        }
        let commands = Commands { entries };
        proof {
            assert(Env { scopes: scopes, commands: commands }.view_scopes()
                =~= self.view_scopes());
        }
        Env { scopes, commands }
    }

    /// Opens a fresh innermost scope.
    pub fn create_child(&mut self)
        requires
            old(self).wf(),
        ensures
            final(self).wf(),
            final(self).view_scopes() =~= old(self).view_scopes().push(
                Map::<Seq<char>, ValV>::empty(),
            ),
            final(self).view_cmds() == old(self).view_cmds(),
    {
        self.scopes.push(Vec::new());
    }

    /// Discards the innermost scope.
    pub fn drop_child(&mut self)
        requires
            old(self).scopes@.len() > 1,
        ensures
            final(self).wf(),
            final(self).view_scopes() =~= old(self).view_scopes().drop_last(),
            final(self).view_cmds() == old(self).view_cmds(),
    {
        let _ = self.scopes.pop();
    }

    /// Stores a value under a name in the innermost scope; a later
    /// store with the same name wins.
    pub fn store_binding(&mut self, name: String, value: Val)
        requires
            old(self).wf(),
        ensures
            final(self).wf(),
            final(self).view_scopes() =~= old(self).view_scopes().update(
                old(self).view_scopes().len() - 1,
                old(self).view_scopes().last().insert(name@, value@),
            ),
            final(self).view_cmds() == old(self).view_cmds(),
    {
        let ghost oldscopes = self.scopes@;
        let mut top = match self.scopes.pop() {
            Some(t) => t,
            None => unreached(),
        };
        let ghost oldtop = top@;
        top.push((name, value));
        self.scopes.push(top);
        proof {
            assert(top@.drop_last() =~= oldtop);
            assert(scope_map(top@) == scope_map(oldtop).insert(
                top@.last().0@,
                top@.last().1@,
            ));
        }
    }

    /// Looks a name up through the scope chain, innermost scope first.
    pub fn get_binding(&self, name: &str) -> (r: Option<Val>)
        ensures
            match r {
                Some(v) => lookup_chain(self.view_scopes(), name@) == Some(v@),
                None => lookup_chain(self.view_scopes(), name@) is None,
            },
    {
        let n = self.scopes.len();
        let mut j: usize = n;
        proof {
            assert(self.view_scopes().take(n as int) =~= self.view_scopes());
        }
        while j > 0
            invariant
                n == self.scopes@.len(),
                j <= n,
                lookup_chain(self.view_scopes(), name@) == lookup_chain(
                    self.view_scopes().take(j as int),
                    name@,
                ),
            decreases j,
        {
            j = j - 1;
            let ghost pre = self.view_scopes().take(j as int + 1);
            proof {
                assert(pre.last() == scope_map(self.scopes@[j as int]@));
                assert(pre.drop_last() =~= self.view_scopes().take(j as int));
            }
            match scope_get(&self.scopes[j], name) {
                Some(v) => {
                    return Some(v);
                },
                None => {},
            }
        }
        proof {
            assert(self.view_scopes().take(0) =~= Seq::<Map<Seq<char>, ValV>>::empty());
        }
        None
    }

    /// Resolves a call name: first as a binding holding a lambda, then
    /// through the command cache; reports what is wrong when neither
    /// works.
    pub fn get_func_or_command(&self, name: &str) -> (r: Result<FuncOrCommand, EvalErrorKind>)
        ensures
            match r {
                Ok(FuncOrCommand::Func(v)) => v@ matches ValV::Lambda(e) && resolve_spec(
                    self.view_scopes(),
                    self.view_cmds(),
                    name@,
                ) == ResolvedS::Func(e),
                Ok(FuncOrCommand::Command(p)) => resolve_spec(
                    self.view_scopes(),
                    self.view_cmds(),
                    name@,
                ) == ResolvedS::Command(p@),
                Err(k) => resolve_spec(self.view_scopes(), self.view_cmds(), name@)
                    == ResolvedS::Missing(k),
            },
    {
        match self.get_binding(name) {
            Some(v) => {
                let is_lambda = match &v {
                    Val::Lambda(..) => true,
                    _ => false,
                };
                if is_lambda {
                    Ok(FuncOrCommand::Func(v))
                } else {
                    match self.commands.get(name) {
                        Some(path) => Ok(FuncOrCommand::Command(path)),
                        None => Err(EvalErrorKind::CallNonLambda { ty: v.ty() }),
                    }
                }
            },
            None => match self.commands.get(name) {
                Some(path) => Ok(FuncOrCommand::Command(path)),
                None => Err(EvalErrorKind::FuncOrCommandDoesNotExist),
            },
        }
    }
}

} // verus!
