//! Name-to-value environments: the caller-supplied `globals` map and the
//! per-invocation `locals` map are both an [`Env`].
//!
//! An `Env` is modelled as a `Map<Seq<char>, ValView>`. Internally it keeps
//! one entry per name; an insert of a bound name rebinds it in place and
//! never creates a second entry.

use vstd::prelude::*;

use crate::ast::{val_view, ValView, VarVal, Variable};

verus! {

/// The model of a list of bindings: later entries win, as a map.
pub open spec fn env_map(s: Seq<Variable>) -> Map<Seq<char>, ValView>
    decreases s,
{
    if s.len() == 0 {
        Map::empty()
    } else {
        env_map(s.drop_last()).insert(s.last().ident@, val_view(s.last().value))
    }
}

/// An environment: a mapping from variable names to values.
pub struct Env {
    vars: Vec<Variable>,
}

impl Env {
    /// Each name is bound at most once.
    #[verifier::type_invariant]
    pub closed spec fn inv(self) -> bool {
        forall|i: int, j: int|
            0 <= i < j < self.vars@.len() ==> self.vars@[i].ident@ != self.vars@[j].ident@
    }

    /// An empty environment.
    pub fn new() -> (r: Env)
        ensures
            r@ == Map::<Seq<char>, ValView>::empty(),
    {
        Env { vars: Vec::new() }
    }

    /// The value bound to `name`, if any.
    pub fn get(&self, name: &String) -> (r: Option<&VarVal>)
        ensures
            match r {
                Option::Some(v) => self@.contains_key(name@) && v@ == self@[name@],
                Option::None => !self@.contains_key(name@),
            },
    {
        proof {
            use_type_invariant(self);
        }
        let n = self.vars.len();
        let mut i: usize = 0;
        while i < n
            invariant
                0 <= i <= n,
                n == self.vars@.len(),
                self.inv(),
                forall|j: int| 0 <= j < i ==> self.vars@[j].ident@ != name@,
            decreases n - i,
        {
            if self.vars[i].ident == *name {
                proof {
                    lemma_env_map_found(self.vars@, i as int);
                }
                return Some(&self.vars[i].value);
            }
            i = i + 1;
        }
        proof {
            lemma_env_map_absent(self.vars@, name@);
        }
        None
    }

    /// Binds `value` to `ident`: rebinds in place if `ident` is already
    /// bound, otherwise adds the binding.
    pub fn insert(&mut self, ident: String, value: VarVal)
        ensures
            final(self)@ == old(self)@.insert(ident@, value@),
    {
        proof {
            use_type_invariant(&*self);
        }
        let n = self.vars.len();
        let mut i: usize = 0;
        while i < n
            invariant
                0 <= i <= n,
                n == self.vars@.len(),
                self.vars@ == old(self).vars@,
                self.inv(),
                forall|j: int| 0 <= j < i ==> self.vars@[j].ident@ != ident@,
            decreases n - i,
        {
            if self.vars[i].ident == ident {
                let ghost old_vars = self.vars@;
                proof {
                    assert(forall|j: int|
                        0 <= j < old_vars.len() && j != i ==> old_vars[j].ident@ != ident@);
                }
                let mut vars: Vec<Variable> = Vec::new();
                core::mem::swap(&mut vars, &mut self.vars);
                vars[i] = Variable { ident, value };
                core::mem::swap(&mut vars, &mut self.vars);
                proof {
                    lemma_env_map_update(old_vars, i as int, self.vars@[i as int]);
                }
                return ;
            }
            i = i + 1;
        }
        let ghost old_vars = self.vars@;
        let mut vars: Vec<Variable> = Vec::new();
        core::mem::swap(&mut vars, &mut self.vars);
        vars.push(Variable { ident, value });
        core::mem::swap(&mut vars, &mut self.vars);
        proof {
            assert(self.vars@.drop_last() =~= old_vars);
        }
    }
}

impl View for Env {
    type V = Map<Seq<char>, ValView>;

    closed spec fn view(&self) -> Map<Seq<char>, ValView> {
        env_map(self.vars@)
    }
}

/// If no entry is named `name`, the map has no key `name`.
proof fn lemma_env_map_absent(s: Seq<Variable>, name: Seq<char>)
    requires
        forall|j: int| 0 <= j < s.len() ==> s[j].ident@ != name,
    ensures
        !env_map(s).contains_key(name),
    decreases s,
{
    if s.len() > 0 {
        lemma_env_map_absent(s.drop_last(), name);
    }
}

/// An entry whose name is unique in the list gives the map's value for it.
proof fn lemma_env_map_found(s: Seq<Variable>, i: int)
    requires
        0 <= i < s.len(),
        forall|j: int| i < j < s.len() ==> s[j].ident@ != s[i].ident@,
    ensures
        env_map(s).contains_key(s[i].ident@),
        env_map(s)[s[i].ident@] == val_view(s[i].value),
    decreases s,
{
    if i == s.len() - 1 {
    } else {
        lemma_env_map_found(s.drop_last(), i);
    }
}

/// Replacing the entry that holds a name rebinds that name in the map.
proof fn lemma_env_map_update(s: Seq<Variable>, i: int, x: Variable)
    requires
        0 <= i < s.len(),
        forall|j: int| i < j < s.len() ==> s[j].ident@ != s[i].ident@,
        x.ident@ == s[i].ident@,
    ensures
        env_map(s.update(i, x)) == env_map(s).insert(x.ident@, val_view(x.value)),
    decreases s,
{
    if i == s.len() - 1 {
        assert(s.update(i, x).drop_last() =~= s.drop_last());
        assert(env_map(s.update(i, x)) =~= env_map(s).insert(x.ident@, val_view(x.value)));
    } else {
        assert(s.update(i, x).drop_last() =~= s.drop_last().update(i, x));
        lemma_env_map_update(s.drop_last(), i, x);
        assert(env_map(s.update(i, x)) =~= env_map(s).insert(x.ident@, val_view(x.value)));
    }
}

} // verus!
