//! Run-time values and the environments that bind names to them.
//!
//! Environments live in one list and name each other by position, so that a
//! closure can keep the environment it was declared in for as long as it
//! likes. An environment's parent always stands before it in the list.

use vstd::prelude::*;
use crate::error::{ErrorOrEarlyReturn, ErrorView, RuntimeError, RuntimeErrorView};
use crate::Result;

verus! {

/// A first-class value.
#[derive(Debug, PartialEq)]
pub enum Value {
    Nil,
    Boolean(bool),
    /// An IEEE 754 double, by its bits.
    Number(u64),
    String(String),
    Object,
    Function(Function),
    NativeFunction(NativeFunction),
}

/// A closure: a declaration together with the environment it was declared in.
#[derive(Debug, PartialEq, Eq, Clone, Copy, Structural)]
pub struct Function {
    /// The position of the declaration among the interpreter's functions.
    pub decl: usize,
    /// The position of the captured environment among the environments.
    pub closure: usize,
}

/// A function that the host implements.
#[derive(Debug, PartialEq)]
pub struct NativeFunction {
    pub name: String,
    pub arity: usize,
}

/// A value as the contracts speak of it.
pub enum ValueView {
    Nil,
    Boolean(bool),
    Number(u64),
    String(Seq<char>),
    Object,
    Function(Function),
    NativeFunction(Seq<char>, usize),
}

impl View for Value {
    type V = ValueView;

    open spec fn view(&self) -> ValueView {
        match self {
            Value::Nil => ValueView::Nil,
            Value::Boolean(b) => ValueView::Boolean(*b),
            Value::Number(n) => ValueView::Number(*n),
            Value::String(s) => ValueView::String(s@),
            Value::Object => ValueView::Object,
            Value::Function(f) => ValueView::Function(*f),
            Value::NativeFunction(f) => ValueView::NativeFunction(f.name@, f.arity),
        }
    }
}

impl Clone for Value {
    fn clone(&self) -> (v: Self)
        ensures
            v@ == self@,
    {
        match self {
            Value::Nil => Value::Nil,
            Value::Boolean(b) => Value::Boolean(*b),
            Value::Number(n) => Value::Number(*n),
            Value::String(s) => Value::String(s.clone()),
            Value::Object => Value::Object,
            Value::Function(f) => Value::Function(*f),
            Value::NativeFunction(f) => Value::NativeFunction(
                NativeFunction { name: f.name.clone(), arity: f.arity },
            ),
        }
    }
}

/// The bindings of one scope, and the scope around it.
#[derive(Debug)]
pub struct Environment {
    /// Each name once, with its value, in the order of declaration.
    pub values: Vec<(String, Value)>,
    /// The position of the enclosing environment among the environments.
    pub parent: Option<usize>,
    /// Whether a function was declared here, and so may still need this
    /// environment after the scope has ended.
    pub captured: bool,
}

/// An environment as the contracts speak of it.
pub struct EnvironmentView {
    pub bindings: Seq<(Seq<char>, ValueView)>,
    pub parent: Option<usize>,
    pub captured: bool,
}

/// The bindings of an environment, as the contracts speak of them.
pub open spec fn bindings_view(values: Seq<(String, Value)>) -> Seq<(Seq<char>, ValueView)> {
    Seq::new(values.len(), |i: int| (values[i].0@, values[i].1@))
}

impl View for Environment {
    type V = EnvironmentView;

    open spec fn view(&self) -> EnvironmentView {
        EnvironmentView {
            bindings: bindings_view(self.values@),
            parent: self.parent,
            captured: self.captured,
        }
    }
}

/// The first position at or after `from` where `bindings` binds `name`; the
/// length of `bindings` where none does.
pub open spec fn position(bindings: Seq<(Seq<char>, ValueView)>, name: Seq<char>, from: int) -> int
    decreases bindings.len() - from,
{
    if 0 <= from < bindings.len() && bindings[from].0 != name {
        position(bindings, name, from + 1)
    } else {
        from
    }
}

/// The value that `bindings` binds `name` to, if any.
pub open spec fn bound(bindings: Seq<(Seq<char>, ValueView)>, name: Seq<char>) -> Option<
    ValueView,
> {
    let at = position(bindings, name, 0);
    if at < bindings.len() {
        Some(bindings[at].1)
    } else {
        None
    }
}

/// `bindings` with `name` bound to `value`: in place where it was bound
/// already, at the end where it was not.
pub open spec fn bind(
    bindings: Seq<(Seq<char>, ValueView)>,
    name: Seq<char>,
    value: ValueView,
) -> Seq<(Seq<char>, ValueView)> {
    let at = position(bindings, name, 0);
    if at < bindings.len() {
        bindings.update(at, (name, value))
    } else {
        bindings.push((name, value))
    }
}

pub proof fn lemma_position(bindings: Seq<(Seq<char>, ValueView)>, name: Seq<char>, from: int)
    requires
        0 <= from <= bindings.len(),
    ensures
        from <= position(bindings, name, from) <= bindings.len(),
        position(bindings, name, from) < bindings.len() ==> bindings[position(
            bindings,
            name,
            from,
        )].0 == name,
        forall|i: int| from <= i < position(bindings, name, from) ==> (#[trigger] bindings[i]).0
            != name,
    decreases bindings.len() - from,
{
    if from < bindings.len() && bindings[from].0 != name {
        lemma_position(bindings, name, from + 1);
    }
}

/// A name reads as the value it was last bound to; other names are untouched.
pub proof fn lemma_bind_then_bound(
    bindings: Seq<(Seq<char>, ValueView)>,
    name: Seq<char>,
    value: ValueView,
    other: Seq<char>,
)
    ensures
        bound(bind(bindings, name, value), name) == Some(value),
        other != name ==> bound(bind(bindings, name, value), other) == bound(bindings, other),
{
    let after = bind(bindings, name, value);
    lemma_position(bindings, name, 0);
    lemma_position(after, name, 0);
    lemma_position(bindings, other, 0);
    lemma_position(after, other, 0);
    let at = position(bindings, name, 0);
    let found = position(after, name, 0);
    assert(after[at].0 == name);
    if found < at {
        assert(bindings[found].0 != name);
    }
    if other != name {
        let a = position(bindings, other, 0);
        let b = position(after, other, 0);
        if a < bindings.len() {
            assert(after[a].0 == other);
        }
        if b < after.len() {
            if b < bindings.len() {
                assert(bindings[b].0 == other);
            }
        }
        if a < b {
            assert(after[a].0 != other);
        }
        if b < a {
            assert(bindings[b].0 != other);
        }
    }
}

impl Environment {
    pub fn new(parent: Option<usize>) -> (env: Self)
        ensures
            env@ == (EnvironmentView { bindings: Seq::empty(), parent, captured: false }),
    {
        let env = Environment { values: Vec::new(), parent, captured: false };
        proof {
            assert(bindings_view(env.values@) =~= Seq::empty());
        }
        env
    }

    /// Where this environment binds `name`, if it does.
    pub fn find(&self, name: &String) -> (at: usize)
        ensures
            at == position(self@.bindings, name@, 0),
            at <= self.values.len(),
    {
        let mut at: usize = 0;
        while at < self.values.len() && !(self.values[at].0 == *name)
            invariant
                0 <= at <= self.values.len(),
                position(self@.bindings, name@, 0) == position(self@.bindings, name@, at as int),
            decreases self.values.len() - at,
        {
            at += 1;
        }
        at
    }
}

// ---------------------------------------------------------------------------
// Chains of environments
// ---------------------------------------------------------------------------

/// The views of a list of environments.
pub open spec fn environments_view(envs: Seq<Environment>) -> Seq<EnvironmentView> {
    Seq::new(envs.len(), |i: int| envs[i]@)
}

/// The environment `depth` links up from `env`, if the chain is that long.
pub open spec fn ancestor(envs: Seq<EnvironmentView>, env: int, depth: int) -> Option<int>
    decreases depth,
{
    if !(0 <= env < envs.len()) {
        None
    } else if depth <= 0 {
        Some(env)
    } else {
        match envs[env].parent {
            Some(parent) => ancestor(envs, parent as int, depth - 1),
            None => None,
        }
    }
}

/// The nearest environment that binds `name`, walking outward from `env`.
pub open spec fn holder(envs: Seq<EnvironmentView>, env: int, name: Seq<char>) -> Option<int>
    decreases env,
{
    if !(0 <= env < envs.len()) {
        None
    } else if bound(envs[env].bindings, name) is Some {
        Some(env)
    } else {
        match envs[env].parent {
            Some(parent) => if parent < env {
                holder(envs, parent as int, name)
            } else {
                None
            },
            None => None,
        }
    }
}

/// The environment that a reference to `name` from `env` means: with a
/// resolved depth, the one that many links up, if it binds the name; without
/// one, the nearest that binds it.
pub open spec fn target(
    envs: Seq<EnvironmentView>,
    env: int,
    name: Seq<char>,
    depth: Option<usize>,
) -> Option<int> {
    match depth {
        Some(d) => match ancestor(envs, env, d as int) {
            Some(a) => if bound(envs[a].bindings, name) is Some {
                Some(a)
            } else {
                None
            },
            None => None,
        },
        None => holder(envs, env, name),
    }
}

/// The value of `name` as seen from `env`, if it has one.
pub open spec fn lookup(
    envs: Seq<EnvironmentView>,
    env: int,
    name: Seq<char>,
    depth: Option<usize>,
) -> Option<ValueView> {
    match target(envs, env, name, depth) {
        Some(a) => bound(envs[a].bindings, name),
        None => None,
    }
}

/// `envs` with `name` bound to `value` in the environment at `at`.
pub open spec fn rebind(
    envs: Seq<EnvironmentView>,
    at: int,
    name: Seq<char>,
    value: ValueView,
) -> Seq<EnvironmentView> {
    if 0 <= at < envs.len() {
        envs.update(
            at,
            EnvironmentView { bindings: bind(envs[at].bindings, name, value), ..envs[at] },
        )
    } else {
        envs
    }
}

pub proof fn lemma_target_in_range(
    envs: Seq<EnvironmentView>,
    env: int,
    name: Seq<char>,
    depth: Option<usize>,
)
    ensures
        target(envs, env, name, depth) matches Some(a) ==> 0 <= a < envs.len() && bound(
            envs[a].bindings,
            name,
        ) is Some,
{
    match depth {
        Some(d) => lemma_ancestor_in_range(envs, env, d as int),
        None => lemma_holder_in_range(envs, env, name),
    }
}

pub proof fn lemma_ancestor_in_range(envs: Seq<EnvironmentView>, env: int, depth: int)
    ensures
        ancestor(envs, env, depth) matches Some(a) ==> 0 <= a < envs.len(),
    decreases depth,
{
    if 0 <= env < envs.len() && depth > 0 {
        if let Some(parent) = envs[env].parent {
            lemma_ancestor_in_range(envs, parent as int, depth - 1);
        }
    }
}

pub proof fn lemma_holder_in_range(envs: Seq<EnvironmentView>, env: int, name: Seq<char>)
    ensures
        holder(envs, env, name) matches Some(a) ==> 0 <= a <= env && a < envs.len() && bound(
            envs[a].bindings,
            name,
        ) is Some,
    decreases env,
{
    if 0 <= env < envs.len() && bound(envs[env].bindings, name) is None {
        if let Some(parent) = envs[env].parent {
            if parent < env {
                lemma_holder_in_range(envs, parent as int, name);
            }
        }
    }
}

impl Environment {
    /// Finds the environment that a reference to `name` from `env` means.
    pub fn find_target(envs: &Vec<Environment>, env: usize, name: &String, depth: Option<usize>) -> (r:
        Option<usize>)
        ensures
            match target(environments_view(envs@), env as int, name@, depth) {
                Some(a) => r matches Some(found) && found == a && a < envs.len(),
                None => r is None,
            },
    {
        let ghost all = environments_view(envs@);
        proof {
            lemma_target_in_range(all, env as int, name@, depth);
        }
        match depth {
            Some(d) => {
                let mut at = env;
                let mut left = d;
                loop
                    invariant
                        all == environments_view(envs@),
                        depth == Some(d),
                        ancestor(all, env as int, d as int) == ancestor(all, at as int, left as int),
                    decreases left,
                {
                    if at >= envs.len() {
                        return None;
                    }
                    if left == 0 {
                        let found = envs[at].find(name);
                        return if found < envs[at].values.len() {
                            Some(at)
                        } else {
                            None
                        };
                    }
                    match envs[at].parent {
                        Some(parent) => {
                            at = parent;
                            left -= 1;
                        },
                        None => {
                            return None;
                        },
                    }
                }
            },
            None => {
                let mut at = env;
                loop
                    invariant
                        all == environments_view(envs@),
                        depth is None,
                        holder(all, env as int, name@) == holder(all, at as int, name@),
                    decreases at,
                {
                    if at >= envs.len() {
                        return None;
                    }
                    let found = envs[at].find(name);
                    if found < envs[at].values.len() {
                        return Some(at);
                    }
                    match envs[at].parent {
                        Some(parent) => {
                            if parent < at {
                                at = parent;
                            } else {
                                return None;
                            }
                        },
                        None => {
                            return None;
                        },
                    }
                }
            },
        }
    }

    /// The value of `name` as seen from `env`: not found is an answer, not a
    /// failure.
    pub fn get(envs: &Vec<Environment>, env: usize, name: &String, depth: Option<usize>) -> (value:
        Option<Value>)
        ensures
            match lookup(environments_view(envs@), env as int, name@, depth) {
                Some(found) => value matches Some(v) && v@ == found,
                None => value is None,
            },
    {
        proof {
            lemma_target_in_range(environments_view(envs@), env as int, name@, depth);
        }
        match Environment::find_target(envs, env, name, depth) {
            Some(at) => {
                let found = envs[at].find(name);
                Some(envs[at].values[found].1.clone())
            },
            None => None,
        }
    }

    /// Gives `name`, as seen from `env`, the value `value`. A name that is not
    /// bound stays unbound: assigning to it is an error, never a declaration.
    pub fn assign(
        envs: &mut Vec<Environment>,
        env: usize,
        name: &String,
        depth: Option<usize>,
        value: Value,
    ) -> (r: Result<()>)
        ensures
            match target(environments_view(old(envs)@), env as int, name@, depth) {
                Some(at) => r is Ok && environments_view(final(envs)@) == rebind(
                    environments_view(old(envs)@),
                    at,
                    name@,
                    value@,
                ),
                None => {
                    &&& environments_view(final(envs)@) == environments_view(old(envs)@)
                    &&& r matches Err(e) && e@ == ErrorView::RuntimeError(
                        RuntimeErrorView::UndefinedVariable(name@),
                    )
                },
            },
    {
        let ghost before = environments_view(envs@);
        proof {
            lemma_target_in_range(before, env as int, name@, depth);
        }
        match Environment::find_target(envs, env, name, depth) {
            Some(at) => {
                let found = envs[at].find(name);
                let ghost bindings = envs[at as int]@.bindings;
                envs[at].values[found] = (name.clone(), value);
                proof {
                    assert(envs[at as int]@.bindings =~= bindings.update(
                        found as int,
                        (name@, value@),
                    ));
                    assert(environments_view(envs@) =~= rebind(before, at as int, name@, value@));
                }
                Ok(())
            },
            None => Err(ErrorOrEarlyReturn::RuntimeError(RuntimeError::UndefinedVariable(name.clone()))),
        }
    }

    /// Binds `name` to `value` in the environment at `env`, whether or not it was
    /// bound there before. Nothing changes where there is no such environment.
    pub fn define(envs: &mut Vec<Environment>, env: usize, name: &String, value: Value)
        ensures
            environments_view(final(envs)@) == rebind(
                environments_view(old(envs)@),
                env as int,
                name@,
                value@,
            ),
    {
        let ghost before = environments_view(envs@);
        if env < envs.len() {
            let found = envs[env].find(name);
            let ghost bindings = envs[env as int]@.bindings;
            if found < envs[env].values.len() {
                envs[env].values[found] = (name.clone(), value);
                proof {
                    assert(envs[env as int]@.bindings =~= bindings.update(
                        found as int,
                        (name@, value@),
                    ));
                }
            } else {
                envs[env].values.push((name.clone(), value));
                proof {
                    assert(envs[env as int]@.bindings =~= bindings.push((name@, value@)));
                }
            }
            proof {
                assert(environments_view(envs@) =~= rebind(before, env as int, name@, value@));
            }
        }
    }
}

/// Walking outward from `env` sees only environments at or before `env`: two
/// lists that agree up to there give the same answer.
pub proof fn lemma_holder_looks_outward(
    a: Seq<EnvironmentView>,
    b: Seq<EnvironmentView>,
    env: int,
    name: Seq<char>,
)
    requires
        a.len() == b.len(),
        forall|k: int| 0 <= k <= env && k < a.len() ==> a[k] == b[k],
    ensures
        holder(a, env, name) == holder(b, env, name),
    decreases env,
{
    if 0 <= env < a.len() && bound(a[env].bindings, name) is None {
        if let Some(parent) = a[env].parent {
            if parent < env {
                lemma_holder_looks_outward(a, b, parent as int, name);
            }
        }
    }
}

/// A declaration in an inner environment shadows and does not destroy: the
/// name reads as its new value from the inner environment, and every name
/// reads as before from an environment made earlier.
pub proof fn lemma_shadowing(
    envs: Seq<EnvironmentView>,
    inner: int,
    outer: int,
    name: Seq<char>,
    value: ValueView,
    other: Seq<char>,
)
    requires
        0 <= outer < inner < envs.len(),
    ensures
        lookup(rebind(envs, inner, name, value), inner, name, None) == Some(value),
        lookup(rebind(envs, inner, name, value), outer, other, None) == lookup(
            envs,
            outer,
            other,
            None,
        ),
{
    let after = rebind(envs, inner, name, value);
    lemma_bind_then_bound(envs[inner].bindings, name, value, other);
    lemma_holder_looks_outward(envs, after, outer, other);
    lemma_holder_in_range(envs, outer, other);
}

} // verus!
