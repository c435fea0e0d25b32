use vstd::prelude::*;
use crate::compiler::{
    compile, compile_form, find_last, lemma_compile_within, position_of, refs_within, Form,
};
use crate::engine::{apply, eval, refer, Definition, Expr};
use crate::term::{Bound, EvalError, Value};

verus! {

/// The definitions that expressions are resolved against. A definition,
/// once added, never changes and is never removed.
pub struct Registry {
    pub(crate) defs: Vec<Definition>,
    pub(crate) names: Vec<String>,
}

impl Registry {
    /// The definitions, by index.
    pub closed spec fn spec_defs(&self) -> Seq<Definition> {
        self.defs@
    }

    /// Resolves a closed expression. `fuel` bounds how deeply saturated
    /// applications may nest; where it runs out the result is `NonTermination`.
    pub fn resolve(&self, e: &Expr, fuel: u64) -> (r: Result<Value, EvalError>)
        ensures
            r == eval(self.spec_defs(), *e, Bound::Empty, fuel as nat),
    {
        self.eval_in(e, &Bound::Empty, 0, fuel)
    }

    fn eval_in(&self, e: &Expr, env: &Bound, env_len: usize, fuel: u64) -> (r: Result<Value, EvalError>)
        requires
            env_len == env.args().len(),
        ensures
            r == eval(self.defs@, *e, *env, fuel as nat),
        decreases fuel, e.size(),
    {
        match e {
            Expr::Atom(a) => Ok(Value::Atom(*a)),
            Expr::Param(i) => {
                if *i < env_len {
                    match env.from_back(env_len - 1 - *i) {
                        Some(v) => Ok(v.duplicate()),
                        None => Err(EvalError::UnboundName),
                    }
                } else {
                    Err(EvalError::UnboundName)
                }
            },
            Expr::Def(d) => self.refer(*d, fuel),
            Expr::Apply(f, x) => {
                match self.eval_in(f, env, env_len, fuel) {
                    Err(err) => Err(err),
                    Ok(fv) => match self.eval_in(x, env, env_len, fuel) {
                        Err(err) => Err(err),
                        Ok(xv) => self.apply(fv, xv, fuel),
                    },
                }
            },
        }
    }

    /// The value that a reference to definition `d` resolves to.
    pub fn refer(&self, d: usize, fuel: u64) -> (r: Result<Value, EvalError>)
        ensures
            r == refer(self.spec_defs(), d, fuel as nat),
        decreases fuel, 0nat,
    {
        if d >= self.defs.len() {
            Err(EvalError::UnboundName)
        } else if self.defs[d].arity == 0 {
            if fuel == 0 {
                Err(EvalError::NonTermination)
            } else {
                self.eval_in(&self.defs[d].body, &Bound::Empty, 0, fuel - 1)
            }
        } else {
            Ok(Value::Partial { def: d, bound: Bound::Empty })
        }
    }

    /// Applies `f` to `x`, evaluating the body at once when `f` thereby
    /// holds all its arguments.
    pub fn apply(&self, f: Value, x: Value, fuel: u64) -> (r: Result<Value, EvalError>)
        ensures
            r == apply(self.spec_defs(), f, x, fuel as nat),
        decreases fuel, 0nat,
    {
        match f {
            Value::Atom(_) => Err(EvalError::ShapeMismatch),
            Value::Partial { def, bound } => {
                if def >= self.defs.len() {
                    return Err(EvalError::UnboundName);
                }
                let arity = self.defs[def].arity;
                let k = bound.count_upto(arity);
                if k >= arity {
                    return Err(EvalError::ArityMismatch);
                }
                let next = Bound::Then(Box::new(bound), Box::new(x));
                if k + 1 < arity {
                    Ok(Value::Partial { def, bound: next })
                } else if fuel == 0 {
                    Err(EvalError::NonTermination)
                } else {
                    self.eval_in(&self.defs[def].body, &next, arity, fuel - 1)
                }
            },
        }
    }
    /// The names of the definitions, by index.
    pub closed spec fn spec_names(&self) -> Seq<Seq<char>> {
        self.names@.map_values(|s: String| s@)
    }

    /// One name per definition, and each body refers only to its own
    /// parameters and to definitions made before it.
    pub open spec fn wf(&self) -> bool {
        &&& self.spec_defs().len() == self.spec_names().len()
        &&& forall|i: int|
            0 <= i < self.spec_defs().len() ==> refs_within(
                #[trigger] self.spec_defs()[i].body,
                self.spec_defs()[i].arity as nat,
                i as nat,
            )
    }

    /// A registry without definitions.
    pub fn new() -> (r: Registry)
        ensures
            r.wf(),
            r.spec_defs() == Seq::<Definition>::empty(),
            r.spec_names() == Seq::<Seq<char>>::empty(),
    {
        let r = Registry { defs: Vec::new(), names: Vec::new() };
        assert(r.spec_names() =~= Seq::<Seq<char>>::empty());
        r
    }

    /// The number of definitions.
    pub fn len(&self) -> (r: usize)
        ensures
            r == self.spec_defs().len(),
    {
        self.defs.len()
    }

    /// The index of the latest definition called `name`.
    pub fn lookup(&self, name: &String) -> (r: Option<usize>)
        ensures
            r matches Some(i) ==> find_last(self.spec_names(), name@) == Some(i as nat),
            r is None ==> find_last(self.spec_names(), name@) is None,
    {
        position_of(&self.names, name)
    }

    /// Compiles `name ::= { params[0]. ... . body }` and adds it, returning
    /// its index. A name in the body that is neither a parameter nor an
    /// earlier definition is refused, so no definition refers to itself.
    pub fn define(&mut self, name: String, params: Vec<String>, body: &Form) -> (r: Result<usize, EvalError>)
        requires
            old(self).wf(),
        ensures
            final(self).wf(),
            match compile(*body, params@.map_values(|s: String| s@), old(self).spec_names()) {
                Err(err) => r == Err::<usize, EvalError>(err) && *final(self) == *old(self),
                Ok(e) => {
                    &&& r == Ok::<usize, EvalError>(old(self).spec_defs().len() as usize)
                    &&& final(self).spec_defs() == old(self).spec_defs().push(
                        Definition { arity: params@.len() as usize, body: e },
                    )
                    &&& final(self).spec_names() == old(self).spec_names().push(name@)
                },
            },
    {
        let compiled = compile_form(body, &params, &self.names);
        match compiled {
            Err(err) => Err(err),
            Ok(e) => {
                proof {
                    lemma_compile_within(
                        *body,
                        params@.map_values(|s: String| s@),
                        self.spec_names(),
                    );
                }
                let index = self.defs.len();
                let ghost old_names = self.names@;
                self.defs.push(Definition { arity: params.len(), body: e });
                self.names.push(name);
                assert(self.spec_names() =~= old_names.map_values(|s: String| s@).push(name@));
                Ok(index)
            },
        }
    }

    /// Adds a definition that was compiled already.
    pub(crate) fn add(&mut self, name: &str, def: Definition)
        requires
            old(self).wf(),
            refs_within(def.body, def.arity as nat, old(self).spec_defs().len()),
        ensures
            final(self).wf(),
            final(self).spec_defs() == old(self).spec_defs().push(def),
            final(self).spec_names() == old(self).spec_names().push(name@),
    {
        let ghost old_names = self.names@;
        self.defs.push(def);
        self.names.push(String::from_str(name));
        assert(self.spec_names() =~= old_names.map_values(|s: String| s@).push(name@));
    }

    /// Compiles a closed form against the registry's names and resolves it.
    pub fn resolve_form(&self, form: &Form, fuel: u64) -> (r: Result<Value, EvalError>)
        ensures
            r == match compile(*form, Seq::empty(), self.spec_names()) {
                Err(err) => Err(err),
                Ok(e) => eval(self.spec_defs(), e, Bound::Empty, fuel as nat),
            },
    {
        let no_params: Vec<String> = Vec::new();
        assert(no_params@.map_values(|s: String| s@) =~= Seq::<Seq<char>>::empty());
        match compile_form(form, &no_params, &self.names) {
            Err(err) => Err(err),
            Ok(e) => self.resolve(&e, fuel),
        }
    }
}

} // verus!
