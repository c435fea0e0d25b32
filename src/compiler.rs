use vstd::prelude::*;
use crate::engine::Expr;
use crate::term::EvalError;

verus! {

/// An application expression as written: names are still names.
#[derive(Debug, PartialEq, Eq)]
pub enum Form {
    Atom(u64),
    Name(String),
    Apply(Box<Form>, Box<Form>),
}

/// A group `head(a1, ..., am)` as left-nested single-argument applications.
pub open spec fn call_of(head: Form, args: Seq<Form>) -> Form
    decreases args.len(),
{
    if args.len() == 0 {
        head
    } else {
        Form::Apply(Box::new(call_of(head, args.drop_last())), Box::new(args.last()))
    }
}

/// The position of the last occurrence of `n` in `names`.
pub open spec fn find_last(names: Seq<Seq<char>>, n: Seq<char>) -> Option<nat>
    decreases names.len(),
{
    if names.len() == 0 {
        None
    } else if names.last() == n {
        Some((names.len() - 1) as nat)
    } else {
        find_last(names.drop_last(), n)
    }
}

/// Compiles a form in the scope of `params` (which shadow) and the
/// definitions named `names`.
pub open spec fn compile(form: Form, params: Seq<Seq<char>>, names: Seq<Seq<char>>) -> Result<Expr, EvalError>
    decreases form,
{
    match form {
        Form::Atom(a) => Ok(Expr::Atom(a)),
        Form::Name(s) => match find_last(params, s@) {
            Some(i) => Ok(Expr::Param(i as usize)),
            None => match find_last(names, s@) {
                Some(d) => Ok(Expr::Def(d as usize)),
                None => Err(EvalError::UnboundName),
            },
        },
        Form::Apply(f, x) => match compile(*f, params, names) {
            Err(err) => Err(err),
            Ok(fe) => match compile(*x, params, names) {
                Err(err) => Err(err),
                Ok(xe) => Ok(Expr::Apply(Box::new(fe), Box::new(xe))),
            },
        },
    }
}

/// Every parameter of `e` is below `arity` and every definition below `defs`.
pub open spec fn refs_within(e: Expr, arity: nat, defs: nat) -> bool
    decreases e,
{
    match e {
        Expr::Atom(_) => true,
        Expr::Param(i) => i < arity,
        Expr::Def(d) => d < defs,
        Expr::Apply(f, x) => refs_within(*f, arity, defs) && refs_within(*x, arity, defs),
    }
}

pub proof fn lemma_find_last_bound(names: Seq<Seq<char>>, n: Seq<char>)
    ensures
        find_last(names, n) matches Some(i) ==> i < names.len() && names[i as int] == n,
    decreases names.len(),
{
    if names.len() > 0 && names.last() != n {
        lemma_find_last_bound(names.drop_last(), n);
    }
}

pub proof fn lemma_compile_within(form: Form, params: Seq<Seq<char>>, names: Seq<Seq<char>>)
    ensures
        compile(form, params, names) matches Ok(e) ==> refs_within(e, params.len(), names.len()),
    decreases form,
{
    match form {
        Form::Name(s) => {
            lemma_find_last_bound(params, s@);
            lemma_find_last_bound(names, s@);
        },
        Form::Apply(f, x) => {
            lemma_compile_within(*f, params, names);
            lemma_compile_within(*x, params, names);
        },
        _ => {},
    }
}

/// The position of the last string in `names` equal to `n`.
pub(crate) fn position_of(names: &Vec<String>, n: &String) -> (r: Option<usize>)
    ensures
        r matches Some(i) ==> find_last(names@.map_values(|s: String| s@), n@) == Some(i as nat),
        r is None ==> find_last(names@.map_values(|s: String| s@), n@) is None,
{
    let ghost all = names@.map_values(|s: String| s@);
    let mut i: usize = names.len();
    assert(all.take(i as int) =~= all);
    while i > 0
        invariant
            i <= names.len(),
            all == names@.map_values(|s: String| s@),
            find_last(all, n@) == find_last(all.take(i as int), n@),
        decreases i,
    {
        assert(all.take(i as int).drop_last() =~= all.take(i - 1));
        if names[i - 1] == *n {
            return Some(i - 1);
        }
        i = i - 1;
    }
    None
}

impl Form {
    /// The group `head(args[0], ..., args[m-1])`, flattened left to right.
    pub fn call(head: Form, args: Vec<Form>) -> (r: Form)
        ensures
            r == call_of(head, args@),
    {
        let ghost all = args@;
        let n = args.len();
        let mut rest = args;
        let mut acc = head;
        let mut i: usize = 0;
        while rest.len() > 0
            invariant
                i + rest@.len() == all.len(),
                all.len() == n,
                rest@ == all.skip(i as int),
                acc == call_of(head, all.take(i as int)),
            decreases rest@.len(),
        {
            let x = rest.remove(0);
            assert(all.take(i + 1).drop_last() =~= all.take(i as int));
            acc = Form::Apply(Box::new(acc), Box::new(x));
            i = i + 1;
            assert(rest@ =~= all.skip(i as int));
        }
        assert(all.take(i as int) =~= all);
        acc
    }

    /// A copy of the form, equal to it.
    pub fn duplicate(&self) -> (r: Form)
        ensures
            r == *self,
        decreases self,
    {
        match self {
            Form::Atom(a) => Form::Atom(*a),
            Form::Name(s) => Form::Name(s.clone()),
            Form::Apply(f, x) => Form::Apply(Box::new(f.duplicate()), Box::new(x.duplicate())),
        }
    }

    /// A reference to a name.
    pub fn name(s: &str) -> (r: Form)
        ensures
            r matches Form::Name(n) && n@ == s@,
    {
        Form::Name(String::from_str(s))
    }
}

pub(crate) fn compile_form(form: &Form, params: &Vec<String>, names: &Vec<String>) -> (r: Result<Expr, EvalError>)
    ensures
        r == compile(
            *form,
            params@.map_values(|s: String| s@),
            names@.map_values(|s: String| s@),
        ),
    decreases form,
{
    match form {
        Form::Atom(a) => Ok(Expr::Atom(*a)),
        Form::Name(s) => match position_of(params, s) {
            Some(i) => Ok(Expr::Param(i)),
            None => match position_of(names, s) {
                Some(d) => Ok(Expr::Def(d)),
                None => Err(EvalError::UnboundName),
            },
        },
        Form::Apply(f, x) => match compile_form(f, params, names) {
            Err(err) => Err(err),
            Ok(fe) => match compile_form(x, params, names) {
                Err(err) => Err(err),
                Ok(xe) => Ok(Expr::Apply(Box::new(fe), Box::new(xe))),
            },
        },
    }
}

} // verus!
