use vstd::prelude::*;

use crate::{Expression, Formula};

verus! {

/// Values given to variables. A later entry for a name overrides an earlier one.
pub struct Assignment {
    entries: Vec<(String, bool)>,
}

/// The value that the last entry for `name` gives it, if any.
pub open spec fn lookup(entries: Seq<(Seq<char>, bool)>, name: Seq<char>) -> Option<bool>
    decreases entries.len(),
{
    if entries.len() == 0 {
        None
    } else if entries.last().0 == name {
        Some(entries.last().1)
    } else {
        lookup(entries.drop_last(), name)
    }
}

impl Assignment {
    /// The entries, names as sequences of characters.
    pub closed spec fn entries(&self) -> Seq<(Seq<char>, bool)> {
        self.entries@.map_values(|e: (String, bool)| (e.0@, e.1))
    }
}

impl View for Assignment {
    type V = Map<Seq<char>, bool>;

    open spec fn view(&self) -> Map<Seq<char>, bool> {
        Map::new(
            |k: Seq<char>| lookup(self.entries(), k) is Some,
            |k: Seq<char>| lookup(self.entries(), k)->Some_0,
        )
    }
}

impl Assignment {
    /// An assignment that gives no variable a value.
    pub fn new() -> (r: Self)
        ensures
            r@ == Map::<Seq<char>, bool>::empty(),
    {
        let r = Assignment { entries: Vec::new() };
        assert(r.entries() =~= Seq::empty());
        assert(r@ =~= Map::<Seq<char>, bool>::empty());
        r
    }

    /// Gives `name` the value `value`, replacing any value it had.
    pub fn insert(&mut self, name: String, value: bool)
        ensures
            final(self)@ == old(self)@.insert(name@, value),
    {
        self.entries.push((name, value));
        assert(self.entries().drop_last() =~= old(self).entries());
        assert(self@ =~= old(self)@.insert(name@, value));
    }

    /// The value of `name`, if it has one.
    pub fn get(&self, name: &String) -> (r: Option<bool>)
        ensures
            r == if self@.contains_key(name@) {
                Some(self@[name@])
            } else {
                None::<bool>
            },
    {
        let mut i = self.entries.len();
        assert(self.entries().take(i as int) =~= self.entries());
        while i > 0
            invariant
                i <= self.entries.len(),
                lookup(self.entries().take(i as int), name@) == lookup(self.entries(), name@),
            decreases i,
        {
            assert(self.entries().take(i as int).drop_last() =~= self.entries().take(i - 1));
            if self.entries[i - 1].0 == *name {
                return Some(self.entries[i - 1].1);
            }
            i -= 1;
        }
        None
    }
}

/// What went wrong while evaluating.
#[derive(Debug)]
pub enum EvalError {
    /// The assignment gives the variable no value.
    UndefinedVariable(String),
}

/// The value of a formula under an assignment, with the name of the missing
/// variable as the error. `And`, `Or` and `Implies` look at their right side only
/// when the left side leaves the result open, so a variable missing there is not
/// noticed when the left side decides.
pub open spec fn evaluate(f: Formula, a: Map<Seq<char>, bool>) -> Result<bool, Seq<char>>
    decreases f,
{
    match f {
        Formula::Variable(name) => if a.contains_key(name) {
            Ok(a[name])
        } else {
            Err(name)
        },
        Formula::Not(e) => match evaluate(*e, a) {
            Ok(b) => Ok(!b),
            Err(n) => Err(n),
        },
        Formula::And(l, r) => match evaluate(*l, a) {
            Ok(false) => Ok(false),
            Ok(true) => evaluate(*r, a),
            Err(n) => Err(n),
        },
        Formula::Or(l, r) => match evaluate(*l, a) {
            Ok(true) => Ok(true),
            Ok(false) => evaluate(*r, a),
            Err(n) => Err(n),
        },
        Formula::Implies(l, r) => match evaluate(*l, a) {
            Ok(false) => Ok(true),
            Ok(true) => evaluate(*r, a),
            Err(n) => Err(n),
        },
        Formula::Iff(l, r) => match evaluate(*l, a) {
            Ok(bl) => match evaluate(*r, a) {
                Ok(br) => Ok(bl == br),
                Err(n) => Err(n),
            },
            Err(n) => Err(n),
        },
        Formula::Grouped(e) => evaluate(*e, a),
    }
}

/// A formula evaluates without error under an assignment that gives each of its
/// variables a value.
pub proof fn lemma_evaluate_defined(f: Formula, a: Map<Seq<char>, bool>)
    requires
        f.names().subset_of(a.dom()),
    ensures
        evaluate(f, a) is Ok,
    decreases f,
{
    match f {
        Formula::Variable(name) => {
            assert(f.names().contains(name));
        },
        Formula::Not(e) => lemma_evaluate_defined(*e, a),
        Formula::Grouped(e) => lemma_evaluate_defined(*e, a),
        Formula::And(l, r) => {
            lemma_evaluate_defined(*l, a);
            lemma_evaluate_defined(*r, a);
        },
        Formula::Or(l, r) => {
            lemma_evaluate_defined(*l, a);
            lemma_evaluate_defined(*r, a);
        },
        Formula::Implies(l, r) => {
            lemma_evaluate_defined(*l, a);
            lemma_evaluate_defined(*r, a);
        },
        Formula::Iff(l, r) => {
            lemma_evaluate_defined(*l, a);
            lemma_evaluate_defined(*r, a);
        },
    }
}

/// The view of an evaluator's answer: the value, or the missing name.
pub open spec fn eval_result_view(r: Result<bool, EvalError>) -> Result<bool, Seq<char>> {
    match r {
        Ok(b) => Ok(b),
        Err(EvalError::UndefinedVariable(name)) => Err(name@),
    }
}

/// Evaluates `expression` under `variables`.
pub fn eval(expression: &Expression, variables: &Assignment) -> (r: Result<bool, EvalError>)
    ensures
        eval_result_view(r) == evaluate(expression@, variables@),
    decreases expression@.size(), 1nat,
{
    match expression {
        Expression::Variable(name) => eval_variable(name.clone(), variables),
        Expression::Not(inner) => eval_not(inner, variables),
        Expression::And(left, right) => eval_and(left, right, variables),
        Expression::Or(left, right) => eval_or(left, right, variables),
        Expression::Implies(left, right) => eval_implies(left, right, variables),
        Expression::Iff(left, right) => eval_iff(left, right, variables),
        Expression::Grouped(inner) => eval_grouped(inner, variables),
    }
}

/// The value of a variable, or the error that names it.
pub fn eval_variable(name: String, variables: &Assignment) -> (r: Result<bool, EvalError>)
    ensures
        eval_result_view(r) == evaluate(Formula::Variable(name@), variables@),
{
    match variables.get(&name) {
        Some(value) => Ok(value),
        None => Err(EvalError::UndefinedVariable(name)),
    }
}

/// The negation of `inner`.
pub fn eval_not(inner: &Expression, variables: &Assignment) -> (r: Result<bool, EvalError>)
    ensures
        eval_result_view(r) == evaluate(Formula::Not(Box::new(inner@)), variables@),
    decreases inner@.size() + 1, 0nat,
{
    Ok(!eval(inner, variables)?)
}

/// The conjunction; `right` is evaluated only when `left` is true.
pub fn eval_and(left: &Expression, right: &Expression, variables: &Assignment) -> (r: Result<
    bool,
    EvalError,
>)
    ensures
        eval_result_view(r) == evaluate(
            Formula::And(Box::new(left@), Box::new(right@)),
            variables@,
        ),
    decreases left@.size() + right@.size() + 1, 0nat,
{
    Ok(eval(left, variables)? && eval(right, variables)?)
}

/// The disjunction; `right` is evaluated only when `left` is false.
pub fn eval_or(left: &Expression, right: &Expression, variables: &Assignment) -> (r: Result<
    bool,
    EvalError,
>)
    ensures
        eval_result_view(r) == evaluate(
            Formula::Or(Box::new(left@), Box::new(right@)),
            variables@,
        ),
    decreases left@.size() + right@.size() + 1, 0nat,
{
    Ok(eval(left, variables)? || eval(right, variables)?)
}

/// Material implication, `!left || right`; `right` is evaluated only when `left`
/// is true.
pub fn eval_implies(left: &Expression, right: &Expression, variables: &Assignment) -> (r: Result<
    bool,
    EvalError,
>)
    ensures
        eval_result_view(r) == evaluate(
            Formula::Implies(Box::new(left@), Box::new(right@)),
            variables@,
        ),
    decreases left@.size() + right@.size() + 1, 0nat,
{
    let value_left = eval(left, variables)?;
    Ok(!value_left || eval(right, variables)?)
}

/// The biconditional; both sides are always evaluated, `left` first.
pub fn eval_iff(left: &Expression, right: &Expression, variables: &Assignment) -> (r: Result<
    bool,
    EvalError,
>)
    ensures
        eval_result_view(r) == evaluate(
            Formula::Iff(Box::new(left@), Box::new(right@)),
            variables@,
        ),
    decreases left@.size() + right@.size() + 1, 0nat,
{
    let value_left = eval(left, variables)?;
    let value_right = eval(right, variables)?;
    Ok(value_left == value_right)
}

/// A parenthesised formula has the value of its content.
pub fn eval_grouped(inner: &Expression, variables: &Assignment) -> (r: Result<bool, EvalError>)
    ensures
        eval_result_view(r) == evaluate(Formula::Grouped(Box::new(inner@)), variables@),
    decreases inner@.size() + 1, 0nat,
{
    Ok(eval(inner, variables)?)
}

} // verus!
