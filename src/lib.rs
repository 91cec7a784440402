//! Propositional-logic formulas over variables `p0`, `p1`, ...: a lexer, a
//! recursive-descent parser, an evaluator with short-circuit semantics, a
//! truth-table generator and a tautology / contradiction classifier.
use vstd::arithmetic::power2::pow2;
use vstd::prelude::*;

use evaluation::{eval, eval_result_view, evaluate, lemma_evaluate_defined, Assignment, EvalError};
use lexer::Lexer;
use parser::{
    lemma_variables_are_names, lemma_variables_distinct, parse_text, variables_of, ParseError,
    Parser,
};
use table::{generate_table, lemma_table_row_bits, names_view, rows_view, table_row, MAX_VARIABLES};

pub mod evaluation;
pub mod lexer;
pub mod parser;
pub mod table;

verus! {

/// A parsed formula. `Grouped` records a pair of parentheses of the source.
#[derive(Debug, PartialEq)]
pub enum Expression {
    Variable(String),
    Not(Box<Expression>),
    And(Box<Expression>, Box<Expression>),
    Or(Box<Expression>, Box<Expression>),
    Implies(Box<Expression>, Box<Expression>),
    Iff(Box<Expression>, Box<Expression>),
    Grouped(Box<Expression>),
}

/// The mathematical form of an `Expression`: names are sequences of characters.
pub enum Formula {
    Variable(Seq<char>),
    Not(Box<Formula>),
    And(Box<Formula>, Box<Formula>),
    Or(Box<Formula>, Box<Formula>),
    Implies(Box<Formula>, Box<Formula>),
    Iff(Box<Formula>, Box<Formula>),
    Grouped(Box<Formula>),
}

impl Formula {
    /// The number of nodes.
    pub open spec fn size(self) -> nat
        decreases self,
    {
        match self {
            Formula::Variable(_) => 1,
            Formula::Not(e) => 1 + e.size(),
            Formula::And(l, r) => 1 + l.size() + r.size(),
            Formula::Or(l, r) => 1 + l.size() + r.size(),
            Formula::Implies(l, r) => 1 + l.size() + r.size(),
            Formula::Iff(l, r) => 1 + l.size() + r.size(),
            Formula::Grouped(e) => 1 + e.size(),
        }
    }
}

impl Formula {
    /// The names of the variables that occur in the formula.
    pub open spec fn names(self) -> Set<Seq<char>>
        decreases self,
    {
        match self {
            Formula::Variable(name) => set![name],
            Formula::Not(e) => e.names(),
            Formula::And(l, r) => l.names().union(r.names()),
            Formula::Or(l, r) => l.names().union(r.names()),
            Formula::Implies(l, r) => l.names().union(r.names()),
            Formula::Iff(l, r) => l.names().union(r.names()),
            Formula::Grouped(e) => e.names(),
        }
    }
}

impl Expression {
    /// The formula this expression stands for.
    pub open spec fn formula(&self) -> Formula
        decreases self,
    {
        match self {
            Expression::Variable(name) => Formula::Variable(name@),
            Expression::Not(e) => Formula::Not(Box::new(e.formula())),
            Expression::And(l, r) => Formula::And(Box::new(l.formula()), Box::new(r.formula())),
            Expression::Or(l, r) => Formula::Or(Box::new(l.formula()), Box::new(r.formula())),
            Expression::Implies(l, r) => Formula::Implies(
                Box::new(l.formula()),
                Box::new(r.formula()),
            ),
            Expression::Iff(l, r) => Formula::Iff(Box::new(l.formula()), Box::new(r.formula())),
            Expression::Grouped(e) => Formula::Grouped(Box::new(e.formula())),
        }
    }
}

impl View for Expression {
    type V = Formula;

    open spec fn view(&self) -> Formula {
        self.formula()
    }
}

/// How a formula fares over its truth table.
#[derive(Clone, Copy, Debug, PartialEq, Eq, Structural)]
pub enum Type {
    /// True on every row.
    Tautology,
    /// True on no row.
    Contradiction,
    /// True on some rows and false on others.
    Contingent,
}

/// Why no truth table was built.
#[derive(Clone, Copy, Debug, PartialEq, Eq, Structural)]
pub enum TableError {
    /// More variables than `limit`.
    TooManyVariables { count: usize, limit: usize },
}

/// The number of rows on which `f` is true, or the variable missing on the
/// first row whose evaluation fails.
pub open spec fn count_true(f: Formula, rows: Seq<Map<Seq<char>, bool>>) -> Result<nat, Seq<char>>
    decreases rows.len(),
{
    if rows.len() == 0 {
        Ok(0)
    } else {
        match count_true(f, rows.drop_last()) {
            Err(name) => Err(name),
            Ok(c) => match evaluate(f, rows.last()) {
                Err(name) => Err(name),
                Ok(b) => Ok(
                    if b {
                        c + 1
                    } else {
                        c
                    },
                ),
            },
        }
    }
}

/// The classification of `f` over `rows`: no true row makes a contradiction,
/// only true rows a tautology.
pub open spec fn classify(f: Formula, rows: Seq<Map<Seq<char>, bool>>) -> Result<Type, Seq<char>> {
    match count_true(f, rows) {
        Err(name) => Err(name),
        Ok(t) => Ok(
            if t == 0 {
                Type::Contradiction
            } else if t == rows.len() {
                Type::Tautology
            } else {
                Type::Contingent
            },
        ),
    }
}

proof fn lemma_count_is_filter(f: Formula, rows: Seq<Map<Seq<char>, bool>>)
    requires
        forall|i: int| 0 <= i < rows.len() ==> (#[trigger] evaluate(f, rows[i])) is Ok,
    ensures
        count_true(f, rows) == Ok::<nat, Seq<char>>(
            rows.filter(|a: Map<Seq<char>, bool>| evaluate(f, a) == Ok::<bool, Seq<char>>(true)).len(),
        ),
    decreases rows.len(),
{
    reveal(Seq::filter);
    if rows.len() > 0 {
        let rest = rows.drop_last();
        assert forall|i: int| 0 <= i < rest.len() implies (#[trigger] evaluate(f, rest[i])) is Ok by {
            assert(rest[i] == rows[i]);
        }
        lemma_count_is_filter(f, rest);
        assert(evaluate(f, rows[rows.len() - 1]) is Ok);
    }
}

/// The classifier agrees with the evaluator: where every row evaluates, the
/// formula is a contradiction when it is true on no row, a tautology when it is
/// true on every row, and contingent otherwise.
pub proof fn lemma_classify_counts_true_rows(f: Formula, rows: Seq<Map<Seq<char>, bool>>)
    requires
        forall|i: int| 0 <= i < rows.len() ==> (#[trigger] evaluate(f, rows[i])) is Ok,
    ensures
        ({
            let t = rows.filter(
                |a: Map<Seq<char>, bool>| evaluate(f, a) == Ok::<bool, Seq<char>>(true),
            ).len();
            classify(f, rows) == Ok::<Type, Seq<char>>(
                if t == 0 {
                    Type::Contradiction
                } else if t == rows.len() {
                    Type::Tautology
                } else {
                    Type::Contingent
                },
            )
        }),
{
    lemma_count_is_filter(f, rows);
}

/// Every row of the truth table over a formula's own variables gives each of
/// them a value, so the formula evaluates on it without error.
pub proof fn lemma_own_table_evaluates(f: Formula, i: nat)
    ensures
        evaluate(f, table_row(variables_of(f), i)) is Ok,
{
    lemma_variables_distinct(f);
    lemma_variables_are_names(f);
    lemma_table_row_bits(variables_of(f), i);
    lemma_evaluate_defined(f, table_row(variables_of(f), i));
}

/// The view of a classifier's answer: the type, or the missing name.
pub open spec fn type_result_view(r: Result<Type, EvalError>) -> Result<Type, Seq<char>> {
    match r {
        Ok(t) => Ok(t),
        Err(EvalError::UndefinedVariable(name)) => Err(name@),
    }
}

proof fn lemma_count_error_persists(f: Formula, rows: Seq<Map<Seq<char>, bool>>, m: int)
    requires
        0 <= m <= rows.len(),
        count_true(f, rows.take(m)) is Err,
    ensures
        count_true(f, rows) == count_true(f, rows.take(m)),
    decreases rows.len(),
{
    if m == rows.len() {
        assert(rows.take(m) =~= rows);
    } else {
        assert(rows.drop_last().take(m) =~= rows.take(m));
        lemma_count_error_persists(f, rows.drop_last(), m);
    }
}

/// The truth table over `variables`: `2^k` rows for `k` names, row `i` giving
/// the name at position `j` bit `j` of `i`; refused above `MAX_VARIABLES` names.
pub fn get_table(variables: &Vec<String>) -> (r: Result<Vec<Assignment>, TableError>)
    ensures
        r is Err <==> variables.len() > MAX_VARIABLES,
        r matches Err(e) ==> e == (TableError::TooManyVariables {
            count: variables.len(),
            limit: MAX_VARIABLES,
        }),
        r matches Ok(t) ==> t.len() == pow2(variables.len() as nat) && forall|i: int|
            0 <= i < t.len() ==> #[trigger] t[i]@ == table_row(names_view(*variables), i as nat),
{
    if variables.len() > MAX_VARIABLES {
        return Err(TableError::TooManyVariables { count: variables.len(), limit: MAX_VARIABLES });
    }
    Ok(generate_table(variables))
}

/// Classifies `expression` over the rows of `table`, failing on the first row
/// that cannot be evaluated.
pub fn get_type(expression: &Expression, table: &Vec<Assignment>) -> (r: Result<Type, EvalError>)
    ensures
        type_result_view(r) == classify(expression@, rows_view(*table)),
{
    let ghost f = expression@;
    let ghost rows = rows_view(*table);
    let mut count: usize = 0;
    for i in 0..table.len()
        invariant
            f == expression@,
            rows == rows_view(*table),
            count <= i,
            count_true(f, rows.take(i as int)) == Ok::<nat, Seq<char>>(count as nat),
    {
        assert(rows.take(i + 1).drop_last() =~= rows.take(i as int));
        let result = eval(expression, &table[i]);
        match result {
            Ok(value) => {
                if value {
                    count += 1;
                }
            },
            Err(e) => {
                proof {
                    lemma_count_error_persists(f, rows, i + 1);
                }
                return Err(e);
            },
        }
    }
    assert(rows.take(table.len() as int) =~= rows);
    if count == 0 {
        Ok(Type::Contradiction)
    } else if count == table.len() {
        Ok(Type::Tautology)
    } else {
        Ok(Type::Contingent)
    }
}

/// Parses `input`: the formula and its distinct variables in order of first
/// occurrence.
pub fn parser(input: &str) -> (r: Result<(Expression, Vec<String>), ParseError>)
    ensures
        match parse_text(input@) {
            Ok(f) => r is Ok && r->Ok_0.0@ == f && names_view(r->Ok_0.1) == variables_of(f),
            Err(e) => r is Err && r->Err_0@ == e,
        },
{
    let mut lexer = Lexer::new(input);
    let mut parser = Parser::new(&mut lexer)?;
    let expression = parser.parse()?;
    let variables = parser.get_variables();
    Ok((expression, variables))
}

/// The value of `expression` under `variables`.
pub fn evaluation_expression(expression: &Expression, variables: &Assignment) -> (r: Result<
    bool,
    EvalError,
>)
    ensures
        eval_result_view(r) == evaluate(expression@, variables@),
{
    eval(expression, variables)
}

} // verus!
