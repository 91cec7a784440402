use vstd::prelude::*;

use crate::lexer::{lex_step, lemma_lex_step_bounds, LexError, Lexer, Token, TokenView};
use crate::{Expression, Formula};

verus! {

/// The deepest nesting of parentheses and negations that the parser accepts;
/// it bounds the parser's recursion. Chains of binary operators are read in
/// loops and are not bounded by it.
pub const MAX_NESTING: usize = 256;

/// Why the parser refused the text.
#[derive(Debug)]
pub enum ParseError {
    /// The lexer refused the text.
    Lex(LexError),
    /// A token that cannot start an operand (including `)` and `EOF`).
    UnexpectedToken(Token),
    /// An opening parenthesis whose content is followed by this token, not `)`.
    MissingRightParen(Token),
    /// A complete formula followed by this token instead of the end of the text.
    TrailingTokens(Token),
    /// Parentheses and negations nested deeper than `MAX_NESTING`.
    TooDeep,
}

/// What a `ParseError` says, with tokens as `TokenView`s.
pub enum ParseErrorView {
    Lex(LexError),
    UnexpectedToken(TokenView),
    MissingRightParen(TokenView),
    TrailingTokens(TokenView),
    TooDeep,
}

impl View for ParseError {
    type V = ParseErrorView;

    open spec fn view(&self) -> ParseErrorView {
        match self {
            ParseError::Lex(e) => ParseErrorView::Lex(*e),
            ParseError::UnexpectedToken(t) => ParseErrorView::UnexpectedToken(t@),
            ParseError::MissingRightParen(t) => ParseErrorView::MissingRightParen(t@),
            ParseError::TrailingTokens(t) => ParseErrorView::TrailingTokens(t@),
            ParseError::TooDeep => ParseErrorView::TooDeep,
        }
    }
}

/// A parsed formula with the lexer's cursor and current token after it, or the
/// error.
pub type Parsed = Result<(Formula, int, TokenView), ParseErrorView>;

/// What is left to read: the characters after the cursor, and the current token
/// unless it is `EOF`. Consuming a token makes it smaller.
pub open spec fn remaining(s: Seq<char>, pos: int, cur: TokenView) -> nat {
    (if 0 <= pos <= s.len() {
        (s.len() - pos) as nat
    } else {
        0nat
    }) + (if cur is EOF {
        0nat
    } else {
        1nat
    })
}

/// Reads the next token from `pos`: the new cursor and token.
pub open spec fn advance(s: Seq<char>, pos: int) -> Result<(int, TokenView), ParseErrorView> {
    match lex_step(s, pos).0 {
        Ok(t) => Ok((lex_step(s, pos).1, t)),
        Err(e) => Err(ParseErrorView::Lex(e)),
    }
}

/// The operator of a binary precedence level: 3 is `<->`, 2 is `->`, 1 is `|`,
/// 0 is `&`.
pub open spec fn level_operator(level: nat) -> TokenView {
    if level == 3 {
        TokenView::Iff
    } else if level == 2 {
        TokenView::Implies
    } else if level == 1 {
        TokenView::Or
    } else {
        TokenView::And
    }
}

/// The node that the operator of `level` builds.
pub open spec fn combine(level: nat, left: Formula, right: Formula) -> Formula {
    if level == 3 {
        Formula::Iff(Box::new(left), Box::new(right))
    } else if level == 2 {
        Formula::Implies(Box::new(left), Box::new(right))
    } else if level == 1 {
        Formula::Or(Box::new(left), Box::new(right))
    } else {
        Formula::And(Box::new(left), Box::new(right))
    }
}

// In the definitions below, a branch taken only when a step did not make
// `remaining` smaller is never taken (see `lemma_lex_step_bounds` and the
// parser's contracts); it stops the recursion.

/// `expression := iff`
pub open spec fn parse_expression_spec(s: Seq<char>, depth: nat, pos: int, cur: TokenView) -> Parsed
    decreases remaining(s, pos, cur), 12nat,
{
    parse_level(s, 3, depth, pos, cur)
}

/// `level := operand ( op operand )*`, left-associative, where the operand is
/// the next level down, or `not` below level 0.
pub open spec fn parse_level(
    s: Seq<char>,
    level: nat,
    depth: nat,
    pos: int,
    cur: TokenView,
) -> Parsed
    decreases remaining(s, pos, cur), 2 * level + 3,
{
    let first = if level == 0 {
        parse_not_spec(s, depth, pos, cur)
    } else {
        parse_level(s, (level - 1) as nat, depth, pos, cur)
    };
    match first {
        Err(e) => Err(e),
        Ok((left, p, c)) => if remaining(s, p, c) <= remaining(s, pos, cur) {
            level_rest(s, level, depth, left, p, c)
        } else {
            Ok((left, p, c))
        },
    }
}

/// The loop of `parse_level`, with `left` parsed so far.
pub open spec fn level_rest(
    s: Seq<char>,
    level: nat,
    depth: nat,
    left: Formula,
    pos: int,
    cur: TokenView,
) -> Parsed
    decreases remaining(s, pos, cur), 2 * level + 2,
{
    if cur == level_operator(level) {
        match advance(s, pos) {
            Err(e) => Err(e),
            Ok((p1, c1)) => if remaining(s, p1, c1) < remaining(s, pos, cur) {
                let right = if level == 0 {
                    parse_not_spec(s, depth, p1, c1)
                } else {
                    parse_level(s, (level - 1) as nat, depth, p1, c1)
                };
                match right {
                    Err(e) => Err(e),
                    Ok((r, p2, c2)) => if remaining(s, p2, c2) <= remaining(s, p1, c1) {
                        level_rest(s, level, depth, combine(level, left, r), p2, c2)
                    } else {
                        Ok((left, p2, c2))
                    },
                }
            } else {
                Ok((left, p1, c1))
            },
        }
    } else {
        Ok((left, pos, cur))
    }
}

/// `not := "~" not | primary`
pub open spec fn parse_not_spec(s: Seq<char>, depth: nat, pos: int, cur: TokenView) -> Parsed
    decreases remaining(s, pos, cur), 1nat,
{
    if cur is Not {
        if depth >= MAX_NESTING {
            Err(ParseErrorView::TooDeep)
        } else {
            match advance(s, pos) {
                Err(e) => Err(e),
                Ok((p1, c1)) => if remaining(s, p1, c1) < remaining(s, pos, cur) {
                    match parse_not_spec(s, (depth + 1) as nat, p1, c1) {
                        Err(e) => Err(e),
                        Ok((inner, p2, c2)) => Ok((Formula::Not(Box::new(inner)), p2, c2)),
                    }
                } else {
                    Err(ParseErrorView::UnexpectedToken(cur))
                },
            }
        }
    } else {
        parse_primary_spec(s, depth, pos, cur)
    }
}

/// `primary := variable | "(" expression ")"`
pub open spec fn parse_primary_spec(s: Seq<char>, depth: nat, pos: int, cur: TokenView) -> Parsed
    decreases remaining(s, pos, cur), 0nat,
{
    match cur {
        TokenView::LParen => if depth >= MAX_NESTING {
            Err(ParseErrorView::TooDeep)
        } else {
            match advance(s, pos) {
            Err(e) => Err(e),
            Ok((p1, c1)) => if remaining(s, p1, c1) < remaining(s, pos, cur) {
                match parse_expression_spec(s, (depth + 1) as nat, p1, c1) {
                    Err(e) => Err(e),
                    Ok((inner, p2, c2)) => if c2 is RParen {
                        match advance(s, p2) {
                            Err(e) => Err(e),
                            Ok((p3, c3)) => Ok((Formula::Grouped(Box::new(inner)), p3, c3)),
                        }
                    } else {
                        Err(ParseErrorView::MissingRightParen(c2))
                    },
                }
            } else {
                Err(ParseErrorView::UnexpectedToken(cur))
            },
            }
        },
        TokenView::Variable(name) => match advance(s, pos) {
            Err(e) => Err(e),
            Ok((p1, c1)) => Ok((Formula::Variable(name), p1, c1)),
        },
        _ => Err(ParseErrorView::UnexpectedToken(cur)),
    }
}

/// A whole formula from the state `(pos, cur)`: an expression followed by the
/// end of the text.
pub open spec fn parse_all(s: Seq<char>, pos: int, cur: TokenView) -> Result<
    Formula,
    ParseErrorView,
> {
    match parse_expression_spec(s, 0, pos, cur) {
        Err(e) => Err(e),
        Ok((f, p, c)) => if c is EOF {
            Ok(f)
        } else {
            Err(ParseErrorView::TrailingTokens(c))
        },
    }
}

/// The formula that the text `s` spells, or why there is none.
pub open spec fn parse_text(s: Seq<char>) -> Result<Formula, ParseErrorView> {
    match advance(s, 0) {
        Err(e) => Err(e),
        Ok((p, c)) => parse_all(s, p, c),
    }
}

/// `found` with the names of `f` that it lacks appended, in the order in which
/// they first occur in `f`, read left to right.
pub open spec fn record(found: Seq<Seq<char>>, f: Formula) -> Seq<Seq<char>>
    decreases f,
{
    match f {
        Formula::Variable(name) => if found.contains(name) {
            found
        } else {
            found.push(name)
        },
        Formula::Not(e) => record(found, *e),
        Formula::And(l, r) => record(record(found, *l), *r),
        Formula::Or(l, r) => record(record(found, *l), *r),
        Formula::Implies(l, r) => record(record(found, *l), *r),
        Formula::Iff(l, r) => record(record(found, *l), *r),
        Formula::Grouped(e) => record(found, *e),
    }
}

/// The distinct variable names of `f`, in order of first occurrence.
pub open spec fn variables_of(f: Formula) -> Seq<Seq<char>> {
    record(Seq::empty(), f)
}

/// Parsing is a function of the text: the same text gives the same formula,
/// hence the same variables in the same order, or the same error.
pub proof fn lemma_parse_repeatable(a: Seq<char>, b: Seq<char>)
    requires
        a == b,
    ensures
        parse_text(a) == parse_text(b),
        parse_text(a) matches Ok(f) ==> variables_of(f) == variables_of(parse_text(b)->Ok_0),
{
}

proof fn lemma_record_distinct(found: Seq<Seq<char>>, f: Formula)
    requires
        found.no_duplicates(),
    ensures
        record(found, f).no_duplicates(),
    decreases f,
{
    match f {
        Formula::Variable(name) => {
            if !found.contains(name) {
                assert forall|a: int, b: int|
                    0 <= a < b < found.len() + 1 implies found.push(name)[a] != found.push(
                    name,
                )[b] by {
                    if b == found.len() {
                        assert(found[a] != name);
                    }
                }
            }
        },
        Formula::Not(e) => lemma_record_distinct(found, *e),
        Formula::Grouped(e) => lemma_record_distinct(found, *e),
        Formula::And(l, r) => {
            lemma_record_distinct(found, *l);
            lemma_record_distinct(record(found, *l), *r);
        },
        Formula::Or(l, r) => {
            lemma_record_distinct(found, *l);
            lemma_record_distinct(record(found, *l), *r);
        },
        Formula::Implies(l, r) => {
            lemma_record_distinct(found, *l);
            lemma_record_distinct(record(found, *l), *r);
        },
        Formula::Iff(l, r) => {
            lemma_record_distinct(found, *l);
            lemma_record_distinct(record(found, *l), *r);
        },
    }
}

/// The variables of a formula are distinct.
pub proof fn lemma_variables_distinct(f: Formula)
    ensures
        variables_of(f).no_duplicates(),
{
    lemma_record_distinct(Seq::empty(), f);
}

proof fn lemma_record_names(found: Seq<Seq<char>>, f: Formula)
    ensures
        record(found, f).to_set() == found.to_set().union(f.names()),
    decreases f,
{
    match f {
        Formula::Variable(name) => {
            if found.contains(name) {
                assert(found.to_set().union(set![name]) =~= found.to_set());
            } else {
                found.lemma_push_to_set_commute(name);
                assert(found.to_set().insert(name) =~= found.to_set().union(set![name]));
            }
        },
        Formula::Not(e) => lemma_record_names(found, *e),
        Formula::Grouped(e) => lemma_record_names(found, *e),
        Formula::And(l, r) => {
            lemma_record_names(found, *l);
            lemma_record_names(record(found, *l), *r);
            assert(found.to_set().union(l.names()).union(r.names()) =~= found.to_set().union(
                f.names(),
            ));
        },
        Formula::Or(l, r) => {
            lemma_record_names(found, *l);
            lemma_record_names(record(found, *l), *r);
            assert(found.to_set().union(l.names()).union(r.names()) =~= found.to_set().union(
                f.names(),
            ));
        },
        Formula::Implies(l, r) => {
            lemma_record_names(found, *l);
            lemma_record_names(record(found, *l), *r);
            assert(found.to_set().union(l.names()).union(r.names()) =~= found.to_set().union(
                f.names(),
            ));
        },
        Formula::Iff(l, r) => {
            lemma_record_names(found, *l);
            lemma_record_names(record(found, *l), *r);
            assert(found.to_set().union(l.names()).union(r.names()) =~= found.to_set().union(
                f.names(),
            ));
        },
    }
}

/// The variables that the parser lists are exactly the names that occur in
/// the formula.
pub proof fn lemma_variables_are_names(f: Formula)
    ensures
        variables_of(f).to_set() == f.names(),
{
    lemma_record_names(Seq::empty(), f);
    assert(Seq::<Seq<char>>::empty().to_set().union(f.names()) =~= f.names());
}

/// A recursive-descent parser over the tokens of one lexer.
pub struct Parser<'a> {
    lexer: &'a mut Lexer,
    current_token: Token,
    variables: Vec<String>,
}

impl<'a> Parser<'a> {
    /// The text being parsed.
    pub closed spec fn text(&self) -> Seq<char> {
        self.lexer.text()
    }

    /// The lexer's cursor.
    pub closed spec fn cursor(&self) -> int {
        self.lexer.cursor()
    }

    /// The token looked at.
    pub closed spec fn current(&self) -> TokenView {
        self.current_token@
    }

    /// The names of the variables met so far.
    pub closed spec fn found(&self) -> Seq<Seq<char>> {
        self.variables@.map_values(|v: String| v@)
    }

    pub closed spec fn wf(&self) -> bool {
        self.lexer.wf()
    }

    pub open spec fn left(&self) -> nat {
        remaining(self.text(), self.cursor(), self.current())
    }

    /// The parser stands where `expected` says, or fails with its error.
    pub open spec fn reached(&self, r: Result<Expression, ParseError>, expected: Parsed) -> bool {
        match expected {
            Ok((f, p, c)) => r is Ok && r->Ok_0@ == f && self.cursor() == p && self.current() == c,
            Err(e) => r is Err && r->Err_0@ == e,
        }
    }

    /// Reads the first token.
    pub fn new(lexer: &'a mut Lexer) -> (r: Result<Self, ParseError>)
        requires
            old(lexer).wf(),
        ensures
            match advance(old(lexer).text(), old(lexer).cursor()) {
                Ok((p, c)) => r is Ok && r->Ok_0.wf() && r->Ok_0.text() == old(lexer).text()
                    && r->Ok_0.cursor() == p && r->Ok_0.current() == c && r->Ok_0.found()
                    == Seq::<Seq<char>>::empty(),
                Err(e) => r is Err && r->Err_0@ == e,
            },
    {
        match lexer.get_next_token() {
            Ok(current_token) => {
                let r = Parser { lexer, current_token, variables: Vec::new() };
                assert(r.found() =~= Seq::<Seq<char>>::empty());
                Ok(r)
            },
            Err(e) => Err(ParseError::Lex(e)),
        }
    }

    fn next_token(&mut self) -> (r: Result<(), ParseError>)
        requires
            old(self).wf(),
        ensures
            final(self).wf(),
            final(self).text() == old(self).text(),
            final(self).found() == old(self).found(),
            match advance(old(self).text(), old(self).cursor()) {
                Ok((p, c)) => r is Ok && final(self).cursor() == p && final(self).current() == c,
                Err(e) => r is Err && r->Err_0@ == e,
            },
            r is Ok && !(old(self).current() is EOF) ==> final(self).left() < old(self).left(),
    {
        proof {
            lemma_lex_step_bounds(self.text(), self.cursor());
        }
        match self.lexer.get_next_token() {
            Ok(token) => {
                self.current_token = token;
                Ok(())
            },
            Err(e) => Err(ParseError::Lex(e)),
        }
    }

    /// Parses a whole formula: an expression followed by the end of the text.
    pub fn parse(&mut self) -> (r: Result<Expression, ParseError>)
        requires
            old(self).wf(),
        ensures
            final(self).wf(),
            match parse_all(old(self).text(), old(self).cursor(), old(self).current()) {
                Ok(f) => r is Ok && r->Ok_0@ == f && final(self).found() == record(
                    old(self).found(),
                    f,
                ),
                Err(e) => r is Err && r->Err_0@ == e,
            },
    {
        let result = self.parse_expression(0)?;
        if !matches!(self.current_token, Token::EOF) {
            return Err(ParseError::TrailingTokens(self.take_current()));
        }
        Ok(result)
    }

    fn parse_expression(&mut self, depth: usize) -> (r: Result<Expression, ParseError>)
        requires
            old(self).wf(),
            depth <= MAX_NESTING,
        ensures
            final(self).wf(),
            final(self).text() == old(self).text(),
            final(self).reached(
                r,
                parse_expression_spec(
                    old(self).text(),
                    depth as nat,
                    old(self).cursor(),
                    old(self).current(),
                ),
            ),
            r is Ok ==> final(self).found() == record(old(self).found(), r->Ok_0@)
                && final(self).left() <= old(self).left(),
        decreases old(self).left(), 12nat,
    {
        self.parse_iff(depth)
    }

    /// `iff := implies ( "<->" implies )*`
    fn parse_iff(&mut self, depth: usize) -> (r: Result<Expression, ParseError>)
        requires
            old(self).wf(),
            depth <= MAX_NESTING,
        ensures
            final(self).wf(),
            final(self).text() == old(self).text(),
            final(self).reached(
                r,
                parse_level(
                    old(self).text(),
                    3,
                    depth as nat,
                    old(self).cursor(),
                    old(self).current(),
                ),
            ),
            r is Ok ==> final(self).found() == record(old(self).found(), r->Ok_0@)
                && final(self).left() <= old(self).left(),
        decreases old(self).left(), 9nat,
    {
        let mut left = self.parse_implies(depth)?;
        while matches!(self.current_token, Token::Iff)
            invariant
                depth <= MAX_NESTING,
                self.wf(),
                self.text() == old(self).text(),
                self.left() <= old(self).left(),
                self.found() == record(old(self).found(), left@),
                level_rest(
                    self.text(),
                    3,
                    depth as nat,
                    left@,
                    self.cursor(),
                    self.current(),
                ) == parse_level(
                    old(self).text(),
                    3,
                    depth as nat,
                    old(self).cursor(),
                    old(self).current(),
                ),
            decreases self.left(),
        {
            self.next_token()?;
            let right = self.parse_implies(depth)?;
            left = Expression::Iff(Box::new(left), Box::new(right));
        }
        Ok(left)
    }

    /// `implies := or ( "->" or )*`
    fn parse_implies(&mut self, depth: usize) -> (r: Result<Expression, ParseError>)
        requires
            old(self).wf(),
            depth <= MAX_NESTING,
        ensures
            final(self).wf(),
            final(self).text() == old(self).text(),
            final(self).reached(
                r,
                parse_level(
                    old(self).text(),
                    2,
                    depth as nat,
                    old(self).cursor(),
                    old(self).current(),
                ),
            ),
            r is Ok ==> final(self).found() == record(old(self).found(), r->Ok_0@)
                && final(self).left() <= old(self).left(),
        decreases old(self).left(), 7nat,
    {
        let mut left = self.parse_or(depth)?;
        while matches!(self.current_token, Token::Implies)
            invariant
                depth <= MAX_NESTING,
                self.wf(),
                self.text() == old(self).text(),
                self.left() <= old(self).left(),
                self.found() == record(old(self).found(), left@),
                level_rest(
                    self.text(),
                    2,
                    depth as nat,
                    left@,
                    self.cursor(),
                    self.current(),
                ) == parse_level(
                    old(self).text(),
                    2,
                    depth as nat,
                    old(self).cursor(),
                    old(self).current(),
                ),
            decreases self.left(),
        {
            self.next_token()?;
            let right = self.parse_or(depth)?;
            left = Expression::Implies(Box::new(left), Box::new(right));
        }
        Ok(left)
    }

    /// `or := and ( "|" and )*`
    fn parse_or(&mut self, depth: usize) -> (r: Result<Expression, ParseError>)
        requires
            old(self).wf(),
            depth <= MAX_NESTING,
        ensures
            final(self).wf(),
            final(self).text() == old(self).text(),
            final(self).reached(
                r,
                parse_level(
                    old(self).text(),
                    1,
                    depth as nat,
                    old(self).cursor(),
                    old(self).current(),
                ),
            ),
            r is Ok ==> final(self).found() == record(old(self).found(), r->Ok_0@)
                && final(self).left() <= old(self).left(),
        decreases old(self).left(), 5nat,
    {
        let mut left = self.parse_and(depth)?;
        while matches!(self.current_token, Token::Or)
            invariant
                depth <= MAX_NESTING,
                self.wf(),
                self.text() == old(self).text(),
                self.left() <= old(self).left(),
                self.found() == record(old(self).found(), left@),
                level_rest(
                    self.text(),
                    1,
                    depth as nat,
                    left@,
                    self.cursor(),
                    self.current(),
                ) == parse_level(
                    old(self).text(),
                    1,
                    depth as nat,
                    old(self).cursor(),
                    old(self).current(),
                ),
            decreases self.left(),
        {
            self.next_token()?;
            let right = self.parse_and(depth)?;
            left = Expression::Or(Box::new(left), Box::new(right));
        }
        Ok(left)
    }

    /// `and := not ( "&" not )*`
    fn parse_and(&mut self, depth: usize) -> (r: Result<Expression, ParseError>)
        requires
            old(self).wf(),
            depth <= MAX_NESTING,
        ensures
            final(self).wf(),
            final(self).text() == old(self).text(),
            final(self).reached(
                r,
                parse_level(
                    old(self).text(),
                    0,
                    depth as nat,
                    old(self).cursor(),
                    old(self).current(),
                ),
            ),
            r is Ok ==> final(self).found() == record(old(self).found(), r->Ok_0@)
                && final(self).left() <= old(self).left(),
        decreases old(self).left(), 3nat,
    {
        let mut left = self.parse_not(depth)?;
        while matches!(self.current_token, Token::And)
            invariant
                depth <= MAX_NESTING,
                self.wf(),
                self.text() == old(self).text(),
                self.left() <= old(self).left(),
                self.found() == record(old(self).found(), left@),
                level_rest(
                    self.text(),
                    0,
                    depth as nat,
                    left@,
                    self.cursor(),
                    self.current(),
                ) == parse_level(
                    old(self).text(),
                    0,
                    depth as nat,
                    old(self).cursor(),
                    old(self).current(),
                ),
            decreases self.left(),
        {
            self.next_token()?;
            let right = self.parse_not(depth)?;
            left = Expression::And(Box::new(left), Box::new(right));
        }
        Ok(left)
    }

    /// `not := "~" not | primary`
    fn parse_not(&mut self, depth: usize) -> (r: Result<Expression, ParseError>)
        requires
            old(self).wf(),
            depth <= MAX_NESTING,
        ensures
            final(self).wf(),
            final(self).text() == old(self).text(),
            final(self).reached(
                r,
                parse_not_spec(
                    old(self).text(),
                    depth as nat,
                    old(self).cursor(),
                    old(self).current(),
                ),
            ),
            r is Ok ==> final(self).found() == record(old(self).found(), r->Ok_0@)
                && final(self).left() <= old(self).left(),
        decreases old(self).left(), 1nat,
    {
        if matches!(self.current_token, Token::Not) {
            if depth >= MAX_NESTING {
                return Err(ParseError::TooDeep);
            }
            self.next_token()?;
            let expression = self.parse_not(depth + 1)?;
            return Ok(Expression::Not(Box::new(expression)));
        }
        self.parse_primary(depth)
    }

    /// `primary := variable | "(" expression ")"`; a variable's name is recorded.
    fn parse_primary(&mut self, depth: usize) -> (r: Result<Expression, ParseError>)
        requires
            old(self).wf(),
            depth <= MAX_NESTING,
        ensures
            final(self).wf(),
            final(self).text() == old(self).text(),
            final(self).reached(
                r,
                parse_primary_spec(
                    old(self).text(),
                    depth as nat,
                    old(self).cursor(),
                    old(self).current(),
                ),
            ),
            r is Ok ==> final(self).found() == record(old(self).found(), r->Ok_0@)
                && final(self).left() <= old(self).left(),
            !(old(self).current() is LParen) && !(old(self).current() is Variable)
                ==> final(self).found() == old(self).found() && final(self).cursor() == old(
                self,
            ).cursor(),
        decreases old(self).left(), 0nat,
    {
        if matches!(self.current_token, Token::LParen) {
            if depth >= MAX_NESTING {
                return Err(ParseError::TooDeep);
            }
            self.next_token()?;
            let expression = self.parse_expression(depth + 1)?;
            if !matches!(self.current_token, Token::RParen) {
                return Err(ParseError::MissingRightParen(self.take_current()));
            }
            self.next_token()?;
            return Ok(Expression::Grouped(Box::new(expression)));
        }
        if let Token::Variable(name) = &self.current_token {
            let expression = Expression::Variable(name.clone());
            self.note_variable(name.clone());
            self.next_token()?;
            return Ok(expression);
        }
        Err(ParseError::UnexpectedToken(self.take_current()))
    }

    /// The distinct names of the variables met so far, in order of first
    /// occurrence.
    pub fn get_variables(&self) -> (r: Vec<String>)
        ensures
            r@.map_values(|v: String| v@) == self.found(),
    {
        let mut r: Vec<String> = Vec::new();
        for i in 0..self.variables.len()
            invariant
                r.len() == i,
                forall|j: int| 0 <= j < i ==> #[trigger] r[j]@ == self.variables[j]@,
        {
            r.push(self.variables[i].clone());
        }
        assert(r@.map_values(|v: String| v@) =~= self.found());
        r
    }

    /// Moves the current token out, leaving `EOF` in its place.
    fn take_current(&mut self) -> (t: Token)
        ensures
            t@ == old(self).current(),
            final(self).lexer == old(self).lexer,
            final(self).variables == old(self).variables,
    {
        let mut t = Token::EOF;
        core::mem::swap(&mut t, &mut self.current_token);
        t
    }

    /// Appends `name` to the variables met so far unless it is there already.
    fn note_variable(&mut self, name: String)
        ensures
            final(self).lexer == old(self).lexer,
            final(self).current_token == old(self).current_token,
            final(self).found() == if old(self).found().contains(name@) {
                old(self).found()
            } else {
                old(self).found().push(name@)
            },
    {
        let mut i: usize = 0;
        while i < self.variables.len()
            invariant
                i <= self.variables.len(),
                forall|j: int| 0 <= j < i ==> self.found()[j] != name@,
            decreases self.variables.len() - i,
        {
            if self.variables[i] == name {
                assert(self.found()[i as int] == name@);
                return;
            }
            i += 1;
        }
        self.variables.push(name);
        assert(self.found() =~= old(self).found().push(name@));
    }
}

} // verus!
