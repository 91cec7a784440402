use vstd::prelude::*;

verus! {

broadcast use vstd::array::group_array_axioms;

/// A token of the formula language.
#[derive(Debug, PartialEq)]
pub enum Token {
    Variable(String),
    Not,
    And,
    Or,
    Implies,
    Iff,
    LParen,
    RParen,
    EOF,
}

/// What a token is, with the variable's name as a sequence of characters.
pub enum TokenView {
    Variable(Seq<char>),
    Not,
    And,
    Or,
    Implies,
    Iff,
    LParen,
    RParen,
    EOF,
}

impl View for Token {
    type V = TokenView;

    open spec fn view(&self) -> TokenView {
        match self {
            Token::Variable(name) => TokenView::Variable(name@),
            Token::Not => TokenView::Not,
            Token::And => TokenView::And,
            Token::Or => TokenView::Or,
            Token::Implies => TokenView::Implies,
            Token::Iff => TokenView::Iff,
            Token::LParen => TokenView::LParen,
            Token::RParen => TokenView::RParen,
            Token::EOF => TokenView::EOF,
        }
    }
}

/// Why the lexer refused the text at its cursor.
#[derive(Clone, Copy, Debug, PartialEq, Eq, Structural)]
pub enum LexError {
    /// A character that starts no token.
    UnexpectedCharacter { character: char, position: usize },
    /// `<` or `-` not followed by the rest of `<->` or `->`; the characters
    /// from `start` to `end` are what stood there instead.
    MalformedSymbol { start: usize, end: usize },
    /// A run of alphanumeric characters, from `start` to `end`, that is not
    /// `p` followed by digits.
    InvalidVariable { start: usize, end: usize },
}

/// The characters with Unicode's White_Space property.
pub open spec fn is_white_space(c: char) -> bool {
    ||| ('\u{9}' <= c && c <= '\u{d}')
    ||| c == ' '
    ||| c == '\u{85}'
    ||| c == '\u{a0}'
    ||| c == '\u{1680}'
    ||| ('\u{2000}' <= c && c <= '\u{200a}')
    ||| c == '\u{2028}'
    ||| c == '\u{2029}'
    ||| c == '\u{202f}'
    ||| c == '\u{205f}'
    ||| c == '\u{3000}'
}

// Whether std counts the character as alphanumeric (Unicode's Alphabetic or
// Numeric property).
pub uninterp spec fn alphanumeric(c: char) -> bool;

/// A variable's name: `p` followed by one or more ASCII digits.
pub open spec fn is_variable_name(w: Seq<char>) -> bool {
    &&& w.len() >= 2
    &&& w[0] == 'p'
    &&& forall|i: int| 1 <= i < w.len() ==> '0' <= #[trigger] w[i] && w[i] <= '9'
}

/// The regular expression that `is_variable_name` describes.
pub open spec fn variable_pattern() -> Seq<char> {
    seq!['^', 'p', '[', '0', '-', '9', ']', '+', '$']
}

/// Whether `c` has Unicode's White_Space property, as `char::is_whitespace`
/// answers.
fn white_space(c: char) -> (r: bool)
    ensures
        r == is_white_space(c),
{
    ('\u{9}' <= c && c <= '\u{d}') || c == ' ' || c == '\u{85}' || c == '\u{a0}' || c
        == '\u{1680}' || ('\u{2000}' <= c && c <= '\u{200a}') || c == '\u{2028}' || c
        == '\u{2029}' || c == '\u{202f}' || c == '\u{205f}' || c == '\u{3000}'
}

/// Relies on `char::is_alphanumeric`, whose result depends on the character
/// alone; among ASCII characters, std answers true exactly for letters and digits.
#[verifier::external_body]
fn is_alphanumeric(c: char) -> (r: bool)
    ensures
        r == alphanumeric(c),
        c <= '\u{7f}' ==> (r <==> (('a' <= c && c <= 'z') || ('A' <= c && c <= 'Z') || ('0' <= c
            && c <= '9'))),
{
    c.is_alphanumeric()
}

/// Relies on `String::push`: the character is appended at the end.
#[verifier::external_body]
fn push_char(s: &mut String, c: char)
    ensures
        final(s)@ == old(s)@.push(c),
{
    s.push(c)
}

/// Relies on regex's `Regex::new` and `Regex::is_match`: the pattern `^p[0-9]+$`
/// compiles, and it matches a text exactly when the whole text is `p` followed by
/// one or more ASCII digits (`$` without multi-line mode matches only at the end).
#[verifier::external_body]
fn matches_pattern(pattern: &str, text: &str) -> (r: bool)
    requires
        pattern@ == variable_pattern(),
    ensures
        r == is_variable_name(text@),
{
    regex::Regex::new(pattern).unwrap().is_match(text)
}

/// The first position at or after `pos` that holds no white space.
pub open spec fn skip_white_space(s: Seq<char>, pos: int) -> int
    decreases s.len() - pos,
{
    if 0 <= pos < s.len() && is_white_space(s[pos]) {
        skip_white_space(s, pos + 1)
    } else {
        pos
    }
}

/// The end of the run of alphanumeric characters that starts at `pos`.
pub open spec fn alphanumeric_run_end(s: Seq<char>, pos: int) -> int
    decreases s.len() - pos,
{
    if 0 <= pos < s.len() && alphanumeric(s[pos]) {
        alphanumeric_run_end(s, pos + 1)
    } else {
        pos
    }
}

/// Whether `symbol` stands in `s` from `pos` on.
pub open spec fn symbol_at(s: Seq<char>, pos: int, symbol: Seq<char>) -> bool {
    pos + symbol.len() <= s.len() && s.subrange(pos, pos + symbol.len()) == symbol
}

/// The error for a multi-character operator missing at `pos`: it names what
/// stands there instead, up to the operator's length.
pub open spec fn malformed_symbol(s: Seq<char>, pos: int, symbol: Seq<char>) -> LexError {
    let end = if pos + symbol.len() <= s.len() {
        pos + symbol.len()
    } else {
        s.len() as int
    };
    LexError::MalformedSymbol { start: pos as usize, end: end as usize }
}

/// A multi-character operator at `pos`: the token and the position after it, or
/// the error, with the cursor left at `pos`.
pub open spec fn lex_symbol(s: Seq<char>, pos: int, symbol: Seq<char>, token: TokenView) -> (
    Result<TokenView, LexError>,
    int,
) {
    if symbol_at(s, pos, symbol) {
        (Ok(token), pos + symbol.len())
    } else {
        (Err(malformed_symbol(s, pos, symbol)), pos)
    }
}

/// One step of the lexer on the text `s` with its cursor at `pos`: the token
/// read (or the error) and where the cursor stands afterwards.
pub open spec fn lex_step(s: Seq<char>, pos: int) -> (Result<TokenView, LexError>, int) {
    if pos >= s.len() {
        (Ok(TokenView::EOF), pos)
    } else {
        let p = skip_white_space(s, pos);
        if p >= s.len() {
            (Ok(TokenView::EOF), p)
        } else {
            let c = s[p];
            if c == '~' {
                (Ok(TokenView::Not), p + 1)
            } else if c == '&' {
                (Ok(TokenView::And), p + 1)
            } else if c == '|' {
                (Ok(TokenView::Or), p + 1)
            } else if c == '(' {
                (Ok(TokenView::LParen), p + 1)
            } else if c == ')' {
                (Ok(TokenView::RParen), p + 1)
            } else if c == '<' {
                lex_symbol(s, p, seq!['<', '-', '>'], TokenView::Iff)
            } else if c == '-' {
                lex_symbol(s, p, seq!['-', '>'], TokenView::Implies)
            } else if alphanumeric(c) {
                let e = alphanumeric_run_end(s, p);
                let w = s.subrange(p, e);
                if is_variable_name(w) {
                    (Ok(TokenView::Variable(w)), e)
                } else {
                    (Err(LexError::InvalidVariable { start: p as usize, end: e as usize }), e)
                }
            } else {
                (Err(LexError::UnexpectedCharacter { character: c, position: p as usize }), p)
            }
        }
    }
}

proof fn lemma_skip_white_space_bounds(s: Seq<char>, pos: int)
    requires
        0 <= pos <= s.len(),
    ensures
        pos <= skip_white_space(s, pos) <= s.len(),
    decreases s.len() - pos,
{
    if pos < s.len() && is_white_space(s[pos]) {
        lemma_skip_white_space_bounds(s, pos + 1);
    }
}

proof fn lemma_alphanumeric_run_bounds(s: Seq<char>, pos: int)
    requires
        0 <= pos <= s.len(),
    ensures
        pos <= alphanumeric_run_end(s, pos) <= s.len(),
    decreases s.len() - pos,
{
    if pos < s.len() && alphanumeric(s[pos]) {
        lemma_alphanumeric_run_bounds(s, pos + 1);
    }
}

/// The cursor never moves back nor past the end, and every token but `EOF`
/// moves it forward.
pub proof fn lemma_lex_step_bounds(s: Seq<char>, pos: int)
    requires
        0 <= pos <= s.len(),
    ensures
        pos <= lex_step(s, pos).1 <= s.len(),
        lex_step(s, pos).0 matches Ok(t) && !(t is EOF) ==> lex_step(s, pos).1 > pos,
{
    lemma_skip_white_space_bounds(s, pos);
    let p = skip_white_space(s, pos);
    if p < s.len() {
        lemma_alphanumeric_run_bounds(s, p);
        lemma_alphanumeric_run_bounds(s, p + 1);
    }
}

/// The view of a lexer's answer.
pub open spec fn lex_result_view(r: Result<Token, LexError>) -> Result<TokenView, LexError> {
    match r {
        Ok(t) => Ok(t@),
        Err(e) => Err(e),
    }
}

/// A cursor over the characters of a formula.
pub struct Lexer {
    input: Vec<char>,
    position: usize,
}

impl Lexer {
    /// The characters being read.
    pub closed spec fn text(&self) -> Seq<char> {
        self.input@
    }

    /// The index of the next character to read.
    pub closed spec fn cursor(&self) -> int {
        self.position as int
    }

    /// The cursor stands inside the text or just after it.
    pub open spec fn wf(&self) -> bool {
        0 <= self.cursor() <= self.text().len()
    }

    pub fn new(input: &str) -> (r: Self)
        ensures
            r.wf(),
            r.text() == input@,
            r.cursor() == 0,
    {
        let mut chars: Vec<char> = Vec::new();
        for c in it: input.chars()
            invariant
                chars@ == it.seq().take(it.index() as int),
        {
            chars.push(c);
        }
        Lexer { input: chars, position: 0 }
    }

    /// Reads the next token, skipping white space before it; at the end of the
    /// text it answers `EOF` again and again.
    pub fn get_next_token(&mut self) -> (r: Result<Token, LexError>)
        requires
            old(self).wf(),
        ensures
            final(self).wf(),
            final(self).text() == old(self).text(),
            lex_result_view(r) == lex_step(old(self).text(), old(self).cursor()).0,
            final(self).cursor() == lex_step(old(self).text(), old(self).cursor()).1,
    {
        proof {
            lemma_lex_step_bounds(self.text(), self.cursor());
        }
        if self.position >= self.input.len() {
            return Ok(Token::EOF);
        }
        self.skip_whitespace();
        if self.position >= self.input.len() {
            return Ok(Token::EOF);
        }
        let ch = self.input[self.position];
        if ch == '~' {
            self.position += 1;
            Ok(Token::Not)
        } else if ch == '&' {
            self.position += 1;
            Ok(Token::And)
        } else if ch == '|' {
            self.position += 1;
            Ok(Token::Or)
        } else if ch == '(' {
            self.position += 1;
            Ok(Token::LParen)
        } else if ch == ')' {
            self.position += 1;
            Ok(Token::RParen)
        } else if ch == '<' {
            self.iff()
        } else if ch == '-' {
            self.implies()
        } else if is_alphanumeric(ch) {
            self.variable()
        } else {
            Err(LexError::UnexpectedCharacter { character: ch, position: self.position })
        }
    }

    fn skip_whitespace(&mut self)
        ensures
            final(self).input@ == old(self).input@,
            final(self).cursor() == skip_white_space(old(self).text(), old(self).cursor()),
    {
        while self.position < self.input.len() && white_space(self.input[self.position])
            invariant
                self.input@ == old(self).input@,
                old(self).position <= self.position,
                skip_white_space(self.text(), self.cursor()) == skip_white_space(
                    old(self).text(),
                    old(self).cursor(),
                ),
            decreases self.input.len() - self.position,
        {
            self.position += 1;
        }
    }

    fn iff(&mut self) -> (r: Result<Token, LexError>)
        requires
            old(self).wf(),
        ensures
            final(self).input@ == old(self).input@,
            (lex_result_view(r), final(self).cursor()) == lex_symbol(
                old(self).text(),
                old(self).cursor(),
                seq!['<', '-', '>'],
                TokenView::Iff,
            ),
    {
        let symbol: [char; 3] = ['<', '-', '>'];
        let symbol = symbol.as_slice();
        assert(symbol@ =~= seq!['<', '-', '>']);
        if let Err(e) = self.check_symbol(symbol) {
            return Err(e);
        }
        assert(symbol_at(self.text(), self.cursor(), symbol@));
        assert(self.text().len() == self.input.len());
        self.position += 3;
        Ok(Token::Iff)
    }

    fn implies(&mut self) -> (r: Result<Token, LexError>)
        requires
            old(self).wf(),
        ensures
            final(self).input@ == old(self).input@,
            (lex_result_view(r), final(self).cursor()) == lex_symbol(
                old(self).text(),
                old(self).cursor(),
                seq!['-', '>'],
                TokenView::Implies,
            ),
    {
        let symbol: [char; 2] = ['-', '>'];
        let symbol = symbol.as_slice();
        assert(symbol@ =~= seq!['-', '>']);
        if let Err(e) = self.check_symbol(symbol) {
            return Err(e);
        }
        assert(symbol_at(self.text(), self.cursor(), symbol@));
        assert(self.text().len() == self.input.len());
        self.position += 2;
        Ok(Token::Implies)
    }

    /// Checks that `symbol` stands at the cursor.
    fn check_symbol(&self, symbol: &[char]) -> (r: Result<(), LexError>)
        requires
            self.wf(),
        ensures
            r is Ok <==> symbol_at(self.text(), self.cursor(), symbol@),
            r matches Err(e) ==> e == malformed_symbol(self.text(), self.cursor(), symbol@),
    {
        let start = self.position;
        let end: usize = if symbol.len() > self.input.len() - start {
            self.input.len()
        } else {
            start + symbol.len()
        };
        if end - start != symbol.len() {
            assert(!symbol_at(self.text(), self.cursor(), symbol@));
            return Err(LexError::MalformedSymbol { start, end });
        }
        let mut i: usize = 0;
        while i < symbol.len()
            invariant
                start == self.position,
                end == start + symbol@.len(),
                end <= self.input.len(),
                i <= symbol@.len(),
                self.input@.subrange(start as int, start + i) == symbol@.take(i as int),
            decreases symbol.len() - i,
        {
            if self.input[start + i] != symbol[i] {
                assert(self.input@.subrange(start as int, end as int)[i as int] == self.input@[start
                    + i]);
                assert(self.input@.subrange(start as int, end as int) != symbol@);
                return Err(LexError::MalformedSymbol { start, end });
            }
            assert(self.input@.subrange(start as int, start + i + 1) =~= symbol@.take(i + 1));
            i += 1;
        }
        assert(symbol@.take(i as int) =~= symbol@);
        Ok(())
    }

    fn variable(&mut self) -> (r: Result<Token, LexError>)
        requires
            old(self).wf(),
        ensures
            final(self).input@ == old(self).input@,
            final(self).cursor() == alphanumeric_run_end(old(self).text(), old(self).cursor()),
            ({
                let w = old(self).text().subrange(old(self).cursor(), final(self).cursor());
                lex_result_view(r) == if is_variable_name(w) {
                    Ok(TokenView::Variable(w))
                } else {
                    Err(
                        LexError::InvalidVariable {
                            start: old(self).position,
                            end: final(self).position,
                        },
                    )
                }
            }),
    {
        let start = self.position;
        while self.position < self.input.len() && is_alphanumeric(self.input[self.position])
            invariant
                self.input@ == old(self).input@,
                start == old(self).position,
                start <= self.position <= self.input.len(),
                alphanumeric_run_end(self.text(), self.cursor()) == alphanumeric_run_end(
                    old(self).text(),
                    old(self).cursor(),
                ),
            decreases self.input.len() - self.position,
        {
            self.position += 1;
        }
        let end = self.position;
        let mut name = String::new();
        for i in start..end
            invariant
                end <= self.input.len(),
                name@ == self.input@.subrange(start as int, i as int),
        {
            push_char(&mut name, self.input[i]);
            assert(self.input@.subrange(start as int, i + 1) =~= self.input@.subrange(
                start as int,
                i as int,
            ).push(self.input@[i as int]));
        }
        let pattern = "^p[0-9]+$";
        proof {
            reveal_strlit("^p[0-9]+$");
        }
        assert(pattern@ =~= variable_pattern());
        if matches_pattern(pattern, name.as_str()) {
            Ok(Token::Variable(name))
        } else {
            Err(LexError::InvalidVariable { start, end })
        }
    }
}

} // verus!
