//! The lexer: a single left-to-right pass over the source text that produces
//! positioned tokens, or the first lexical error.
//!
//! The executable entry point is [`lex`]; its contract equates the outcome
//! with the mathematical scanner [`spec_lex`], so every token (tag, lexeme,
//! line and offset) and every error is pinned down as a function of the text.
//!
//! Numeric literals carry their matched lexeme text (the scanned digits and
//! dots); a literal is valid exactly when it has at most one dot, and turning
//! the lexeme into a machine float is left to the caller.

use vstd::prelude::*;

verus! {

// ---------------------------------------------------------------------------
// Character classes
// ---------------------------------------------------------------------------

/// ASCII letters start an identifier or keyword.
pub open spec fn is_letter(c: char) -> bool {
    ('a' as u32 <= c as u32 && c as u32 <= 'z' as u32) || ('A' as u32 <= c as u32
        && c as u32 <= 'Z' as u32)
}

/// ASCII decimal digits.
pub open spec fn is_digit(c: char) -> bool {
    '0' as u32 <= c as u32 && c as u32 <= '9' as u32
}

/// Characters that may continue an identifier: letters, digits, underscore.
pub open spec fn is_ident_cont(c: char) -> bool {
    is_letter(c) || is_digit(c) || c == '_'
}

/// Characters that may continue a numeric literal: digits and dots.
pub open spec fn is_number_cont(c: char) -> bool {
    is_digit(c) || c == '.'
}

fn char_is_letter(c: char) -> (b: bool)
    ensures
        b == is_letter(c),
{
    let u = c as u32;
    ('a' as u32 <= u && u <= 'z' as u32) || ('A' as u32 <= u && u <= 'Z' as u32)
}

fn char_is_digit(c: char) -> (b: bool)
    ensures
        b == is_digit(c),
{
    let u = c as u32;
    '0' as u32 <= u && u <= '9' as u32
}

fn char_is_ident_cont(c: char) -> (b: bool)
    ensures
        b == is_ident_cont(c),
{
    char_is_letter(c) || char_is_digit(c) || c == '_'
}

fn char_is_number_cont(c: char) -> (b: bool)
    ensures
        b == is_number_cont(c),
{
    char_is_digit(c) || c == '.'
}

// ---------------------------------------------------------------------------
// Tokens
// ---------------------------------------------------------------------------

/// A classified unit of lexical input. Keywords and multi-character operators
/// carry their matched lexeme text; single-character tokens carry the matched
/// character; numeric literals carry the scanned digit-and-dot text.
#[derive(Debug, PartialEq)]
pub enum Token {
    Def(String),
    Let(String),
    If(String),
    Else(String),
    While(String),
    Return(String),
    Break(String),
    Continue(String),
    True(String),
    False(String),
    OpenParen(char),
    CloseParen(char),
    OpenCurly(char),
    CloseCurly(char),
    OpenBracket(char),
    CloseBracket(char),
    Equal(char),
    EqualEqual(String),
    LessThan(char),
    GreaterThan(char),
    LessThanEqual(String),
    GreaterThanEqual(String),
    Plus(char),
    Minus(char),
    Times(char),
    Divide(char),
    Comma(char),
    Semicolon(char),
    Number(String),
    Identifier(String),
}

/// The mathematical value of a [`Token`]: the same tag with each lexeme seen
/// as a sequence of characters.
pub enum TokenView {
    Def(Seq<char>),
    Let(Seq<char>),
    If(Seq<char>),
    Else(Seq<char>),
    While(Seq<char>),
    Return(Seq<char>),
    Break(Seq<char>),
    Continue(Seq<char>),
    True(Seq<char>),
    False(Seq<char>),
    OpenParen(char),
    CloseParen(char),
    OpenCurly(char),
    CloseCurly(char),
    OpenBracket(char),
    CloseBracket(char),
    Equal(char),
    EqualEqual(Seq<char>),
    LessThan(char),
    GreaterThan(char),
    LessThanEqual(Seq<char>),
    GreaterThanEqual(Seq<char>),
    Plus(char),
    Minus(char),
    Times(char),
    Divide(char),
    Comma(char),
    Semicolon(char),
    Number(Seq<char>),
    Identifier(Seq<char>),
}

impl View for Token {
    type V = TokenView;

    open spec fn view(&self) -> TokenView {
        match self {
            Token::Def(s) => TokenView::Def(s@),
            Token::Let(s) => TokenView::Let(s@),
            Token::If(s) => TokenView::If(s@),
            Token::Else(s) => TokenView::Else(s@),
            Token::While(s) => TokenView::While(s@),
            Token::Return(s) => TokenView::Return(s@),
            Token::Break(s) => TokenView::Break(s@),
            Token::Continue(s) => TokenView::Continue(s@),
            Token::True(s) => TokenView::True(s@),
            Token::False(s) => TokenView::False(s@),
            Token::OpenParen(c) => TokenView::OpenParen(*c),
            Token::CloseParen(c) => TokenView::CloseParen(*c),
            Token::OpenCurly(c) => TokenView::OpenCurly(*c),
            Token::CloseCurly(c) => TokenView::CloseCurly(*c),
            Token::OpenBracket(c) => TokenView::OpenBracket(*c),
            Token::CloseBracket(c) => TokenView::CloseBracket(*c),
            Token::Equal(c) => TokenView::Equal(*c),
            Token::EqualEqual(s) => TokenView::EqualEqual(s@),
            Token::LessThan(c) => TokenView::LessThan(*c),
            Token::GreaterThan(c) => TokenView::GreaterThan(*c),
            Token::LessThanEqual(s) => TokenView::LessThanEqual(s@),
            Token::GreaterThanEqual(s) => TokenView::GreaterThanEqual(s@),
            Token::Plus(c) => TokenView::Plus(*c),
            Token::Minus(c) => TokenView::Minus(*c),
            Token::Times(c) => TokenView::Times(*c),
            Token::Divide(c) => TokenView::Divide(*c),
            Token::Comma(c) => TokenView::Comma(*c),
            Token::Semicolon(c) => TokenView::Semicolon(*c),
            Token::Number(s) => TokenView::Number(s@),
            Token::Identifier(s) => TokenView::Identifier(s@),
        }
    }
}

impl Clone for Token {
    /// Cloning keeps the token's value.
    fn clone(&self) -> (r: Token)
        ensures
            r@ == self@,
    {
        match self {
            Token::Def(s) => Token::Def(s.clone()),
            Token::Let(s) => Token::Let(s.clone()),
            Token::If(s) => Token::If(s.clone()),
            Token::Else(s) => Token::Else(s.clone()),
            Token::While(s) => Token::While(s.clone()),
            Token::Return(s) => Token::Return(s.clone()),
            Token::Break(s) => Token::Break(s.clone()),
            Token::Continue(s) => Token::Continue(s.clone()),
            Token::True(s) => Token::True(s.clone()),
            Token::False(s) => Token::False(s.clone()),
            Token::OpenParen(c) => Token::OpenParen(*c),
            Token::CloseParen(c) => Token::CloseParen(*c),
            Token::OpenCurly(c) => Token::OpenCurly(*c),
            Token::CloseCurly(c) => Token::CloseCurly(*c),
            Token::OpenBracket(c) => Token::OpenBracket(*c),
            Token::CloseBracket(c) => Token::CloseBracket(*c),
            Token::Equal(c) => Token::Equal(*c),
            Token::EqualEqual(s) => Token::EqualEqual(s.clone()),
            Token::LessThan(c) => Token::LessThan(*c),
            Token::GreaterThan(c) => Token::GreaterThan(*c),
            Token::LessThanEqual(s) => Token::LessThanEqual(s.clone()),
            Token::GreaterThanEqual(s) => Token::GreaterThanEqual(s.clone()),
            Token::Plus(c) => Token::Plus(*c),
            Token::Minus(c) => Token::Minus(*c),
            Token::Times(c) => Token::Times(*c),
            Token::Divide(c) => Token::Divide(*c),
            Token::Comma(c) => Token::Comma(*c),
            Token::Semicolon(c) => Token::Semicolon(*c),
            Token::Number(s) => Token::Number(s.clone()),
            Token::Identifier(s) => Token::Identifier(s.clone()),
        }
    }
}

/// A token together with the line and the character offset on which its first
/// character appeared. Lines count newline characters before the token;
/// offsets count characters from the start of the input; both start at zero.
#[derive(Debug, PartialEq)]
pub struct LoggedToken {
    pub token: Token,
    pub line_num: usize,
    pub position: usize,
}

/// The mathematical value of a [`LoggedToken`].
pub struct LoggedTokenView {
    pub token: TokenView,
    pub line: nat,
    pub pos: nat,
}

impl View for LoggedToken {
    type V = LoggedTokenView;

    open spec fn view(&self) -> LoggedTokenView {
        LoggedTokenView { token: self.token@, line: self.line_num as nat, pos: self.position as nat }
    }
}

impl Clone for LoggedToken {
    /// Cloning keeps the token and its position.
    fn clone(&self) -> (r: LoggedToken)
        ensures
            r@ == self@,
    {
        LoggedToken {
            token: self.token.clone(),
            line_num: self.line_num,
            position: self.position,
        }
    }
}

impl LoggedToken {
    pub fn new(t_tok: Token, line_num: usize, position: usize) -> (r: LoggedToken)
        ensures
            r == (LoggedToken { token: t_tok, line_num, position }),
    {
        LoggedToken { token: t_tok, line_num, position }
    }
}

/// The sequence of token values held by a sequence of logged tokens.
pub open spec fn view_of_tokens(s: Seq<LoggedToken>) -> Seq<LoggedTokenView> {
    Seq::new(s.len(), |k: int| s[k]@)
}

pub proof fn lemma_view_of_tokens_push(s: Seq<LoggedToken>, t: LoggedToken)
    ensures
        view_of_tokens(s.push(t)) == view_of_tokens(s).push(t@),
{
    assert(view_of_tokens(s.push(t)) =~= view_of_tokens(s).push(t@));
}

// ---------------------------------------------------------------------------
// Lexical errors
// ---------------------------------------------------------------------------

/// The first lexical error found, with the line on which it occurred.
#[derive(Debug, PartialEq)]
pub enum LexError {
    /// A character outside every supported character class.
    UnrecognizedChar { ch: char, line: usize },
    /// A numeric literal with more than one dot.
    InvalidNumber { text: String, line: usize },
}

/// The mathematical value of a [`LexError`].
pub enum LexErrorView {
    UnrecognizedChar { ch: char, line: nat },
    InvalidNumber { text: Seq<char>, line: nat },
}

impl View for LexError {
    type V = LexErrorView;

    open spec fn view(&self) -> LexErrorView {
        match self {
            LexError::UnrecognizedChar { ch, line } => LexErrorView::UnrecognizedChar {
                ch: *ch,
                line: *line as nat,
            },
            LexError::InvalidNumber { text, line } => LexErrorView::InvalidNumber {
                text: text@,
                line: *line as nat,
            },
        }
    }
}

// ---------------------------------------------------------------------------
// The mathematical scanner
// ---------------------------------------------------------------------------

/// The line on which position `i` stands: the number of newline characters
/// strictly before it.
pub open spec fn line_of(s: Seq<char>, i: int) -> nat
    decreases i,
{
    if i <= 0 {
        0
    } else {
        line_of(s, i - 1) + (if s[i - 1] == '\n' {
            1nat
        } else {
            0nat
        })
    }
}

pub proof fn lemma_line_of_le(s: Seq<char>, i: int)
    requires
        0 <= i,
    ensures
        line_of(s, i) <= i,
    decreases i,
{
    if i > 0 {
        lemma_line_of_le(s, i - 1);
    }
}

/// The first position at or after `i` that cannot continue an identifier,
/// or the end of the input.
pub open spec fn ident_end(s: Seq<char>, i: int) -> int
    decreases s.len() - i,
{
    if i < 0 || i >= s.len() {
        s.len() as int
    } else if is_ident_cont(s[i]) {
        ident_end(s, i + 1)
    } else {
        i
    }
}

pub proof fn lemma_ident_end_bounds(s: Seq<char>, i: int)
    requires
        0 <= i <= s.len(),
    ensures
        i <= ident_end(s, i) <= s.len(),
    decreases s.len() - i,
{
    if i < s.len() && is_ident_cont(s[i]) {
        lemma_ident_end_bounds(s, i + 1);
    }
}

/// The first position at or after `i` that cannot continue a numeric
/// literal, or the end of the input.
pub open spec fn number_end(s: Seq<char>, i: int) -> int
    decreases s.len() - i,
{
    if i < 0 || i >= s.len() {
        s.len() as int
    } else if is_number_cont(s[i]) {
        number_end(s, i + 1)
    } else {
        i
    }
}

pub proof fn lemma_number_end_bounds(s: Seq<char>, i: int)
    requires
        0 <= i <= s.len(),
    ensures
        i <= number_end(s, i) <= s.len(),
    decreases s.len() - i,
{
    if i < s.len() && is_number_cont(s[i]) {
        lemma_number_end_bounds(s, i + 1);
    }
}

/// The position just after the newline that ends a comment whose text starts
/// at `i`, or the end of the input if no newline follows.
pub open spec fn comment_end(s: Seq<char>, i: int) -> int
    decreases s.len() - i,
{
    if i < 0 || i >= s.len() {
        s.len() as int
    } else if s[i] == '\n' {
        i + 1
    } else {
        comment_end(s, i + 1)
    }
}

pub proof fn lemma_comment_end_bounds(s: Seq<char>, i: int)
    requires
        0 <= i <= s.len(),
    ensures
        i <= comment_end(s, i) <= s.len(),
    decreases s.len() - i,
{
    if i < s.len() && s[i] != '\n' {
        lemma_comment_end_bounds(s, i + 1);
    }
}

/// The number of dots in a scanned lexeme.
pub open spec fn dot_count(s: Seq<char>) -> nat
    decreases s.len(),
{
    if s.len() == 0 {
        0
    } else {
        dot_count(s.drop_last()) + (if s.last() == '.' {
            1nat
        } else {
            0nat
        })
    }
}

/// The keyword token for one of the ten reserved words, or an identifier.
pub open spec fn keyword_or_identifier(lexeme: Seq<char>) -> TokenView {
    if lexeme == "def"@ {
        TokenView::Def(lexeme)
    } else if lexeme == "let"@ {
        TokenView::Let(lexeme)
    } else if lexeme == "if"@ {
        TokenView::If(lexeme)
    } else if lexeme == "else"@ {
        TokenView::Else(lexeme)
    } else if lexeme == "while"@ {
        TokenView::While(lexeme)
    } else if lexeme == "return"@ {
        TokenView::Return(lexeme)
    } else if lexeme == "break"@ {
        TokenView::Break(lexeme)
    } else if lexeme == "continue"@ {
        TokenView::Continue(lexeme)
    } else if lexeme == "true"@ {
        TokenView::True(lexeme)
    } else if lexeme == "false"@ {
        TokenView::False(lexeme)
    } else {
        TokenView::Identifier(lexeme)
    }
}

/// The token `t` positioned at character offset `i` of `s`.
pub open spec fn spanned(t: TokenView, s: Seq<char>, i: int) -> LoggedTokenView {
    LoggedTokenView { token: t, line: line_of(s, i), pos: i as nat }
}

/// The single-character token emitted for `c` at offset `i` of `s`, for the
/// characters that map directly to one token.
pub open spec fn single_char_token(c: char, s: Seq<char>, i: int) -> LoggedTokenView {
    spanned(
        match c {
            '(' => TokenView::OpenParen('('),
            ')' => TokenView::CloseParen(')'),
            '{' => TokenView::OpenCurly('{'),
            '}' => TokenView::CloseCurly('}'),
            '[' => TokenView::OpenBracket('['),
            ']' => TokenView::CloseBracket(']'),
            '+' => TokenView::Plus('+'),
            '-' => TokenView::Minus('-'),
            '*' => TokenView::Times('*'),
            '/' => TokenView::Divide('/'),
            ',' => TokenView::Comma(','),
            ';' => TokenView::Semicolon(';'),
            '=' => TokenView::Equal('='),
            '<' => TokenView::LessThan('<'),
            _ => TokenView::GreaterThan('>'),
        },
        s,
        i,
    )
}

pub open spec fn is_simple_char(c: char) -> bool {
    c == '(' || c == ')' || c == '{' || c == '}' || c == '[' || c == ']' || c == '+' || c == '-'
        || c == '*' || c == '/' || c == ',' || c == ';'
}

/// The scanner, from position `i`, with the tokens already produced in `acc`:
/// skips blanks and comments, emits one token per recognized lexeme, and
/// stops at the first unrecognized character or malformed numeric literal.
pub open spec fn spec_lex_from(s: Seq<char>, i: int, acc: Seq<LoggedTokenView>) -> Result<
    Seq<LoggedTokenView>,
    LexErrorView,
>
    decreases s.len() - i,
{
    if i < 0 || i >= s.len() {
        Ok(acc)
    } else {
        let c = s[i];
        if c == ' ' || c == '\t' || c == '\n' {
            spec_lex_from(s, i + 1, acc)
        } else if c == '#' {
            proof {
                lemma_comment_end_bounds(s, i + 1);
            }
            spec_lex_from(s, comment_end(s, i + 1), acc)
        } else if is_simple_char(c) {
            spec_lex_from(s, i + 1, acc.push(single_char_token(c, s, i)))
        } else if c == '=' || c == '<' || c == '>' {
            if i + 1 < s.len() && s[i + 1] == '=' {
                let t = if c == '=' {
                    TokenView::EqualEqual("=="@)
                } else if c == '<' {
                    TokenView::LessThanEqual("<="@)
                } else {
                    TokenView::GreaterThanEqual(">="@)
                };
                spec_lex_from(s, i + 2, acc.push(spanned(t, s, i)))
            } else {
                spec_lex_from(s, i + 1, acc.push(single_char_token(c, s, i)))
            }
        } else if is_letter(c) {
            proof {
                lemma_ident_end_bounds(s, i + 1);
            }
            let j = ident_end(s, i + 1);
            spec_lex_from(s, j, acc.push(spanned(keyword_or_identifier(s.subrange(i, j)), s, i)))
        } else if is_digit(c) {
            proof {
                lemma_number_end_bounds(s, i + 1);
            }
            let j = number_end(s, i + 1);
            let lexeme = s.subrange(i, j);
            if dot_count(lexeme) <= 1 {
                spec_lex_from(s, j, acc.push(spanned(TokenView::Number(lexeme), s, i)))
            } else {
                Err(LexErrorView::InvalidNumber { text: lexeme, line: line_of(s, i) })
            }
        } else {
            Err(LexErrorView::UnrecognizedChar { ch: c, line: line_of(s, i) })
        }
    }
}

/// The token sequence of a whole input, or its first lexical error.
pub open spec fn spec_lex(s: Seq<char>) -> Result<Seq<LoggedTokenView>, LexErrorView> {
    spec_lex_from(s, 0, Seq::empty())
}

// ---------------------------------------------------------------------------
// The executable lexer
// ---------------------------------------------------------------------------

fn push_token(toks: &mut Vec<LoggedToken>, t: Token, line: usize, pos: usize)
    ensures
        view_of_tokens(final(toks)@) == view_of_tokens(old(toks)@).push(
            (LoggedTokenView { token: t@, line: line as nat, pos: pos as nat }),
        ),
{
    let ghost pre = toks@;
    let lt = LoggedToken::new(t, line, pos);
    let ghost glt = lt;
    toks.push(lt);
    proof {
        lemma_view_of_tokens_push(pre, glt);
    }
}

/// The keyword token matching the scanned word, or an identifier token.
fn classify_word(lexeme: String) -> (t: Token)
    ensures
        t@ == keyword_or_identifier(lexeme@),
{
    if lexeme == "def".to_owned() {
        Token::Def(lexeme)
    } else if lexeme == "let".to_owned() {
        Token::Let(lexeme)
    } else if lexeme == "if".to_owned() {
        Token::If(lexeme)
    } else if lexeme == "else".to_owned() {
        Token::Else(lexeme)
    } else if lexeme == "while".to_owned() {
        Token::While(lexeme)
    } else if lexeme == "return".to_owned() {
        Token::Return(lexeme)
    } else if lexeme == "break".to_owned() {
        Token::Break(lexeme)
    } else if lexeme == "continue".to_owned() {
        Token::Continue(lexeme)
    } else if lexeme == "true".to_owned() {
        Token::True(lexeme)
    } else if lexeme == "false".to_owned() {
        Token::False(lexeme)
    } else {
        Token::Identifier(lexeme)
    }
}

/// Scans the whole input left to right and returns its tokens, or the first
/// lexical error. The outcome is exactly the one of the mathematical scanner
/// [`spec_lex`], token for token.
#[verifier::loop_isolation(false)]
pub fn lex(input: &String) -> (r: Result<Vec<LoggedToken>, LexError>)
    ensures
        match r {
            Ok(toks) => spec_lex(input@) == Ok::<Seq<LoggedTokenView>, LexErrorView>(
                view_of_tokens(toks@),
            ),
            Err(e) => spec_lex(input@) == Err::<Seq<LoggedTokenView>, LexErrorView>(e@),
        },
{
    let s = input.as_str();
    let n = s.unicode_len();
    let mut toks: Vec<LoggedToken> = Vec::new();
    let mut i: usize = 0;
    let mut line: usize = 0;
    proof {
        assert(view_of_tokens(toks@) =~= Seq::<LoggedTokenView>::empty());
    }
    while i < n
        invariant
            i <= n,
            line == line_of(s@, i as int),
            spec_lex(input@) == spec_lex_from(s@, i as int, view_of_tokens(toks@)),
        decreases n - i,
    {
        let c = s.get_char(i);
        if c == ' ' || c == '\t' {
            i = i + 1;
        } else if c == '\n' {
            proof {
                lemma_line_of_le(s@, i as int);
            }
            line = line + 1;
            i = i + 1;
        } else if c == '#' {
            // discard the rest of the line, including its newline if present
            let mut j: usize = i + 1;
            while j < n && s.get_char(j) != '\n'
                invariant
                    i < j <= n,
                    comment_end(s@, i as int + 1) == comment_end(s@, j as int),
                    line == line_of(s@, j as int),
                decreases n - j,
            {
                j = j + 1;
            }
            if j < n {
                proof {
                    lemma_line_of_le(s@, j as int);
                }
                line = line + 1;
                i = j + 1;
            } else {
                i = n;
            }
        } else if c == '(' || c == ')' || c == '{' || c == '}' || c == '[' || c == ']' || c == '+'
            || c == '-' || c == '*' || c == '/' || c == ',' || c == ';' {
            let tok = match c {
                '(' => Token::OpenParen('('),
                ')' => Token::CloseParen(')'),
                '{' => Token::OpenCurly('{'),
                '}' => Token::CloseCurly('}'),
                '[' => Token::OpenBracket('['),
                ']' => Token::CloseBracket(']'),
                '+' => Token::Plus('+'),
                '-' => Token::Minus('-'),
                '*' => Token::Times('*'),
                '/' => Token::Divide('/'),
                ',' => Token::Comma(','),
                _ => Token::Semicolon(';'),
            };
            push_token(&mut toks, tok, line, i);
            i = i + 1;
        } else if c == '=' || c == '<' || c == '>' {
            if i + 1 < n && s.get_char(i + 1) == '=' {
                let tok = if c == '=' {
                    Token::EqualEqual("==".to_owned())
                } else if c == '<' {
                    Token::LessThanEqual("<=".to_owned())
                } else {
                    Token::GreaterThanEqual(">=".to_owned())
                };
                push_token(&mut toks, tok, line, i);
                proof {
                    assert(line_of(s@, i as int + 1) == line_of(s@, i as int));
                    assert(line_of(s@, i as int + 2) == line_of(s@, i as int + 1));
                }
                i = i + 2;
            } else {
                let tok = if c == '=' {
                    Token::Equal('=')
                } else if c == '<' {
                    Token::LessThan('<')
                } else {
                    Token::GreaterThan('>')
                };
                push_token(&mut toks, tok, line, i);
                i = i + 1;
            }
        } else if char_is_letter(c) {
            let mut j: usize = i + 1;
            while j < n && char_is_ident_cont(s.get_char(j))
                invariant
                    i < j <= n,
                    ident_end(s@, i as int + 1) == ident_end(s@, j as int),
                    line == line_of(s@, j as int),
                decreases n - j,
            {
                j = j + 1;
            }
            let lexeme_str = s.substring_char(i, j);
            let tok = classify_word(lexeme_str.to_owned());
            push_token(&mut toks, tok, line, i);
            i = j;
        } else if char_is_digit(c) {
            let mut j: usize = i + 1;
            while j < n && char_is_number_cont(s.get_char(j))
                invariant
                    i < j <= n,
                    number_end(s@, i as int + 1) == number_end(s@, j as int),
                    line == line_of(s@, j as int),
                decreases n - j,
            {
                j = j + 1;
            }
            let lexeme_str = s.substring_char(i, j);
            let m = j - i;
            let mut dots: usize = 0;
            let mut k: usize = 0;
            while k < m
                invariant
                    k <= m,
                    m == lexeme_str@.len(),
                    dots <= k,
                    dots == dot_count(lexeme_str@.take(k as int)),
                decreases m - k,
            {
                if lexeme_str.get_char(k) == '.' {
                    dots = dots + 1;
                }
                proof {
                    assert(lexeme_str@.take(k as int + 1).drop_last() =~= lexeme_str@.take(
                        k as int,
                    ));
                }
                k = k + 1;
            }
            proof {
                assert(lexeme_str@.take(m as int) =~= lexeme_str@);
            }
            if dots <= 1 {
                push_token(&mut toks, Token::Number(lexeme_str.to_owned()), line, i);
                i = j;
            } else {
                return Err(LexError::InvalidNumber { text: lexeme_str.to_owned(), line });
            }
        } else {
            return Err(LexError::UnrecognizedChar { ch: c, line });
        }
    }
    Ok(toks)
}

// ---------------------------------------------------------------------------
// Laws of the scanner
// ---------------------------------------------------------------------------

/// Holds when the input from position `i` on consists only of blank
/// characters and line comments.
pub open spec fn blank_or_comments_from(s: Seq<char>, i: int) -> bool
    decreases s.len() - i,
{
    if i < 0 || i >= s.len() {
        true
    } else if s[i] == ' ' || s[i] == '\t' || s[i] == '\n' {
        blank_or_comments_from(s, i + 1)
    } else if s[i] == '#' {
        proof {
            lemma_comment_end_bounds(s, i + 1);
        }
        blank_or_comments_from(s, comment_end(s, i + 1))
    } else {
        false
    }
}

proof fn lemma_lex_blank_from(s: Seq<char>, i: int, acc: Seq<LoggedTokenView>)
    requires
        blank_or_comments_from(s, i),
    ensures
        spec_lex_from(s, i, acc) == Ok::<Seq<LoggedTokenView>, LexErrorView>(acc),
    decreases s.len() - i,
{
    if 0 <= i && i < s.len() {
        if s[i] == ' ' || s[i] == '\t' || s[i] == '\n' {
            lemma_lex_blank_from(s, i + 1, acc);
        } else {
            lemma_comment_end_bounds(s, i + 1);
            lemma_lex_blank_from(s, comment_end(s, i + 1), acc);
        }
    }
}

/// An input consisting only of whitespace and line comments lexes to the
/// empty token sequence.
pub proof fn lemma_lex_blank_input(s: Seq<char>)
    requires
        blank_or_comments_from(s, 0),
    ensures
        spec_lex(s) == Ok::<Seq<LoggedTokenView>, LexErrorView>(Seq::<LoggedTokenView>::empty()),
{
    lemma_lex_blank_from(s, 0, Seq::empty());
}

/// Lexing is deterministic: the outcome is a function of the source text
/// alone, so two results obtained from the same text are identical.
pub proof fn lemma_lex_deterministic(
    s: Seq<char>,
    r1: Result<Seq<LoggedTokenView>, LexErrorView>,
    r2: Result<Seq<LoggedTokenView>, LexErrorView>,
)
    requires
        r1 == spec_lex(s),
        r2 == spec_lex(s),
    ensures
        r1 == r2,
{
}

/// A lone `=`, `<` or `>` standing as the last character of the input still
/// yields its single-character token: it is not dropped for want of a
/// lookahead character.
pub proof fn lemma_trailing_operator_emitted(s: Seq<char>, acc: Seq<LoggedTokenView>)
    requires
        s.len() > 0,
        s[s.len() - 1] == '=' || s[s.len() - 1] == '<' || s[s.len() - 1] == '>',
    ensures
        spec_lex_from(s, s.len() - 1, acc) == Ok::<Seq<LoggedTokenView>, LexErrorView>(
            acc.push(single_char_token(s[s.len() - 1], s, s.len() - 1)),
        ),
{
    let pushed = acc.push(single_char_token(s[s.len() - 1], s, s.len() - 1));
    assert(spec_lex_from(s, s.len() as int, pushed) == Ok::<
        Seq<LoggedTokenView>,
        LexErrorView,
    >(pushed));
}

} // verus!

