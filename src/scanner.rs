use vstd::prelude::*;

use crate::grammar::{
    char_at, count_newlines, decimal_value, digit_run_end, find_char, find_comment_close,
    is_alpha_char, is_alphanumeric_char, is_digit_char,
    lemma_append_option_seq, lemma_step_advances, number_step,
    scan_from, scan_result, slash_step, step, eof_token, string_step, word_run_end, word_step, Step,
};
use crate::token::{tokens_view, LiteralView, Token, TokenLiteral, TokenType, TokenView};

verus! {

/// The kinds of lexical error.
#[derive(Clone, Copy, Debug, PartialEq, Eq, Structural)]
pub enum LexicalErrorKind {
    /// A character that no lexical rule accepts.
    UnrecognizedCharacter,
    /// A string literal with no closing quote before the end of input.
    UnterminatedString,
    /// A block comment with no closing `*/` before the end of input.
    UnterminatedBlockComment,
    /// A number literal whose digits spell a value above `usize::MAX`.
    NumberTooLarge,
}

/// What a lexical error denotes.
pub struct ErrorView {
    pub kind: LexicalErrorKind,
    pub line: nat,
}


/// A line-tagged diagnostic for input that could not be read as a lexeme.
#[derive(Clone, Copy, Debug, PartialEq, Eq, Structural)]
pub struct LexicalError {
    /// The line counter when the error was met.
    pub line: usize,
    pub kind: LexicalErrorKind,
}

impl View for LexicalError {
    type V = ErrorView;

    open spec fn view(&self) -> ErrorView {
        ErrorView { kind: self.kind, line: self.line as nat }
    }
}

/// The views of a sequence of errors, one for one.
pub open spec fn errors_view(v: Seq<LexicalError>) -> Seq<ErrorView> {
    v.map_values(|e: LexicalError| e@)
}

/// Converts source text into tokens, one lexeme at a time.
pub struct Scanner {
    source: String,
    /// The characters of `source`, in order.
    chars: Vec<char>,
    tokens: Vec<Token>,
    /// Where the lexeme being read begins.
    start: usize,
    /// Where the next unread character stands.
    current: usize,
    /// The line counter, from 1.
    line: usize,
    errors: Vec<LexicalError>,
}

impl Scanner {
    /// The text being scanned.
    pub closed spec fn text(&self) -> Seq<char> {
        self.source@
    }

    /// The tokens read so far.
    pub closed spec fn tokens_read(&self) -> Seq<TokenView> {
        tokens_view(self.tokens@)
    }

    /// The errors met so far.
    pub closed spec fn errors_met(&self) -> Seq<ErrorView> {
        errors_view(self.errors@)
    }

    /// Where the lexeme being read begins.
    pub closed spec fn start_index(&self) -> nat {
        self.start as nat
    }

    /// Where the next unread character stands.
    pub closed spec fn current_index(&self) -> nat {
        self.current as nat
    }

    /// The line counter.
    pub closed spec fn line_number(&self) -> nat {
        self.line as nat
    }

    /// The cursor stays within the text, whose characters `chars` holds.
    pub closed spec fn wf(&self) -> bool {
        &&& self.chars@ == self.source@
        &&& self.start <= self.current <= self.chars@.len() < usize::MAX
    }

    /// A scanner over `source`, before any lexeme has been read.
    ///
    /// The bound on the length keeps the line counter within `usize`; every
    /// `String` meets it, as each character takes at least one byte.
    pub fn new(source: String) -> (r: Scanner)
        requires
            source@.len() < usize::MAX,
        ensures
            r.wf(),
            r.text() == source@,
            r.tokens_read() == Seq::<TokenView>::empty(),
            r.errors_met() == Seq::<ErrorView>::empty(),
            r.start_index() == 0,
            r.current_index() == 0,
            r.line_number() == 1,
    {
        let mut chars: Vec<char> = Vec::new();
        for c in it: source.as_str().chars()
            invariant
                chars@ == it.seq().take(it.index() as int),
        {
            chars.push(c);
        }
        assert(chars@ == source@);
        let r = Scanner {
            source,
            chars,
            tokens: Vec::new(),
            start: 0,
            current: 0,
            line: 1,
            errors: Vec::new(),
        };
        assert(r.tokens_read() == Seq::<TokenView>::empty());
        assert(r.errors_met() == Seq::<ErrorView>::empty());
        r
    }
}

/// Whether `value` is what the digits of `d` spell, or `None` when that
/// number is above `usize::MAX`.
spec fn tracks_value(value: Option<usize>, d: Seq<char>) -> bool {
    match value {
        Some(v) => v == decimal_value(d),
        None => decimal_value(d) > usize::MAX,
    }
}

/// Extends the number spelled by `d` with the character `c`.
fn fold_digit(value: Option<usize>, c: char, Ghost(d): Ghost<Seq<char>>) -> (r: Option<usize>)
    requires
        tracks_value(value, d),
    ensures
        tracks_value(r, d.push(c)),
{
    assert(d.push(c).drop_last() == d);
    if !Scanner::is_digit(c) {
        return value;
    }
    let digit = (c as u32 - '0' as u32) as usize;
    match value {
        Some(v) => {
            if v <= (usize::MAX - digit) / 10 {
                Some(v * 10 + digit)
            } else {
                None
            }
        },
        None => None,
    }
}

impl Scanner {
    /// Whether `self` differs from `pre` at most in where the cursor stands.
    spec fn same_content(&self, pre: &Scanner) -> bool {
        &&& self.source == pre.source
        &&& self.chars == pre.chars
        &&& self.tokens == pre.tokens
        &&& self.errors == pre.errors
        &&& self.start == pre.start
        &&& self.line == pre.line
    }

    /// Whether `self` is `pre` after the lexeme that begins at `pre.start`
    /// was read with outcome `st`.
    spec fn after_step(&self, pre: &Scanner, st: Step) -> bool {
        &&& self.source == pre.source
        &&& self.chars == pre.chars
        &&& self.start == pre.start
        &&& self.current == st.next
        &&& self.line == st.line
        &&& tokens_view(self.tokens@) == match st.token {
            Some(t) => tokens_view(pre.tokens@).push(t),
            None => tokens_view(pre.tokens@),
        }
        &&& errors_view(self.errors@) == match st.error {
            Some(e) => errors_view(pre.errors@).push(e),
            None => errors_view(pre.errors@),
        }
    }

    fn is_at_end(&self) -> (r: bool)
        requires
            self.wf(),
        ensures
            r == (self.current >= self.chars@.len()),
    {
        self.current >= self.chars.len()
    }

    /// Moves past the next character, if there is one, and returns it.
    fn advance(&mut self) -> (r: Option<char>)
        requires
            old(self).wf(),
        ensures
            final(self).wf(),
            final(self).same_content(old(self)),
            old(self).current < old(self).chars@.len() ==> r == Some(old(self).chars@[old(self).current as int])
                && final(self).current == old(self).current + 1,
            old(self).current >= old(self).chars@.len() ==> r is None && final(self).current
                == old(self).current,
    {
        if self.current < self.chars.len() {
            let c = self.chars[self.current];
            self.current = self.current + 1;
            Some(c)
        } else {
            None
        }
    }

    /// Moves past the next character if it is `expected`, and says whether it did.
    fn match_next(&mut self, expected: char) -> (r: bool)
        requires
            old(self).wf(),
        ensures
            final(self).wf(),
            final(self).same_content(old(self)),
            r == (old(self).current < old(self).chars@.len() && old(self).chars@[old(self).current as int]
                == expected),
            final(self).current == if r {
                old(self).current + 1
            } else {
                old(self).current as int
            },
    {
        if self.current >= self.chars.len() {
            return false;
        }
        if self.chars[self.current] == expected {
            self.current = self.current + 1;
            return true;
        }
        false
    }

    /// The next character, or the null character at the end of input.
    fn peek(&self) -> (r: char)
        requires
            self.wf(),
        ensures
            r == char_at(self.chars@, self.current as int),
    {
        if self.current < self.chars.len() {
            self.chars[self.current]
        } else {
            '\0'
        }
    }

    /// The character after the next one, or the null character past the end of input.
    fn peek_next(&self) -> (r: char)
        requires
            self.wf(),
        ensures
            r == char_at(self.chars@, self.current + 1),
    {
        if self.current < self.chars.len() && self.current + 1 < self.chars.len() {
            self.chars[self.current + 1]
        } else {
            '\0'
        }
    }

    fn is_alpha(c: char) -> (r: bool)
        ensures
            r == is_alpha_char(c),
    {
        (c >= 'a' && c <= 'z') || (c >= 'A' && c <= 'Z') || (c == '_')
    }

    fn is_digit(c: char) -> (r: bool)
        ensures
            r == is_digit_char(c),
    {
        c >= '0' && c <= '9'
    }

    fn is_alphanumeric(c: char) -> (r: bool)
        ensures
            r == is_alphanumeric_char(c),
    {
        Self::is_alpha(c) || Self::is_digit(c)
    }

    /// The text of the lexeme being read.
    fn current_text(&self) -> (r: String)
        requires
            self.wf(),
        ensures
            r@ == self.chars@.subrange(self.start as int, self.current as int),
    {
        self.source.as_str().substring_char(self.start, self.current).to_owned()
    }

    fn add_token(&mut self, token_type: TokenType)
        requires
            old(self).wf(),
        ensures
            final(self).wf(),
            final(self).source == old(self).source,
            final(self).chars == old(self).chars,
            final(self).start == old(self).start,
            final(self).current == old(self).current,
            final(self).line == old(self).line,
            final(self).errors == old(self).errors,
            tokens_view(final(self).tokens@) == tokens_view(old(self).tokens@).push(
                TokenView {
                    token_type,
                    lexeme: old(self).chars@.subrange(old(self).start as int, old(self).current as int),
                    literal: LiteralView::Absent,
                    line: old(self).line as nat,
                },
            ),
    {
        self.add_token_with_literal(token_type, TokenLiteral::Absent)
    }

    fn add_token_with_literal(&mut self, token_type: TokenType, literal: TokenLiteral)
        requires
            old(self).wf(),
        ensures
            final(self).wf(),
            final(self).source == old(self).source,
            final(self).chars == old(self).chars,
            final(self).start == old(self).start,
            final(self).current == old(self).current,
            final(self).line == old(self).line,
            final(self).errors == old(self).errors,
            tokens_view(final(self).tokens@) == tokens_view(old(self).tokens@).push(
                TokenView {
                    token_type,
                    lexeme: old(self).chars@.subrange(old(self).start as int, old(self).current as int),
                    literal: literal@,
                    line: old(self).line as nat,
                },
            ),
    {
        let lexeme = self.current_text();
        let t = Token { token_type, lexeme, literal, line: self.line };
        self.tokens.push(t);
        assert(tokens_view(self.tokens@) == tokens_view(old(self).tokens@).push(t@));
    }

    fn add_error(&mut self, kind: LexicalErrorKind)
        requires
            old(self).wf(),
        ensures
            final(self).wf(),
            final(self).source == old(self).source,
            final(self).chars == old(self).chars,
            final(self).start == old(self).start,
            final(self).current == old(self).current,
            final(self).line == old(self).line,
            final(self).tokens == old(self).tokens,
            errors_view(final(self).errors@) == errors_view(old(self).errors@).push(
                ErrorView { kind, line: old(self).line as nat },
            ),
    {
        let e = LexicalError { line: self.line, kind };
        self.errors.push(e);
        assert(errors_view(self.errors@) == errors_view(old(self).errors@).push(e@));
    }
}


impl Scanner {
    /// Reads a string literal whose opening quote was just read.
    fn parse_string(&mut self)
        requires
            old(self).wf(),
            old(self).current == old(self).start + 1,
            old(self).line <= old(self).start + 1,
        ensures
            final(self).wf(),
            final(self).after_step(
                old(self),
                string_step(old(self).chars@, old(self).start as int, old(self).line as nat),
            ),
    {
        let ghost pre = *self;
        let ghost s = self.chars@;
        let mut newlines: usize = 0;
        while self.peek() != '"' && !self.is_at_end()
            invariant
                self.wf(),
                self.same_content(&pre),
                s == pre.chars@,
                pre.start + 1 <= self.current,
                find_char(s, pre.start + 1, '"') == find_char(s, self.current as int, '"'),
                newlines == count_newlines(s, pre.start + 1, self.current as int),
                newlines <= self.current - pre.start - 1,
            decreases s.len() - self.current,
        {
            if self.peek() == '\n' {
                newlines = newlines + 1;
            }
            self.advance();
        }
        if self.is_at_end() {
            self.line = self.line + newlines;
            self.add_error(LexicalErrorKind::UnterminatedString);
        } else {
            // the closing quote
            self.advance();
            let value = self.source.as_str().substring_char(self.start + 1, self.current - 1).to_owned();
            self.add_token_with_literal(TokenType::String, TokenLiteral::String(value));
            self.line = self.line + newlines;
        }
    }

    /// Reads an identifier or reserved word whose first character was just read.
    fn parse_identifier(&mut self)
        requires
            old(self).wf(),
            old(self).current == old(self).start + 1,
        ensures
            final(self).wf(),
            final(self).after_step(
                old(self),
                word_step(old(self).chars@, old(self).start as int, old(self).line as nat),
            ),
    {
        let ghost pre = *self;
        let ghost s = self.chars@;
        while Self::is_alphanumeric(self.peek())
            invariant
                self.wf(),
                self.same_content(&pre),
                s == pre.chars@,
                pre.start + 1 <= self.current,
                word_run_end(s, pre.start + 1) == word_run_end(s, self.current as int),
            decreases s.len() - self.current,
        {
            self.advance();
        }
        let text = self.current_text();
        match TokenType::parse(text) {
            Some(t) => self.add_token(t),
            None => self.add_token(TokenType::Identifier),
        }
    }

    /// Reads a number literal whose first digit was just read.
    fn parse_number(&mut self)
        requires
            old(self).wf(),
            old(self).current == old(self).start + 1,
        ensures
            final(self).wf(),
            final(self).after_step(
                old(self),
                number_step(old(self).chars@, old(self).start as int, old(self).line as nat),
            ),
    {
        let ghost pre = *self;
        let ghost s = self.chars@;
        let ghost start = self.start as int;
        assert(s.subrange(start, start) == Seq::<char>::empty());
        let mut value = fold_digit(Some(0), self.chars[self.start], Ghost(Seq::empty()));
        assert(Seq::<char>::empty().push(s[start]) == s.subrange(start, start + 1));
        while Self::is_digit(self.peek())
            invariant
                self.wf(),
                self.same_content(&pre),
                s == pre.chars@,
                start + 1 <= self.current,
                start == pre.start,
                digit_run_end(s, start + 1) == digit_run_end(s, self.current as int),
                tracks_value(value, s.subrange(start, self.current as int)),
            decreases s.len() - self.current,
        {
            let ghost d = s.subrange(start, self.current as int);
            value = fold_digit(value, self.peek(), Ghost(d));
            assert(d.push(s[self.current as int]) == s.subrange(start, self.current + 1));
            self.advance();
        }
        let integer_end = self.current;
        let fraction = self.peek() == '.' && Self::is_digit(self.peek_next());
        if fraction {
            let ghost d = s.subrange(start, self.current as int);
            value = fold_digit(value, self.peek(), Ghost(d));
            assert(d.push(s[self.current as int]) == s.subrange(start, self.current + 1));
            self.advance();
            while Self::is_digit(self.peek())
                invariant
                    self.wf(),
                    self.same_content(&pre),
                    s == pre.chars@,
                    start == pre.start,
                    integer_end == digit_run_end(s, start + 1),
                    integer_end + 1 <= self.current,
                    digit_run_end(s, integer_end + 1) == digit_run_end(s, self.current as int),
                    tracks_value(value, s.subrange(start, self.current as int)),
                decreases s.len() - self.current,
            {
                let ghost d = s.subrange(start, self.current as int);
                value = fold_digit(value, self.peek(), Ghost(d));
                assert(d.push(s[self.current as int]) == s.subrange(start, self.current + 1));
                self.advance();
            }
        }
        let scale: usize = if fraction {
            self.current - integer_end - 1
        } else {
            0
        };
        match value {
            Some(mantissa) => {
                self.add_token_with_literal(TokenType::Number, TokenLiteral::Number { mantissa, scale })
            },
            None => self.add_error(LexicalErrorKind::NumberTooLarge),
        }
    }

    /// Skips a block comment whose opening `/*` was just read.
    fn parse_block_comment(&mut self)
        requires
            old(self).wf(),
            old(self).current == old(self).start + 2,
            old(self).line <= old(self).start + 1,
            old(self).chars@[old(self).start + 1] == '*',
        ensures
            final(self).wf(),
            final(self).after_step(
                old(self),
                slash_step(old(self).chars@, old(self).start as int, old(self).line as nat),
            ),
    {
        let ghost pre = *self;
        let ghost s = self.chars@;
        let mut newlines: usize = 0;
        while (self.peek() != '*' || self.peek_next() != '/') && !self.is_at_end()
            invariant
                self.wf(),
                self.same_content(&pre),
                s == pre.chars@,
                pre.start + 2 <= self.current,
                find_comment_close(s, pre.start + 2) == find_comment_close(s, self.current as int),
                newlines == count_newlines(s, pre.start + 2, self.current as int),
                newlines <= self.current - pre.start - 2,
            decreases s.len() - self.current,
        {
            if self.peek() == '\n' {
                newlines = newlines + 1;
            }
            self.advance();
        }
        self.line = self.line + newlines;
        if self.is_at_end() {
            self.add_error(LexicalErrorKind::UnterminatedBlockComment);
        } else {
            // the closing `*/`
            self.advance();
            self.advance();
        }
    }
}


impl Scanner {
    /// Reads the lexeme that begins at the cursor.
    fn scan_token(&mut self)
        requires
            old(self).wf(),
            old(self).start == old(self).current,
            old(self).current < old(self).chars@.len(),
            old(self).line <= old(self).current + 1,
        ensures
            final(self).wf(),
            final(self).after_step(
                old(self),
                step(old(self).chars@, old(self).start as int, old(self).line as nat),
            ),
    {
        let ghost pre = *self;
        let ghost s = self.chars@;
        let c = match self.advance() {
            Some(c) => c,
            None => '\0',
        };
        match c {
            '(' => self.add_token(TokenType::LeftParen),
            ')' => self.add_token(TokenType::RightParen),
            '{' => self.add_token(TokenType::LeftBrace),
            '}' => self.add_token(TokenType::RightBrace),
            ',' => self.add_token(TokenType::Comma),
            '.' => self.add_token(TokenType::Dot),
            '-' => self.add_token(TokenType::Minus),
            '+' => self.add_token(TokenType::Plus),
            ';' => self.add_token(TokenType::Semicolon),
            '*' => self.add_token(TokenType::Star),
            '!' => if self.match_next('=') {
                self.add_token(TokenType::BangEqual)
            } else {
                self.add_token(TokenType::Bang)
            },
            '=' => if self.match_next('=') {
                self.add_token(TokenType::EqualEqual)
            } else {
                self.add_token(TokenType::Equal)
            },
            '<' => if self.match_next('=') {
                self.add_token(TokenType::LessEqual)
            } else {
                self.add_token(TokenType::Less)
            },
            '>' => if self.match_next('=') {
                self.add_token(TokenType::GreaterEqual)
            } else {
                self.add_token(TokenType::Greater)
            },
            '/' => {
                if self.match_next('/') {
                    // a line comment runs up to the line terminator
                    while self.peek() != '\n' && !self.is_at_end()
                        invariant
                            self.wf(),
                            self.same_content(&pre),
                            s == pre.chars@,
                            pre.start + 2 <= self.current,
                            find_char(s, pre.start + 2, '\n') == find_char(s, self.current as int, '\n'),
                        decreases s.len() - self.current,
                    {
                        self.advance();
                    }
                } else if self.match_next('*') {
                    self.parse_block_comment()
                } else {
                    self.add_token(TokenType::Slash)
                }
            },
            ' ' | '\r' | '\t' => {},
            '\n' => self.line = self.line + 1,
            '"' => self.parse_string(),
            _ => {
                if Self::is_digit(c) {
                    self.parse_number()
                } else if Self::is_alpha(c) {
                    self.parse_identifier()
                } else {
                    self.add_error(LexicalErrorKind::UnrecognizedCharacter)
                }
            },
        }
    }

    /// Scans the whole text from its start, leaving the tokens (ended by the
    /// terminal token) and the errors in `self`.
    fn run(&mut self)
        requires
            old(self).wf(),
        ensures
            final(self).wf(),
            final(self).source == old(self).source,
            match scan_result(old(self).chars@) {
                Ok(t) => final(self).errors@.len() == 0 && tokens_view(final(self).tokens@) == t,
                Err(e) => errors_view(final(self).errors@) == e,
            },
    {
        let ghost s = self.chars@;
        let ghost source = self.source;
        self.tokens = Vec::new();
        self.errors = Vec::new();
        self.start = 0;
        self.current = 0;
        self.line = 1;
        assert(tokens_view(self.tokens@) == Seq::<TokenView>::empty());
        assert(errors_view(self.errors@) == Seq::<ErrorView>::empty());
        while !self.is_at_end()
            invariant
                self.wf(),
                self.chars@ == s,
                self.source == source,
                self.line <= self.current + 1,
                scan_from(s, 0, 1, Seq::empty(), Seq::empty()) == scan_from(
                    s,
                    self.current as int,
                    self.line as nat,
                    tokens_view(self.tokens@),
                    errors_view(self.errors@),
                ),
            decreases s.len() - self.current,
        {
            let ghost pos = self.current as int;
            let ghost line = self.line as nat;
            let ghost toks = tokens_view(self.tokens@);
            let ghost errs = errors_view(self.errors@);
            self.start = self.current;
            self.scan_token();
            proof {
                let st = step(s, pos, line);
                lemma_step_advances(s, pos, line);
                lemma_append_option_seq(toks, st.token);
                lemma_append_option_seq(errs, st.error);
            }
        }
        let ghost toks = tokens_view(self.tokens@);
        let eof = Token {
            token_type: TokenType::EOF,
            lexeme: String::new(),
            literal: TokenLiteral::Absent,
            line: self.line,
        };
        self.tokens.push(eof);
        assert(tokens_view(self.tokens@) == toks.push(eof@));
        assert(eof@ == eof_token(self.line as nat));
    }
}


impl Scanner {
    /// Scans the whole text: the tokens, ended by the terminal token, when
    /// no lexical error was met, else every error met, in order.
    ///
    /// Each call scans afresh from the start of the text, so calling it
    /// again gives the same result.
    pub fn scan_tokens(&mut self) -> (r: Result<&Vec<Token>, &Vec<LexicalError>>)
        requires
            old(self).wf(),
        ensures
            final(self).wf(),
            final(self).text() == old(self).text(),
            match r {
                Ok(t) => scan_result(old(self).text()) == Ok::<_, Seq<ErrorView>>(tokens_view(t@)),
                Err(e) => scan_result(old(self).text()) == Err::<Seq<TokenView>, _>(errors_view(e@)),
            },
    {
        self.run();
        if self.errors.len() != 0 {
            return Err(&self.errors);
        }
        Ok(&self.tokens)
    }
}

/// Scans `source` (whose length is bounded as for `Scanner::new`): the tokens, ended by the terminal token, when no lexical
/// error was met, else every error met, in order.
pub fn scan(source: String) -> (r: Result<Vec<Token>, Vec<LexicalError>>)
    requires
        source@.len() < usize::MAX,
    ensures
        match r {
            Ok(t) => scan_result(source@) == Ok::<_, Seq<ErrorView>>(tokens_view(t@)),
            Err(e) => scan_result(source@) == Err::<Seq<TokenView>, _>(errors_view(e@)),
        },
{
    let mut scanner = Scanner::new(source);
    scanner.run();
    if scanner.errors.len() != 0 {
        Err(scanner.errors)
    } else {
        Ok(scanner.tokens)
    }
}

impl LexicalError {
    /// A human-readable description of the error.
    pub fn message(&self) -> (r: &'static str)
        ensures
            r@ == error_message(self.kind),
    {
        match self.kind {
            LexicalErrorKind::UnrecognizedCharacter => "Unrecognized character",
            LexicalErrorKind::UnterminatedString => "Unterminated string",
            LexicalErrorKind::UnterminatedBlockComment => "Unterminated block comment",
            LexicalErrorKind::NumberTooLarge => "Number too large",
        }
    }
}

/// The description of an error of kind `k`.
pub open spec fn error_message(k: LexicalErrorKind) -> Seq<char> {
    match k {
        LexicalErrorKind::UnrecognizedCharacter => "Unrecognized character"@,
        LexicalErrorKind::UnterminatedString => "Unterminated string"@,
        LexicalErrorKind::UnterminatedBlockComment => "Unterminated block comment"@,
        LexicalErrorKind::NumberTooLarge => "Number too large"@,
    }
}

} // verus!
