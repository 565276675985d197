//! The lexical rules of the language, stated as spec functions over the
//! source's characters, and the laws that follow from them.
use vstd::prelude::*;

use crate::scanner::{ErrorView, LexicalErrorKind};
use crate::token::{keyword_of, LiteralView, TokenType, TokenView};

verus! {

/// The character at `i`, or the null character past either end of `s`.
pub open spec fn char_at(s: Seq<char>, i: int) -> char {
    if 0 <= i < s.len() {
        s[i]
    } else {
        '\0'
    }
}

pub open spec fn is_alpha_char(c: char) -> bool {
    ('a' <= c && c <= 'z') || ('A' <= c && c <= 'Z') || c == '_'
}

pub open spec fn is_digit_char(c: char) -> bool {
    '0' <= c && c <= '9'
}

pub open spec fn is_alphanumeric_char(c: char) -> bool {
    is_alpha_char(c) || is_digit_char(c)
}

/// The first index at or after `i` that does not hold a digit.
pub open spec fn digit_run_end(s: Seq<char>, i: int) -> int
    decreases s.len() - i,
{
    if 0 <= i < s.len() && is_digit_char(s[i]) {
        digit_run_end(s, i + 1)
    } else {
        i
    }
}

/// The first index at or after `i` that holds neither a letter, a digit nor `_`.
pub open spec fn word_run_end(s: Seq<char>, i: int) -> int
    decreases s.len() - i,
{
    if 0 <= i < s.len() && is_alphanumeric_char(s[i]) {
        word_run_end(s, i + 1)
    } else {
        i
    }
}

/// The first index at or after `i` that holds `c`, or the length of `s`.
pub open spec fn find_char(s: Seq<char>, i: int, c: char) -> int
    decreases s.len() - i,
{
    if 0 <= i < s.len() && s[i] != c {
        find_char(s, i + 1, c)
    } else {
        i
    }
}

/// The first index at or after `i` where `*/` begins, or the length of `s`.
pub open spec fn find_comment_close(s: Seq<char>, i: int) -> int
    decreases s.len() - i,
{
    if 0 <= i < s.len() && !(s[i] == '*' && char_at(s, i + 1) == '/') {
        find_comment_close(s, i + 1)
    } else {
        i
    }
}

/// How many line terminators stand at the indices `i .. j` of `s`.
pub open spec fn count_newlines(s: Seq<char>, i: int, j: int) -> nat
    decreases j - i,
{
    if j <= i {
        0
    } else {
        count_newlines(s, i, j - 1) + if char_at(s, j - 1) == '\n' {
            1nat
        } else {
            0nat
        }
    }
}

/// The number that the digits of `d` spell, read in order; other characters are skipped.
pub open spec fn decimal_value(d: Seq<char>) -> nat
    decreases d.len(),
{
    if d.len() == 0 {
        0
    } else {
        let last = d.last();
        if is_digit_char(last) {
            decimal_value(d.drop_last()) * 10 + ((last as int) - ('0' as int)) as nat
        } else {
            decimal_value(d.drop_last())
        }
    }
}

/// The outcome of reading one lexeme that begins at some index.
pub struct Step {
    /// Where the next lexeme begins.
    pub next: int,
    /// The line counter after the lexeme.
    pub line: nat,
    pub token: Option<TokenView>,
    pub error: Option<ErrorView>,
}

pub open spec fn skip_to(next: int, line: nat) -> Step {
    Step { next, line, token: None, error: None }
}

pub open spec fn fail_at(next: int, line: nat, kind: LexicalErrorKind) -> Step {
    Step { next, line, token: None, error: Some(ErrorView { kind, line }) }
}

/// A token of type `t` read from the indices `start .. next`.
pub open spec fn emit(
    s: Seq<char>,
    start: int,
    next: int,
    line: nat,
    t: TokenType,
    literal: LiteralView,
) -> Step {
    Step {
        next,
        line,
        token: Some(
            TokenView { token_type: t, lexeme: s.subrange(start, next), literal, line },
        ),
        error: None,
    }
}

/// The type of a token made of the single character `c`, if `c` is one.
pub open spec fn single_char_type(c: char) -> Option<TokenType> {
    if c == '(' {
        Some(TokenType::LeftParen)
    } else if c == ')' {
        Some(TokenType::RightParen)
    } else if c == '{' {
        Some(TokenType::LeftBrace)
    } else if c == '}' {
        Some(TokenType::RightBrace)
    } else if c == ',' {
        Some(TokenType::Comma)
    } else if c == '.' {
        Some(TokenType::Dot)
    } else if c == '-' {
        Some(TokenType::Minus)
    } else if c == '+' {
        Some(TokenType::Plus)
    } else if c == ';' {
        Some(TokenType::Semicolon)
    } else if c == '*' {
        Some(TokenType::Star)
    } else {
        None
    }
}

/// For `!`, `=`, `<` and `>`: the type alone and the type followed by `=`.
pub open spec fn operator_types(c: char) -> Option<(TokenType, TokenType)> {
    if c == '!' {
        Some((TokenType::Bang, TokenType::BangEqual))
    } else if c == '=' {
        Some((TokenType::Equal, TokenType::EqualEqual))
    } else if c == '<' {
        Some((TokenType::Less, TokenType::LessEqual))
    } else if c == '>' {
        Some((TokenType::Greater, TokenType::GreaterEqual))
    } else {
        None
    }
}

/// A lexeme that begins with `/` at `start`.
pub open spec fn slash_step(s: Seq<char>, start: int, line: nat) -> Step {
    if char_at(s, start + 1) == '/' {
        skip_to(find_char(s, start + 2, '\n'), line)
    } else if char_at(s, start + 1) == '*' {
        let close = find_comment_close(s, start + 2);
        let l = line + count_newlines(s, start + 2, close);
        if close >= s.len() {
            fail_at(close, l, LexicalErrorKind::UnterminatedBlockComment)
        } else {
            skip_to(close + 2, l)
        }
    } else {
        emit(s, start, start + 1, line, TokenType::Slash, LiteralView::Absent)
    }
}

/// A string literal whose opening quote stands at `start`.
pub open spec fn string_step(s: Seq<char>, start: int, line: nat) -> Step {
    let close = find_char(s, start + 1, '"');
    let l = line + count_newlines(s, start + 1, close);
    if close >= s.len() {
        fail_at(close, l, LexicalErrorKind::UnterminatedString)
    } else {
        Step {
            next: close + 1,
            line: l,
            token: Some(
                TokenView {
                    token_type: TokenType::String,
                    lexeme: s.subrange(start, close + 1),
                    literal: LiteralView::Text(s.subrange(start + 1, close)),
                    line,
                },
            ),
            error: None,
        }
    }
}

/// Where the digits of the integer part of a number that begins at `start` end.
pub open spec fn integer_part_end(s: Seq<char>, start: int) -> int {
    digit_run_end(s, start + 1)
}

/// Whether a number that begins at `start` has a fractional part.
pub open spec fn has_fraction(s: Seq<char>, start: int) -> bool {
    let e = integer_part_end(s, start);
    char_at(s, e) == '.' && is_digit_char(char_at(s, e + 1))
}

/// Where a number that begins at `start` ends.
pub open spec fn number_end(s: Seq<char>, start: int) -> int {
    if has_fraction(s, start) {
        digit_run_end(s, integer_part_end(s, start) + 1)
    } else {
        integer_part_end(s, start)
    }
}

/// A number literal whose first digit stands at `start`.
pub open spec fn number_step(s: Seq<char>, start: int, line: nat) -> Step {
    let end = number_end(s, start);
    let mantissa = decimal_value(s.subrange(start, end));
    let scale: nat = if has_fraction(s, start) {
        (end - integer_part_end(s, start) - 1) as nat
    } else {
        0
    };
    if mantissa > usize::MAX {
        fail_at(end, line, LexicalErrorKind::NumberTooLarge)
    } else {
        emit(s, start, end, line, TokenType::Number, LiteralView::Number { mantissa, scale })
    }
}

/// An identifier or reserved word whose first character stands at `start`.
pub open spec fn word_step(s: Seq<char>, start: int, line: nat) -> Step {
    let end = word_run_end(s, start + 1);
    let t = match keyword_of(s.subrange(start, end)) {
        Some(k) => k,
        None => TokenType::Identifier,
    };
    emit(s, start, end, line, t, LiteralView::Absent)
}

/// Reading the lexeme that begins at `start`, with the line counter at `line`.
pub open spec fn step(s: Seq<char>, start: int, line: nat) -> Step {
    let c = s[start];
    if single_char_type(c) is Some {
        emit(s, start, start + 1, line, single_char_type(c)->0, LiteralView::Absent)
    } else if operator_types(c) is Some {
        let (alone, with_eq) = operator_types(c)->0;
        if char_at(s, start + 1) == '=' {
            emit(s, start, start + 2, line, with_eq, LiteralView::Absent)
        } else {
            emit(s, start, start + 1, line, alone, LiteralView::Absent)
        }
    } else if c == '/' {
        slash_step(s, start, line)
    } else if c == ' ' || c == '\r' || c == '\t' {
        skip_to(start + 1, line)
    } else if c == '\n' {
        skip_to(start + 1, line + 1)
    } else if c == '"' {
        string_step(s, start, line)
    } else if is_digit_char(c) {
        number_step(s, start, line)
    } else if is_alpha_char(c) {
        word_step(s, start, line)
    } else {
        fail_at(start + 1, line, LexicalErrorKind::UnrecognizedCharacter)
    }
}


proof fn lemma_digit_run_end_bounds(s: Seq<char>, i: int)
    requires
        0 <= i <= s.len(),
    ensures
        i <= digit_run_end(s, i) <= s.len(),
    decreases s.len() - i,
{
    if i < s.len() && is_digit_char(s[i]) {
        lemma_digit_run_end_bounds(s, i + 1);
    }
}

proof fn lemma_word_run_end_bounds(s: Seq<char>, i: int)
    requires
        0 <= i <= s.len(),
    ensures
        i <= word_run_end(s, i) <= s.len(),
    decreases s.len() - i,
{
    if i < s.len() && is_alphanumeric_char(s[i]) {
        lemma_word_run_end_bounds(s, i + 1);
    }
}

proof fn lemma_find_char_bounds(s: Seq<char>, i: int, c: char)
    requires
        0 <= i <= s.len(),
    ensures
        i <= find_char(s, i, c) <= s.len(),
    decreases s.len() - i,
{
    if i < s.len() && s[i] != c {
        lemma_find_char_bounds(s, i + 1, c);
    }
}

proof fn lemma_find_comment_close_bounds(s: Seq<char>, i: int)
    requires
        0 <= i <= s.len(),
    ensures
        i <= find_comment_close(s, i) <= s.len(),
        find_comment_close(s, i) < s.len() ==> find_comment_close(s, i) + 2 <= s.len(),
    decreases s.len() - i,
{
    if i < s.len() && !(s[i] == '*' && char_at(s, i + 1) == '/') {
        lemma_find_comment_close_bounds(s, i + 1);
    }
}

proof fn lemma_count_newlines_bound(s: Seq<char>, i: int, j: int)
    requires
        i <= j,
    ensures
        count_newlines(s, i, j) <= j - i,
    decreases j - i,
{
    if i < j {
        lemma_count_newlines_bound(s, i, j - 1);
    }
}

/// Every step moves forward, stays within the input, and raises the line
/// counter by at most the number of characters it reads.
pub proof fn lemma_step_advances(s: Seq<char>, start: int, line: nat)
    requires
        0 <= start < s.len(),
    ensures
        start < step(s, start, line).next <= s.len(),
        line <= step(s, start, line).line <= line + (step(s, start, line).next - start),
{
    let c = s[start];
    if c == '/' && char_at(s, start + 1) == '/' {
        lemma_find_char_bounds(s, start + 2, '\n');
    } else if c == '/' && char_at(s, start + 1) == '*' {
        lemma_find_comment_close_bounds(s, start + 2);
        let close = find_comment_close(s, start + 2);
        lemma_count_newlines_bound(s, start + 2, close);
    } else if c == '"' {
        lemma_find_char_bounds(s, start + 1, '"');
        let close = find_char(s, start + 1, '"');
        lemma_count_newlines_bound(s, start + 1, close);
    } else if is_digit_char(c) {
        lemma_digit_run_end_bounds(s, start + 1);
        if has_fraction(s, start) {
            lemma_digit_run_end_bounds(s, integer_part_end(s, start) + 1);
        }
    } else if is_alpha_char(c) {
        lemma_word_run_end_bounds(s, start + 1);
    }
}

/// The tokens and errors read from `pos` on, after `toks` and `errs`, and the
/// final line counter.
pub open spec fn scan_from(
    s: Seq<char>,
    pos: int,
    line: nat,
    toks: Seq<TokenView>,
    errs: Seq<ErrorView>,
) -> (Seq<TokenView>, Seq<ErrorView>, nat)
    decreases s.len() - pos,
{
    if 0 <= pos < s.len() {
        let st = step(s, pos, line);
        proof {
            lemma_step_advances(s, pos, line);
        }
        scan_from(s, st.next, st.line, toks + option_seq(st.token), errs + option_seq(st.error))
    } else {
        (toks, errs, line)
    }
}

/// The sequence of zero or one element that `o` holds.
pub open spec fn option_seq<A>(o: Option<A>) -> Seq<A> {
    match o {
        Some(a) => seq![a],
        None => Seq::empty(),
    }
}

/// The terminal token, on line `line`.
pub open spec fn eof_token(line: nat) -> TokenView {
    TokenView { token_type: TokenType::EOF, lexeme: Seq::empty(), literal: LiteralView::Absent, line }
}

/// Scanning `s` from its start on line 1: the tokens followed by the terminal
/// token when no error was met, else the errors in the order met.
pub open spec fn scan_result(s: Seq<char>) -> Result<Seq<TokenView>, Seq<ErrorView>> {
    let (toks, errs, line) = scan_from(s, 0, 1, Seq::empty(), Seq::empty());
    if errs.len() == 0 {
        Ok(toks.push(eof_token(line)))
    } else {
        Err(errs)
    }
}


/// Appending the elements of an option is pushing its value, if any.
pub proof fn lemma_append_option_seq<A>(a: Seq<A>, o: Option<A>)
    ensures
        a + option_seq(o) == match o {
            Some(x) => a.push(x),
            None => a,
        },
{
    match o {
        Some(x) => assert(a + seq![x] =~= a.push(x)),
        None => assert(a + Seq::<A>::empty() =~= a),
    }
}


/// No token read by a single step is the terminal token.
proof fn lemma_step_token_not_eof(s: Seq<char>, start: int, line: nat)
    requires
        0 <= start < s.len(),
    ensures
        step(s, start, line).token is Some ==> step(s, start, line).token->0.token_type
            != TokenType::EOF,
{
}

proof fn lemma_scan_from_no_eof(
    s: Seq<char>,
    pos: int,
    line: nat,
    toks: Seq<TokenView>,
    errs: Seq<ErrorView>,
)
    requires
        forall|i: int| 0 <= i < toks.len() ==> toks[i].token_type != TokenType::EOF,
    ensures
        ({
            let out = scan_from(s, pos, line, toks, errs).0;
            forall|i: int| 0 <= i < out.len() ==> out[i].token_type != TokenType::EOF
        }),
    decreases s.len() - pos,
{
    if 0 <= pos < s.len() {
        let st = step(s, pos, line);
        lemma_step_advances(s, pos, line);
        lemma_step_token_not_eof(s, pos, line);
        let toks2 = toks + option_seq(st.token);
        assert forall|i: int| 0 <= i < toks2.len() implies toks2[i].token_type != TokenType::EOF by {
            if i >= toks.len() {
                assert(toks2[i] == st.token->0);
            }
        }
        lemma_scan_from_no_eof(s, st.next, st.line, toks2, errs + option_seq(st.error));
    }
}

/// A successful scan ends with exactly one terminal token: its last token
/// has type `EOF`, an empty lexeme and no literal, and no token before it
/// has type `EOF`.
pub proof fn lemma_success_ends_with_single_eof(s: Seq<char>)
    ensures
        scan_result(s) matches Ok(toks) ==> {
            &&& toks.len() >= 1
            &&& toks.last().token_type == TokenType::EOF
            &&& toks.last().lexeme.len() == 0
            &&& toks.last().literal is Absent
            &&& forall|i: int| 0 <= i < toks.len() - 1 ==> toks[i].token_type != TokenType::EOF
        },
{
    lemma_scan_from_no_eof(s, 0, 1, Seq::empty(), Seq::empty());
}

/// Scanning depends on the text alone: equal texts scan to equal results,
/// whenever and however often they are scanned.
pub proof fn lemma_scan_deterministic(a: Seq<char>, b: Seq<char>)
    requires
        a == b,
    ensures
        scan_result(a) == scan_result(b),
{
}

} // verus!
