use vstd::prelude::*;

verus! {

/// The closed set of lexical categories a token can belong to.
#[derive(Clone, Copy, Debug, PartialEq, Eq, Structural)]
pub enum TokenType {
    // Single-character tokens
    LeftParen,
    RightParen,
    LeftBrace,
    RightBrace,
    Comma,
    Dot,
    Minus,
    Plus,
    Semicolon,
    Slash,
    Star,
    // One or two character tokens
    Bang,
    BangEqual,
    Equal,
    EqualEqual,
    Greater,
    GreaterEqual,
    Less,
    LessEqual,
    // Literals
    Identifier,
    String,
    Number,
    // Keywords
    And,
    Class,
    Else,
    False,
    Fun,
    For,
    If,
    Nil,
    Or,
    Print,
    Return,
    Super,
    This,
    True,
    Var,
    While,
    EOF,
}

/// The reserved word spelled exactly by `w`, if any (case-sensitive).
pub open spec fn keyword_of(w: Seq<char>) -> Option<TokenType> {
    if w == "and"@ {
        Some(TokenType::And)
    } else if w == "class"@ {
        Some(TokenType::Class)
    } else if w == "else"@ {
        Some(TokenType::Else)
    } else if w == "false"@ {
        Some(TokenType::False)
    } else if w == "for"@ {
        Some(TokenType::For)
    } else if w == "fun"@ {
        Some(TokenType::Fun)
    } else if w == "if"@ {
        Some(TokenType::If)
    } else if w == "nil"@ {
        Some(TokenType::Nil)
    } else if w == "or"@ {
        Some(TokenType::Or)
    } else if w == "print"@ {
        Some(TokenType::Print)
    } else if w == "return"@ {
        Some(TokenType::Return)
    } else if w == "super"@ {
        Some(TokenType::Super)
    } else if w == "this"@ {
        Some(TokenType::This)
    } else if w == "true"@ {
        Some(TokenType::True)
    } else if w == "var"@ {
        Some(TokenType::Var)
    } else if w == "while"@ {
        Some(TokenType::While)
    } else {
        None
    }
}

/// Whether `a` and `b` hold the same characters.
fn same_text(a: &str, b: &str) -> (r: bool)
    ensures
        r == (a@ == b@),
{
    let n = a.unicode_len();
    if n != b.unicode_len() {
        return false;
    }
    let mut i: usize = 0;
    while i < n
        invariant
            n == a@.len(),
            n == b@.len(),
            i <= n,
            a@.subrange(0, i as int) == b@.subrange(0, i as int),
        decreases n - i,
    {
        if a.get_char(i) != b.get_char(i) {
            assert(a@[i as int] != b@[i as int]);
            return false;
        }
        assert(a@.subrange(0, i + 1) == a@.subrange(0, i as int).push(a@[i as int]));
        assert(b@.subrange(0, i + 1) == b@.subrange(0, i as int).push(b@[i as int]));
        i = i + 1;
    }
    assert(a@ == a@.subrange(0, n as int));
    assert(b@ == b@.subrange(0, n as int));
    true
}

impl TokenType {
    /// Looks `keyword` up in the table of reserved words.
    pub fn parse(keyword: String) -> (r: Option<TokenType>)
        ensures
            r == keyword_of(keyword@),
    {
        let w = keyword.as_str();
        if same_text(w, "and") {
            Some(Self::And)
        } else if same_text(w, "class") {
            Some(Self::Class)
        } else if same_text(w, "else") {
            Some(Self::Else)
        } else if same_text(w, "false") {
            Some(Self::False)
        } else if same_text(w, "for") {
            Some(Self::For)
        } else if same_text(w, "fun") {
            Some(Self::Fun)
        } else if same_text(w, "if") {
            Some(Self::If)
        } else if same_text(w, "nil") {
            Some(Self::Nil)
        } else if same_text(w, "or") {
            Some(Self::Or)
        } else if same_text(w, "print") {
            Some(Self::Print)
        } else if same_text(w, "return") {
            Some(Self::Return)
        } else if same_text(w, "super") {
            Some(Self::Super)
        } else if same_text(w, "this") {
            Some(Self::This)
        } else if same_text(w, "true") {
            Some(Self::True)
        } else if same_text(w, "var") {
            Some(Self::Var)
        } else if same_text(w, "while") {
            Some(Self::While)
        } else {
            None
        }
    }
}


/// The decoded value a `String` or `Number` token carries.
///
/// A number is kept exactly as a decimal: its value is
/// `mantissa / 10^scale`, where `mantissa` is the number read from all of
/// the lexeme's digits and `scale` is how many of them follow the `.`
/// (so `12.5` is `{ mantissa: 125, scale: 1 }` and `7` is `{ mantissa: 7, scale: 0 }`).
#[derive(Clone, Debug, PartialEq, Eq)]
pub enum TokenLiteral {
    Number { mantissa: usize, scale: usize },
    String(String),
    Absent,
}

/// What a literal denotes.
pub enum LiteralView {
    Number { mantissa: nat, scale: nat },
    Text(Seq<char>),
    Absent,
}

impl View for TokenLiteral {
    type V = LiteralView;

    open spec fn view(&self) -> LiteralView {
        match self {
            TokenLiteral::Number { mantissa, scale } => LiteralView::Number {
                mantissa: *mantissa as nat,
                scale: *scale as nat,
            },
            TokenLiteral::String(s) => LiteralView::Text(s@),
            TokenLiteral::Absent => LiteralView::Absent,
        }
    }
}

/// A classified unit of source text.
#[derive(Clone, Debug, PartialEq, Eq)]
pub struct Token {
    pub token_type: TokenType,
    /// The exact source text the token was read from.
    pub lexeme: String,
    pub literal: TokenLiteral,
    /// The line, counted from 1, on which the token's first character stands.
    pub line: usize,
}

/// What a token denotes.
pub struct TokenView {
    pub token_type: TokenType,
    pub lexeme: Seq<char>,
    pub literal: LiteralView,
    pub line: nat,
}

impl View for Token {
    type V = TokenView;

    open spec fn view(&self) -> TokenView {
        TokenView {
            token_type: self.token_type,
            lexeme: self.lexeme@,
            literal: self.literal@,
            line: self.line as nat,
        }
    }
}

/// The views of a sequence of tokens, one for one.
pub open spec fn tokens_view(v: Seq<Token>) -> Seq<TokenView> {
    v.map_values(|t: Token| t@)
}

} // verus!
