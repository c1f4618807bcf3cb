//! The lexical scanner: source text to a flat token sequence.
//!
//! `scan_text` says, over the characters of the input, exactly which
//! tokens come out: one-character symbols, `->`, keywords, and
//! greedily-read identifiers, with whitespace skipped between tokens.
//! `Scanner::scan` returns exactly that.

use vstd::prelude::*;
use vstd::string::StrSliceExecFns;
use vstd::string::StringExecFns;

verus! {

/// A token of the concrete syntax.
#[derive(Debug)]
pub enum Token {
    Identifier(String),
    Lambda,
    Equal,
    Dot,
    LeftParen,
    RightParen,
    Colon,
    True,
    False,
    Bool,
    If,
    Then,
    Else,
    Arrow,
}

/// The model of a token, with an identifier as its characters.
pub enum TokenView {
    Identifier(Seq<char>),
    Lambda,
    Equal,
    Dot,
    LeftParen,
    RightParen,
    Colon,
    True,
    False,
    Bool,
    If,
    Then,
    Else,
    Arrow,
}

impl View for Token {
    type V = TokenView;

    open spec fn view(&self) -> TokenView {
        match self {
            Token::Identifier(s) => TokenView::Identifier(s@),
            Token::Lambda => TokenView::Lambda,
            Token::Equal => TokenView::Equal,
            Token::Dot => TokenView::Dot,
            Token::LeftParen => TokenView::LeftParen,
            Token::RightParen => TokenView::RightParen,
            Token::Colon => TokenView::Colon,
            Token::True => TokenView::True,
            Token::False => TokenView::False,
            Token::Bool => TokenView::Bool,
            Token::If => TokenView::If,
            Token::Then => TokenView::Then,
            Token::Else => TokenView::Else,
            Token::Arrow => TokenView::Arrow,
        }
    }
}

impl PartialEq for Token {
    fn eq(&self, other: &Token) -> (r: bool) {
        match (self, other) {
            (Token::Identifier(a), Token::Identifier(b)) => a.eq(b),
            (Token::Lambda, Token::Lambda) => true,
            (Token::Equal, Token::Equal) => true,
            (Token::Dot, Token::Dot) => true,
            (Token::LeftParen, Token::LeftParen) => true,
            (Token::RightParen, Token::RightParen) => true,
            (Token::Colon, Token::Colon) => true,
            (Token::True, Token::True) => true,
            (Token::False, Token::False) => true,
            (Token::Bool, Token::Bool) => true,
            (Token::If, Token::If) => true,
            (Token::Then, Token::Then) => true,
            (Token::Else, Token::Else) => true,
            (Token::Arrow, Token::Arrow) => true,
            _ => false,
        }
    }
}

impl vstd::std_specs::cmp::PartialEqSpecImpl for Token {
    open spec fn obeys_eq_spec() -> bool {
        true
    }

    open spec fn eq_spec(&self, other: &Token) -> bool {
        self@ == other@
    }
}

/// The sequence of token models of a sequence of tokens.
pub open spec fn token_views(toks: Seq<Token>) -> Seq<TokenView> {
    toks.map_values(|t: Token| t@)
}

/// Why a line cannot be scanned.
#[derive(Debug, Clone, Copy, PartialEq, Eq, Structural)]
pub enum ScanError {
    /// A `-` not followed by `>`.
    UnexpectedSymbol(char),
    /// A character that can start neither a symbol nor an identifier,
    /// such as a digit.
    InvalidCharacter(char),
}

/// Whether `char::is_alphabetic` holds of the character; the Unicode
/// alphabetic property is a function of the character alone.
pub uninterp spec fn is_alphabetic_char(c: char) -> bool;

/// Relies on char::is_alphabetic: whether the character is alphabetic.
#[verifier::external_body]
fn char_is_alphabetic(c: char) -> (r: bool)
    ensures
        r == is_alphabetic_char(c),
{
    c.is_alphabetic()
}

/// Whether `char::is_whitespace` holds of the character; the Unicode
/// white-space property is a function of the character alone.
pub uninterp spec fn is_whitespace_char(c: char) -> bool;

/// Relies on char::is_whitespace: whether the character is whitespace.
#[verifier::external_body]
fn char_is_whitespace(c: char) -> (r: bool)
    ensures
        r == is_whitespace_char(c),
{
    c.is_whitespace()
}

/// The characters that end an identifier.
pub open spec fn is_delimiter(c: char) -> bool {
    c == ' ' || c == '.' || c == '\\' || c == '(' || c == ')' || c == ':' || c == '-'
}

fn delimiter(c: char) -> (r: bool)
    ensures
        r == is_delimiter(c),
{
    c == ' ' || c == '.' || c == '\\' || c == '(' || c == ')' || c == ':' || c == '-'
}

/// Where an identifier that is running at position `i` ends: the first
/// position at or after `i` holding a delimiter, or the end of input.
pub open spec fn ident_end(cs: Seq<char>, i: int) -> int
    decreases cs.len() - i,
        when 0 <= i <= cs.len()
{
    if i >= cs.len() {
        i
    } else if is_delimiter(cs[i]) {
        i
    } else {
        ident_end(cs, i + 1)
    }
}

proof fn lemma_ident_end(cs: Seq<char>, i: int)
    requires
        0 <= i <= cs.len(),
    ensures
        i <= ident_end(cs, i) <= cs.len(),
    decreases cs.len() - i,
{
    if i < cs.len() && !is_delimiter(cs[i]) {
        lemma_ident_end(cs, i + 1);
    }
}

/// Where the whitespace running at position `i` ends.
pub open spec fn ws_end(cs: Seq<char>, i: int) -> int
    decreases cs.len() - i,
        when 0 <= i <= cs.len()
{
    if i >= cs.len() {
        i
    } else if is_whitespace_char(cs[i]) {
        ws_end(cs, i + 1)
    } else {
        i
    }
}

proof fn lemma_ws_end(cs: Seq<char>, i: int)
    requires
        0 <= i <= cs.len(),
    ensures
        i <= ws_end(cs, i) <= cs.len(),
    decreases cs.len() - i,
{
    if i < cs.len() && is_whitespace_char(cs[i]) {
        lemma_ws_end(cs, i + 1);
    }
}

/// The token an identifier's characters stand for: a keyword where they
/// spell one, the identifier itself otherwise.
pub open spec fn keyword_token(w: Seq<char>) -> TokenView {
    if w == "true"@ {
        TokenView::True
    } else if w == "false"@ {
        TokenView::False
    } else if w == "if"@ {
        TokenView::If
    } else if w == "then"@ {
        TokenView::Then
    } else if w == "else"@ {
        TokenView::Else
    } else if w == "bool"@ {
        TokenView::Bool
    } else {
        TokenView::Identifier(w)
    }
}

/// The next token at position `i`, and the position after it: `None`
/// at the end of input, the token or the scan error otherwise.
pub open spec fn scan_token_at(cs: Seq<char>, i: int) -> (Option<Result<TokenView, ScanError>>, int)
    decreases cs.len() - i,
        when 0 <= i <= cs.len()
{
    if i >= cs.len() {
        (None, i)
    } else {
        let c = cs[i];
        if c == '\\' {
            (Some(Ok(TokenView::Lambda)), i + 1)
        } else if c == '.' {
            (Some(Ok(TokenView::Dot)), i + 1)
        } else if c == '=' {
            (Some(Ok(TokenView::Equal)), i + 1)
        } else if c == '(' {
            (Some(Ok(TokenView::LeftParen)), i + 1)
        } else if c == ')' {
            (Some(Ok(TokenView::RightParen)), i + 1)
        } else if c == ':' {
            (Some(Ok(TokenView::Colon)), i + 1)
        } else if c == '-' {
            if i + 1 < cs.len() && cs[i + 1] == '>' {
                (Some(Ok(TokenView::Arrow)), i + 2)
            } else {
                (Some(Err(ScanError::UnexpectedSymbol('-'))), i + 1)
            }
        } else if is_alphabetic_char(c) {
            let end = ident_end(cs, i + 1);
            if i < end <= cs.len() {
                (Some(Ok(keyword_token(cs.subrange(i, end)))), end)
            } else {
                (Some(Ok(keyword_token(cs.subrange(i, i + 1)))), i + 1)
            }
        } else if is_whitespace_char(c) {
            let j = ws_end(cs, i + 1);
            if i < j <= cs.len() {
                scan_token_at(cs, j)
            } else {
                (None, j)
            }
        } else {
            (Some(Err(ScanError::InvalidCharacter(c))), i + 1)
        }
    }
}

proof fn lemma_scan_token_at(cs: Seq<char>, i: int)
    requires
        0 <= i <= cs.len(),
    ensures
        i <= scan_token_at(cs, i).1 <= cs.len(),
        scan_token_at(cs, i).0 matches Some(Ok(_)) ==> i < scan_token_at(cs, i).1,
        scan_token_at(cs, i).0 is None ==> scan_token_at(cs, i).1 >= cs.len(),
    decreases cs.len() - i,
{
    if i < cs.len() {
        let c = cs[i];
        if c == '\\' || c == '.' || c == '=' || c == '(' || c == ')' || c == ':' || c == '-' {
        } else if is_alphabetic_char(c) {
            lemma_ident_end(cs, i + 1);
        } else if is_whitespace_char(c) {
            lemma_ws_end(cs, i + 1);
            let j = ws_end(cs, i + 1);
            lemma_scan_token_at(cs, j);
        }
    }
}

/// The tokens of the input from position `i` on, or the error on which
/// scanning stops.
pub open spec fn scan_text(cs: Seq<char>, i: int) -> Result<Seq<TokenView>, ScanError>
    decreases cs.len() - i,
        when 0 <= i <= cs.len()
{
    let (t, j) = scan_token_at(cs, i);
    match t {
        None => Ok(Seq::empty()),
        Some(Err(e)) => Err(e),
        Some(Ok(tok)) => if i < j <= cs.len() {
            match scan_text(cs, j) {
                Ok(rest) => Ok(seq![tok] + rest),
                Err(e) => Err(e),
            }
        } else {
            Ok(seq![tok])
        },
    }
}

/// The characters of a string, in order.
fn to_chars(s: &String) -> (r: Vec<char>)
    ensures
        r@ == s@,
{
    let n = s.as_str().unicode_len();
    let mut v: Vec<char> = Vec::new();
    let mut i: usize = 0;
    while i < n
        invariant
            i <= n,
            n == s@.len(),
            v@ == s@.subrange(0, i as int),
        decreases n - i,
    {
        let c = s.as_str().get_char(i);
        v.push(c);
        proof {
            assert(v@ =~= s@.subrange(0, i + 1));
        }
        i += 1;
    }
    proof {
        assert(s@.subrange(0, n as int) =~= s@);
    }
    v
}

/// The token a finished identifier stands for.
fn keyword_of(s: String) -> (t: Token)
    ensures
        t@ == keyword_token(s@),
{
    if s.eq(&String::from_str("true")) {
        Token::True
    } else if s.eq(&String::from_str("false")) {
        Token::False
    } else if s.eq(&String::from_str("if")) {
        Token::If
    } else if s.eq(&String::from_str("then")) {
        Token::Then
    } else if s.eq(&String::from_str("else")) {
        Token::Else
    } else if s.eq(&String::from_str("bool")) {
        Token::Bool
    } else {
        Token::Identifier(s)
    }
}

/// The scanner: the input line and how far it has been read.
pub struct Scanner {
    stream: String,
    chars: Vec<char>,
    pos: usize,
}

impl Scanner {
    /// The scanner's state is sound: the character list is the stream's
    /// and the position is inside it.
    pub closed spec fn wf(&self) -> bool {
        self.chars@ == self.stream@ && self.pos <= self.chars@.len()
    }

    /// The input line the scanner reads.
    pub closed spec fn input(&self) -> Seq<char> {
        self.stream@
    }

    /// How far the scanner has read.
    pub closed spec fn at(&self) -> int {
        self.pos as int
    }

    /// Scan a whole line: the token sequence that `scan_text` assigns
    /// to its characters, or the scan error it stops on.
    pub fn scan(stream: String) -> (res: Result<Vec<Token>, ScanError>)
        ensures
            (match res {
                Ok(toks) => scan_text(stream@, 0) == Ok::<Seq<TokenView>, ScanError>(
                    token_views(toks@),
                ),
                Err(e) => scan_text(stream@, 0) == Err::<Seq<TokenView>, ScanError>(e),
            }),
    {
        let ghost input = stream@;
        let chars = to_chars(&stream);
        let mut scanner = Scanner { stream, chars, pos: 0 };
        let mut tokens: Vec<Token> = Vec::new();
        loop
            invariant
                input == stream@,
                scanner.wf(),
                scanner.input() == input,
                (match scan_text(input, scanner.at()) {
                    Ok(rest) => scan_text(input, 0) == Ok::<Seq<TokenView>, ScanError>(
                        token_views(tokens@) + rest,
                    ),
                    Err(e) => scan_text(input, 0) == Err::<Seq<TokenView>, ScanError>(e),
                }),
            decreases input.len() - scanner.at(),
        {
            let ghost p = scanner.at();
            match scanner.scan_token() {
                None => {
                    proof {
                        lemma_scan_token_at(input, p);
                        assert(scan_text(input, p) == Ok::<Seq<TokenView>, ScanError>(
                            Seq::empty(),
                        ));
                        assert(token_views(tokens@) + Seq::empty() =~= token_views(tokens@));
                    }
                    return Ok(tokens);
                },
                Some(Ok(tok)) => {
                    proof {
                        lemma_scan_token_at(input, p);
                        let rest = scan_text(input, scanner.at());
                        if let Ok(restoks) = rest {
                            assert(token_views(tokens@.push(tok)) =~= token_views(tokens@)
                                + seq![tok@]);
                            assert(token_views(tokens@) + (seq![tok@] + restoks) =~= (
                            token_views(tokens@) + seq![tok@]) + restoks);
                        }
                    }
                    tokens.push(tok);
                },
                Some(Err(e)) => {
                    return Err(e);
                },
            }
        }
    }

    /// The next token of the line, as `scan_token_at` gives it, or
    /// `None` at the end of input.
    fn scan_token(&mut self) -> (r: Option<Result<Token, ScanError>>)
        requires
            old(self).wf(),
        ensures
            final(self).wf(),
            final(self).input() == old(self).input(),
            final(self).at() >= old(self).at(),
            scan_token_at(old(self).input(), old(self).at()).1 == final(self).at(),
            (match r {
                None => scan_token_at(old(self).input(), old(self).at()).0 is None,
                Some(Ok(tok)) => scan_token_at(old(self).input(), old(self).at()).0 == Some(
                    Ok::<TokenView, ScanError>(tok@),
                ),
                Some(Err(e)) => scan_token_at(old(self).input(), old(self).at()).0 == Some(
                    Err::<TokenView, ScanError>(e),
                ),
            }),
        decreases old(self).chars@.len() - old(self).pos,
    {
        let n = self.chars.len();
        if self.pos >= n {
            return None;
        }
        let c = self.chars[self.pos];
        if c == '\\' {
            self.pos = self.pos + 1;
            Some(Ok(Token::Lambda))
        } else if c == '.' {
            self.pos = self.pos + 1;
            Some(Ok(Token::Dot))
        } else if c == '=' {
            self.pos = self.pos + 1;
            Some(Ok(Token::Equal))
        } else if c == '(' {
            self.pos = self.pos + 1;
            Some(Ok(Token::LeftParen))
        } else if c == ')' {
            self.pos = self.pos + 1;
            Some(Ok(Token::RightParen))
        } else if c == ':' {
            self.pos = self.pos + 1;
            Some(Ok(Token::Colon))
        } else if c == '-' {
            if self.pos + 1 < n && self.chars[self.pos + 1] == '>' {
                self.pos = self.pos + 2;
                Some(Ok(Token::Arrow))
            } else {
                self.pos = self.pos + 1;
                Some(Err(ScanError::UnexpectedSymbol('-')))
            }
        } else if char_is_alphabetic(c) {
            let start = self.pos;
            let mut j = self.pos + 1;
            while j < n && !delimiter(self.chars[j])
                invariant
                    start < j <= n,
                    n == self.chars@.len(),
                    old(self).wf(),
                    *self == *old(self),
                    ident_end(self.chars@, start + 1) == ident_end(self.chars@, j as int),
                decreases n - j,
            {
                j += 1;
            }
            proof {
                assert(ident_end(self.chars@, j as int) == j);
            }
            let word = self.stream.as_str().substring_char(start, j).to_owned();
            self.pos = j;
            proof {
                assert(word@ =~= old(self).input().subrange(start as int, j as int));
            }
            Some(Ok(keyword_of(word)))
        } else if char_is_whitespace(c) {
            let start = self.pos;
            let mut j = self.pos + 1;
            while j < n && char_is_whitespace(self.chars[j])
                invariant
                    start < j <= n,
                    n == self.chars@.len(),
                    old(self).wf(),
                    *self == *old(self),
                    ws_end(self.chars@, start + 1) == ws_end(self.chars@, j as int),
                decreases n - j,
            {
                j += 1;
            }
            proof {
                assert(ws_end(self.chars@, j as int) == j);
            }
            self.pos = j;
            self.scan_token()
        } else {
            self.pos = self.pos + 1;
            Some(Err(ScanError::InvalidCharacter(c)))
        }
    }
}

} // verus!
