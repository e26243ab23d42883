//! The character lexer: it reads a source string one token ahead.
//!
//! Blanks (space, tab, carriage return) separate tokens. A newline is a token
//! of its own. Rows count from 1 and a newline belongs to the row it ends;
//! columns count characters from 1 after the last newline, which itself has
//! column 0. Text that makes no token becomes an `Illegal` token.
use vstd::prelude::*;
use vstd::string::{StrSliceExecFns, StringExecFns};

use crate::token::{Token, TokenType, TokenTypeView, TokenView};

verus! {

pub open spec fn is_ws(c: char) -> bool {
    c == ' ' || c == '\t' || c == '\r'
}

/// The characters that end an identifier or a number.
pub open spec fn is_special(c: char) -> bool {
    c == '\n' || c == ';' || c == '.' || c == ',' || c == '(' || c == ')' || c == '+' || c == '-'
        || c == '*' || c == '/' || c == '#'
}

/// The digits of a number in any base up to 16.
pub open spec fn is_number_char(c: char) -> bool {
    ('0' <= c <= '9') || ('A' <= c <= 'F')
}

pub open spec fn all_number_chars(w: Seq<char>) -> bool {
    forall|i: int| 0 <= i < w.len() ==> is_number_char(#[trigger] w[i])
}

/// The character at `i`, or NUL past either end.
pub open spec fn char_at(s: Seq<char>, i: int) -> char {
    if 0 <= i < s.len() {
        s[i]
    } else {
        '\0'
    }
}

/// The first position from `i` on that holds no blank.
pub open spec fn skip_ws(s: Seq<char>, i: int) -> int
    decreases s.len() - i,
{
    if 0 <= i < s.len() && is_ws(s[i]) {
        skip_ws(s, i + 1)
    } else {
        i
    }
}

/// The end of the word that runs from `i`: the first blank or special
/// character, or the end of the input.
pub open spec fn run_end(s: Seq<char>, i: int) -> int
    decreases s.len() - i,
{
    if 0 <= i < s.len() && !is_ws(s[i]) && !is_special(s[i]) {
        run_end(s, i + 1)
    } else {
        i
    }
}

/// The first single quote from `i` on, or the end of the input.
pub open spec fn quote_end(s: Seq<char>, i: int) -> int
    decreases s.len() - i,
{
    if 0 <= i < s.len() && s[i] != '\'' {
        quote_end(s, i + 1)
    } else {
        i
    }
}

/// The number of newlines up to and including position `k`.
pub open spec fn newlines_through(s: Seq<char>, k: int) -> int
    decreases k + 1,
{
    if k < 0 || k >= s.len() {
        0
    } else {
        (if s[k] == '\n' {
            1int
        } else {
            0int
        }) + newlines_through(s, k - 1)
    }
}

/// The column of position `k`.
pub open spec fn column_of(s: Seq<char>, k: int) -> int
    decreases k + 1,
{
    if k < 0 || k >= s.len() {
        0
    } else if s[k] == '\n' {
        0
    } else {
        column_of(s, k - 1) + 1
    }
}

/// A token of the given type and text at position `k`.
pub open spec fn token_at(s: Seq<char>, k: int, t: TokenTypeView, text: Seq<char>) -> TokenView {
    TokenView { t_type: t, ident: text, row: newlines_through(s, k) + 1, col: column_of(s, k) }
}

/// The type of a word: a keyword, or an identifier.
pub open spec fn word_type(w: Seq<char>) -> TokenTypeView {
    if w == "do"@ {
        TokenTypeView::Do
    } else if w == "end"@ {
        TokenTypeView::End
    } else if w == "then"@ {
        TokenTypeView::Then
    } else if w == "fn"@ {
        TokenTypeView::Function
    } else {
        TokenTypeView::Ident(w)
    }
}

/// The type of a character that is a token by itself.
pub open spec fn single_type(c: char) -> Option<TokenTypeView> {
    if c == '\n' {
        Some(TokenTypeView::NewLine)
    } else if c == ';' {
        Some(TokenTypeView::Semicolon)
    } else if c == '(' {
        Some(TokenTypeView::LParen)
    } else if c == ')' {
        Some(TokenTypeView::RParen)
    } else if c == '+' {
        Some(TokenTypeView::Plus)
    } else if c == '-' {
        Some(TokenTypeView::Minus)
    } else if c == '*' {
        Some(TokenTypeView::Multiply)
    } else if c == '/' {
        Some(TokenTypeView::Divide)
    } else {
        None
    }
}

/// The number token at `k`, whose first character is a digit, and where
/// it ends. A `0` must start a base prefix (`0b`, `0o`, `0x`) followed by
/// digits; other numbers are base 10. Digits run to the end of the word.
pub open spec fn scan_number_at(s: Seq<char>, k: int) -> (TokenView, int) {
    let p = char_at(s, k + 1);
    if s[k] == '0' {
        if p == 'b' || p == 'o' || p == 'x' {
            let e = run_end(s, k + 2);
            let digits = s.subrange(k + 2, e);
            let base: u8 = if p == 'b' {
                2
            } else if p == 'o' {
                8
            } else {
                16
            };
            if digits.len() > 0 && all_number_chars(digits) {
                (token_at(s, k, TokenTypeView::Number(digits, base), s.subrange(k, e)), e)
            } else {
                (token_at(s, k, TokenTypeView::Illegal("expected a number"@), s.subrange(k, e)), e)
            }
        } else {
            (
                token_at(
                    s,
                    k,
                    TokenTypeView::Illegal("expected a base prefix"@),
                    s.subrange(k, k + 1),
                ),
                k + 1,
            )
        }
    } else {
        let e = run_end(s, k + 1);
        let digits = s.subrange(k, e);
        if all_number_chars(digits) {
            (token_at(s, k, TokenTypeView::Number(digits, 10), digits), e)
        } else {
            (token_at(s, k, TokenTypeView::Illegal("expected a number"@), digits), e)
        }
    }
}

/// The token that starts at `k`, and where it ends.
pub open spec fn scan_at(s: Seq<char>, k: int) -> (TokenView, int) {
    let c = s[k];
    if single_type(c) is Some {
        (token_at(s, k, single_type(c)->Some_0, s.subrange(k, k + 1)), k + 1)
    } else if '0' <= c <= '9' {
        scan_number_at(s, k)
    } else if c == '\'' {
        let q = quote_end(s, k + 1);
        if q >= s.len() {
            (
                token_at(
                    s,
                    k,
                    TokenTypeView::Illegal("unterminated string"@),
                    s.subrange(k, s.len() as int),
                ),
                s.len() as int,
            )
        } else {
            (token_at(s, k, TokenTypeView::String, s.subrange(k + 1, q)), q + 1)
        }
    } else {
        let e = run_end(s, k + 1);
        (token_at(s, k, word_type(s.subrange(k, e)), s.subrange(k, e)), e)
    }
}

/// The tokens of `s` from position `i` on.
pub open spec fn spec_lex(s: Seq<char>, i: int) -> Seq<TokenView>
    decreases s.len() - i,
{
    let k = skip_ws(s, i);
    if i < 0 || k >= s.len() {
        Seq::empty()
    } else {
        let (t, n) = scan_at(s, k);
        if i < n <= s.len() {
            seq![t] + spec_lex(s, n)
        } else {
            Seq::empty()
        }
    }
}

proof fn lemma_skip_ws(s: Seq<char>, i: int)
    requires
        0 <= i <= s.len(),
    ensures
        i <= skip_ws(s, i) <= s.len(),
        skip_ws(s, i) < s.len() ==> !is_ws(s[skip_ws(s, i)]),
    decreases s.len() - i,
{
    if i < s.len() && is_ws(s[i]) {
        lemma_skip_ws(s, i + 1);
    }
}

proof fn lemma_run_end(s: Seq<char>, i: int)
    requires
        0 <= i <= s.len(),
    ensures
        i <= run_end(s, i) <= s.len(),
    decreases s.len() - i,
{
    if i < s.len() && !is_ws(s[i]) && !is_special(s[i]) {
        lemma_run_end(s, i + 1);
    }
}

proof fn lemma_quote_end(s: Seq<char>, i: int)
    requires
        0 <= i <= s.len(),
    ensures
        i <= quote_end(s, i) <= s.len(),
    decreases s.len() - i,
{
    if i < s.len() && s[i] != '\'' {
        lemma_quote_end(s, i + 1);
    }
}

/// A token ends after it starts and within the input.
proof fn lemma_scan_end(s: Seq<char>, k: int)
    requires
        0 <= k < s.len(),
    ensures
        k < scan_at(s, k).1 <= s.len(),
{
    lemma_run_end(s, k + 1);
    lemma_quote_end(s, k + 1);
    if k + 2 <= s.len() {
        lemma_run_end(s, k + 2);
    }
}

proof fn lemma_position_bounds(s: Seq<char>, k: int)
    requires
        -1 <= k < s.len(),
    ensures
        0 <= newlines_through(s, k) <= k + 1,
        0 <= column_of(s, k) <= k + 1,
    decreases k + 1,
{
    if k >= 0 {
        lemma_position_bounds(s, k - 1);
    }
}

/// Whether every character of `w` is a digit of a number.
fn is_number(w: &str) -> (r: bool)
    ensures
        r == all_number_chars(w@),
{
    let n = w.unicode_len();
    let mut i: usize = 0;
    while i < n
        invariant
            n == w@.len(),
            0 <= i <= n,
            forall|j: int| 0 <= j < i ==> is_number_char(#[trigger] w@[j]),
        decreases n - i,
    {
        let c = w.get_char(i);
        if !(('0' <= c && c <= '9') || ('A' <= c && c <= 'F')) {
            return false;
        }
        i = i + 1;
    }
    true
}

/// Reads tokens from a source string, keeping the next one at hand.
pub struct Lexer {
    source: String,
    /// The number of characters of `source`.
    len: usize,
    /// The next token, if any is left.
    peek_t: Option<Token>,
    /// The position of the next character to read.
    pos: usize,
    /// The newlines read so far.
    row: u128,
    /// The column of the last character read.
    col: u128,
}

impl View for Lexer {
    type V = Seq<TokenView>;

    /// The tokens not handed out yet.
    closed spec fn view(&self) -> Seq<TokenView> {
        match self.peek_t {
            Some(t) => seq![t@] + spec_lex(self.source@, self.pos as int),
            None => Seq::empty(),
        }
    }
}

impl Lexer {
    /// The source being read.
    pub closed spec fn spec_source(&self) -> Seq<char> {
        self.source@
    }

    /// The position and the row and column agree with what was read.
    closed spec fn cursor_ok(&self) -> bool {
        &&& self.len == self.source@.len()
        &&& self.pos <= self.len
        &&& self.row == newlines_through(self.source@, self.pos - 1)
        &&& self.col == column_of(self.source@, self.pos - 1)
    }

    /// The cursor agrees with what was read, and no token is at hand only
    /// when none is left.
    pub closed spec fn wf(&self) -> bool {
        &&& self.cursor_ok()
        &&& self.peek_t is None ==> spec_lex(self.source@, self.pos as int) == Seq::<
            TokenView,
        >::empty()
    }

    /// A lexer over `string`, with its first token at hand.
    pub fn from_str(string: &str) -> (r: Lexer)
        ensures
            r.wf(),
            r.spec_source() == string@,
            r@ == spec_lex(string@, 0),
    {
        let len = string.unicode_len();
        let mut lexer = Lexer {
            source: String::from_str(string),
            len,
            peek_t: None,
            pos: 0,
            row: 0,
            col: 0,
        };
        lexer.advance();
        proof {
            let s = string@;
            lemma_skip_ws(s, 0);
            let k = skip_ws(s, 0);
            if k < s.len() {
                lemma_scan_end(s, k);
            }
        }
        lexer
    }

    /// Hands out the next token, if any is left.
    pub fn next(&mut self) -> (r: Option<Token>)
        requires
            old(self).wf(),
        ensures
            final(self).wf(),
            final(self).spec_source() == old(self).spec_source(),
            old(self)@.len() == 0 ==> r is None && final(self)@ == old(self)@,
            old(self)@.len() > 0 ==> (r matches Some(t) && t@ == old(self)@[0] && final(self)@
                == old(self)@.drop_first()),
    {
        let tmp = match &self.peek_t {
            Some(t) => Some(t.duplicate()),
            None => None,
        };
        if tmp.is_some() {
            let ghost s = self.source@;
            let ghost p = self.pos as int;
            self.advance();
            proof {
                lemma_skip_ws(s, p);
                let k = skip_ws(s, p);
                if k < s.len() {
                    lemma_scan_end(s, k);
                }
                assert(old(self)@.drop_first() =~= spec_lex(s, p));
            }
        }
        tmp
    }

    /// The next token, if any is left, without handing it out.
    pub fn peek(&self) -> (r: Option<Token>)
        ensures
            self@.len() == 0 ==> r is None,
            self@.len() > 0 ==> (r matches Some(t) && t@ == self@[0]),
    {
        match &self.peek_t {
            Some(t) => Some(t.duplicate()),
            None => None,
        }
    }

    /// Reads the token after the blanks at the position into `peek_t`.
    fn advance(&mut self)
        requires
            old(self).cursor_ok(),
        ensures
            final(self).cursor_ok(),
            final(self).source == old(self).source,
            ({
                let s = old(self).source@;
                let k = skip_ws(s, old(self).pos as int);
                if k >= s.len() {
                    final(self).peek_t is None && final(self).pos == k
                } else {
                    final(self).peek_t matches Some(t) && t@ == scan_at(s, k).0 && final(self).pos
                        == scan_at(s, k).1
                }
            }),
    {
        self.skip_whitespaces();
        if self.pos >= self.len {
            self.peek_t = None;
            return;
        }
        let k = self.pos;
        proof {
            lemma_position_bounds(self.source@, k as int);
        }
        let c = self.advance_character();
        let row = self.row + 1;
        let col = self.col;
        let t = self.scan_token(k, c, row, col);
        self.peek_t = Some(t);
    }

    /// The token whose first character `c`, at `k`, was just read.
    fn scan_token(&mut self, k: usize, c: char, row: u128, col: u128) -> (t: Token)
        requires
            old(self).cursor_ok(),
            old(self).pos == k + 1,
            k < old(self).source@.len(),
            c == old(self).source@[k as int],
            row == newlines_through(old(self).source@, k as int) + 1,
            col == column_of(old(self).source@, k as int),
        ensures
            final(self).cursor_ok(),
            final(self).source == old(self).source,
            t@ == scan_at(old(self).source@, k as int).0,
            final(self).pos == scan_at(old(self).source@, k as int).1,
    {
        let single = if c == '\n' {
            Some(TokenType::NewLine)
        } else if c == ';' {
            Some(TokenType::Semicolon)
        } else if c == '(' {
            Some(TokenType::LParen)
        } else if c == ')' {
            Some(TokenType::RParen)
        } else if c == '+' {
            Some(TokenType::Plus)
        } else if c == '-' {
            Some(TokenType::Minus)
        } else if c == '*' {
            Some(TokenType::Multiply)
        } else if c == '/' {
            Some(TokenType::Divide)
        } else {
            None
        };
        if let Some(t_type) = single {
            return Token::new(t_type, self.text(k, k + 1), row, col);
        }
        if '0' <= c && c <= '9' {
            return self.scan_number(k, c, row, col);
        }
        if c == '\'' {
            proof {
                lemma_quote_end(self.source@, k + 1);
            }
            self.scan_string();
            let q = self.pos;
            if q >= self.len {
                return Token::new(
                    TokenType::Illegal(String::from_str("unterminated string")),
                    self.text(k, q),
                    row,
                    col,
                );
            }
            let contents = self.text(k + 1, q);
            self.advance_character();
            return Token::new(TokenType::String, contents, row, col);
        }
        proof {
            lemma_run_end(self.source@, k + 1);
        }
        self.scan_ident();
        let e = self.pos;
        let word = self.text(k, e);
        let t_type = if word == String::from_str("do") {
            TokenType::Do
        } else if word == String::from_str("end") {
            TokenType::End
        } else if word == String::from_str("then") {
            TokenType::Then
        } else if word == String::from_str("fn") {
            TokenType::Function
        } else {
            TokenType::Ident(word)
        };
        Token::new(t_type, self.text(k, e), row, col)
    }

    /// The number whose first digit `c`, at `k`, was just read.
    fn scan_number(&mut self, k: usize, c: char, row: u128, col: u128) -> (t: Token)
        requires
            old(self).cursor_ok(),
            old(self).pos == k + 1,
            k < old(self).source@.len(),
            c == old(self).source@[k as int],
            '0' <= c <= '9',
            row == newlines_through(old(self).source@, k as int) + 1,
            col == column_of(old(self).source@, k as int),
        ensures
            final(self).cursor_ok(),
            final(self).source == old(self).source,
            t@ == scan_number_at(old(self).source@, k as int).0,
            final(self).pos == scan_number_at(old(self).source@, k as int).1,
    {
        if c == '0' {
            if self.pos < self.len {
                let p = self.source.as_str().get_char(self.pos);
                if p == 'b' || p == 'o' || p == 'x' {
                    let base: u8 = if p == 'b' {
                        2
                    } else if p == 'o' {
                        8
                    } else {
                        16
                    };
                    self.advance_character();
                    let d = self.pos;
                    proof {
                        lemma_run_end(self.source@, d as int);
                    }
                    self.scan_ident();
                    let e = self.pos;
                    let digits = self.text(d, e);
                    if d < e && is_number(digits.as_str()) {
                        return Token::new(TokenType::Number(digits, base), self.text(k, e), row, col);
                    }
                    return Token::new(
                        TokenType::Illegal(String::from_str("expected a number")),
                        self.text(k, e),
                        row,
                        col,
                    );
                }
            }
            return Token::new(
                TokenType::Illegal(String::from_str("expected a base prefix")),
                self.text(k, k + 1),
                row,
                col,
            );
        }
        proof {
            lemma_run_end(self.source@, k + 1);
        }
        self.scan_ident();
        let e = self.pos;
        let digits = self.text(k, e);
        if is_number(digits.as_str()) {
            Token::new(TokenType::Number(digits, 10), self.text(k, e), row, col)
        } else {
            Token::new(TokenType::Illegal(String::from_str("expected a number")), digits, row, col)
        }
    }

    /// The text between two positions.
    fn text(&self, from: usize, to: usize) -> (r: String)
        requires
            from <= to <= self.source@.len(),
        ensures
            r@ == self.source@.subrange(from as int, to as int),
    {
        String::from_str(self.source.as_str().substring_char(from, to))
    }

    /// Reads one character and keeps the row and column up to date.
    fn advance_character(&mut self) -> (c: char)
        requires
            old(self).cursor_ok(),
            old(self).pos < old(self).len,
        ensures
            final(self).cursor_ok(),
            final(self).source == old(self).source,
            final(self).pos == old(self).pos + 1,
            final(self).peek_t == old(self).peek_t,
            c == old(self).source@[old(self).pos as int],
    {
        let c = self.source.as_str().get_char(self.pos);
        proof {
            lemma_position_bounds(self.source@, self.pos - 1);
        }
        if c == '\n' {
            self.row = self.row + 1;
            self.col = 0;
        } else {
            self.col = self.col + 1;
        }
        self.pos = self.pos + 1;
        c
    }

    /// Reads past blanks.
    fn skip_whitespaces(&mut self)
        requires
            old(self).cursor_ok(),
        ensures
            final(self).cursor_ok(),
            final(self).source == old(self).source,
            final(self).peek_t == old(self).peek_t,
            final(self).pos == skip_ws(old(self).source@, old(self).pos as int),
    {
        loop
            invariant
                self.cursor_ok(),
                self.source == old(self).source,
                self.peek_t == old(self).peek_t,
                skip_ws(self.source@, self.pos as int) == skip_ws(old(self).source@, old(self).pos as int),
            decreases self.len - self.pos,
        {
            if self.pos >= self.len {
                return;
            }
            let c = self.source.as_str().get_char(self.pos);
            if c == ' ' || c == '\t' || c == '\r' {
                self.advance_character();
            } else {
                return;
            }
        }
    }

    /// Reads to the end of the word at the position.
    fn scan_ident(&mut self)
        requires
            old(self).cursor_ok(),
        ensures
            final(self).cursor_ok(),
            final(self).source == old(self).source,
            final(self).peek_t == old(self).peek_t,
            final(self).pos == run_end(old(self).source@, old(self).pos as int),
    {
        loop
            invariant
                self.cursor_ok(),
                self.source == old(self).source,
                self.peek_t == old(self).peek_t,
                run_end(self.source@, self.pos as int) == run_end(old(self).source@, old(self).pos as int),
            decreases self.len - self.pos,
        {
            if self.pos >= self.len {
                return;
            }
            let c = self.source.as_str().get_char(self.pos);
            if c == ' ' || c == '\t' || c == '\r' || c == '\n' || c == ';' || c == '.' || c == ','
                || c == '(' || c == ')' || c == '+' || c == '-' || c == '*' || c == '/' || c == '#' {
                return;
            }
            self.advance_character();
        }
    }

    /// Reads to the next single quote, or to the end of the input.
    fn scan_string(&mut self)
        requires
            old(self).cursor_ok(),
        ensures
            final(self).cursor_ok(),
            final(self).source == old(self).source,
            final(self).peek_t == old(self).peek_t,
            final(self).pos == quote_end(old(self).source@, old(self).pos as int),
    {
        loop
            invariant
                self.cursor_ok(),
                self.source == old(self).source,
                self.peek_t == old(self).peek_t,
                quote_end(self.source@, self.pos as int) == quote_end(old(self).source@, old(self).pos as int),
            decreases self.len - self.pos,
        {
            if self.pos >= self.len {
                return;
            }
            let c = self.source.as_str().get_char(self.pos);
            if c == '\'' {
                return;
            }
            self.advance_character();
        }
    }
}

} // verus!
