//! The source tokenizer: bytes in, tokens out.
//!
//! Blanks, newlines and comments separate tokens. `--` starts a comment that
//! runs to the end of the line; `---` starts one that runs to the next `---`
//! (or to the end of the input). Lines are counted from 0 by the newlines
//! that are skipped between tokens; columns are not tracked and stay 0.
use vstd::prelude::*;
use vstd::slice::slice_subrange;

use crate::syntax::{ParseError, ParseErrorData, SourcePos, SourceView, Token, TokenData};

verus! {

/// The byte at `i`, or 0 past either end.
pub open spec fn byte_at(src: Seq<u8>, i: int) -> u8 {
    if 0 <= i < src.len() {
        src[i]
    } else {
        0
    }
}

pub open spec fn is_blank(c: u8) -> bool {
    c == 0x20 || c == 0x0d || c == 0x09
}

pub open spec fn is_alpha(c: u8) -> bool {
    (0x41 <= c <= 0x5a) || (0x61 <= c <= 0x7a)
}

pub open spec fn is_digit(c: u8) -> bool {
    0x30 <= c <= 0x39
}

/// What the skipper is inside of.
#[derive(Clone, Copy, PartialEq, Eq, Structural)]
pub enum SkipMode {
    Code,
    LineComment,
    BlockComment,
}

/// Where skipping from `p` stops, and the line count there.
pub open spec fn spec_skip(src: Seq<u8>, p: int, line: int, mode: SkipMode) -> (int, int)
    decreases src.len() - p,
{
    if p < 0 || p >= src.len() {
        (p, line)
    } else {
        match mode {
            SkipMode::Code => {
                if src[p] == 0x0a {
                    spec_skip(src, p + 1, line + 1, SkipMode::Code)
                } else if is_blank(src[p]) {
                    spec_skip(src, p + 1, line, SkipMode::Code)
                } else if src[p] == 0x2d && byte_at(src, p + 1) == 0x2d {
                    if byte_at(src, p + 2) == 0x2d {
                        spec_skip(src, p + 3, line, SkipMode::BlockComment)
                    } else {
                        spec_skip(src, p + 2, line, SkipMode::LineComment)
                    }
                } else {
                    (p, line)
                }
            },
            SkipMode::LineComment => {
                if src[p] == 0x0a {
                    spec_skip(src, p + 1, line + 1, SkipMode::Code)
                } else {
                    spec_skip(src, p + 1, line, SkipMode::LineComment)
                }
            },
            SkipMode::BlockComment => {
                if src[p] == 0x2d && byte_at(src, p + 1) == 0x2d && byte_at(src, p + 2) == 0x2d {
                    spec_skip(src, p + 3, line, SkipMode::Code)
                } else {
                    spec_skip(src, p + 1, line, SkipMode::BlockComment)
                }
            },
        }
    }
}

/// The classes of byte that a run of a token is made of.
#[derive(Clone, Copy, PartialEq, Eq, Structural)]
pub enum ByteClass {
    /// Letters and `_`.
    Word,
    Digit,
    /// Anything but a single quote.
    NotQuote,
}

pub open spec fn in_class(c: u8, class: ByteClass) -> bool {
    match class {
        ByteClass::Word => is_alpha(c) || c == 0x5f,
        ByteClass::Digit => is_digit(c),
        ByteClass::NotQuote => c != 0x27,
    }
}

/// The end of the run of bytes of `class` that starts at `q`.
pub open spec fn spec_span_end(src: Seq<u8>, q: int, class: ByteClass) -> int
    decreases src.len() - q,
{
    if 0 <= q < src.len() && in_class(src[q], class) {
        spec_span_end(src, q + 1, class)
    } else {
        q
    }
}

/// What the input holds at the start of a token.
pub ghost enum Lexeme {
    /// A token without text, ending at `end`.
    Mark(TokenData<'static>, int),
    /// An identifier or a keyword, ending at `end`.
    Word(int),
    /// A number of the given base, ending at `end`.
    Number(u8, int),
    /// A quoted string, quotes included, ending at `end`.
    Quoted(int),
    /// A base prefix with no digit after it.
    MissingDigits,
    /// A quote that is never closed.
    Unterminated,
    /// A byte that starts no token.
    Unknown,
}

impl Lexeme {
    pub open spec fn is_error(self) -> bool {
        self is MissingDigits || self is Unterminated || self is Unknown
    }

    pub open spec fn end(self) -> int {
        match self {
            Lexeme::Mark(_, e) => e,
            Lexeme::Word(e) => e,
            Lexeme::Number(_, e) => e,
            Lexeme::Quoted(e) => e,
            _ => -1,
        }
    }
}

/// A one-byte token, or a two-byte one when the next byte is `second`.
pub open spec fn one_or_two(
    src: Seq<u8>,
    b: int,
    single: TokenData<'static>,
    second: u8,
    double: TokenData<'static>,
) -> Lexeme {
    if byte_at(src, b + 1) == second {
        Lexeme::Mark(double, b + 2)
    } else {
        Lexeme::Mark(single, b + 1)
    }
}

/// The lexeme that starts at `b`.
pub open spec fn spec_lexeme(src: Seq<u8>, b: int) -> Lexeme {
    let c = byte_at(src, b);
    let n = byte_at(src, b + 1);
    if c == 0x28 {
        Lexeme::Mark(TokenData::LParen, b + 1)
    } else if c == 0x29 {
        Lexeme::Mark(TokenData::RParen, b + 1)
    } else if c == 0x5b {
        Lexeme::Mark(TokenData::LBracket, b + 1)
    } else if c == 0x5d {
        Lexeme::Mark(TokenData::RBracket, b + 1)
    } else if c == 0x7b {
        Lexeme::Mark(TokenData::LCurly, b + 1)
    } else if c == 0x7d {
        Lexeme::Mark(TokenData::RCruly, b + 1)
    } else if c == 0x2e {
        Lexeme::Mark(TokenData::Dot, b + 1)
    } else if c == 0x2c {
        Lexeme::Mark(TokenData::Comma, b + 1)
    } else if c == 0x3a {
        Lexeme::Mark(TokenData::Colon, b + 1)
    } else if c == 0x3b {
        Lexeme::Mark(TokenData::Semicolon, b + 1)
    } else if c == 0x2b {
        one_or_two(src, b, TokenData::OpAdd, 0x3d, TokenData::OpAddAssign)
    } else if c == 0x2d {
        one_or_two(src, b, TokenData::OpMinus, 0x3d, TokenData::OpMinusAssign)
    } else if c == 0x2a {
        one_or_two(src, b, TokenData::OpMul, 0x3d, TokenData::OpMulAssign)
    } else if c == 0x2f {
        one_or_two(src, b, TokenData::OpDiv, 0x3d, TokenData::OpDivAssign)
    } else if c == 0x3d {
        if n == 0x3d {
            Lexeme::Mark(TokenData::OpEqual, b + 2)
        } else if n == 0x3e {
            Lexeme::Mark(TokenData::RFatArrow, b + 2)
        } else {
            Lexeme::Mark(TokenData::OpAssign, b + 1)
        }
    } else if c == 0x3c {
        one_or_two(src, b, TokenData::OpLessThan, 0x3d, TokenData::OpLessEqThan)
    } else if c == 0x3e {
        one_or_two(src, b, TokenData::OpGreaterThan, 0x3d, TokenData::OpGreaterEqThan)
    } else if c == 0x21 {
        one_or_two(src, b, TokenData::OpNot, 0x3d, TokenData::OpNotEqual)
    } else if c == 0x27 {
        let q = spec_span_end(src, b + 1, ByteClass::NotQuote);
        if q >= src.len() {
            Lexeme::Unterminated
        } else {
            Lexeme::Quoted(q + 1)
        }
    } else if in_class(c, ByteClass::Word) {
        Lexeme::Word(spec_span_end(src, b + 1, ByteClass::Word))
    } else if c == 0x30 && (n == 0x62 || n == 0x6f || n == 0x78) {
        if !is_digit(byte_at(src, b + 2)) {
            Lexeme::MissingDigits
        } else {
            Lexeme::Number(
                if n == 0x62 {
                    2u8
                } else if n == 0x6f {
                    8u8
                } else {
                    16u8
                },
                spec_span_end(src, b + 2, ByteClass::Digit),
            )
        }
    } else if c == 0x30 {
        Lexeme::Number(10, b + 1)
    } else if is_digit(c) {
        Lexeme::Number(10, spec_span_end(src, b + 1, ByteClass::Digit))
    } else {
        Lexeme::Unknown
    }
}

/// The keyword that a word spells, if any.
pub open spec fn spec_keyword(w: Seq<u8>) -> Option<TokenData<'static>> {
    if w == seq![0x64u8, 0x6f] {
        Some(TokenData::KwDo)
    } else if w == seq![0x65u8, 0x6e, 0x64] {
        Some(TokenData::KwEnd)
    } else if w == seq![0x6cu8, 0x6f, 0x63, 0x61, 0x6c] {
        Some(TokenData::KwStatic)
    } else if w == seq![0x6cu8, 0x65, 0x74] {
        Some(TokenData::KwLet)
    } else if w == seq![0x73u8, 0x74, 0x61, 0x74, 0x69, 0x63] {
        Some(TokenData::KwConst)
    } else if w == seq![0x69u8, 0x66] {
        Some(TokenData::KwIf)
    } else if w == seq![0x65u8, 0x6c, 0x69, 0x66] {
        Some(TokenData::KwElif)
    } else if w == seq![0x65u8, 0x6c, 0x73, 0x65] {
        Some(TokenData::KwElse)
    } else if w == seq![0x66u8, 0x6e] {
        Some(TokenData::KwFn)
    } else if w == seq![0x61u8, 0x6e, 0x64] {
        Some(TokenData::KwAnd)
    } else if w == seq![0x6fu8, 0x72] {
        Some(TokenData::KwOr)
    } else if w == seq![0x66u8, 0x61, 0x6c, 0x73, 0x65] {
        Some(TokenData::Bool(false))
    } else if w == seq![0x74u8, 0x72, 0x75, 0x65] {
        Some(TokenData::Bool(true))
    } else {
        None
    }
}

/// A lexeme found at `begin`, on line `line`.
pub ghost struct Lexed {
    pub begin: int,
    pub line: int,
    pub lexeme: Lexeme,
}

/// Where a token of the given line starts and ends: column 0 on that line.
pub open spec fn line_view(line: int) -> SourceView {
    SourceView {
        start: SourcePos { line: line as u32, column: 0 },
        end: SourcePos { line: line as u32, column: 0 },
    }
}

/// `t` is the token of the lexeme `x`.
pub open spec fn token_matches<'s>(src: Seq<u8>, t: Token<'s>, x: Lexed) -> bool {
    &&& t.source_view == line_view(x.line)
    &&& match x.lexeme {
        Lexeme::Mark(d, _) => t.data == d,
        Lexeme::Word(e) => match spec_keyword(src.subrange(x.begin, e)) {
            Some(d) => t.data == d,
            None => t.data matches TokenData::Ident(s) && s@ == src.subrange(x.begin, e),
        },
        Lexeme::Number(base, e) => t.data matches TokenData::Number(bb, s) && bb == base && s@
            == src.subrange(x.begin, e),
        Lexeme::Quoted(e) => t.data matches TokenData::String(s) && s@ == src.subrange(
            x.begin,
            e,
        ),
        _ => false,
    }
}

/// `e` is the error of the failing lexeme `x`.
pub open spec fn error_matches(e: ParseError, x: Lexed) -> bool {
    match x.lexeme {
        Lexeme::Unterminated => e.data is TrailingInput && e.source_view == line_view(x.line),
        Lexeme::MissingDigits => e.data is UnexpectedChar && e.source_view == line_view(x.line),
        Lexeme::Unknown => e.data is Unreachable && e.source_view == line_view(0),
        _ => false,
    }
}

/// The lexemes of `src` from `p` on, and the failing one if tokenizing
/// stops on an error.
pub open spec fn spec_run(src: Seq<u8>, p: int, line: int) -> (Seq<Lexed>, Option<Lexed>)
    decreases src.len() - p,
{
    let (b, l) = spec_skip(src, p, line, SkipMode::Code);
    if p < 0 || b >= src.len() {
        (Seq::empty(), None)
    } else {
        let x = Lexed { begin: b, line: l, lexeme: spec_lexeme(src, b) };
        if x.lexeme.is_error() {
            (Seq::empty(), Some(x))
        } else if p < x.lexeme.end() <= src.len() {
            let rest = spec_run(src, x.lexeme.end(), l);
            (seq![x] + rest.0, rest.1)
        } else {
            (Seq::empty(), None)
        }
    }
}

proof fn lemma_skip(src: Seq<u8>, p: int, line: int, mode: SkipMode)
    requires
        0 <= p <= src.len(),
    ensures
        p <= spec_skip(src, p, line, mode).0 <= src.len(),
        line <= spec_skip(src, p, line, mode).1,
        spec_skip(src, p, line, mode).1 - line <= spec_skip(src, p, line, mode).0 - p,
    decreases src.len() - p,
{
    if p < src.len() {
        match mode {
            SkipMode::Code => {
                if src[p] == 0x0a {
                    lemma_skip(src, p + 1, line + 1, SkipMode::Code);
                } else if is_blank(src[p]) {
                    lemma_skip(src, p + 1, line, SkipMode::Code);
                } else if src[p] == 0x2d && byte_at(src, p + 1) == 0x2d {
                    if byte_at(src, p + 2) == 0x2d {
                        lemma_skip(src, p + 3, line, SkipMode::BlockComment);
                    } else {
                        lemma_skip(src, p + 2, line, SkipMode::LineComment);
                    }
                }
            },
            SkipMode::LineComment => {
                if src[p] == 0x0a {
                    lemma_skip(src, p + 1, line + 1, SkipMode::Code);
                } else {
                    lemma_skip(src, p + 1, line, SkipMode::LineComment);
                }
            },
            SkipMode::BlockComment => {
                if src[p] == 0x2d && byte_at(src, p + 1) == 0x2d && byte_at(src, p + 2) == 0x2d {
                    lemma_skip(src, p + 3, line, SkipMode::Code);
                } else {
                    lemma_skip(src, p + 1, line, SkipMode::BlockComment);
                }
            },
        }
    }
}

proof fn lemma_span(src: Seq<u8>, q: int, class: ByteClass)
    requires
        0 <= q <= src.len(),
    ensures
        q <= spec_span_end(src, q, class) <= src.len(),
    decreases src.len() - q,
{
    if q < src.len() && in_class(src[q], class) {
        lemma_span(src, q + 1, class);
    }
}

/// A lexeme that is no error ends after it starts and within the input.
proof fn lemma_lexeme_end(src: Seq<u8>, b: int)
    requires
        0 <= b < src.len(),
        !spec_lexeme(src, b).is_error(),
    ensures
        b < spec_lexeme(src, b).end() <= src.len(),
{
    if b + 1 <= src.len() {
        lemma_span(src, b + 1, ByteClass::Word);
        lemma_span(src, b + 1, ByteClass::Digit);
        lemma_span(src, b + 1, ByteClass::NotQuote);
    }
    if b + 2 <= src.len() {
        lemma_span(src, b + 2, ByteClass::Digit);
    }
}

fn class_has(c: u8, class: ByteClass) -> (r: bool)
    ensures
        r == in_class(c, class),
{
    match class {
        ByteClass::Word => (0x41 <= c && c <= 0x5a) || (0x61 <= c && c <= 0x7a) || c == 0x5f,
        ByteClass::Digit => 0x30 <= c && c <= 0x39,
        ByteClass::NotQuote => c != 0x27,
    }
}

fn bytes_eq(a: &[u8], b: &[u8]) -> (r: bool)
    ensures
        r == (a@ == b@),
{
    if a.len() != b.len() {
        return false;
    }
    let mut i: usize = 0;
    while i < a.len()
        invariant
            a@.len() == b@.len(),
            0 <= i <= a@.len(),
            forall|j: int| 0 <= j < i ==> a@[j] == b@[j],
        decreases a@.len() - i,
    {
        if a[i] != b[i] {
            return false;
        }
        i = i + 1;
    }
    assert(a@ =~= b@);
    true
}

/// The keyword that `w` spells, if any.
fn keyword_of(w: &[u8]) -> (r: Option<TokenData<'static>>)
    ensures
        r == spec_keyword(w@),
{
    if bytes_eq(w, vec![0x64u8, 0x6f].as_slice()) {
        Some(TokenData::KwDo)
    } else if bytes_eq(w, vec![0x65u8, 0x6e, 0x64].as_slice()) {
        Some(TokenData::KwEnd)
    } else if bytes_eq(w, vec![0x6cu8, 0x6f, 0x63, 0x61, 0x6c].as_slice()) {
        Some(TokenData::KwStatic)
    } else if bytes_eq(w, vec![0x6cu8, 0x65, 0x74].as_slice()) {
        Some(TokenData::KwLet)
    } else if bytes_eq(w, vec![0x73u8, 0x74, 0x61, 0x74, 0x69, 0x63].as_slice()) {
        Some(TokenData::KwConst)
    } else if bytes_eq(w, vec![0x69u8, 0x66].as_slice()) {
        Some(TokenData::KwIf)
    } else if bytes_eq(w, vec![0x65u8, 0x6c, 0x69, 0x66].as_slice()) {
        Some(TokenData::KwElif)
    } else if bytes_eq(w, vec![0x65u8, 0x6c, 0x73, 0x65].as_slice()) {
        Some(TokenData::KwElse)
    } else if bytes_eq(w, vec![0x66u8, 0x6e].as_slice()) {
        Some(TokenData::KwFn)
    } else if bytes_eq(w, vec![0x61u8, 0x6e, 0x64].as_slice()) {
        Some(TokenData::KwAnd)
    } else if bytes_eq(w, vec![0x6fu8, 0x72].as_slice()) {
        Some(TokenData::KwOr)
    } else if bytes_eq(w, vec![0x66u8, 0x61, 0x6c, 0x73, 0x65].as_slice()) {
        Some(TokenData::Bool(false))
    } else if bytes_eq(w, vec![0x74u8, 0x72, 0x75, 0x65].as_slice()) {
        Some(TokenData::Bool(true))
    } else {
        None
    }
}

/// Turns source bytes into tokens.
pub struct Tokenizer<'s> {
    source: &'s [u8],
    ch_pos: usize,
    source_pos: SourcePos,
    tokens: Vec<Token<'s>>,
}

impl<'s> Tokenizer<'s> {
    /// The bytes being tokenized.
    pub closed spec fn spec_source(&self) -> Seq<u8> {
        self.source@
    }

    /// The offset of the next byte to read.
    pub closed spec fn spec_pos(&self) -> int {
        self.ch_pos as int
    }

    /// The line of the next byte to read.
    pub closed spec fn spec_line(&self) -> int {
        self.source_pos.line as int
    }

    /// The tokens gathered so far.
    pub closed spec fn spec_tokens(&self) -> Seq<Token<'s>> {
        self.tokens@
    }

    /// The position lies in the input, every line counted so far was ended by
    /// a byte already read, and the line count fits its type.
    pub closed spec fn wf(&self) -> bool {
        &&& self.ch_pos <= self.source@.len()
        &&& self.source_pos.line <= self.ch_pos
        &&& self.source_pos.column == 0
        &&& self.source@.len() < u32::MAX
    }

    /// A tokenizer at the start of `source`, with no tokens yet.
    pub fn new(source: &'s [u8]) -> (r: Tokenizer<'s>)
        requires
            source@.len() < u32::MAX,
        ensures
            r.wf(),
            r.spec_source() == source@,
            r.spec_pos() == 0,
            r.spec_line() == 0,
            r.spec_tokens() == Seq::<Token<'s>>::empty(),
    {
        Tokenizer { source, ch_pos: 0, source_pos: SourcePos { line: 0, column: 0 }, tokens: Vec::new() }
    }

    /// All tokens of `source`, or the error that stops tokenizing.
    pub fn tokenize(source: &'s [u8]) -> (r: Result<Vec<Token<'s>>, ParseError>)
        requires
            source@.len() < u32::MAX,
        ensures
            r is Ok <==> spec_run(source@, 0, 0).1 is None,
            r matches Ok(ts) ==> ts@.len() == spec_run(source@, 0, 0).0.len() && forall|i: int|
                0 <= i < ts@.len() ==> token_matches(source@, #[trigger] ts@[i], spec_run(source@, 0, 0).0[i]),
            r matches Err(e) ==> error_matches(e, spec_run(source@, 0, 0).1->Some_0),
    {
        let mut toker = Tokenizer::new(source);
        match toker.run() {
            Ok(()) => {
                assert forall|i: int| 0 <= i < toker.tokens@.len() implies token_matches(
                    source@,
                    #[trigger] toker.tokens@[i],
                    spec_run(source@, 0, 0).0[i],
                ) by {
                    assert(toker.tokens@[0 + i] == toker.tokens@[i]);
                }
                Ok(toker.tokens)
            },
            Err(e) => Err(e),
        }
    }

    /// Reads tokens up to the end of the input, appending them to those
    /// gathered so far, or stops at the first error.
    pub fn run(&mut self) -> (r: Result<(), ParseError>)
        requires
            old(self).wf(),
        ensures
            final(self).wf(),
            final(self).spec_source() == old(self).spec_source(),
            ({
                let (xs, err) = spec_run(old(self).spec_source(), old(self).spec_pos(), old(self).spec_line());
                let n = old(self).spec_tokens().len();
                &&& r is Ok <==> err is None
                &&& r is Ok ==> final(self).spec_tokens().len() == n + xs.len()
                    && final(self).spec_tokens().subrange(0, n as int) == old(self).spec_tokens()
                    && forall|i: int| 0 <= i < xs.len() ==> token_matches(
                        old(self).spec_source(),
                        #[trigger] final(self).spec_tokens()[n + i],
                        xs[i],
                    )
                &&& r matches Err(e) ==> error_matches(e, err->Some_0)
            }),
    {
        let ghost src = self.source@;
        let ghost start = spec_run(src, self.ch_pos as int, self.source_pos.line as int);
        let ghost n = self.tokens@.len();
        let ghost old_tokens = self.tokens@;
        let ghost mut done: Seq<Lexed> = Seq::empty();
        assert(done + start.0 =~= start.0);
        loop
            invariant
                self.wf(),
                self.source@ == src,
                src == old(self).source@,
                start == spec_run(src, old(self).ch_pos as int, old(self).source_pos.line as int),
                n == old(self).tokens@.len(),
                old_tokens == old(self).tokens@,
                start == (done + spec_run(src, self.ch_pos as int, self.source_pos.line as int).0,
                    spec_run(src, self.ch_pos as int, self.source_pos.line as int).1),
                self.tokens@.len() == n + done.len(),
                self.tokens@.subrange(0, n as int) == old_tokens,
                forall|i: int| 0 <= i < done.len() ==> token_matches(src, #[trigger] self.tokens@[n + i], done[i]),
            decreases src.len() - self.ch_pos,
        {
            let ghost p = self.ch_pos as int;
            let ghost l = self.source_pos.line as int;
            proof {
                lemma_skip(src, p, l, SkipMode::Code);
            }
            match self.next_token() {
                Ok(Some(t)) => {
                    let ghost (b, l2) = spec_skip(src, p, l, SkipMode::Code);
                    let ghost x = Lexed { begin: b, line: l2, lexeme: spec_lexeme(src, b) };
                    proof {
                        lemma_lexeme_end(src, b);
                        assert(spec_run(src, p, l).0 == seq![x] + spec_run(src, x.lexeme.end(), l2).0);
                        assert(done + spec_run(src, p, l).0 =~= done.push(x) + spec_run(src, x.lexeme.end(), l2).0);
                    }
                    let ghost prev = self.tokens@;
                    self.tokens.push(t);
                    proof {
                        let prev_done = done;
                        done = done.push(x);
                        assert(self.tokens@ == prev.push(t));
                        assert(self.tokens@.subrange(0, n as int) =~= prev.subrange(0, n as int));
                        assert forall|i: int| 0 <= i < done.len() implies token_matches(src, #[trigger] self.tokens@[n + i], done[i]) by {
                            if i < done.len() - 1 {
                                assert(self.tokens@[n + i] == prev[n + i]);
                                assert(done[i] == prev_done[i]);
                            }
                        }
                    }
                },
                Ok(None) => {
                    proof {
                        assert(done + spec_run(src, p, l).0 =~= done);
                    }
                    return Ok(());
                },
                Err(e) => {
                    return Err(e);
                },
            }
        }
    }

    /// Reads past blanks, newlines and comments, counting the newlines.
    fn skip_whitespace(&mut self)
        requires
            old(self).wf(),
        ensures
            final(self).wf(),
            final(self).source == old(self).source,
            final(self).tokens == old(self).tokens,
            (final(self).ch_pos as int, final(self).source_pos.line as int) == spec_skip(
                old(self).source@,
                old(self).ch_pos as int,
                old(self).source_pos.line as int,
                SkipMode::Code,
            ),
    {
        let mut mode = SkipMode::Code;
        loop
            invariant
                self.wf(),
                self.source == old(self).source,
                self.tokens == old(self).tokens,
                spec_skip(self.source@, self.ch_pos as int, self.source_pos.line as int, mode)
                    == spec_skip(
                    old(self).source@,
                    old(self).ch_pos as int,
                    old(self).source_pos.line as int,
                    SkipMode::Code,
                ),
            decreases self.source@.len() - self.ch_pos,
        {
            if self.ch_pos >= self.source.len() {
                return;
            }
            let c = self.source[self.ch_pos];
            match mode {
                SkipMode::Code => {
                    if c == 0x0a {
                        self.consume_ch(1);
                        self.source_pos.line = self.source_pos.line + 1;
                    } else if c == 0x20 || c == 0x0d || c == 0x09 {
                        self.consume_ch(1);
                    } else if c == 0x2d && self.peek_ch_or_0(1) == 0x2d {
                        if self.peek_ch_or_0(2) == 0x2d {
                            self.consume_ch(3);
                            mode = SkipMode::BlockComment;
                        } else {
                            self.consume_ch(2);
                            mode = SkipMode::LineComment;
                        }
                    } else {
                        return;
                    }
                },
                SkipMode::LineComment => {
                    self.consume_ch(1);
                    if c == 0x0a {
                        self.source_pos.line = self.source_pos.line + 1;
                        mode = SkipMode::Code;
                    }
                },
                SkipMode::BlockComment => {
                    if c == 0x2d && self.peek_ch_or_0(1) == 0x2d && self.peek_ch_or_0(2) == 0x2d {
                        self.consume_ch(3);
                        mode = SkipMode::Code;
                    } else {
                        self.consume_ch(1);
                    }
                },
            }
        }
    }

    /// A token of one byte.
    fn tok_ch(&mut self, begin: SourcePos, data: TokenData<'s>) -> (r: Token<'s>)
        requires
            old(self).wf(),
            old(self).ch_pos < old(self).source@.len(),
        ensures
            final(self).wf(),
            final(self).ch_pos == old(self).ch_pos + 1,
            final(self).source == old(self).source,
            final(self).source_pos == old(self).source_pos,
            final(self).tokens == old(self).tokens,
            r.data == data,
            r.source_view == (SourceView { start: begin, end: old(self).source_pos }),
    {
        self.consume_ch(1);
        self.new_token(begin, data)
    }

    /// A token of two bytes when the byte after this one is `second`, else
    /// of one.
    fn tok_ch_peek_2(
        &mut self,
        begin: SourcePos,
        single: TokenData<'s>,
        second: u8,
        double: TokenData<'s>,
    ) -> (r: Token<'s>)
        requires
            old(self).wf(),
            old(self).ch_pos < old(self).source@.len(),
            second != 0,
        ensures
            byte_at(old(self).source@, old(self).ch_pos + 1) == second ==> r.data == double
                && final(self).ch_pos == old(self).ch_pos + 2,
            byte_at(old(self).source@, old(self).ch_pos + 1) != second ==> r.data == single
                && final(self).ch_pos == old(self).ch_pos + 1,
            final(self).wf(),
            final(self).source == old(self).source,
            final(self).source_pos == old(self).source_pos,
            final(self).tokens == old(self).tokens,
            r.source_view == (SourceView { start: begin, end: old(self).source_pos }),
    {
        self.consume_ch(1);
        if self.peek_ch_or_0(0) == second {
            self.consume_ch(1);
            return self.new_token(begin, double);
        }
        self.new_token(begin, single)
    }

    /// Skips what separates tokens, then reads the next token, if the input
    /// has one.
    fn next_token(&mut self) -> (r: Result<Option<Token<'s>>, ParseError>)
        requires
            old(self).wf(),
        ensures
            final(self).wf(),
            final(self).source == old(self).source,
            final(self).tokens == old(self).tokens,
            ({
                let src = old(self).source@;
                let (b, l) = spec_skip(
                    src,
                    old(self).ch_pos as int,
                    old(self).source_pos.line as int,
                    SkipMode::Code,
                );
                let x = Lexed { begin: b, line: l, lexeme: spec_lexeme(src, b) };
                if b >= src.len() {
                    r matches Ok(None)
                } else if x.lexeme.is_error() {
                    r matches Err(e) && error_matches(e, x)
                } else {
                    r matches Ok(Some(t)) && token_matches(src, t, x) && final(self).ch_pos
                        == x.lexeme.end() && final(self).source_pos.line == l
                }
            }),
    {
        self.skip_whitespace();
        let begin_ch_pos = self.ch_pos;
        if begin_ch_pos >= self.source.len() {
            return Ok(None);
        }
        let current_ch = self.source[begin_ch_pos];
        let begin_source_pos = self.pos();
        let n = self.peek_ch_or_0(1);
        if current_ch == 0x28 {
            return Ok(Some(self.tok_ch(begin_source_pos, TokenData::LParen)));
        } else if current_ch == 0x29 {
            return Ok(Some(self.tok_ch(begin_source_pos, TokenData::RParen)));
        } else if current_ch == 0x5b {
            return Ok(Some(self.tok_ch(begin_source_pos, TokenData::LBracket)));
        } else if current_ch == 0x5d {
            return Ok(Some(self.tok_ch(begin_source_pos, TokenData::RBracket)));
        } else if current_ch == 0x7b {
            return Ok(Some(self.tok_ch(begin_source_pos, TokenData::LCurly)));
        } else if current_ch == 0x7d {
            return Ok(Some(self.tok_ch(begin_source_pos, TokenData::RCruly)));
        } else if current_ch == 0x2e {
            return Ok(Some(self.tok_ch(begin_source_pos, TokenData::Dot)));
        } else if current_ch == 0x2c {
            return Ok(Some(self.tok_ch(begin_source_pos, TokenData::Comma)));
        } else if current_ch == 0x3a {
            return Ok(Some(self.tok_ch(begin_source_pos, TokenData::Colon)));
        } else if current_ch == 0x3b {
            return Ok(Some(self.tok_ch(begin_source_pos, TokenData::Semicolon)));
        } else if current_ch == 0x2b {
            return Ok(Some(self.tok_ch_peek_2(begin_source_pos, TokenData::OpAdd, 0x3d, TokenData::OpAddAssign)));
        } else if current_ch == 0x2d {
            return Ok(Some(self.tok_ch_peek_2(begin_source_pos, TokenData::OpMinus, 0x3d, TokenData::OpMinusAssign)));
        } else if current_ch == 0x2a {
            return Ok(Some(self.tok_ch_peek_2(begin_source_pos, TokenData::OpMul, 0x3d, TokenData::OpMulAssign)));
        } else if current_ch == 0x2f {
            return Ok(Some(self.tok_ch_peek_2(begin_source_pos, TokenData::OpDiv, 0x3d, TokenData::OpDivAssign)));
        } else if current_ch == 0x3d {
            if n == 0x3d {
                self.consume_ch(2);
                return Ok(Some(self.new_token(begin_source_pos, TokenData::OpEqual)));
            } else if n == 0x3e {
                self.consume_ch(2);
                return Ok(Some(self.new_token(begin_source_pos, TokenData::RFatArrow)));
            }
            return Ok(Some(self.tok_ch(begin_source_pos, TokenData::OpAssign)));
        } else if current_ch == 0x3c {
            return Ok(Some(self.tok_ch_peek_2(begin_source_pos, TokenData::OpLessThan, 0x3d, TokenData::OpLessEqThan)));
        } else if current_ch == 0x3e {
            return Ok(Some(self.tok_ch_peek_2(begin_source_pos, TokenData::OpGreaterThan, 0x3d, TokenData::OpGreaterEqThan)));
        } else if current_ch == 0x21 {
            return Ok(Some(self.tok_ch_peek_2(begin_source_pos, TokenData::OpNot, 0x3d, TokenData::OpNotEqual)));
        } else if current_ch == 0x27 {
            self.consume_ch(1);
            proof {
                lemma_span(self.source@, begin_ch_pos + 1, ByteClass::NotQuote);
            }
            match self.consume_ch_before_eof_while(ByteClass::NotQuote) {
                Ok(()) => {},
                Err(()) => {
                    return Err(
                        ParseError {
                            source_view: SourceView { start: begin_source_pos, end: self.pos() },
                            data: ParseErrorData::TrailingInput,
                        },
                    );
                },
            }
            self.consume_ch(1);
            let text = slice_subrange(self.source, begin_ch_pos, self.ch_pos);
            return Ok(Some(self.new_token(begin_source_pos, TokenData::String(text))));
        }
        // Keyword or identifier
        if class_has(current_ch, ByteClass::Word) {
            self.consume_ch(1);
            proof {
                lemma_span(self.source@, begin_ch_pos + 1, ByteClass::Word);
            }
            self.consume_ch_while(ByteClass::Word);
            let word = slice_subrange(self.source, begin_ch_pos, self.ch_pos);
            let data = match keyword_of(word) {
                Some(d) => d,
                None => TokenData::Ident(word),
            };
            return Ok(Some(self.new_token(begin_source_pos, data)));
        }
        // Number: `0b`, `0o` or `0x` and digits, or digits alone
        if current_ch == 0x30 && (n == 0x62 || n == 0x6f || n == 0x78) {
            let base: u8 = if n == 0x62 {
                2
            } else if n == 0x6f {
                8
            } else {
                16
            };
            self.consume_ch(2);
            if !class_has(self.peek_ch_or_0(0), ByteClass::Digit) {
                return Err(
                    ParseError {
                        source_view: SourceView { start: begin_source_pos, end: self.pos() },
                        data: ParseErrorData::UnexpectedChar,
                    },
                );
            }
            self.consume_ch_while(ByteClass::Digit);
            let text = slice_subrange(self.source, begin_ch_pos, self.ch_pos);
            return Ok(Some(self.new_token(begin_source_pos, TokenData::Number(base, text))));
        }
        if current_ch == 0x30 {
            self.consume_ch(1);
            let text = slice_subrange(self.source, begin_ch_pos, self.ch_pos);
            return Ok(Some(self.new_token(begin_source_pos, TokenData::Number(10, text))));
        }
        if class_has(current_ch, ByteClass::Digit) {
            self.consume_ch(1);
            self.consume_ch_while(ByteClass::Digit);
            let text = slice_subrange(self.source, begin_ch_pos, self.ch_pos);
            return Ok(Some(self.new_token(begin_source_pos, TokenData::Number(10, text))));
        }
        Err(
            ParseError {
                source_view: SourceView {
                    start: SourcePos { line: 0, column: 0 },
                    end: SourcePos { line: 0, column: 0 },
                },
                data: ParseErrorData::Unreachable("next_token()"),
            },
        )
    }

    fn pos(&self) -> (r: SourcePos)
        ensures
            r == self.source_pos,
    {
        SourcePos { line: self.source_pos.line, column: self.source_pos.column }
    }

    /// The byte `offset` places ahead, if the input reaches that far.
    fn peek_ch(&self, offset: usize) -> (r: Option<u8>)
        requires
            self.ch_pos <= self.source@.len(),
        ensures
            self.ch_pos + offset < self.source@.len() ==> r == Some(self.source@[self.ch_pos + offset]),
            self.ch_pos + offset >= self.source@.len() ==> r is None,
    {
        if offset < self.source.len() - self.ch_pos {
            Some(self.source[self.ch_pos + offset])
        } else {
            None
        }
    }

    /// The byte `offset` places ahead, or 0 past the end of the input.
    fn peek_ch_or_0(&self, offset: usize) -> (r: u8)
        requires
            self.ch_pos <= self.source@.len(),
        ensures
            r == byte_at(self.source@, self.ch_pos + offset),
    {
        match self.peek_ch(offset) {
            Some(c) => c,
            None => 0,
        }
    }

    fn consume_ch(&mut self, count: usize)
        requires
            old(self).wf(),
            old(self).ch_pos + count <= old(self).source@.len(),
        ensures
            final(self).wf(),
            final(self).ch_pos == old(self).ch_pos + count,
            final(self).source == old(self).source,
            final(self).source_pos == old(self).source_pos,
            final(self).tokens == old(self).tokens,
    {
        self.ch_pos = self.ch_pos + count;
    }

    /// Reads past the run of bytes of `class` at the position.
    fn consume_ch_while(&mut self, class: ByteClass)
        requires
            old(self).wf(),
        ensures
            final(self).wf(),
            old(self).ch_pos <= final(self).ch_pos,
            final(self).ch_pos == spec_span_end(old(self).source@, old(self).ch_pos as int, class),
            final(self).source == old(self).source,
            final(self).source_pos == old(self).source_pos,
            final(self).tokens == old(self).tokens,
    {
        while self.ch_pos < self.source.len() && class_has(self.source[self.ch_pos], class)
            invariant
                self.wf(),
                old(self).ch_pos <= self.ch_pos,
                self.source == old(self).source,
                self.source_pos == old(self).source_pos,
                self.tokens == old(self).tokens,
                spec_span_end(self.source@, self.ch_pos as int, class) == spec_span_end(
                    old(self).source@,
                    old(self).ch_pos as int,
                    class,
                ),
            decreases self.source@.len() - self.ch_pos,
        {
            self.consume_ch(1);
        }
    }

    /// Reads past the run of bytes of `class` at the position; fails if the
    /// run reaches the end of the input.
    fn consume_ch_before_eof_while(&mut self, class: ByteClass) -> (r: Result<(), ()>)
        requires
            old(self).wf(),
        ensures
            final(self).wf(),
            old(self).ch_pos <= final(self).ch_pos,
            final(self).ch_pos == spec_span_end(old(self).source@, old(self).ch_pos as int, class),
            r is Ok <==> final(self).ch_pos < old(self).source@.len(),
            final(self).source == old(self).source,
            final(self).source_pos == old(self).source_pos,
            final(self).tokens == old(self).tokens,
    {
        self.consume_ch_while(class);
        if self.ch_pos < self.source.len() {
            Ok(())
        } else {
            Err(())
        }
    }

    /// A token that ends at the position.
    fn new_token(&self, begin: SourcePos, data: TokenData<'s>) -> (r: Token<'s>)
        ensures
            r.data == data,
            r.source_view == (SourceView { start: begin, end: self.source_pos }),
    {
        Token::new(begin, self.pos(), data)
    }
}

} // verus!
