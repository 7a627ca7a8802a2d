//! The streaming scanner: turns a byte buffer into tokens on demand.
//!
//! `scan_token` never fails; lexical errors come back as `Error` tokens
//! carrying one of two fixed messages. Every other token records the span
//! of its lexeme as byte indices into the source, so tokens stay plain
//! copyable values. The scanner skips spaces, tabs, carriage returns and
//! `//` line comments, and counts lines on every newline it passes.

use vstd::prelude::*;

verus! {

/// The closed set of token kinds. The declaration order fixes the kind
/// ordinals that the parse-rule table is keyed by.
#[derive(Debug, Clone, Copy, PartialEq, Eq, Structural)]
pub enum TokenType {
    LeftParen,
    RightParen,
    LeftBrace,
    RightBrace,
    Comma,
    Dot,
    Minus,
    Plus,
    Semicolon,
    Slash,
    Star,
    Bang,
    BangEqual,
    Equal,
    EqualEqual,
    Greater,
    GreaterEqual,
    Less,
    LessEqual,
    Identifier,
    String,
    Number,
    And,
    Class,
    Else,
    False,
    For,
    Fun,
    If,
    Nil,
    Or,
    Print,
    Return,
    Super,
    This,
    True,
    Var,
    While,
    Error,
    Eof,
}

/// The fixed message an `Error` token carries. Ordinary tokens carry
/// `NoMessage`.
#[derive(Debug, Clone, Copy, PartialEq, Eq, Structural)]
pub enum LexMessage {
    NoMessage,
    UnexpectedCharacter,
    UnterminatedString,
}

/// One token: a kind, the line it was emitted on, and the byte span of its
/// lexeme in the source. An `Error` token spans nothing and carries its
/// message in `message` instead.
#[derive(Debug, Clone, Copy, PartialEq, Eq, Structural)]
pub struct Token {
    pub kind: TokenType,
    pub line: isize,
    pub start: usize,
    pub length: usize,
    pub message: LexMessage,
}

impl Token {
    /// A token spanning `source[start .. start + length]`.
    pub fn new(kind: TokenType, line: isize, start: usize, length: usize) -> (r: Token)
        ensures
            r == (Token { kind, line, start, length, message: LexMessage::NoMessage }),
    {
        Token { kind, line, start, length, message: LexMessage::NoMessage }
    }

    /// An `Error` token carrying a lexical-error message.
    pub fn error_token(message: LexMessage, line: isize) -> (r: Token)
        ensures
            r == (Token {
                kind: TokenType::Error,
                line,
                start: 0,
                length: 0,
                message,
            }),
    {
        Token { kind: TokenType::Error, line, start: 0, length: 0, message }
    }
}

/// ASCII decimal digit.
pub open spec fn spec_is_digit(c: u8) -> bool {
    '0' as u8 <= c <= '9' as u8
}

/// ASCII letter or underscore.
pub open spec fn spec_is_alpha(c: u8) -> bool {
    ||| 'a' as u8 <= c <= 'z' as u8
    ||| 'A' as u8 <= c <= 'Z' as u8
    ||| c == '_' as u8
}

/// Letter, underscore or digit: what may follow the first byte of an
/// identifier.
pub open spec fn spec_is_alnum(c: u8) -> bool {
    spec_is_alpha(c) || spec_is_digit(c)
}

/// Every byte of `s` is a decimal digit.
pub open spec fn spec_all_digits(s: Seq<u8>) -> bool {
    forall|i: int| 0 <= i < s.len() ==> spec_is_digit(#[trigger] s[i])
}

/// The shape of a numeric lexeme: one or more digits, optionally followed
/// by a dot and one or more digits.
pub open spec fn spec_number_lexeme(s: Seq<u8>) -> bool {
    ||| (s.len() >= 1 && spec_all_digits(s))
    ||| (exists|k: int|
        1 <= k < s.len() - 1 && #[trigger] s[k] == '.' as u8 && spec_all_digits(s.subrange(0, k))
            && spec_all_digits(s.subrange(k + 1, s.len() as int)))
}

/// The shape of an identifier lexeme: a letter or underscore followed by
/// letters, underscores and digits.
pub open spec fn spec_identifier_lexeme(s: Seq<u8>) -> bool {
    &&& s.len() >= 1
    &&& spec_is_alpha(s[0])
    &&& forall|i: int| 0 <= i < s.len() ==> spec_is_alnum(#[trigger] s[i])
}

/// The byte at `i` is consumed by the whitespace skipper: blank, carriage
/// return, tab, newline, or the start of a `//` comment.
pub open spec fn spec_skippable(src: Seq<u8>, i: int) -> bool {
    ||| src[i] == ' ' as u8
    ||| src[i] == '\r' as u8
    ||| src[i] == '\t' as u8
    ||| src[i] == '\n' as u8
    ||| (src[i] == '/' as u8 && i + 1 < src.len() && src[i + 1] == '/' as u8)
}

/// How many newline bytes `src` holds in the index range `[lo, hi)`.
pub open spec fn spec_newlines(src: Seq<u8>, lo: int, hi: int) -> int
    decreases hi - lo,
{
    if lo >= hi {
        0
    } else {
        spec_newlines(src, lo, hi - 1) + if src[hi - 1] == '\n' as u8 {
            1int
        } else {
            0int
        }
    }
}

/// A range without newline bytes counts zero.
proof fn lemma_newlines_none(src: Seq<u8>, lo: int, hi: int)
    requires
        forall|i: int| lo <= i < hi ==> src[i] != '\n' as u8,
    ensures
        spec_newlines(src, lo, hi) == 0,
    decreases hi - lo,
{
    if lo < hi {
        lemma_newlines_none(src, lo, hi - 1);
    }
}

/// Newline counts over adjacent ranges add up.
proof fn lemma_newlines_concat(src: Seq<u8>, lo: int, mid: int, hi: int)
    requires
        lo <= mid <= hi,
    ensures
        spec_newlines(src, lo, hi) == spec_newlines(src, lo, mid) + spec_newlines(src, mid, hi),
    decreases hi - mid,
{
    if mid < hi {
        lemma_newlines_concat(src, lo, mid, hi - 1);
    }
}

/// Newline counts over adjacent ranges add up.
pub proof fn lemma_newlines_concat_pub(src: Seq<u8>, lo: int, mid: int, hi: int)
    requires
        lo <= mid <= hi,
    ensures
        spec_newlines(src, lo, hi) == spec_newlines(src, lo, mid) + spec_newlines(src, mid, hi),
{
    lemma_newlines_concat(src, lo, mid, hi);
}

/// Extending a range by newline-free bytes keeps its count.
proof fn lemma_newlines_extend_none(src: Seq<u8>, lo: int, mid: int, hi: int)
    requires
        lo <= mid <= hi,
        forall|i: int| mid <= i < hi ==> src[i] != '\n' as u8,
    ensures
        spec_newlines(src, lo, hi) == spec_newlines(src, lo, mid),
{
    lemma_newlines_concat(src, lo, mid, hi);
    lemma_newlines_none(src, mid, hi);
}


/// Every byte of a numeric lexeme is a digit or the one dot.
pub proof fn lemma_number_lexeme_byte(s: Seq<u8>, i: int)
    requires
        spec_number_lexeme(s),
        0 <= i < s.len(),
    ensures
        spec_is_digit(s[i]) || s[i] == '.' as u8,
{
    if !(s.len() >= 1 && spec_all_digits(s)) {
        let k = choose|k: int|
            1 <= k < s.len() - 1 && #[trigger] s[k] == '.' as u8 && spec_all_digits(
                s.subrange(0, k),
            ) && spec_all_digits(s.subrange(k + 1, s.len() as int));
        if i < k {
            assert(s.subrange(0, k)[i] == s[i]);
        } else if i > k {
            assert(s.subrange(k + 1, s.len() as int)[i - k - 1] == s[i]);
        }
    }
}

/// A numeric lexeme starts with a digit.
pub proof fn lemma_number_lexeme_first(s: Seq<u8>)
    requires
        spec_number_lexeme(s),
    ensures
        s.len() >= 1,
        spec_is_digit(s[0]),
{
    if !(s.len() >= 1 && spec_all_digits(s)) {
        let k = choose|k: int|
            1 <= k < s.len() - 1 && #[trigger] s[k] == '.' as u8 && spec_all_digits(
                s.subrange(0, k),
            ) && spec_all_digits(s.subrange(k + 1, s.len() as int));
        assert(s.subrange(0, k)[0] == s[0]);
    }
}

/// A prefix of a numeric lexeme that the scanner could not extend covers
/// the whole lexeme: nothing shorter is maximal.
pub proof fn lemma_number_prefix_maximal(s: Seq<u8>, e: int)
    requires
        spec_number_lexeme(s),
        1 <= e <= s.len(),
        e < s.len() ==> !spec_is_digit(s[e]),
        e < s.len() && s[e] == '.' as u8 && e + 1 < s.len() && spec_is_digit(s[e + 1])
            ==> exists|k: int| 0 <= k < e && #[trigger] s[k] == '.' as u8,
    ensures
        e == s.len(),
{
    if e == s.len() {
    } else if s.len() >= 1 && spec_all_digits(s) {
        assert(spec_is_digit(s[e]));
    } else {
        let k = choose|k: int|
            1 <= k < s.len() - 1 && #[trigger] s[k] == '.' as u8 && spec_all_digits(
                s.subrange(0, k),
            ) && spec_all_digits(s.subrange(k + 1, s.len() as int));
        if e < k {
            assert(s.subrange(0, k)[e] == s[e]);
        } else if e > k {
            assert(s.subrange(k + 1, s.len() as int)[e - k - 1] == s[e]);
        } else {
            // the dot itself: the next byte is a digit, so a dot must
            // already lie inside the prefix, which holds digits only
            assert(s.subrange(k + 1, s.len() as int)[0] == s[k + 1]);
            let j = choose|j: int| 0 <= j < e && #[trigger] s[j] == '.' as u8;
            assert(s.subrange(0, k)[j] == s[j]);
        }
    }
}


/// The first position at or past `i` holding a newline, or the end of the
/// source: where a `//` comment stops.
pub open spec fn spec_line_end(src: Seq<u8>, i: int) -> int
    decreases src.len() - i,
{
    if !(0 <= i < src.len()) {
        src.len() as int
    } else if src[i] == '\n' as u8 {
        i
    } else {
        spec_line_end(src, i + 1)
    }
}

/// A comment stops at or past where it starts, and within the source.
proof fn lemma_line_end_bounds(src: Seq<u8>, i: int)
    requires
        0 <= i <= src.len(),
    ensures
        i <= spec_line_end(src, i) <= src.len(),
    decreases src.len() - i,
{
    if 0 <= i < src.len() && src[i] != '\n' as u8 {
        lemma_line_end_bounds(src, i + 1);
    }
}

/// Where the whitespace skipper stops when started at `i`: the first
/// position that holds neither a blank, tab, carriage return or newline
/// nor a `//` comment (whose body is skipped to its line's end), or the
/// end of the source. This function makes the skipper deterministic:
/// `skip_whitespace` answers exactly this position.
pub open spec fn spec_skip(src: Seq<u8>, i: int) -> int
    decreases src.len() - i
        via spec_skip_decreases
{
    if !(0 <= i < src.len()) {
        i
    } else if src[i] == ' ' as u8 || src[i] == '\r' as u8 || src[i] == '\t' as u8 || src[i]
        == '\n' as u8 {
        spec_skip(src, i + 1)
    } else if src[i] == '/' as u8 && i + 1 < src.len() && src[i + 1] == '/' as u8 {
        spec_skip(src, spec_line_end(src, i + 2))
    } else {
        i
    }
}

#[via_fn]
proof fn spec_skip_decreases(src: Seq<u8>, i: int) {
    if 0 <= i < src.len() && !(src[i] == ' ' as u8 || src[i] == '\r' as u8 || src[i]
        == '\t' as u8 || src[i] == '\n' as u8) && src[i] == '/' as u8 && i + 1 < src.len()
        && src[i + 1] == '/' as u8 {
        lemma_line_end_bounds(src, i + 2);
    }
}

/// A byte that starts no token at all: not a digit, not a letter or
/// underscore, not a quote, and none of the punctuation and operator
/// heads. Exactly these bytes raise the "unexpected character" error.
pub open spec fn spec_unexpected_byte(c: u8) -> bool {
    &&& !spec_is_digit(c)
    &&& !spec_is_alpha(c)
    &&& c != '(' as u8
    &&& c != ')' as u8
    &&& c != '{' as u8
    &&& c != '}' as u8
    &&& c != ';' as u8
    &&& c != ',' as u8
    &&& c != '.' as u8
    &&& c != '-' as u8
    &&& c != '+' as u8
    &&& c != '/' as u8
    &&& c != '*' as u8
    &&& c != '!' as u8
    &&& c != '=' as u8
    &&& c != '<' as u8
    &&& c != '>' as u8
    &&& c != '"' as u8
}

/// The lexeme of every punctuation and operator kind is a fixed byte
/// string; literal and keyword kinds have none here (keywords are pinned
/// down by `spec_keyword_kind` instead).
pub open spec fn spec_fixed_lexeme(kind: TokenType) -> Option<Seq<u8>> {
    match kind {
        TokenType::LeftParen => Option::Some(seq!['(' as u8]),
        TokenType::RightParen => Option::Some(seq![')' as u8]),
        TokenType::LeftBrace => Option::Some(seq!['{' as u8]),
        TokenType::RightBrace => Option::Some(seq!['}' as u8]),
        TokenType::Comma => Option::Some(seq![',' as u8]),
        TokenType::Dot => Option::Some(seq!['.' as u8]),
        TokenType::Minus => Option::Some(seq!['-' as u8]),
        TokenType::Plus => Option::Some(seq!['+' as u8]),
        TokenType::Semicolon => Option::Some(seq![';' as u8]),
        TokenType::Slash => Option::Some(seq!['/' as u8]),
        TokenType::Star => Option::Some(seq!['*' as u8]),
        TokenType::Bang => Option::Some(seq!['!' as u8]),
        TokenType::BangEqual => Option::Some(seq!['!' as u8, '=' as u8]),
        TokenType::Equal => Option::Some(seq!['=' as u8]),
        TokenType::EqualEqual => Option::Some(seq!['=' as u8, '=' as u8]),
        TokenType::Greater => Option::Some(seq!['>' as u8]),
        TokenType::GreaterEqual => Option::Some(seq!['>' as u8, '=' as u8]),
        TokenType::Less => Option::Some(seq!['<' as u8]),
        TokenType::LessEqual => Option::Some(seq!['<' as u8, '=' as u8]),
        _ => Option::None,
    }
}

pub open spec fn kw_and() -> Seq<u8> {
    seq!['a' as u8, 'n' as u8, 'd' as u8]
}

pub open spec fn kw_class() -> Seq<u8> {
    seq!['c' as u8, 'l' as u8, 'a' as u8, 's' as u8, 's' as u8]
}

pub open spec fn kw_else() -> Seq<u8> {
    seq!['e' as u8, 'l' as u8, 's' as u8, 'e' as u8]
}

pub open spec fn kw_false() -> Seq<u8> {
    seq!['f' as u8, 'a' as u8, 'l' as u8, 's' as u8, 'e' as u8]
}

pub open spec fn kw_for() -> Seq<u8> {
    seq!['f' as u8, 'o' as u8, 'r' as u8]
}

pub open spec fn kw_fun() -> Seq<u8> {
    seq!['f' as u8, 'u' as u8, 'n' as u8]
}

pub open spec fn kw_if() -> Seq<u8> {
    seq!['i' as u8, 'f' as u8]
}

pub open spec fn kw_nil() -> Seq<u8> {
    seq!['n' as u8, 'i' as u8, 'l' as u8]
}

pub open spec fn kw_or() -> Seq<u8> {
    seq!['o' as u8, 'r' as u8]
}

pub open spec fn kw_print() -> Seq<u8> {
    seq!['p' as u8, 'r' as u8, 'i' as u8, 'n' as u8, 't' as u8]
}

pub open spec fn kw_return() -> Seq<u8> {
    seq!['r' as u8, 'e' as u8, 't' as u8, 'u' as u8, 'r' as u8, 'n' as u8]
}

pub open spec fn kw_super() -> Seq<u8> {
    seq!['s' as u8, 'u' as u8, 'p' as u8, 'e' as u8, 'r' as u8]
}

pub open spec fn kw_this() -> Seq<u8> {
    seq!['t' as u8, 'h' as u8, 'i' as u8, 's' as u8]
}

pub open spec fn kw_true() -> Seq<u8> {
    seq!['t' as u8, 'r' as u8, 'u' as u8, 'e' as u8]
}

pub open spec fn kw_var() -> Seq<u8> {
    seq!['v' as u8, 'a' as u8, 'r' as u8]
}

pub open spec fn kw_while() -> Seq<u8> {
    seq!['w' as u8, 'h' as u8, 'i' as u8, 'l' as u8, 'e' as u8]
}

/// The kind of an identifier lexeme: one of the sixteen reserved words, or
/// `Identifier` for everything else. This is the direct statement of the
/// hand-coded keyword trie.
pub open spec fn spec_keyword_kind(s: Seq<u8>) -> TokenType {
    if s == kw_and() {
        TokenType::And
    } else if s == kw_class() {
        TokenType::Class
    } else if s == kw_else() {
        TokenType::Else
    } else if s == kw_false() {
        TokenType::False
    } else if s == kw_for() {
        TokenType::For
    } else if s == kw_fun() {
        TokenType::Fun
    } else if s == kw_if() {
        TokenType::If
    } else if s == kw_nil() {
        TokenType::Nil
    } else if s == kw_or() {
        TokenType::Or
    } else if s == kw_print() {
        TokenType::Print
    } else if s == kw_return() {
        TokenType::Return
    } else if s == kw_super() {
        TokenType::Super
    } else if s == kw_this() {
        TokenType::This
    } else if s == kw_true() {
        TokenType::True
    } else if s == kw_var() {
        TokenType::Var
    } else if s == kw_while() {
        TokenType::While
    } else {
        TokenType::Identifier
    }
}

/// The kinds `spec_keyword_kind` can answer: `Identifier` or a reserved
/// word.
pub open spec fn spec_is_identifier_like(kind: TokenType) -> bool {
    match kind {
        TokenType::Identifier => true,
        TokenType::And => true,
        TokenType::Class => true,
        TokenType::Else => true,
        TokenType::False => true,
        TokenType::For => true,
        TokenType::Fun => true,
        TokenType::If => true,
        TokenType::Nil => true,
        TokenType::Or => true,
        TokenType::Print => true,
        TokenType::Return => true,
        TokenType::Super => true,
        TokenType::This => true,
        TokenType::True => true,
        TokenType::Var => true,
        TokenType::While => true,
        _ => false,
    }
}

/// Letter-or-underscore test on a source byte.
pub fn is_alpha(c: u8) -> (r: bool)
    ensures
        r == spec_is_alpha(c),
{
    (c >= 'a' as u8 && c <= 'z' as u8) || (c >= 'A' as u8 && c <= 'Z' as u8) || c == '_' as u8
}

/// Decimal-digit test on a source byte.
fn is_digit(c: u8) -> (r: bool)
    ensures
        r == spec_is_digit(c),
{
    c >= '0' as u8 && c <= '9' as u8
}

/// Byte-wise equality of two slices.
fn bytes_equal(a: &[u8], b: &[u8]) -> (r: bool)
    ensures
        r == (a@ == b@),
{
    if a.len() != b.len() {
        proof {
            assert(a@.len() != b@.len());
        }
        return false;
    }
    let n = a.len();
    let mut i: usize = 0;
    while i < n
        invariant
            n == a@.len(),
            n == b@.len(),
            i <= n,
            forall|j: int| 0 <= j < i ==> a@[j] == b@[j],
        decreases n - i,
    {
        if *vstd::slice::slice_index_get(a, i) != *vstd::slice::slice_index_get(b, i) {
            return false;
        }
        i = i + 1;
    }
    proof {
        assert(a@ =~= b@);
    }
    true
}

/// Two equal-prefix byte strings are equal exactly when their remainders
/// past the prefix agree.
proof fn lemma_keyword_split(idv: Seq<u8>, kw: Seq<u8>, n: int)
    requires
        0 <= n <= idv.len(),
        n <= kw.len(),
        idv.subrange(0, n) == kw.subrange(0, n),
    ensures
        (idv == kw) <==> (idv.len() == kw.len() && idv.subrange(n, idv.len() as int) == kw.subrange(
            n,
            kw.len() as int,
        )),
{
    if idv.len() == kw.len() && idv.subrange(n, idv.len() as int) == kw.subrange(n, kw.len() as int) {
        assert forall|i: int| 0 <= i < idv.len() implies idv[i] == kw[i] by {
            if i < n {
                assert(idv.subrange(0, n)[i] == idv[i]);
                assert(kw.subrange(0, n)[i] == kw[i]);
            } else {
                assert(idv.subrange(n, idv.len() as int)[i - n] == idv[i]);
                assert(kw.subrange(n, kw.len() as int)[i - n] == kw[i]);
            }
        }
        assert(idv =~= kw);
    }
}

/// The original keyword check: `identifier` has kind `kind` when its bytes
/// from `start` on are exactly `rest` and nothing more; otherwise it is a
/// plain identifier.
pub fn check_keyword(
    identifier: &[u8],
    start: usize,
    length: usize,
    rest: &[u8],
    kind: TokenType,
) -> (r: TokenType)
    requires
        rest@.len() == length,
    ensures
        r == if identifier@.len() == start + length && identifier@.subrange(
            start as int,
            identifier@.len() as int,
        ) == rest@ {
            kind
        } else {
            TokenType::Identifier
        },
{
    if identifier.len() >= start && identifier.len() - start == length {
        let tail = vstd::slice::slice_subrange(identifier, start, identifier.len());
        if bytes_equal(tail, rest) {
            return kind;
        }
    }
    TokenType::Identifier
}


/// Everything one `scan_token` call says, as a relation between the
/// scanner before (`pre`), the scanner after (`post`) and the token
/// produced: consumption and line accounting, the span discipline, each
/// kind's lexeme shape and maximality, and when the two lexical errors
/// arise. The parser's `advance` promises this relation to its callers
/// whenever no lexical error intervened.
pub open spec fn spec_scan_result(pre: Scanner, post: Scanner, r: Token) -> bool {
    let src = post.source@;
    &&& post.source@ == pre.source@
    &&& post.current >= pre.current
    &&& post.start as int == spec_skip(src, pre.current as int)
    &&& (r.kind != TokenType::Eof && r.kind != TokenType::Error ==> r.start == post.start)
    &&& (r.kind == TokenType::Eof ==> post.start == post.current)
    &&& (r.message == LexMessage::UnexpectedCharacter ==> post.start < src.len() && post.start + 1
        == post.current && spec_unexpected_byte(src[post.start as int]))
    &&& post.line >= pre.line
    &&& post.line == pre.line + spec_newlines(src, pre.current as int, post.current as int)
    &&& r.line == post.line
    &&& (r.message == LexMessage::NoMessage) == (r.kind != TokenType::Error)
    &&& (r.kind == TokenType::Eof ==> post.current == src.len() && r.start == post.current
        && r.length == 0)
    &&& (r.kind != TokenType::Eof ==> post.current > pre.current)
    &&& (r.kind != TokenType::Eof && r.kind != TokenType::Error ==> pre.current <= r.start
        && r.length >= 1 && r.start + r.length == post.current)
    &&& (spec_fixed_lexeme(r.kind) matches Option::Some(lex) ==> src.subrange(
        r.start as int,
        r.start + r.length,
    ) == lex)
    &&& (r.kind == TokenType::String ==> {
        &&& r.length >= 2
        &&& src[r.start as int] == '"' as u8
        &&& src[r.start + r.length - 1] == '"' as u8
        &&& forall|i: int| r.start < i < r.start + r.length - 1 ==> src[i] != '"' as u8
    })
    &&& (r.kind == TokenType::Number ==> spec_number_lexeme(
        src.subrange(r.start as int, r.start + r.length),
    ))
    &&& (r.kind == TokenType::Number ==> r.start + r.length == src.len() || {
        let end = r.start + r.length;
        &&& !spec_is_digit(src[end])
        &&& (src[end] == '.' as u8 && end + 1 < src.len() && spec_is_digit(src[end + 1])
            ==> exists|k: int| r.start <= k < end && #[trigger] src[k] == '.' as u8)
    })
    &&& (spec_is_identifier_like(r.kind) ==> {
        &&& spec_identifier_lexeme(src.subrange(r.start as int, r.start + r.length))
        &&& r.kind == spec_keyword_kind(src.subrange(r.start as int, r.start + r.length))
        &&& (r.start + r.length == src.len() || !spec_is_alnum(src[r.start + r.length]))
    })
    &&& (r.kind != TokenType::Eof && r.kind != TokenType::Error ==> {
        &&& (spec_is_digit(src[r.start as int]) ==> r.kind == TokenType::Number)
        &&& (spec_is_alpha(src[r.start as int]) ==> spec_is_identifier_like(r.kind))
        &&& (src[r.start as int] == '"' as u8 ==> r.kind == TokenType::String)
    })
    &&& ((r.kind == TokenType::Bang || r.kind == TokenType::Equal || r.kind == TokenType::Less
        || r.kind == TokenType::Greater) ==> r.start + r.length == src.len() || src[r.start
        + r.length] != '=' as u8)
    &&& (r.message == LexMessage::UnexpectedCharacter ==> post.current >= 1
        && spec_unexpected_byte(src[post.current - 1]))
    &&& (r.message == LexMessage::UnterminatedString ==> pre.current <= post.start && post.start
        < src.len() && src[post.start as int] == '"' as u8 && (forall|i: int|
        post.start < i < src.len() ==> src[i] != '"' as u8))
    &&& (r.kind == TokenType::Eof ==> post.current == pre.current || spec_skippable(
        src,
        pre.current as int,
    ))
    &&& (r.kind != TokenType::Eof && r.kind != TokenType::Error ==> r.start == pre.current
        || spec_skippable(src, pre.current as int))
}

/// The scanner: a private copy of the source bytes, the start of the token
/// being scanned, the read cursor, and the current line (starting at 1).
pub struct Scanner {
    pub source: Vec<u8>,
    pub start: usize,
    pub current: usize,
    pub line: isize,
}

impl Scanner {
    /// The scanner's invariant: cursors in bounds, the line counter
    /// positive and bounded by the bytes consumed, and the source small
    /// enough that the line counter cannot overflow.
    pub open spec fn wf(&self) -> bool {
        &&& self.start <= self.current
        &&& self.current <= self.source@.len()
        &&& 1 <= self.line
        &&& self.line <= self.current + 1
        &&& self.source@.len() + 1 < isize::MAX as int
    }

    /// A scanner at the start of `source`, on line 1. The length bound
    /// keeps the line counter, an `isize`, from ever overflowing.
    pub fn new(source: &[u8]) -> (r: Scanner)
        requires
            source@.len() + 1 < isize::MAX as int,
        ensures
            r.wf(),
            r.source@ == source@,
            r.start == 0,
            r.current == 0,
            r.line == 1,
    {
        Scanner { source: vstd::slice::slice_to_vec(source), start: 0, current: 0, line: 1 }
    }

    /// All bytes consumed?
    pub fn is_at_end(&self) -> (r: bool)
        ensures
            r == (self.current == self.source@.len()),
    {
        self.current == self.source.len()
    }

    /// Consumes and returns the next byte.
    fn advance(&mut self) -> (c: u8)
        requires
            old(self).wf(),
            old(self).current < old(self).source@.len(),
        ensures
            final(self).wf(),
            final(self).source@ == old(self).source@,
            final(self).start == old(self).start,
            final(self).line == old(self).line,
            final(self).current == old(self).current + 1,
            c == old(self).source@[old(self).current as int],
    {
        let c = self.source[self.current];
        self.current = self.current + 1;
        c
    }

    /// Consumes the next byte when it equals `c`.
    fn match_char(&mut self, c: u8) -> (r: bool)
        requires
            old(self).wf(),
        ensures
            final(self).wf(),
            final(self).source@ == old(self).source@,
            final(self).start == old(self).start,
            final(self).line == old(self).line,
            r == (old(self).current < old(self).source@.len() && old(self).source@[old(
                self,
            ).current as int] == c),
            final(self).current == old(self).current + (if r {
                1int
            } else {
                0int
            }),
    {
        if self.is_at_end() {
            false
        } else if self.source[self.current] == c {
            self.current = self.current + 1;
            true
        } else {
            false
        }
    }

    /// The next byte, which must exist.
    fn peek(&self) -> (c: u8)
        requires
            self.current < self.source@.len(),
        ensures
            c == self.source@[self.current as int],
    {
        self.source[self.current]
    }

    /// Whether the next byte exists and may continue an identifier.
    fn peek_is_alnum(&self) -> (r: bool)
        requires
            self.wf(),
        ensures
            r == (self.current < self.source@.len() && spec_is_alnum(
                self.source@[self.current as int],
            )),
    {
        if self.is_at_end() {
            false
        } else {
            let c = self.peek();
            is_alpha(c) || is_digit(c)
        }
    }

    /// The byte after the next one, or 0 at the end of the source.
    fn peek_next(&self) -> (c: u8)
        requires
            self.wf(),
        ensures
            c == if self.current + 1 < self.source@.len() {
                self.source@[self.current as int + 1]
            } else {
                0u8
            },
    {
        if self.current + 1 < self.source.len() {
            self.source[self.current + 1]
        } else {
            0
        }
    }

    /// Skips blanks, tabs, carriage returns, newlines and `//` comments,
    /// counting lines, and stops exactly at `spec_skip` of its starting
    /// position: the first byte of the next token, or the end of the
    /// source.
    fn skip_whitespace(&mut self)
        requires
            old(self).wf(),
        ensures
            final(self).wf(),
            final(self).source@ == old(self).source@,
            final(self).start == old(self).start,
            final(self).current >= old(self).current,
            final(self).line >= old(self).line,
            final(self).current == final(self).source@.len() || !spec_skippable(
                final(self).source@,
                final(self).current as int,
            ),
            final(self).current > old(self).current ==> spec_skippable(
                final(self).source@,
                old(self).current as int,
            ),
            final(self).line == old(self).line + spec_newlines(
                final(self).source@,
                old(self).current as int,
                final(self).current as int,
            ),
            final(self).current == spec_skip(final(self).source@, old(self).current as int),
    {
        loop
            invariant
                self.wf(),
                self.source@ == old(self).source@,
                self.start == old(self).start,
                self.current >= old(self).current,
                self.line >= old(self).line,
                self.current > old(self).current ==> spec_skippable(
                    self.source@,
                    old(self).current as int,
                ),
                self.line == old(self).line + spec_newlines(
                    self.source@,
                    old(self).current as int,
                    self.current as int,
                ),
                spec_skip(self.source@, old(self).current as int) == spec_skip(
                    self.source@,
                    self.current as int,
                ),
            decreases self.source@.len() - self.current,
        {
            if self.is_at_end() {
                return ;
            }
            let c = self.peek();
            if c == ' ' as u8 || c == '\r' as u8 || c == '\t' as u8 {
                self.advance();
            } else if c == '\n' as u8 {
                self.advance();
                self.line = self.line + 1;
            } else if c == '/' as u8 {
                if self.peek_next() == '/' as u8 && self.current + 1 < self.source.len() {
                    let ghost before = self.current as int;
                    self.advance();
                    self.advance();
                    let ghost mark = self.current;
                    proof {
                        assert(spec_newlines(self.source@, before, before + 2) == 0) by {
                            lemma_newlines_none(self.source@, before, before + 2);
                        }
                        lemma_newlines_concat(
                            self.source@,
                            old(self).current as int,
                            before,
                            self.current as int,
                        );
                    }
                    while !self.is_at_end() && self.peek() != '\n' as u8
                        invariant
                            self.wf(),
                            self.source@ == old(self).source@,
                            self.start == old(self).start,
                            self.current >= mark,
                            self.current >= old(self).current,
                            self.line >= old(self).line,
                            spec_skippable(self.source@, old(self).current as int),
                            self.line == old(self).line + spec_newlines(
                                self.source@,
                                old(self).current as int,
                                self.current as int,
                            ),
                            spec_skip(self.source@, old(self).current as int) == spec_skip(
                                self.source@,
                                spec_line_end(self.source@, mark as int),
                            ),
                            spec_line_end(self.source@, mark as int) == spec_line_end(
                                self.source@,
                                self.current as int,
                            ),
                        decreases self.source@.len() - self.current,
                    {
                        self.advance();
                    }
                } else {
                    return ;
                }
            } else {
                return ;
            }
        }
    }

    /// Scans the remainder of a string literal, the opening quote already
    /// consumed. Newlines inside the string advance the line counter; a
    /// string left open at the end of the source is a lexical error.
    fn string_token(&mut self) -> (r: Token)
        requires
            old(self).wf(),
            old(self).current == old(self).start + 1,
            old(self).source@[old(self).start as int] == '"' as u8,
        ensures
            final(self).wf(),
            final(self).source@ == old(self).source@,
            final(self).start == old(self).start,
            final(self).current >= old(self).current,
            final(self).line >= old(self).line,
            r.line == final(self).line,
            r.kind == TokenType::String || r.kind == TokenType::Error,
            r.kind == TokenType::String ==> {
                &&& r.message == LexMessage::NoMessage
                &&& r.start == final(self).start
                &&& r.length >= 2
                &&& r.start + r.length == final(self).current
                &&& final(self).source@[r.start as int] == '"' as u8
                &&& final(self).source@[r.start + r.length - 1] == '"' as u8
                &&& forall|i: int|
                    r.start < i < r.start + r.length - 1 ==> final(self).source@[i] != '"' as u8
            },
            r.kind == TokenType::Error ==> {
                &&& r.message == LexMessage::UnterminatedString
                &&& final(self).current == final(self).source@.len()
                &&& forall|i: int|
                    old(self).current <= i < final(self).source@.len() ==> final(self).source@[i]
                        != '"' as u8
            },
            final(self).line == old(self).line + spec_newlines(
                final(self).source@,
                old(self).current as int,
                final(self).current as int,
            ),
    {
        loop
            invariant
                self.wf(),
                self.source@ == old(self).source@,
                self.start == old(self).start,
                self.current >= old(self).current,
                self.line >= old(self).line,
                self.start < self.current,
                forall|i: int|
                    old(self).current <= i < self.current ==> self.source@[i] != '"' as u8,
                self.line == old(self).line + spec_newlines(
                    self.source@,
                    old(self).current as int,
                    self.current as int,
                ),
            ensures
                self.wf(),
                self.source@ == old(self).source@,
                self.start == old(self).start,
                self.current >= old(self).current,
                self.line >= old(self).line,
                self.start < self.current,
                self.current == self.source@.len() || self.source@[self.current as int]
                    == '"' as u8,
                forall|i: int|
                    old(self).current <= i < self.current ==> self.source@[i] != '"' as u8,
            decreases self.source@.len() - self.current,
        {
            if self.is_at_end() {
                break ;
            }
            if self.peek() == '"' as u8 {
                break ;
            }
            let c = self.peek();
            self.advance();
            if c == '\n' as u8 {
                self.line = self.line + 1;
            }
        }

        if self.is_at_end() {
            return Token::error_token(LexMessage::UnterminatedString, self.line);
        }

        self.advance();
        Token::new(TokenType::String, self.line, self.start, self.current - self.start)
    }

    /// Scans the remainder of a numeric literal, the first digit already
    /// consumed: further digits, then optionally a dot followed by at
    /// least one digit.
    fn number_token(&mut self) -> (r: Token)
        requires
            old(self).wf(),
            old(self).start < old(self).current,
            spec_all_digits(
                old(self).source@.subrange(old(self).start as int, old(self).current as int),
            ),
        ensures
            final(self).wf(),
            final(self).source@ == old(self).source@,
            final(self).start == old(self).start,
            final(self).current >= old(self).current,
            final(self).line == old(self).line,
            r.line == final(self).line,
            r.kind == TokenType::Number,
            r.message == LexMessage::NoMessage,
            r.start == final(self).start,
            r.length >= 1,
            r.start + r.length == final(self).current,
            spec_newlines(
                final(self).source@,
                old(self).current as int,
                final(self).current as int,
            ) == 0,
            spec_number_lexeme(final(self).source@.subrange(r.start as int, r.start + r.length)),
            r.start + r.length == final(self).source@.len() || {
                let end = r.start + r.length;
                let src = final(self).source@;
                &&& !spec_is_digit(src[end])
                &&& (src[end] == '.' as u8 && end + 1 < src.len() && spec_is_digit(src[end + 1])
                    ==> exists|k: int| r.start <= k < end && #[trigger] src[k] == '.' as u8)
            },
    {
        let ghost src = self.source@;
        let ghost st = self.start as int;
        while !self.is_at_end() && is_digit(self.peek())
            invariant
                self.wf(),
                self.source@ == src,
                self.start == old(self).start,
                st == self.start as int,
                self.current >= old(self).current,
                self.line == old(self).line,
                self.start < self.current,
                spec_all_digits(src.subrange(st, self.current as int)),
                spec_newlines(src, old(self).current as int, self.current as int) == 0,
            decreases self.source@.len() - self.current,
        {
            let ghost before = self.current as int;
            self.advance();
            proof {
                assert(src.subrange(st, before + 1) =~= src.subrange(st, before).push(
                    src[before],
                ));
            }
        }

        let has_fraction = !self.is_at_end() && self.peek() == '.' as u8 && is_digit(
            self.peek_next(),
        );
        if has_fraction {
            let ghost dot = self.current as int;
            self.advance();
            while !self.is_at_end() && is_digit(self.peek())
                invariant
                    self.wf(),
                    self.source@ == src,
                    self.start == old(self).start,
                    st == self.start as int,
                    self.line == old(self).line,
                    st < dot,
                    dot + 1 <= self.current,
                    self.current >= old(self).current,
                    src[dot] == '.' as u8,
                    dot + 1 < src.len() && spec_is_digit(src[dot + 1]),
                    spec_all_digits(src.subrange(st, dot)),
                    spec_all_digits(src.subrange(dot + 1, self.current as int)),
                    spec_newlines(src, old(self).current as int, self.current as int) == 0,
                decreases self.source@.len() - self.current,
            {
                let ghost before = self.current as int;
                self.advance();
                proof {
                    assert(src.subrange(dot + 1, before + 1) =~= src.subrange(
                        dot + 1,
                        before,
                    ).push(src[before]));
                }
            }
            proof {
                // The digit after the dot is always consumed: had the scan
                // stopped right on it, the loop condition would still hold.
                assert(self.current as int != dot + 1);
                let lex = src.subrange(st, self.current as int);
                let k = dot - st;
                assert(lex[k] == src[dot]);
                assert(lex.subrange(0, k) =~= src.subrange(st, dot));
                assert(lex.subrange(k + 1, lex.len() as int) =~= src.subrange(
                    dot + 1,
                    self.current as int,
                ));
                assert(spec_number_lexeme(lex));
            }
        }

        Token::new(TokenType::Number, self.line, self.start, self.current - self.start)
    }

    /// Scans the remainder of an identifier, the first byte already
    /// consumed, and classifies it against the reserved words.
    fn identifier_token(&mut self) -> (r: Token)
        requires
            old(self).wf(),
            old(self).start < old(self).current,
            spec_identifier_lexeme(
                old(self).source@.subrange(old(self).start as int, old(self).current as int),
            ),
        ensures
            final(self).wf(),
            final(self).source@ == old(self).source@,
            final(self).start == old(self).start,
            final(self).current >= old(self).current,
            final(self).line == old(self).line,
            r.line == final(self).line,
            spec_is_identifier_like(r.kind),
            r.message == LexMessage::NoMessage,
            r.start == final(self).start,
            r.length >= 1,
            r.start + r.length == final(self).current,
            spec_newlines(
                final(self).source@,
                old(self).current as int,
                final(self).current as int,
            ) == 0,
            spec_identifier_lexeme(final(self).source@.subrange(r.start as int, r.start + r.length)),
            r.kind == spec_keyword_kind(
                final(self).source@.subrange(r.start as int, r.start + r.length),
            ),
            r.start + r.length == final(self).source@.len() || !spec_is_alnum(
                final(self).source@[r.start + r.length],
            ),
    {
        let ghost src = self.source@;
        let ghost st = self.start as int;
        while self.peek_is_alnum()
            invariant
                self.wf(),
                self.source@ == src,
                self.start == old(self).start,
                st == self.start as int,
                self.current >= old(self).current,
                self.line == old(self).line,
                self.start < self.current,
                spec_identifier_lexeme(src.subrange(st, self.current as int)),
                spec_newlines(src, old(self).current as int, self.current as int) == 0,
            decreases self.source@.len() - self.current,
        {
            let ghost before = self.current as int;
            self.advance();
            proof {
                assert(src.subrange(st, before + 1) =~= src.subrange(st, before).push(
                    src[before],
                ));
            }
        }

        let kind = self.identifier_type();
        Token::new(kind, self.line, self.start, self.current - self.start)
    }

    /// Classifies the lexeme between `start` and `current` through the
    /// keyword trie: dispatch on the first byte (and for `f` and `t` the
    /// second), then compare the remainder.
    fn identifier_type(&self) -> (kind: TokenType)
        requires
            self.wf(),
            self.start < self.current,
        ensures
            kind == spec_keyword_kind(
                self.source@.subrange(self.start as int, self.current as int),
            ),
            spec_is_identifier_like(kind),
    {
        let identifier = vstd::slice::slice_subrange(
            self.source.as_slice(),
            self.start,
            self.current,
        );
        let ghost idv = identifier@;
        let c0 = *vstd::slice::slice_index_get(identifier, 0);

        let kind = if c0 == 'a' as u8 {
            let r = check_keyword(identifier, 1, 2, ['n' as u8, 'd' as u8].as_slice(), TokenType::And);
            proof {
                assert(idv.subrange(0, 1) =~= kw_and().subrange(0, 1));
                lemma_keyword_split(idv, kw_and(), 1);
                assert(kw_and().subrange(1, 3) =~= seq!['n' as u8, 'd' as u8]);
                assert(r == spec_keyword_kind(idv));
            }
            r
        } else if c0 == 'c' as u8 {
            let r = check_keyword(
                identifier,
                1,
                4,
                ['l' as u8, 'a' as u8, 's' as u8, 's' as u8].as_slice(),
                TokenType::Class,
            );
            proof {
                assert(idv.subrange(0, 1) =~= kw_class().subrange(0, 1));
                lemma_keyword_split(idv, kw_class(), 1);
                assert(kw_class().subrange(1, 5) =~= seq!['l' as u8, 'a' as u8, 's' as u8, 's' as u8]);
                assert(r == spec_keyword_kind(idv));
            }
            r
        } else if c0 == 'e' as u8 {
            let r = check_keyword(
                identifier,
                1,
                3,
                ['l' as u8, 's' as u8, 'e' as u8].as_slice(),
                TokenType::Else,
            );
            proof {
                assert(idv.subrange(0, 1) =~= kw_else().subrange(0, 1));
                lemma_keyword_split(idv, kw_else(), 1);
                assert(kw_else().subrange(1, 4) =~= seq!['l' as u8, 's' as u8, 'e' as u8]);
                assert(r == spec_keyword_kind(idv));
            }
            r
        } else if c0 == 'i' as u8 {
            let rest = ['f' as u8];
            proof {
                assert(rest@ =~= seq!['f' as u8]);
            }
            let r = check_keyword(identifier, 1, 1, rest.as_slice(), TokenType::If);
            proof {
                assert(idv.subrange(0, 1) =~= kw_if().subrange(0, 1));
                lemma_keyword_split(idv, kw_if(), 1);
                assert(kw_if().subrange(1, 2) =~= seq!['f' as u8]);
                assert(r == spec_keyword_kind(idv));
            }
            r
        } else if c0 == 'n' as u8 {
            let r = check_keyword(identifier, 1, 2, ['i' as u8, 'l' as u8].as_slice(), TokenType::Nil);
            proof {
                assert(idv.subrange(0, 1) =~= kw_nil().subrange(0, 1));
                lemma_keyword_split(idv, kw_nil(), 1);
                assert(kw_nil().subrange(1, 3) =~= seq!['i' as u8, 'l' as u8]);
                assert(r == spec_keyword_kind(idv));
            }
            r
        } else if c0 == 'o' as u8 {
            let rest = ['r' as u8];
            proof {
                assert(rest@ =~= seq!['r' as u8]);
            }
            let r = check_keyword(identifier, 1, 1, rest.as_slice(), TokenType::Or);
            proof {
                assert(idv.subrange(0, 1) =~= kw_or().subrange(0, 1));
                lemma_keyword_split(idv, kw_or(), 1);
                assert(kw_or().subrange(1, 2) =~= seq!['r' as u8]);
                assert(r == spec_keyword_kind(idv));
            }
            r
        } else if c0 == 'p' as u8 {
            let r = check_keyword(
                identifier,
                1,
                4,
                ['r' as u8, 'i' as u8, 'n' as u8, 't' as u8].as_slice(),
                TokenType::Print,
            );
            proof {
                assert(idv.subrange(0, 1) =~= kw_print().subrange(0, 1));
                lemma_keyword_split(idv, kw_print(), 1);
                assert(kw_print().subrange(1, 5) =~= seq!['r' as u8, 'i' as u8, 'n' as u8, 't' as u8]);
                assert(r == spec_keyword_kind(idv));
            }
            r
        } else if c0 == 'r' as u8 {
            let r = check_keyword(
                identifier,
                1,
                5,
                ['e' as u8, 't' as u8, 'u' as u8, 'r' as u8, 'n' as u8].as_slice(),
                TokenType::Return,
            );
            proof {
                assert(idv.subrange(0, 1) =~= kw_return().subrange(0, 1));
                lemma_keyword_split(idv, kw_return(), 1);
                assert(kw_return().subrange(1, 6) =~= seq![
                    'e' as u8,
                    't' as u8,
                    'u' as u8,
                    'r' as u8,
                    'n' as u8,
                ]);
                assert(r == spec_keyword_kind(idv));
            }
            r
        } else if c0 == 's' as u8 {
            let r = check_keyword(
                identifier,
                1,
                4,
                ['u' as u8, 'p' as u8, 'e' as u8, 'r' as u8].as_slice(),
                TokenType::Super,
            );
            proof {
                assert(idv.subrange(0, 1) =~= kw_super().subrange(0, 1));
                lemma_keyword_split(idv, kw_super(), 1);
                assert(kw_super().subrange(1, 5) =~= seq!['u' as u8, 'p' as u8, 'e' as u8, 'r' as u8]);
                assert(r == spec_keyword_kind(idv));
            }
            r
        } else if c0 == 'v' as u8 {
            let r = check_keyword(identifier, 1, 2, ['a' as u8, 'r' as u8].as_slice(), TokenType::Var);
            proof {
                assert(idv.subrange(0, 1) =~= kw_var().subrange(0, 1));
                lemma_keyword_split(idv, kw_var(), 1);
                assert(kw_var().subrange(1, 3) =~= seq!['a' as u8, 'r' as u8]);
                assert(r == spec_keyword_kind(idv));
            }
            r
        } else if c0 == 'w' as u8 {
            let r = check_keyword(
                identifier,
                1,
                4,
                ['h' as u8, 'i' as u8, 'l' as u8, 'e' as u8].as_slice(),
                TokenType::While,
            );
            proof {
                assert(idv.subrange(0, 1) =~= kw_while().subrange(0, 1));
                lemma_keyword_split(idv, kw_while(), 1);
                assert(kw_while().subrange(1, 5) =~= seq!['h' as u8, 'i' as u8, 'l' as u8, 'e' as u8]);
                assert(r == spec_keyword_kind(idv));
            }
            r
        } else if c0 == 'f' as u8 && identifier.len() > 1 {
            let c1 = *vstd::slice::slice_index_get(identifier, 1);
            if c1 == 'a' as u8 {
                let r = check_keyword(
                    identifier,
                    2,
                    3,
                    ['l' as u8, 's' as u8, 'e' as u8].as_slice(),
                    TokenType::False,
                );
                proof {
                    assert(idv.subrange(0, 2) =~= kw_false().subrange(0, 2));
                    lemma_keyword_split(idv, kw_false(), 2);
                    assert(kw_false().subrange(2, 5) =~= seq!['l' as u8, 's' as u8, 'e' as u8]);
                    assert(r == spec_keyword_kind(idv));
                }
                r
            } else if c1 == 'o' as u8 {
                let rest = ['r' as u8];
                proof {
                    assert(rest@ =~= seq!['r' as u8]);
                }
                let r = check_keyword(identifier, 2, 1, rest.as_slice(), TokenType::For);
                proof {
                    assert(idv.subrange(0, 2) =~= kw_for().subrange(0, 2));
                    lemma_keyword_split(idv, kw_for(), 2);
                    assert(kw_for().subrange(2, 3) =~= seq!['r' as u8]);
                    assert(r == spec_keyword_kind(idv));
                }
                r
            } else if c1 == 'u' as u8 {
                let rest = ['n' as u8];
                proof {
                    assert(rest@ =~= seq!['n' as u8]);
                }
                let r = check_keyword(identifier, 2, 1, rest.as_slice(), TokenType::Fun);
                proof {
                    assert(idv.subrange(0, 2) =~= kw_fun().subrange(0, 2));
                    lemma_keyword_split(idv, kw_fun(), 2);
                    assert(kw_fun().subrange(2, 3) =~= seq!['n' as u8]);
                    assert(r == spec_keyword_kind(idv));
                }
                r
            } else {
                TokenType::Identifier
            }
        } else if c0 == 't' as u8 && identifier.len() > 1 {
            let c1 = *vstd::slice::slice_index_get(identifier, 1);
            if c1 == 'h' as u8 {
                let r = check_keyword(
                    identifier,
                    2,
                    2,
                    ['i' as u8, 's' as u8].as_slice(),
                    TokenType::This,
                );
                proof {
                    assert(idv.subrange(0, 2) =~= kw_this().subrange(0, 2));
                    lemma_keyword_split(idv, kw_this(), 2);
                    assert(kw_this().subrange(2, 4) =~= seq!['i' as u8, 's' as u8]);
                    assert(r == spec_keyword_kind(idv));
                }
                r
            } else if c1 == 'r' as u8 {
                let r = check_keyword(
                    identifier,
                    2,
                    2,
                    ['u' as u8, 'e' as u8].as_slice(),
                    TokenType::True,
                );
                proof {
                    assert(idv.subrange(0, 2) =~= kw_true().subrange(0, 2));
                    lemma_keyword_split(idv, kw_true(), 2);
                    assert(kw_true().subrange(2, 4) =~= seq!['u' as u8, 'e' as u8]);
                    assert(r == spec_keyword_kind(idv));
                }
                r
            } else {
                TokenType::Identifier
            }
        } else {
            TokenType::Identifier
        };
        proof {
            assert(kind == spec_keyword_kind(idv));
        }
        kind
    }

    /// Scans and returns the next token. Whitespace and comments are
    /// skipped first; at the end of the source the token is `Eof`. The
    /// token's span lies in the consumed region, operators and keywords
    /// carry exactly their fixed lexemes, numbers and identifiers match
    /// their grammars, and lexical errors come back as `Error` tokens
    /// with a message and no span.
    pub fn scan_token(&mut self) -> (r: Token)
        requires
            old(self).wf(),
        ensures
            final(self).wf(),
            spec_scan_result(*old(self), *final(self), r),
    {
        self.skip_whitespace();
        self.start = self.current;

        if self.is_at_end() {
            return Token::new(TokenType::Eof, self.line, self.start, 0);
        }

        let ghost src = self.source@;
        let ghost st = self.start as int;
        let c = self.advance();

        if c == '(' as u8 {
            proof {
                assert(src.subrange(st, st + 1) =~= seq![c]);
            }
            return Token::new(TokenType::LeftParen, self.line, self.start, 1);
        }
        if c == ')' as u8 {
            proof {
                assert(src.subrange(st, st + 1) =~= seq![c]);
            }
            return Token::new(TokenType::RightParen, self.line, self.start, 1);
        }
        if c == '{' as u8 {
            proof {
                assert(src.subrange(st, st + 1) =~= seq![c]);
            }
            return Token::new(TokenType::LeftBrace, self.line, self.start, 1);
        }
        if c == '}' as u8 {
            proof {
                assert(src.subrange(st, st + 1) =~= seq![c]);
            }
            return Token::new(TokenType::RightBrace, self.line, self.start, 1);
        }
        if c == ';' as u8 {
            proof {
                assert(src.subrange(st, st + 1) =~= seq![c]);
            }
            return Token::new(TokenType::Semicolon, self.line, self.start, 1);
        }
        if c == ',' as u8 {
            proof {
                assert(src.subrange(st, st + 1) =~= seq![c]);
            }
            return Token::new(TokenType::Comma, self.line, self.start, 1);
        }
        if c == '.' as u8 {
            proof {
                assert(src.subrange(st, st + 1) =~= seq![c]);
            }
            return Token::new(TokenType::Dot, self.line, self.start, 1);
        }
        if c == '-' as u8 {
            proof {
                assert(src.subrange(st, st + 1) =~= seq![c]);
            }
            return Token::new(TokenType::Minus, self.line, self.start, 1);
        }
        if c == '+' as u8 {
            proof {
                assert(src.subrange(st, st + 1) =~= seq![c]);
            }
            return Token::new(TokenType::Plus, self.line, self.start, 1);
        }
        if c == '/' as u8 {
            proof {
                assert(src.subrange(st, st + 1) =~= seq![c]);
            }
            return Token::new(TokenType::Slash, self.line, self.start, 1);
        }
        if c == '*' as u8 {
            proof {
                assert(src.subrange(st, st + 1) =~= seq![c]);
            }
            return Token::new(TokenType::Star, self.line, self.start, 1);
        }
        if c == '!' as u8 {
            if self.match_char('=' as u8) {
                proof {
                    assert(src.subrange(st, st + 2) =~= seq![c, '=' as u8]);
                    lemma_newlines_extend_none(src, old(self).current as int, st, st + 2);
                }
                return Token::new(TokenType::BangEqual, self.line, self.start, 2);
            }
            proof {
                assert(src.subrange(st, st + 1) =~= seq![c]);
            }
            return Token::new(TokenType::Bang, self.line, self.start, 1);
        }
        if c == '=' as u8 {
            if self.match_char('=' as u8) {
                proof {
                    assert(src.subrange(st, st + 2) =~= seq![c, '=' as u8]);
                    lemma_newlines_extend_none(src, old(self).current as int, st, st + 2);
                }
                return Token::new(TokenType::EqualEqual, self.line, self.start, 2);
            }
            proof {
                assert(src.subrange(st, st + 1) =~= seq![c]);
            }
            return Token::new(TokenType::Equal, self.line, self.start, 1);
        }
        if c == '<' as u8 {
            if self.match_char('=' as u8) {
                proof {
                    assert(src.subrange(st, st + 2) =~= seq![c, '=' as u8]);
                    lemma_newlines_extend_none(src, old(self).current as int, st, st + 2);
                }
                return Token::new(TokenType::LessEqual, self.line, self.start, 2);
            }
            proof {
                assert(src.subrange(st, st + 1) =~= seq![c]);
            }
            return Token::new(TokenType::Less, self.line, self.start, 1);
        }
        if c == '>' as u8 {
            if self.match_char('=' as u8) {
                proof {
                    assert(src.subrange(st, st + 2) =~= seq![c, '=' as u8]);
                    lemma_newlines_extend_none(src, old(self).current as int, st, st + 2);
                }
                return Token::new(TokenType::GreaterEqual, self.line, self.start, 2);
            }
            proof {
                assert(src.subrange(st, st + 1) =~= seq![c]);
            }
            return Token::new(TokenType::Greater, self.line, self.start, 1);
        }
        if c == '"' as u8 {
            let tok = self.string_token();
            proof {
                lemma_newlines_concat(src, old(self).current as int, st + 1, self.current as int);
            }
            return tok;
        }
        if is_digit(c) {
            proof {
                assert(src.subrange(st, st + 1) =~= seq![c]);
            }
            let tok = self.number_token();
            proof {
                lemma_newlines_concat(src, old(self).current as int, st + 1, self.current as int);
            }
            return tok;
        }
        if is_alpha(c) {
            proof {
                assert(src.subrange(st, st + 1) =~= seq![c]);
            }
            let tok = self.identifier_token();
            proof {
                lemma_newlines_concat(src, old(self).current as int, st + 1, self.current as int);
            }
            return tok;
        }

        Token::error_token(LexMessage::UnexpectedCharacter, self.line)
    }
}

} // verus!
