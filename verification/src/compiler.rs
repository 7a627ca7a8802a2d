//! The single-pass Pratt compiler: tokens in, bytecode out, no tree in
//! between.
//!
//! `parse_precedence` drives everything: it advances past one token, runs
//! that token's prefix rule, then folds infix rules while the next token
//! binds at least as tightly as asked. Prefix and infix handlers both parse
//! and emit, so the chunk grows as the expression is read.
//!
//! Diagnostics are data here: the first error is recorded in the parser
//! (`had_error` is sticky, `panic_mode` silences the rest) and handed back
//! from `compile`, where the host prints it.
//!
//! A numeric literal's value cannot be computed from its digits inside this
//! library, so `number` writes a zero-pattern `Double` into the constant
//! pool and records the literal's span as a `PendingNumber`; the host
//! parses the digits and patches the pool through `Chunk::patch_constant`
//! before the chunk runs.

use vstd::prelude::*;

use crate::chunk::lemma_encode_constant_segment;
use crate::chunk::lemma_segment_concat;
use crate::chunk::lemma_segment_depth_shift;
use crate::chunk::lemma_segment_pool_grows;
use crate::chunk::spec_encode_constant;
use crate::chunk::spec_instr_len;
use crate::chunk::spec_instr_pops;
use crate::chunk::spec_instr_pushes;
use crate::chunk::spec_opcode_byte;
use crate::chunk::spec_opcode_from_byte;
use crate::chunk::spec_segment_depth;
use crate::chunk::Chunk;
use crate::chunk::OpCode;
use crate::scanner::kw_false;
use crate::scanner::kw_nil;
use crate::scanner::kw_true;
use crate::scanner::lemma_number_lexeme_byte;
use crate::scanner::lemma_number_lexeme_first;
use crate::scanner::lemma_number_prefix_maximal;
use crate::scanner::spec_is_alpha;
use crate::scanner::spec_is_digit;
use crate::scanner::spec_is_identifier_like;
use crate::scanner::spec_keyword_kind;
use crate::scanner::spec_newlines;
use crate::scanner::spec_number_lexeme;
use crate::scanner::spec_scan_result;
use crate::scanner::spec_skip;
use crate::scanner::spec_skippable;
use crate::scanner::spec_unexpected_byte;
use crate::scanner::LexMessage;
use crate::scanner::Scanner;
use crate::scanner::Token;
use crate::scanner::TokenType;
use crate::value::Value;
use crate::vm::InterpretError;

verus! {

/// A prefix seq is still a prefix after more is pushed behind it.
proof fn lemma_push_prefix<T>(s: Seq<T>, x: T)
    ensures
        s.is_prefix_of(s.push(x)),
{
    assert(s =~= s.push(x).subrange(0, s.len() as int));
}

/// A seq is a prefix of itself followed by anything.
proof fn lemma_concat_prefix<T>(s: Seq<T>, t: Seq<T>)
    ensures
        s.is_prefix_of(s + t),
{
    assert(s =~= (s + t).subrange(0, s.len() as int));
}

/// Being a prefix is transitive.
proof fn lemma_prefix_transitive<T>(a: Seq<T>, b: Seq<T>, c: Seq<T>)
    requires
        a.is_prefix_of(b),
        b.is_prefix_of(c),
    ensures
        a.is_prefix_of(c),
{
    assert(a =~= c.subrange(0, a.len() as int));
}

/// The instructions that grew onto a chunk between two of its states.
pub open spec fn spec_appended(old_code: Seq<u8>, new_code: Seq<u8>) -> Seq<u8> {
    new_code.skip(old_code.len() as int)
}

/// A single one-byte instruction is a segment of its own: it needs its
/// pops and leaves its pushes.
proof fn lemma_single_instr_segment(b: u8, n: int, depth: int)
    requires
        spec_opcode_from_byte(b) != OpCode::Return,
        spec_opcode_from_byte(b) != OpCode::Unknown,
        spec_instr_len(spec_opcode_from_byte(b)) == 1,
        depth >= spec_instr_pops(spec_opcode_from_byte(b)),
    ensures
        spec_segment_depth(seq![b], n, depth) == Some(
            depth - spec_instr_pops(spec_opcode_from_byte(b)) + spec_instr_pushes(
                spec_opcode_from_byte(b),
            ),
        ),
{
    reveal_with_fuel(spec_segment_depth, 2);
    assert(seq![b].skip(1) =~= Seq::<u8>::empty());
}

/// The precedence ladder, lowest binding first. `Lowest` marks tokens that
/// are no operator at all.
#[derive(Debug, Clone, Copy, PartialEq, Eq, Structural)]
pub enum Precedence {
    Lowest,
    Assignment,
    Or,
    And,
    Equality,
    Comparison,
    Term,
    Factor,
    Unary,
    Call,
    Primary,
}

/// The numeric rank of a precedence level.
pub open spec fn spec_level(p: Precedence) -> u8 {
    match p {
        Precedence::Lowest => 0,
        Precedence::Assignment => 1,
        Precedence::Or => 2,
        Precedence::And => 3,
        Precedence::Equality => 4,
        Precedence::Comparison => 5,
        Precedence::Term => 6,
        Precedence::Factor => 7,
        Precedence::Unary => 8,
        Precedence::Call => 9,
        Precedence::Primary => 10,
    }
}

impl Precedence {
    /// The numeric rank, for comparing binding strengths.
    pub fn level(&self) -> (r: u8)
        ensures
            r == spec_level(*self),
    {
        match self {
            Precedence::Lowest => 0,
            Precedence::Assignment => 1,
            Precedence::Or => 2,
            Precedence::And => 3,
            Precedence::Equality => 4,
            Precedence::Comparison => 5,
            Precedence::Term => 6,
            Precedence::Factor => 7,
            Precedence::Unary => 8,
            Precedence::Call => 9,
            Precedence::Primary => 10,
        }
    }

    /// The precedence with the given rank; the rank of a level plus one is
    /// how left associativity is obtained.
    pub fn from_unchecked(value: u8) -> (r: Precedence)
        requires
            value <= 10,
        ensures
            spec_level(r) == value,
    {
        match value {
            0 => Precedence::Lowest,
            1 => Precedence::Assignment,
            2 => Precedence::Or,
            3 => Precedence::And,
            4 => Precedence::Equality,
            5 => Precedence::Comparison,
            6 => Precedence::Term,
            7 => Precedence::Factor,
            8 => Precedence::Unary,
            9 => Precedence::Call,
            _ => Precedence::Primary,
        }
    }
}

/// The prefix handlers a token kind can name.
#[derive(Debug, Clone, Copy, PartialEq, Eq, Structural)]
pub enum PrefixFn {
    Grouping,
    Unary,
    Number,
    Literal,
}

/// The infix handlers a token kind can name.
#[derive(Debug, Clone, Copy, PartialEq, Eq, Structural)]
pub enum InfixFn {
    Binary,
}

/// One row of the parse-rule table: how a token parses as a prefix, how it
/// parses as an infix, and how tightly it binds.
#[derive(Debug, Clone, Copy)]
pub struct ParserRule {
    pub prefix: Option<PrefixFn>,
    pub infix: Option<InfixFn>,
    pub precedence: Precedence,
}

impl ParserRule {
    pub fn new(prefix: Option<PrefixFn>, infix: Option<InfixFn>, precedence: Precedence) -> (r:
        ParserRule)
        ensures
            r == (ParserRule { prefix, infix, precedence }),
    {
        ParserRule { prefix, infix, precedence }
    }
}

/// The parse-rule table, one row per token kind: `(` groups, `-` and `!`
/// are unary prefixes, `-` `+` `*` `/` and the equality and comparison
/// operators are binary infixes at their ladder levels, numbers and the
/// three literal keywords are prefixes, and everything else neither starts
/// nor continues an expression.
pub open spec fn spec_get_rule(token_type: TokenType) -> ParserRule {
    match token_type {
        TokenType::LeftParen => ParserRule {
            prefix: Some(PrefixFn::Grouping),
            infix: None,
            precedence: Precedence::Lowest,
        },
        TokenType::Minus => ParserRule {
            prefix: Some(PrefixFn::Unary),
            infix: Some(InfixFn::Binary),
            precedence: Precedence::Term,
        },
        TokenType::Plus => ParserRule {
            prefix: None,
            infix: Some(InfixFn::Binary),
            precedence: Precedence::Term,
        },
        TokenType::Slash => ParserRule {
            prefix: None,
            infix: Some(InfixFn::Binary),
            precedence: Precedence::Factor,
        },
        TokenType::Star => ParserRule {
            prefix: None,
            infix: Some(InfixFn::Binary),
            precedence: Precedence::Factor,
        },
        TokenType::Bang => ParserRule {
            prefix: Some(PrefixFn::Unary),
            infix: None,
            precedence: Precedence::Lowest,
        },
        TokenType::BangEqual => ParserRule {
            prefix: None,
            infix: Some(InfixFn::Binary),
            precedence: Precedence::Equality,
        },
        TokenType::EqualEqual => ParserRule {
            prefix: None,
            infix: Some(InfixFn::Binary),
            precedence: Precedence::Equality,
        },
        TokenType::Greater => ParserRule {
            prefix: None,
            infix: Some(InfixFn::Binary),
            precedence: Precedence::Comparison,
        },
        TokenType::GreaterEqual => ParserRule {
            prefix: None,
            infix: Some(InfixFn::Binary),
            precedence: Precedence::Comparison,
        },
        TokenType::Less => ParserRule {
            prefix: None,
            infix: Some(InfixFn::Binary),
            precedence: Precedence::Comparison,
        },
        TokenType::LessEqual => ParserRule {
            prefix: None,
            infix: Some(InfixFn::Binary),
            precedence: Precedence::Comparison,
        },
        TokenType::Number => ParserRule {
            prefix: Some(PrefixFn::Number),
            infix: None,
            precedence: Precedence::Lowest,
        },
        TokenType::False => ParserRule {
            prefix: Some(PrefixFn::Literal),
            infix: None,
            precedence: Precedence::Lowest,
        },
        TokenType::True => ParserRule {
            prefix: Some(PrefixFn::Literal),
            infix: None,
            precedence: Precedence::Lowest,
        },
        TokenType::Nil => ParserRule {
            prefix: Some(PrefixFn::Literal),
            infix: None,
            precedence: Precedence::Lowest,
        },
        _ => ParserRule { prefix: None, infix: None, precedence: Precedence::Lowest },
    }
}

/// The messages a compile-time diagnostic can carry.
#[derive(Debug, Clone, Copy, PartialEq, Eq, Structural)]
pub enum CompileMessage {
    UnexpectedCharacter,
    UnterminatedString,
    ExpectExpression,
    ExpectRightParenAfterExpression,
    ExpectEndOfExpression,
    TooManyConstantsInOneChunk,
}

/// Where a diagnostic points: at the end of the input, at a lexeme span in
/// the source, or nowhere when the offending token was itself a lexical
/// error (whose message already says everything).
#[derive(Debug, Clone, Copy, PartialEq, Eq, Structural)]
pub enum DiagnosticLocus {
    AtEnd,
    AtLexeme { start: usize, length: usize },
    AtErrorToken,
}

/// One compile-time diagnostic: the line of the offending token, where it
/// points, and its message.
#[derive(Debug, Clone, Copy, PartialEq, Eq, Structural)]
pub struct Diagnostic {
    pub line: isize,
    pub locus: DiagnosticLocus,
    pub message: CompileMessage,
}

/// The diagnostic recorded for a token: `at end` for `Eof`, nothing extra
/// for a lexical-error token, the lexeme span otherwise.
pub open spec fn spec_diagnostic_for(t: Token, message: CompileMessage) -> Diagnostic {
    Diagnostic {
        line: t.line,
        locus: if t.kind == TokenType::Eof {
            DiagnosticLocus::AtEnd
        } else if t.kind == TokenType::Error {
            DiagnosticLocus::AtErrorToken
        } else {
            DiagnosticLocus::AtLexeme { start: t.start, length: t.length }
        },
        message,
    }
}

/// The message a lexical-error token maps to.
pub open spec fn spec_lex_message(m: LexMessage) -> CompileMessage {
    match m {
        LexMessage::UnterminatedString => CompileMessage::UnterminatedString,
        _ => CompileMessage::UnexpectedCharacter,
    }
}

/// Which of the two recorded tokens a diagnostic should point at.
pub enum ParserToken {
    Current,
    Previous,
}

/// The parser state: the two-token window, the scanner behind it, the
/// sticky error flag, the cascade suppressor, and the first diagnostic.
pub struct Parser {
    pub current: Token,
    pub previous: Token,
    pub scanner: Scanner,
    pub had_error: bool,
    pub panic_mode: bool,
    pub diagnostic: Option<Diagnostic>,
}

impl Parser {
    /// The error-bookkeeping invariant: panic mode implies the sticky flag,
    /// and the flag is set exactly when a diagnostic was recorded.
    pub open spec fn flags_wf(&self) -> bool {
        &&& (self.panic_mode ==> self.had_error)
        &&& (self.had_error ==> self.panic_mode)
        &&& (self.had_error ==> self.diagnostic is Some)
        &&& (self.diagnostic is Some ==> self.had_error)
    }

    /// The parser invariant: the scanner is sound, the window never holds a
    /// lexical-error token, lines never decrease through the window, both
    /// tokens span already-consumed source, and a `Number` token in the
    /// window carries a numeric lexeme.
    pub open spec fn wf(&self) -> bool {
        let src = self.scanner.source@;
        &&& self.scanner.wf()
        &&& self.flags_wf()
        &&& self.current.kind != TokenType::Error
        &&& self.previous.kind != TokenType::Error
        &&& 0 <= self.previous.line
        &&& self.previous.line <= self.current.line
        &&& self.current.line <= self.scanner.line
        &&& self.current.start <= self.scanner.current
        &&& self.previous.start + self.previous.length <= self.scanner.current
        &&& (self.current.kind != TokenType::Eof ==> self.current.length >= 1
            && self.current.start + self.current.length <= self.scanner.current)
        &&& (self.current.kind == TokenType::Eof ==> self.current.length == 0)
        &&& (self.current.kind == TokenType::Number ==> spec_number_lexeme(
            src.subrange(self.current.start as int, self.current.start + self.current.length),
        ))
        &&& (self.previous.kind == TokenType::Number ==> spec_number_lexeme(
            src.subrange(self.previous.start as int, self.previous.start + self.previous.length),
        ))
    }

    /// A parser over `scanner`, both window slots holding the given
    /// placeholder token; nothing has been read and no error recorded.
    pub fn new(scanner: Scanner, dummy_token: Token) -> (r: Parser)
        requires
            scanner.wf(),
            dummy_token.kind == TokenType::Eof,
            dummy_token.length == 0,
            0 <= dummy_token.line <= scanner.line,
            dummy_token.start <= scanner.current,
        ensures
            r == (Parser {
                current: dummy_token,
                previous: dummy_token,
                scanner,
                had_error: false,
                panic_mode: false,
                diagnostic: None::<Diagnostic>,
            }),
            r.wf(),
    {
        Parser {
            current: dummy_token,
            previous: dummy_token,
            scanner,
            had_error: false,
            panic_mode: false,
            diagnostic: None,
        }
    }

    /// Records a diagnostic against the chosen window token, unless panic
    /// mode already silenced reporting; sets the sticky flag and enters
    /// panic mode.
    pub fn error_at(&mut self, parser_token: ParserToken, message: CompileMessage)
        requires
            old(self).flags_wf(),
        ensures
            final(self).flags_wf(),
            final(self).scanner == old(self).scanner,
            final(self).current == old(self).current,
            final(self).previous == old(self).previous,
            old(self).panic_mode ==> *final(self) == *old(self),
            !old(self).panic_mode ==> {
                &&& final(self).had_error
                &&& final(self).panic_mode
                &&& final(self).diagnostic == Some(
                    spec_diagnostic_for(
                        match parser_token {
                            ParserToken::Current => old(self).current,
                            ParserToken::Previous => old(self).previous,
                        },
                        message,
                    ),
                )
            },
            old(self).had_error ==> final(self).had_error,
            final(self).had_error == old(self).had_error ==> final(self).diagnostic == old(
                self,
            ).diagnostic,
    {
        if self.panic_mode {
            return ;
        }

        self.had_error = true;
        self.panic_mode = true;

        let token = match parser_token {
            ParserToken::Current => self.current,
            ParserToken::Previous => self.previous,
        };
        let locus = if token.kind == TokenType::Eof {
            DiagnosticLocus::AtEnd
        } else if token.kind == TokenType::Error {
            DiagnosticLocus::AtErrorToken
        } else {
            DiagnosticLocus::AtLexeme { start: token.start, length: token.length }
        };
        self.diagnostic = Some(Diagnostic { line: token.line, locus, message });
    }

    /// Records a diagnostic against the current token.
    pub fn error_at_current(&mut self, message: CompileMessage)
        requires
            old(self).flags_wf(),
        ensures
            final(self).flags_wf(),
            final(self).scanner == old(self).scanner,
            final(self).current == old(self).current,
            final(self).previous == old(self).previous,
            old(self).panic_mode ==> *final(self) == *old(self),
            !old(self).panic_mode ==> {
                &&& final(self).had_error
                &&& final(self).panic_mode
                &&& final(self).diagnostic == Some(
                    spec_diagnostic_for(old(self).current, message),
                )
            },
            old(self).had_error ==> final(self).had_error,
            final(self).had_error == old(self).had_error ==> final(self).diagnostic == old(
                self,
            ).diagnostic,
    {
        self.error_at(ParserToken::Current, message);
    }

    /// Records a diagnostic against the previous token.
    pub fn error(&mut self, message: CompileMessage)
        requires
            old(self).flags_wf(),
        ensures
            final(self).flags_wf(),
            final(self).scanner == old(self).scanner,
            final(self).current == old(self).current,
            final(self).previous == old(self).previous,
            old(self).panic_mode ==> *final(self) == *old(self),
            !old(self).panic_mode ==> {
                &&& final(self).had_error
                &&& final(self).panic_mode
                &&& final(self).diagnostic == Some(
                    spec_diagnostic_for(old(self).previous, message),
                )
            },
            old(self).had_error ==> final(self).had_error,
            final(self).had_error == old(self).had_error ==> final(self).diagnostic == old(
                self,
            ).diagnostic,
    {
        self.error_at(ParserToken::Previous, message);
    }

    /// Shifts the window: the current token becomes the previous one, and
    /// the next token that is not a lexical error becomes current. Lexical
    /// errors are reported (first one only) and skipped.
    pub fn advance(&mut self)
        requires
            old(self).wf(),
        ensures
            final(self).wf(),
            final(self).scanner.source@ == old(self).scanner.source@,
            final(self).previous == old(self).current,
            final(self).current.start >= old(self).current.start,
            old(self).current.kind != TokenType::Eof ==> final(self).current.start > old(
                self,
            ).current.start,
            old(self).had_error ==> final(self).had_error,
            old(self).panic_mode ==> final(self).panic_mode,
            final(self).had_error == old(self).had_error ==> final(self).diagnostic == old(
                self,
            ).diagnostic,
            final(self).had_error == old(self).had_error ==> final(self).panic_mode == old(
                self,
            ).panic_mode,
            final(self).had_error && !old(self).had_error ==> (final(self).diagnostic matches Some(
                d) && d.locus == DiagnosticLocus::AtErrorToken
                && (d.message == CompileMessage::UnexpectedCharacter
                    || d.message == CompileMessage::UnterminatedString)
                && old(self).scanner.line <= d.line
                && d.line <= final(self).scanner.line
                && (d.message == CompileMessage::UnterminatedString ==> exists|q: int|
                    0 <= q < final(self).scanner.source@.len()
                        && #[trigger] final(self).scanner.source@[q] == '"' as u8)
                && (d.message == CompileMessage::UnexpectedCharacter ==> exists|q: int|
                    old(self).scanner.current <= q < final(self).scanner.current
                        && crate::scanner::spec_unexpected_byte(
                        #[trigger] final(self).scanner.source@[q],
                    ))),
            !old(self).had_error && !final(self).had_error ==> spec_scan_result(
                old(self).scanner,
                final(self).scanner,
                final(self).current,
            ),
            final(self).scanner.current >= old(self).scanner.current,
            final(self).had_error && !old(self).had_error ==> final(self).scanner.current > old(
                self,
            ).scanner.current,
            final(self).scanner.line == old(self).scanner.line + spec_newlines(
                final(self).scanner.source@,
                old(self).scanner.current as int,
                final(self).scanner.current as int,
            ),
            final(self).had_error && !old(self).had_error ==> ({
                let p = spec_skip(final(self).scanner.source@, old(self).scanner.current as int);
                &&& 0 <= p < final(self).scanner.source@.len()
                &&& (final(self).diagnostic matches Some(d)
                    && (d.message == CompileMessage::UnexpectedCharacter
                        ==> spec_unexpected_byte(final(self).scanner.source@[p]))
                    && (d.message == CompileMessage::UnterminatedString
                        ==> final(self).scanner.source@[p] == '"' as u8))
            }),
    {
        self.previous = self.current;

        loop
            invariant_except_break
                !old(self).had_error && !self.had_error ==> self.scanner == old(self).scanner,
            invariant
                self.scanner.wf(),
                self.flags_wf(),
                self.scanner.source@ == old(self).scanner.source@,
                self.scanner.current >= old(self).scanner.current,
                self.scanner.line >= old(self).scanner.line,
                self.previous == old(self).current,
                self.previous.kind != TokenType::Error,
                0 <= self.previous.line,
                self.previous.line <= self.scanner.line,
                self.previous.start + self.previous.length <= self.scanner.current,
                self.previous.kind == TokenType::Number ==> spec_number_lexeme(
                    self.scanner.source@.subrange(
                        self.previous.start as int,
                        self.previous.start + self.previous.length,
                    ),
                ),
                old(self).had_error ==> self.had_error,
                old(self).panic_mode ==> self.panic_mode,
                self.had_error == old(self).had_error ==> self.diagnostic == old(self).diagnostic,
                self.had_error == old(self).had_error ==> self.panic_mode == old(self).panic_mode,
                self.had_error && !old(self).had_error ==> (self.diagnostic matches Some(d)
                    && d.locus == DiagnosticLocus::AtErrorToken && (d.message
                    == CompileMessage::UnexpectedCharacter || d.message
                    == CompileMessage::UnterminatedString) && old(self).scanner.line <= d.line
                    && d.line <= self.scanner.line && (d.message
                    == CompileMessage::UnterminatedString ==> exists|q: int|
                    0 <= q < self.scanner.source@.len() && #[trigger] self.scanner.source@[q]
                        == '"' as u8) && (d.message == CompileMessage::UnexpectedCharacter
                    ==> exists|q: int|
                    old(self).scanner.current <= q < self.scanner.current
                        && crate::scanner::spec_unexpected_byte(
                        #[trigger] self.scanner.source@[q],
                    ))),
                self.had_error && !old(self).had_error ==> self.scanner.current > old(
                    self,
                ).scanner.current,
                self.scanner.line == old(self).scanner.line + spec_newlines(
                    self.scanner.source@,
                    old(self).scanner.current as int,
                    self.scanner.current as int,
                ),
                self.had_error && !old(self).had_error ==> ({
                    let p = spec_skip(self.scanner.source@, old(self).scanner.current as int);
                    &&& 0 <= p < self.scanner.source@.len()
                    &&& (self.diagnostic matches Some(d)
                        && (d.message == CompileMessage::UnexpectedCharacter
                            ==> spec_unexpected_byte(self.scanner.source@[p]))
                        && (d.message == CompileMessage::UnterminatedString
                            ==> self.scanner.source@[p] == '"' as u8))
                }),
            ensures
                self.scanner.wf(),
                self.flags_wf(),
                self.scanner.source@ == old(self).scanner.source@,
                self.previous == old(self).current,
                self.previous.kind != TokenType::Error,
                0 <= self.previous.line,
                self.previous.start + self.previous.length <= self.scanner.current,
                self.previous.kind == TokenType::Number ==> spec_number_lexeme(
                    self.scanner.source@.subrange(
                        self.previous.start as int,
                        self.previous.start + self.previous.length,
                    ),
                ),
                old(self).had_error ==> self.had_error,
                old(self).panic_mode ==> self.panic_mode,
                self.had_error == old(self).had_error ==> self.diagnostic == old(self).diagnostic,
                self.had_error == old(self).had_error ==> self.panic_mode == old(self).panic_mode,
                self.had_error && !old(self).had_error ==> (self.diagnostic matches Some(d)
                    && d.locus == DiagnosticLocus::AtErrorToken && (d.message
                    == CompileMessage::UnexpectedCharacter || d.message
                    == CompileMessage::UnterminatedString) && old(self).scanner.line <= d.line
                    && d.line <= self.scanner.line && (d.message
                    == CompileMessage::UnterminatedString ==> exists|q: int|
                    0 <= q < self.scanner.source@.len() && #[trigger] self.scanner.source@[q]
                        == '"' as u8) && (d.message == CompileMessage::UnexpectedCharacter
                    ==> exists|q: int|
                    old(self).scanner.current <= q < self.scanner.current
                        && crate::scanner::spec_unexpected_byte(
                        #[trigger] self.scanner.source@[q],
                    ))),
                !old(self).had_error && !self.had_error ==> spec_scan_result(
                    old(self).scanner,
                    self.scanner,
                    self.current,
                ),
                self.had_error && !old(self).had_error ==> self.scanner.current > old(
                    self,
                ).scanner.current,
                self.scanner.line == old(self).scanner.line + spec_newlines(
                    self.scanner.source@,
                    old(self).scanner.current as int,
                    self.scanner.current as int,
                ),
                self.had_error && !old(self).had_error ==> ({
                    let p = spec_skip(self.scanner.source@, old(self).scanner.current as int);
                    &&& 0 <= p < self.scanner.source@.len()
                    &&& (self.diagnostic matches Some(d)
                        && (d.message == CompileMessage::UnexpectedCharacter
                            ==> spec_unexpected_byte(self.scanner.source@[p]))
                        && (d.message == CompileMessage::UnterminatedString
                            ==> self.scanner.source@[p] == '"' as u8))
                }),
                self.current.kind != TokenType::Error,
                self.current.start >= old(self).scanner.current,
                self.previous.line <= self.current.line,
                self.current.line <= self.scanner.line,
                self.current.start <= self.scanner.current,
                self.current.kind != TokenType::Eof ==> self.current.length >= 1
                    && self.current.start + self.current.length <= self.scanner.current,
                self.current.kind == TokenType::Eof ==> self.current.length == 0,
                self.current.kind == TokenType::Number ==> spec_number_lexeme(
                    self.scanner.source@.subrange(
                        self.current.start as int,
                        self.current.start + self.current.length,
                    ),
                ),
            decreases self.scanner.source@.len() - self.scanner.current,
        {
            let ghost pre_scan = self.scanner.current as int;
            let tok = self.scanner.scan_token();
            self.current = tok;
            proof {
                crate::scanner::lemma_newlines_concat_pub(
                    self.scanner.source@,
                    old(self).scanner.current as int,
                    pre_scan,
                    self.scanner.current as int,
                );
            }
            if tok.kind != TokenType::Error {
                break ;
            }
            let message = if tok.message == LexMessage::UnterminatedString {
                CompileMessage::UnterminatedString
            } else {
                CompileMessage::UnexpectedCharacter
            };
            self.error_at_current(message);
        }
    }

    /// Advances past the current token when it has the expected kind, and
    /// records the given diagnostic against it otherwise.
    pub fn consume(&mut self, token_type: TokenType, message: CompileMessage)
        requires
            old(self).wf(),
        ensures
            final(self).wf(),
            final(self).scanner.source@ == old(self).scanner.source@,
            final(self).current.start >= old(self).current.start,
            final(self).previous.line >= old(self).previous.line,
            old(self).had_error ==> final(self).had_error,
            old(self).current.kind != token_type ==> {
                &&& final(self).scanner == old(self).scanner
                &&& final(self).current == old(self).current
                &&& final(self).previous == old(self).previous
                &&& (!old(self).panic_mode ==> final(self).had_error && final(self).diagnostic
                    == Some(spec_diagnostic_for(old(self).current, message)))
            },
            old(self).current.kind == token_type ==> final(self).previous == old(self).current,
            final(self).had_error == old(self).had_error ==> final(self).panic_mode == old(
                self,
            ).panic_mode && final(self).diagnostic == old(self).diagnostic,
            old(self).current.kind == token_type && !old(self).had_error && !final(self).had_error
                ==> spec_scan_result(old(self).scanner, final(self).scanner, final(self).current),
            old(self).current.kind == token_type ==> final(self).scanner.current
                >= old(self).scanner.current
                && (final(self).had_error && !old(self).had_error
                    ==> final(self).scanner.current > old(self).scanner.current),
            old(self).had_error ==> final(self).diagnostic == old(self).diagnostic,
    {
        if self.current.kind == token_type {
            self.advance();
        } else {
            self.error_at_current(message);
        }
    }
}

/// A constant-pool slot awaiting its numeric value: the slot index and the
/// span of the decimal literal in the source whose value belongs there.
#[derive(Debug, Clone, Copy, PartialEq, Eq, Structural)]
pub struct PendingNumber {
    pub index: usize,
    pub start: usize,
    pub length: usize,
}

/// Every pending record points at a `Double` slot of the pool and at a
/// well-formed numeric lexeme inside the source.
pub open spec fn spec_pending_wf(
    pending: Seq<PendingNumber>,
    constants: Seq<Value>,
    src: Seq<u8>,
) -> bool {
    forall|i: int|
        0 <= i < pending.len() ==> {
            let p = #[trigger] pending[i];
            &&& p.index < constants.len()
            &&& constants[p.index as int] is Double
            &&& p.length >= 1
            &&& p.start + p.length <= src.len()
            &&& spec_number_lexeme(src.subrange(p.start as int, p.start + p.length))
        }
}

/// Between two compiler states the pool grew only by number-literal
/// placeholders, recorded in step: the pending list keeps its old entries,
/// pool and pending lengths grow together, and each new record names the
/// pool slot of its rank.
pub open spec fn spec_grown_in_step(
    p0: Seq<PendingNumber>,
    n0: int,
    p1: Seq<PendingNumber>,
    n1: int,
) -> bool {
    &&& p0.is_prefix_of(p1)
    &&& n1 - n0 == p1.len() - p0.len()
    &&& forall|i: int|
        p0.len() <= i < p1.len() ==> (#[trigger] p1[i]).index == n0 + (i - p0.len())
}

/// Growing in step composes.
proof fn lemma_grown_in_step_transitive(
    p0: Seq<PendingNumber>,
    n0: int,
    p1: Seq<PendingNumber>,
    n1: int,
    p2: Seq<PendingNumber>,
    n2: int,
)
    requires
        spec_grown_in_step(p0, n0, p1, n1),
        spec_grown_in_step(p1, n1, p2, n2),
    ensures
        spec_grown_in_step(p0, n0, p2, n2),
{
    lemma_prefix_transitive(p0, p1, p2);
    assert forall|i: int| p0.len() <= i < p2.len() implies (#[trigger] p2[i]).index == n0 + (i
        - p0.len()) by {
        if i < p1.len() {
            assert(p1 =~= p2.subrange(0, p1.len() as int));
            assert(p2.subrange(0, p1.len() as int)[i] == p2[i]);
        }
    }
}

/// The compiler: the parser it drains, the chunk it grows, and the numeric
/// literals whose values the host still owes the pool.
pub struct Compiler {
    pub parser: Parser,
    pub chunk: Chunk,
    pub pending: Vec<PendingNumber>,
}

impl Compiler {
    /// The compiler invariant: parser and chunk sound, the line map never
    /// ahead of the token lines still to be written, and the pending
    /// records valid for the pool and source.
    pub open spec fn wf(&self) -> bool {
        &&& self.parser.wf()
        &&& self.chunk.wf()
        &&& (self.chunk.lines@.len() > 0 ==> self.chunk.lines@.last().line_number
            <= self.parser.previous.line)
        &&& spec_pending_wf(self.pending@, self.chunk.constants@, self.parser.scanner.source@)
    }

    /// The termination measure of the parse: how much source lies at or
    /// past the current token. Every recursion step first consumes a token.
    pub open spec fn spec_measure(&self) -> int {
        self.parser.scanner.source@.len() - self.parser.current.start
    }

    /// A compiler over a parser and a (fresh or resumed) chunk, with no
    /// numeric literals pending.
    pub fn new(parser: Parser, chunk: Chunk) -> (r: Compiler)
        requires
            parser.wf(),
            chunk.wf(),
            chunk.lines@.len() > 0 ==> chunk.lines@.last().line_number <= parser.previous.line,
        ensures
            r.parser == parser,
            r.chunk == chunk,
            r.pending@.len() == 0,
            r.wf(),
    {
        Compiler { parser, chunk, pending: Vec::new() }
    }

    /// The chunk being grown.
    pub fn current_chunk(&mut self) -> (r: &mut Chunk)
        ensures
            *r == old(self).chunk,
            final(self).chunk == *final(r),
            final(self).parser == old(self).parser,
            final(self).pending == old(self).pending,
    {
        &mut self.chunk
    }

    /// Appends one instruction byte, attributed to the line of the token
    /// just consumed.
    pub fn emit_byte(&mut self, byte: u8)
        requires
            old(self).wf(),
        ensures
            final(self).wf(),
            final(self).chunk.code@ == old(self).chunk.code@.push(byte),
            final(self).chunk.constants@ == old(self).chunk.constants@,
            final(self).parser == old(self).parser,
            final(self).pending == old(self).pending,
    {
        let line = self.parser.previous.line as usize;
        self.chunk.write(byte, line);
    }

    /// Appends two instruction bytes on the same line.
    pub fn emit_bytes(&mut self, byte1: u8, byte2: u8)
        requires
            old(self).wf(),
        ensures
            final(self).wf(),
            final(self).chunk.code@ == old(self).chunk.code@.push(byte1).push(byte2),
            final(self).chunk.constants@ == old(self).chunk.constants@,
            final(self).parser == old(self).parser,
            final(self).pending == old(self).pending,
    {
        self.emit_byte(byte1);
        self.emit_byte(byte2);
    }

    /// Appends the `Return` instruction that ends every chunk.
    pub fn emit_return(&mut self)
        requires
            old(self).wf(),
        ensures
            final(self).wf(),
            final(self).chunk.code@ == old(self).chunk.code@.push(
                spec_opcode_byte(OpCode::Return),
            ),
            final(self).chunk.constants@ == old(self).chunk.constants@,
            final(self).parser == old(self).parser,
            final(self).pending == old(self).pending,
    {
        self.emit_byte(OpCode::Return.as_byte());
    }

    /// Finishes the chunk by emitting `Return`.
    pub fn end_compiler(&mut self)
        requires
            old(self).wf(),
        ensures
            final(self).wf(),
            final(self).chunk.code@ == old(self).chunk.code@.push(
                spec_opcode_byte(OpCode::Return),
            ),
            final(self).chunk.constants@ == old(self).chunk.constants@,
            final(self).parser == old(self).parser,
            final(self).pending == old(self).pending,
    {
        self.emit_return();
    }

    /// Adds a constant to the pool and returns its index as the one-byte
    /// operand of a `Constant` instruction; past index 255 it reports "too
    /// many constants" and answers slot 0.
    pub fn make_constant(&mut self, constant: Value) -> (r: u8)
        requires
            old(self).wf(),
        ensures
            final(self).wf(),
            final(self).chunk.constants@ == old(self).chunk.constants@.push(constant),
            final(self).chunk.code@ == old(self).chunk.code@,
            final(self).chunk.lines@ == old(self).chunk.lines@,
            final(self).pending == old(self).pending,
            final(self).parser.scanner == old(self).parser.scanner,
            final(self).parser.current == old(self).parser.current,
            final(self).parser.previous == old(self).parser.previous,
            old(self).parser.had_error ==> final(self).parser.had_error,
            old(self).chunk.constants@.len() <= 255 ==> final(self).parser == old(self).parser
                && r == old(self).chunk.constants@.len(),
            old(self).chunk.constants@.len() > 255 ==> r == 0 && (!old(self).parser.panic_mode
                ==> final(self).parser.had_error),
    {
        let constant_index = self.chunk.add_constant(constant);
        proof {
            assert forall|i: int| 0 <= i < self.pending@.len() implies {
                let p = #[trigger] self.pending@[i];
                p.index < self.chunk.constants@.len() && self.chunk.constants@[p.index as int]
                    is Double
            } by {
                assert(self.chunk.constants@[self.pending@[i].index as int] == old(
                    self,
                ).chunk.constants@[self.pending@[i].index as int]);
            }
        }
        if constant_index > 255 {
            self.parser.error_at_current(CompileMessage::TooManyConstantsInOneChunk);
            return 0;
        }
        constant_index as u8
    }

    /// Emits a `Constant` instruction loading a fresh pool entry, through
    /// the one-byte-index path.
    pub fn emit_constant(&mut self, constant: Value)
        requires
            old(self).wf(),
        ensures
            final(self).wf(),
            final(self).chunk.constants@ == old(self).chunk.constants@.push(constant),
            final(self).chunk.code@ == old(self).chunk.code@.push(
                spec_opcode_byte(OpCode::Constant),
            ).push(
                if old(self).chunk.constants@.len() <= 255 {
                    old(self).chunk.constants@.len() as u8
                } else {
                    0u8
                },
            ),
            final(self).pending == old(self).pending,
            old(self).parser.had_error ==> final(self).parser.had_error,
            final(self).parser.scanner == old(self).parser.scanner,
            final(self).parser.current == old(self).parser.current,
            final(self).parser.previous == old(self).parser.previous,
    {
        let constant_index = self.make_constant(constant);
        self.emit_bytes(OpCode::Constant.as_byte(), constant_index);
    }

    /// The rule-table row for a token kind.
    pub fn get_rule(token_type: TokenType) -> (r: ParserRule)
        ensures
            r == spec_get_rule(token_type),
    {
        match token_type {
            TokenType::LeftParen => ParserRule::new(
                Some(PrefixFn::Grouping),
                None,
                Precedence::Lowest,
            ),
            TokenType::Minus => ParserRule::new(
                Some(PrefixFn::Unary),
                Some(InfixFn::Binary),
                Precedence::Term,
            ),
            TokenType::Plus => ParserRule::new(None, Some(InfixFn::Binary), Precedence::Term),
            TokenType::Slash => ParserRule::new(None, Some(InfixFn::Binary), Precedence::Factor),
            TokenType::Star => ParserRule::new(None, Some(InfixFn::Binary), Precedence::Factor),
            TokenType::Bang => ParserRule::new(Some(PrefixFn::Unary), None, Precedence::Lowest),
            TokenType::BangEqual => ParserRule::new(
                None,
                Some(InfixFn::Binary),
                Precedence::Equality,
            ),
            TokenType::EqualEqual => ParserRule::new(
                None,
                Some(InfixFn::Binary),
                Precedence::Equality,
            ),
            TokenType::Greater => ParserRule::new(
                None,
                Some(InfixFn::Binary),
                Precedence::Comparison,
            ),
            TokenType::GreaterEqual => ParserRule::new(
                None,
                Some(InfixFn::Binary),
                Precedence::Comparison,
            ),
            TokenType::Less => ParserRule::new(None, Some(InfixFn::Binary), Precedence::Comparison),
            TokenType::LessEqual => ParserRule::new(
                None,
                Some(InfixFn::Binary),
                Precedence::Comparison,
            ),
            TokenType::Number => ParserRule::new(Some(PrefixFn::Number), None, Precedence::Lowest),
            TokenType::False => ParserRule::new(Some(PrefixFn::Literal), None, Precedence::Lowest),
            TokenType::True => ParserRule::new(Some(PrefixFn::Literal), None, Precedence::Lowest),
            TokenType::Nil => ParserRule::new(Some(PrefixFn::Literal), None, Precedence::Lowest),
            _ => ParserRule::new(None, None, Precedence::Lowest),
        }
    }
}

/// The opcode bytes an infix operator compiles to, after its right operand:
/// the primitive opcode for `+ - * / == > <`, and the complemented pair for
/// `!= >= <=`, which run the opposite comparison and negate it.
pub open spec fn spec_binary_opcodes(kind: TokenType) -> Seq<u8> {
    match kind {
        TokenType::BangEqual => seq![
            spec_opcode_byte(OpCode::Equal),
            spec_opcode_byte(OpCode::Not),
        ],
        TokenType::EqualEqual => seq![spec_opcode_byte(OpCode::Equal)],
        TokenType::Greater => seq![spec_opcode_byte(OpCode::Greater)],
        TokenType::GreaterEqual => seq![
            spec_opcode_byte(OpCode::Less),
            spec_opcode_byte(OpCode::Not),
        ],
        TokenType::Less => seq![spec_opcode_byte(OpCode::Less)],
        TokenType::LessEqual => seq![
            spec_opcode_byte(OpCode::Greater),
            spec_opcode_byte(OpCode::Not),
        ],
        TokenType::Plus => seq![spec_opcode_byte(OpCode::Add)],
        TokenType::Minus => seq![spec_opcode_byte(OpCode::Subtract)],
        TokenType::Star => seq![spec_opcode_byte(OpCode::Multiply)],
        TokenType::Slash => seq![spec_opcode_byte(OpCode::Divide)],
        _ => seq![],
    }
}

impl Compiler {
    /// Parses a parenthesized expression; the `(` was just consumed.
    /// Success is owed for the smallest grouping: a literal operand whose
    /// closing paren is the last byte of the source.
    pub fn grouping(&mut self)
        requires
            old(self).wf(),
        ensures
            final(self).wf(),
            final(self).parser.scanner.source@ == old(self).parser.scanner.source@,
            final(self).parser.current.start >= old(self).parser.current.start,
            final(self).parser.previous.line >= old(self).parser.previous.line,
            old(self).parser.had_error ==> final(self).parser.had_error,
            old(self).chunk.code@.is_prefix_of(final(self).chunk.code@),
            old(self).chunk.constants@.is_prefix_of(final(self).chunk.constants@),
            old(self).pending@.is_prefix_of(final(self).pending@),
            spec_grown_in_step(
                old(self).pending@,
                old(self).chunk.constants@.len() as int,
                final(self).pending@,
                final(self).chunk.constants@.len() as int,
            ),
            old(self).parser.had_error ==> final(self).parser.diagnostic == old(
                self,
            ).parser.diagnostic,
            !final(self).parser.had_error ==> spec_segment_depth(
                spec_appended(old(self).chunk.code@, final(self).chunk.code@),
                final(self).chunk.constants@.len() as int,
                0,
            ) == Some(1int),
            spec_single_literal_setting(*old(self)) && old(self).parser.scanner.current + 1 == old(
                self,
            ).parser.scanner.source@.len() ==> {
                &&& !final(self).parser.had_error
                &&& final(self).parser.previous.kind == TokenType::RightParen
                &&& final(self).parser.current.kind == TokenType::Eof
                &&& (old(self).parser.current.kind == TokenType::Number ==> {
                    &&& final(self).chunk.code@ == old(self).chunk.code@ + spec_encode_constant(
                        old(self).chunk.constants@.len() as usize,
                    )
                    &&& final(self).chunk.constants@ == old(self).chunk.constants@.push(
                        Value::Double(0),
                    )
                    &&& final(self).pending@ == old(self).pending@.push(
                        PendingNumber {
                            index: old(self).chunk.constants@.len() as usize,
                            start: old(self).parser.current.start,
                            length: old(self).parser.current.length,
                        },
                    )
                })
                &&& (old(self).parser.current.kind != TokenType::Number ==> {
                    &&& final(self).chunk.code@ == old(self).chunk.code@.push(
                        spec_opcode_byte(
                            match old(self).parser.current.kind {
                                TokenType::False => OpCode::False,
                                TokenType::True => OpCode::True,
                                _ => OpCode::Nil,
                            },
                        ),
                    )
                    &&& final(self).chunk.constants@ == old(self).chunk.constants@
                    &&& final(self).pending@ == old(self).pending@
                })
            },
        decreases self.parser.scanner.source@.len() - self.parser.current.start, 2int,
    {
        self.expression();
        let ghost mid = *self;
        self.parser.consume(
            TokenType::RightParen,
            CompileMessage::ExpectRightParenAfterExpression,
        );
        proof {
            if spec_single_literal_setting(*old(self)) && old(self).parser.scanner.current + 1
                == old(self).parser.scanner.source@.len() {
                assert(spec_single_literal_outcome(*old(self), mid));
                assert(!self.parser.had_error);
                assert(self.parser.current.kind == TokenType::Eof);
            }
        }
    }

    /// Parses one expression: everything at assignment precedence or
    /// tighter.
    pub fn expression(&mut self)
        requires
            old(self).wf(),
        ensures
            final(self).wf(),
            final(self).parser.scanner.source@ == old(self).parser.scanner.source@,
            final(self).parser.current.start >= old(self).parser.current.start,
            final(self).parser.previous.line >= old(self).parser.previous.line,
            old(self).parser.had_error ==> final(self).parser.had_error,
            old(self).chunk.code@.is_prefix_of(final(self).chunk.code@),
            old(self).chunk.constants@.is_prefix_of(final(self).chunk.constants@),
            old(self).pending@.is_prefix_of(final(self).pending@),
            spec_grown_in_step(
                old(self).pending@,
                old(self).chunk.constants@.len() as int,
                final(self).pending@,
                final(self).chunk.constants@.len() as int,
            ),
            old(self).parser.had_error ==> final(self).parser.diagnostic == old(
                self,
            ).parser.diagnostic,
            !final(self).parser.had_error ==> spec_segment_depth(
                spec_appended(old(self).chunk.code@, final(self).chunk.code@),
                final(self).chunk.constants@.len() as int,
                0,
            ) == Some(1int),
            spec_single_literal_setting(*old(self)) ==> spec_single_literal_outcome(
                *old(self),
                *final(self),
            ),
            (spec_get_rule(old(self).parser.current.kind).prefix is None)
                && !old(self).parser.had_error
                && old(self).parser.scanner.current == old(self).parser.scanner.source@.len()
                ==> final(self).parser.had_error && final(self).parser.diagnostic == Some(
                spec_diagnostic_for(old(self).parser.current, CompileMessage::ExpectExpression),
            ),
            !final(self).parser.had_error ==> spec_level(
                spec_get_rule(final(self).parser.current.kind).precedence,
            ) < spec_level(Precedence::Assignment),
        decreases self.parser.scanner.source@.len() - self.parser.current.start, 1int,
    {
        self.parse_precedence(Precedence::Assignment);
    }

    /// Compiles the numeric literal just consumed: a fresh `Double` slot
    /// goes into the pool with a zero pattern, the load instruction is
    /// emitted through `write_constant`, and the literal's span is recorded
    /// for the host to patch in the parsed value. A pool past the 24-bit
    /// index cap is a fatal compile error.
    pub fn number(&mut self)
        requires
            old(self).wf(),
            old(self).parser.previous.kind == TokenType::Number,
        ensures
            final(self).wf(),
            final(self).parser.scanner == old(self).parser.scanner,
            final(self).parser.current == old(self).parser.current,
            final(self).parser.previous == old(self).parser.previous,
            old(self).parser.had_error ==> final(self).parser.had_error,
            old(self).chunk.code@.is_prefix_of(final(self).chunk.code@),
            old(self).chunk.constants@.is_prefix_of(final(self).chunk.constants@),
            old(self).pending@.is_prefix_of(final(self).pending@),
            spec_grown_in_step(
                old(self).pending@,
                old(self).chunk.constants@.len() as int,
                final(self).pending@,
                final(self).chunk.constants@.len() as int,
            ),
            old(self).parser.had_error ==> final(self).parser.diagnostic == old(
                self,
            ).parser.diagnostic,
            old(self).chunk.constants@.len() < 0x1000000 ==> spec_segment_depth(
                spec_appended(old(self).chunk.code@, final(self).chunk.code@),
                final(self).chunk.constants@.len() as int,
                0,
            ) == Some(1int),
            old(self).chunk.constants@.len() < 0x1000000 ==> {
                &&& final(self).parser == old(self).parser
                &&& final(self).chunk.constants@ == old(self).chunk.constants@.push(
                    Value::Double(0),
                )
                &&& final(self).chunk.code@ == old(self).chunk.code@ + spec_encode_constant(
                    old(self).chunk.constants@.len() as usize,
                )
                &&& final(self).pending@ == old(self).pending@.push(
                    PendingNumber {
                        index: old(self).chunk.constants@.len() as usize,
                        start: old(self).parser.previous.start,
                        length: old(self).parser.previous.length,
                    },
                )
            },
            old(self).chunk.constants@.len() >= 0x1000000 ==> {
                &&& final(self).chunk == old(self).chunk
                &&& final(self).pending == old(self).pending
                &&& (!old(self).parser.panic_mode ==> final(self).parser.had_error)
            },
    {
        if self.chunk.constants.len() >= 0x1000000 {
            self.parser.error_at_current(CompileMessage::TooManyConstantsInOneChunk);
            return ;
        }
        let index = self.chunk.constants.len();
        let line = self.parser.previous.line as usize;
        let entry = PendingNumber {
            index,
            start: self.parser.previous.start,
            length: self.parser.previous.length,
        };
        self.chunk.write_constant(Value::Double(0), line);
        self.pending.push(entry);
        proof {
            lemma_concat_prefix(old(self).chunk.code@, spec_encode_constant(index));
            lemma_push_prefix(old(self).chunk.constants@, Value::Double(0));
            lemma_push_prefix(old(self).pending@, entry);
            assert forall|i: int| 0 <= i < self.pending@.len() implies {
                let p = #[trigger] self.pending@[i];
                &&& p.index < self.chunk.constants@.len()
                &&& self.chunk.constants@[p.index as int] is Double
                &&& p.length >= 1
                &&& p.start + p.length <= self.parser.scanner.source@.len()
                &&& spec_number_lexeme(
                    self.parser.scanner.source@.subrange(p.start as int, p.start + p.length),
                )
            } by {
                if i < old(self).pending@.len() {
                    assert(self.pending@[i] == old(self).pending@[i]);
                    assert(self.chunk.constants@[self.pending@[i].index as int] == old(
                        self,
                    ).chunk.constants@[self.pending@[i].index as int]);
                } else {
                    assert(self.pending@[i] == entry);
                }
            }
            assert(spec_appended(old(self).chunk.code@, self.chunk.code@) =~= spec_encode_constant(
                index,
            ));
            lemma_encode_constant_segment(index, self.chunk.constants@.len() as int, 0);
        }
    }

    /// Compiles a unary operator: the operand is parsed at unary
    /// precedence, then `Negate` (for `-`) or `Not` (for `!`) lands after
    /// it.
    pub fn unary(&mut self)
        requires
            old(self).wf(),
            old(self).parser.previous.kind == TokenType::Minus || old(self).parser.previous.kind
                == TokenType::Bang,
        ensures
            final(self).wf(),
            final(self).parser.scanner.source@ == old(self).parser.scanner.source@,
            final(self).parser.current.start >= old(self).parser.current.start,
            final(self).parser.previous.line >= old(self).parser.previous.line,
            old(self).parser.had_error ==> final(self).parser.had_error,
            old(self).chunk.code@.is_prefix_of(final(self).chunk.code@),
            old(self).chunk.constants@.is_prefix_of(final(self).chunk.constants@),
            old(self).pending@.is_prefix_of(final(self).pending@),
            spec_grown_in_step(
                old(self).pending@,
                old(self).chunk.constants@.len() as int,
                final(self).pending@,
                final(self).chunk.constants@.len() as int,
            ),
            old(self).parser.had_error ==> final(self).parser.diagnostic == old(
                self,
            ).parser.diagnostic,
            final(self).chunk.code@.len() > old(self).chunk.code@.len(),
            final(self).chunk.code@.last() == spec_opcode_byte(
                if old(self).parser.previous.kind == TokenType::Minus {
                    OpCode::Negate
                } else {
                    OpCode::Not
                },
            ),
            !final(self).parser.had_error ==> spec_segment_depth(
                spec_appended(old(self).chunk.code@, final(self).chunk.code@),
                final(self).chunk.constants@.len() as int,
                0,
            ) == Some(1int),
        decreases self.parser.scanner.source@.len() - self.parser.current.start, 2int,
    {
        let operator_type = self.parser.previous.kind;

        self.parse_precedence(Precedence::Unary);
        let ghost mid_code = self.chunk.code@;
        match operator_type {
            TokenType::Minus => self.emit_byte(OpCode::Negate.as_byte()),
            TokenType::Bang => self.emit_byte(OpCode::Not.as_byte()),
            _ => {},
        }
        proof {
            let mid = self.chunk.code@.drop_last();
            lemma_push_prefix(mid, self.chunk.code@.last());
            assert(mid.push(self.chunk.code@.last()) =~= self.chunk.code@);
            lemma_prefix_transitive(old(self).chunk.code@, mid, self.chunk.code@);
            if !self.parser.had_error {
                let a = spec_appended(old(self).chunk.code@, mid_code);
                let b = self.chunk.code@.last();
                let n = self.chunk.constants@.len() as int;
                assert(spec_segment_depth(a, n, 0) == Some(1int));
                assert(spec_appended(old(self).chunk.code@, self.chunk.code@) =~= a + seq![b]);
                lemma_single_instr_segment(b, n, 1);
                lemma_segment_concat(a, seq![b], n, 0);
            }
        }
    }

    /// Compiles a binary operator: the right operand is parsed one level
    /// tighter (left associativity), then the operator's opcode sequence is
    /// emitted.
    pub fn binary(&mut self)
        requires
            old(self).wf(),
            spec_binary_opcodes(old(self).parser.previous.kind).len() >= 1,
        ensures
            final(self).wf(),
            final(self).parser.scanner.source@ == old(self).parser.scanner.source@,
            final(self).parser.current.start >= old(self).parser.current.start,
            final(self).parser.previous.line >= old(self).parser.previous.line,
            old(self).parser.had_error ==> final(self).parser.had_error,
            old(self).chunk.code@.is_prefix_of(final(self).chunk.code@),
            old(self).chunk.constants@.is_prefix_of(final(self).chunk.constants@),
            old(self).pending@.is_prefix_of(final(self).pending@),
            spec_grown_in_step(
                old(self).pending@,
                old(self).chunk.constants@.len() as int,
                final(self).pending@,
                final(self).chunk.constants@.len() as int,
            ),
            old(self).parser.had_error ==> final(self).parser.diagnostic == old(
                self,
            ).parser.diagnostic,
            spec_binary_opcodes(old(self).parser.previous.kind).is_suffix_of(
                final(self).chunk.code@,
            ),
            !final(self).parser.had_error ==> spec_segment_depth(
                spec_appended(old(self).chunk.code@, final(self).chunk.code@),
                final(self).chunk.constants@.len() as int,
                1,
            ) == Some(1int),
        decreases self.parser.scanner.source@.len() - self.parser.current.start, 2int,
    {
        let operator_type = self.parser.previous.kind;
        let rule = Compiler::get_rule(operator_type);

        self.parse_precedence(Precedence::from_unchecked(rule.precedence.level() + 1));
        let ghost mid = self.chunk.code@;
        match operator_type {
            TokenType::BangEqual => self.emit_bytes(
                OpCode::Equal.as_byte(),
                OpCode::Not.as_byte(),
            ),
            TokenType::EqualEqual => self.emit_byte(OpCode::Equal.as_byte()),
            TokenType::Greater => self.emit_byte(OpCode::Greater.as_byte()),
            TokenType::GreaterEqual => self.emit_bytes(
                OpCode::Less.as_byte(),
                OpCode::Not.as_byte(),
            ),
            TokenType::Less => self.emit_byte(OpCode::Less.as_byte()),
            TokenType::LessEqual => self.emit_bytes(
                OpCode::Greater.as_byte(),
                OpCode::Not.as_byte(),
            ),
            TokenType::Plus => self.emit_byte(OpCode::Add.as_byte()),
            TokenType::Minus => self.emit_byte(OpCode::Subtract.as_byte()),
            TokenType::Star => self.emit_byte(OpCode::Multiply.as_byte()),
            TokenType::Slash => self.emit_byte(OpCode::Divide.as_byte()),
            _ => {},
        }
        proof {
            let ops = spec_binary_opcodes(operator_type);
            let code = self.chunk.code@;
            assert(code =~= mid + ops);
            lemma_concat_prefix(mid, ops);
            lemma_prefix_transitive(old(self).chunk.code@, mid, code);
            assert(ops =~= code.subrange(code.len() - ops.len(), code.len() as int));
            if !self.parser.had_error {
                let a = spec_appended(old(self).chunk.code@, mid);
                let n = self.chunk.constants@.len() as int;
                assert(spec_segment_depth(a, n, 0) == Some(1int));
                lemma_segment_depth_shift(a, n, 0, 1);
                assert(spec_appended(old(self).chunk.code@, code) =~= a + ops);
                if ops.len() == 1 {
                    assert(ops =~= seq![ops[0]]);
                    lemma_single_instr_segment(ops[0], n, 2);
                } else {
                    assert(ops =~= seq![ops[0]] + seq![ops[1]]);
                    lemma_single_instr_segment(ops[0], n, 2);
                    lemma_single_instr_segment(ops[1], n, 1);
                    lemma_segment_concat(seq![ops[0]], seq![ops[1]], n, 2);
                }
                assert(spec_segment_depth(ops, n, 2) == Some(1int));
                lemma_segment_concat(a, ops, n, 1);
            }
        }
    }

    /// Emits the single opcode of the literal keyword just consumed:
    /// `False`, `True` or `Nil`.
    pub fn literal(&mut self)
        requires
            old(self).wf(),
            old(self).parser.previous.kind == TokenType::False || old(self).parser.previous.kind
                == TokenType::True || old(self).parser.previous.kind == TokenType::Nil,
        ensures
            final(self).wf(),
            final(self).parser == old(self).parser,
            final(self).pending == old(self).pending,
            final(self).chunk.constants@ == old(self).chunk.constants@,
            final(self).chunk.code@ == old(self).chunk.code@.push(
                spec_opcode_byte(
                    match old(self).parser.previous.kind {
                        TokenType::False => OpCode::False,
                        TokenType::True => OpCode::True,
                        _ => OpCode::Nil,
                    },
                ),
            ),
            old(self).chunk.code@.is_prefix_of(final(self).chunk.code@),
            old(self).chunk.constants@.is_prefix_of(final(self).chunk.constants@),
            old(self).pending@.is_prefix_of(final(self).pending@),
            spec_grown_in_step(
                old(self).pending@,
                old(self).chunk.constants@.len() as int,
                final(self).pending@,
                final(self).chunk.constants@.len() as int,
            ),
            old(self).parser.had_error ==> final(self).parser.diagnostic == old(
                self,
            ).parser.diagnostic,
            spec_segment_depth(
                spec_appended(old(self).chunk.code@, final(self).chunk.code@),
                final(self).chunk.constants@.len() as int,
                0,
            ) == Some(1int),
    {
        match self.parser.previous.kind {
            TokenType::False => self.emit_byte(OpCode::False.as_byte()),
            TokenType::True => self.emit_byte(OpCode::True.as_byte()),
            TokenType::Nil => self.emit_byte(OpCode::Nil.as_byte()),
            _ => {},
        }
        proof {
            lemma_push_prefix(old(self).chunk.code@, self.chunk.code@.last());
            assert(old(self).chunk.code@.push(self.chunk.code@.last()) =~= self.chunk.code@);
            assert(old(self).chunk.constants@ =~= self.chunk.constants@.subrange(
                0,
                old(self).chunk.constants@.len() as int,
            ));
            assert(old(self).pending@ =~= self.pending@.subrange(
                0,
                old(self).pending@.len() as int,
            ));
            let b = self.chunk.code@.last();
            assert(spec_appended(old(self).chunk.code@, self.chunk.code@) =~= seq![b]);
            lemma_single_instr_segment(b, self.chunk.constants@.len() as int, 0);
        }
    }

    /// The heart of the parse: advances past one token, runs its prefix
    /// rule (or reports "expect expression"), then, while the next token
    /// binds at least as tightly as `precedence`, advances and runs its
    /// infix rule. Terminates because every step consumes source.
    pub fn parse_precedence(&mut self, precedence: Precedence)
        requires
            old(self).wf(),
            1 <= spec_level(precedence),
        ensures
            final(self).wf(),
            final(self).parser.scanner.source@ == old(self).parser.scanner.source@,
            final(self).parser.current.start >= old(self).parser.current.start,
            final(self).parser.previous.line >= old(self).parser.previous.line,
            old(self).parser.had_error ==> final(self).parser.had_error,
            old(self).chunk.code@.is_prefix_of(final(self).chunk.code@),
            old(self).chunk.constants@.is_prefix_of(final(self).chunk.constants@),
            old(self).pending@.is_prefix_of(final(self).pending@),
            spec_grown_in_step(
                old(self).pending@,
                old(self).chunk.constants@.len() as int,
                final(self).pending@,
                final(self).chunk.constants@.len() as int,
            ),
            old(self).parser.had_error ==> final(self).parser.diagnostic == old(
                self,
            ).parser.diagnostic,
            !final(self).parser.had_error ==> spec_segment_depth(
                spec_appended(old(self).chunk.code@, final(self).chunk.code@),
                final(self).chunk.constants@.len() as int,
                0,
            ) == Some(1int),
            (spec_get_rule(old(self).parser.current.kind).prefix is None)
                && !old(self).parser.had_error ==> final(self).parser.had_error
                && (final(self).parser.diagnostic matches Some(d)
                    && (d.message == CompileMessage::ExpectExpression
                        || d.message == CompileMessage::UnexpectedCharacter
                        || d.message == CompileMessage::UnterminatedString)),
            (spec_get_rule(old(self).parser.current.kind).prefix is None)
                && !old(self).parser.had_error
                && old(self).parser.scanner.current == old(self).parser.scanner.source@.len()
                ==> final(self).parser.had_error && final(self).parser.diagnostic == Some(
                spec_diagnostic_for(old(self).parser.current, CompileMessage::ExpectExpression),
            ),
            spec_single_literal_setting(*old(self)) ==> spec_single_literal_outcome(
                *old(self),
                *final(self),
            ),
            !final(self).parser.had_error ==> spec_level(
                spec_get_rule(final(self).parser.current.kind).precedence,
            ) < spec_level(precedence),
        decreases self.parser.scanner.source@.len() - self.parser.current.start, 0int,
    {
        self.parser.advance();

        proof {
            lemma_prefix_reflexive(self.chunk.code@);
            lemma_prefix_reflexive(self.chunk.constants@);
            lemma_prefix_reflexive(self.pending@);
        }

        let prefix_rule = Compiler::get_rule(self.parser.previous.kind).prefix;
        match prefix_rule {
            Some(prefix_rule) => {
                match prefix_rule {
                    PrefixFn::Grouping => self.grouping(),
                    PrefixFn::Unary => self.unary(),
                    PrefixFn::Number => self.number(),
                    PrefixFn::Literal => self.literal(),
                }

                let ghost code0 = old(self).chunk.code@;
                let ghost consts0 = old(self).chunk.constants@;
                let ghost pend0 = old(self).pending@;
                proof {
                    lemma_prefix_transitive(code0, code0, self.chunk.code@);
                    if !self.parser.had_error {
                        assert(spec_segment_depth(
                            spec_appended(code0, self.chunk.code@),
                            self.chunk.constants@.len() as int,
                            0,
                        ) == Some(1int));
                    }
                    if spec_single_literal_setting(*old(self)) {
                        let src = self.parser.scanner.source@;
                        let sc = old(self).parser.scanner.current as int;
                        if sc < src.len() {
                            let tok = self.parser.current;
                            assert(spec_skip(src, sc) == sc);
                            assert(!self.parser.had_error);
                            assert(spec_scan_result(
                                old(self).parser.scanner,
                                self.parser.scanner,
                                tok,
                            ));
                            assert(tok.kind != TokenType::Eof);
                            assert(tok.start == sc);
                            assert(src.subrange(sc, sc + tok.length as int)[0] == src[sc]);
                            if tok.kind == TokenType::Number {
                                lemma_number_lexeme_first(
                                    src.subrange(sc, sc + tok.length as int),
                                );
                            }
                            assert(tok.kind == TokenType::RightParen);
                            assert(src.subrange(sc, sc + tok.length as int).len() == 1);
                            assert(tok.length == 1);
                            assert(self.parser.scanner.current == sc + 1);
                        }
                        assert(spec_single_literal_outcome(*old(self), *self));
                    }
                }

                while precedence.level() <= Compiler::get_rule(
                    self.parser.current.kind,
                ).precedence.level()
                    invariant
                        self.wf(),
                        1 <= spec_level(precedence),
                        self.parser.scanner.source@ == old(self).parser.scanner.source@,
                        self.parser.current.start >= old(self).parser.current.start,
                        self.parser.previous.line >= old(self).parser.previous.line,
                        old(self).parser.had_error ==> self.parser.had_error,
                        code0 == old(self).chunk.code@,
                        consts0 == old(self).chunk.constants@,
                        pend0 == old(self).pending@,
                        code0.is_prefix_of(self.chunk.code@),
                        consts0.is_prefix_of(self.chunk.constants@),
                        pend0.is_prefix_of(self.pending@),
                        spec_grown_in_step(
                            pend0,
                            consts0.len() as int,
                            self.pending@,
                            self.chunk.constants@.len() as int,
                        ),
                        spec_single_literal_setting(*old(self)) ==> spec_single_literal_outcome(
                            *old(self),
                            *self,
                        ),
                        old(self).parser.had_error ==> self.parser.diagnostic == old(
                            self,
                        ).parser.diagnostic,
                        !self.parser.had_error ==> spec_segment_depth(
                            spec_appended(code0, self.chunk.code@),
                            self.chunk.constants@.len() as int,
                            0,
                        ) == Some(1int),
                    decreases self.parser.scanner.source@.len() - self.parser.current.start,
                {
                    let ghost code_iter = self.chunk.code@;
                    let ghost consts_iter = self.chunk.constants@;
                    let ghost pend_iter = self.pending@;
                    self.parser.advance();

                    let infix_rule = Compiler::get_rule(self.parser.previous.kind).infix;
                    if let Some(infix_rule) = infix_rule {
                        match infix_rule {
                            InfixFn::Binary => self.binary(),
                        }
                    }
                    proof {
                        lemma_prefix_transitive(code0, code_iter, self.chunk.code@);
                        lemma_prefix_transitive(consts0, consts_iter, self.chunk.constants@);
                        lemma_prefix_transitive(pend0, pend_iter, self.pending@);
                        lemma_grown_in_step_transitive(
                            pend0,
                            consts0.len() as int,
                            pend_iter,
                            consts_iter.len() as int,
                            self.pending@,
                            self.chunk.constants@.len() as int,
                        );
                        if !self.parser.had_error {
                            let prev = spec_appended(code0, code_iter);
                            let bin = spec_appended(code_iter, self.chunk.code@);
                            let n = self.chunk.constants@.len() as int;
                            assert(spec_segment_depth(prev, consts_iter.len() as int, 0) == Some(
                                1int,
                            ));
                            lemma_segment_pool_grows(prev, consts_iter.len() as int, n, 0);
                            assert(spec_segment_depth(bin, n, 1) == Some(1int));
                            lemma_segment_concat(prev, bin, n, 0);
                            assert(prev + bin =~= spec_appended(code0, self.chunk.code@));
                        }
                    }
                }
            },
            None => {
                self.parser.error(CompileMessage::ExpectExpression);
            },
        }
    }
}

/// A parse standing before one literal at the end of its reach: the
/// current token is a number or literal keyword, the scanner stands at the
/// end of the source or on a closing paren, no error is recorded, and the
/// pool is under its cap.
pub open spec fn spec_single_literal_setting(c0: Compiler) -> bool {
    &&& !c0.parser.had_error
    &&& c0.parser.scanner.current <= c0.parser.scanner.source@.len()
    &&& (c0.parser.scanner.current == c0.parser.scanner.source@.len()
        || c0.parser.scanner.source@[c0.parser.scanner.current as int] == ')' as u8)
    &&& c0.chunk.constants@.len() < 0x1000000
    &&& (spec_get_rule(c0.parser.current.kind).prefix == Some(PrefixFn::Number) || spec_get_rule(
        c0.parser.current.kind,
    ).prefix == Some(PrefixFn::Literal))
}

/// What parsing from that setting produces: no error, the window moved to
/// `Eof` (or onto the closing paren), and exactly the literal's code — a
/// load of a fresh placeholder slot with its pending record for a number,
/// the single opcode for `true`, `false` or `nil`.
pub open spec fn spec_single_literal_outcome(c0: Compiler, c1: Compiler) -> bool {
    &&& !c1.parser.had_error
    &&& c1.parser.previous == c0.parser.current
    &&& (c0.parser.scanner.current == c0.parser.scanner.source@.len()
        ==> c1.parser.current.kind == TokenType::Eof)
    &&& (c0.parser.scanner.current < c0.parser.scanner.source@.len() ==> {
        &&& c1.parser.current.kind == TokenType::RightParen
        &&& c1.parser.current.start == c0.parser.scanner.current
        &&& c1.parser.current.length == 1
        &&& c1.parser.scanner.current == c0.parser.scanner.current + 1
    })
    &&& (c0.parser.current.kind == TokenType::Number ==> {
        &&& c1.chunk.code@ == c0.chunk.code@ + spec_encode_constant(
            c0.chunk.constants@.len() as usize,
        )
        &&& c1.chunk.constants@ == c0.chunk.constants@.push(Value::Double(0))
        &&& c1.pending@ == c0.pending@.push(
            PendingNumber {
                index: c0.chunk.constants@.len() as usize,
                start: c0.parser.current.start,
                length: c0.parser.current.length,
            },
        )
    })
    &&& (c0.parser.current.kind != TokenType::Number ==> {
        &&& c1.chunk.code@ == c0.chunk.code@.push(
            spec_opcode_byte(
                match c0.parser.current.kind {
                    TokenType::False => OpCode::False,
                    TokenType::True => OpCode::True,
                    _ => OpCode::Nil,
                },
            ),
        )
        &&& c1.chunk.constants@ == c0.chunk.constants@
        &&& c1.pending@ == c0.pending@
    })
}

/// What a successful compile hands the host: the chunk, and the pool slots
/// whose numeric values the host still owes (parse each recorded lexeme and
/// patch its slot before running the chunk).
#[derive(Debug)]
pub struct CompileOutput {
    pub chunk: Chunk,
    pub pending: Vec<PendingNumber>,
}

impl CompileOutput {
    /// A sound compile result: a well-formed chunk whose code is one
    /// complete expression — a decodable instruction segment that pushes
    /// exactly one value and never pops an empty stack — followed by
    /// `Return`. The constant pool holds exactly the numeric literals, in
    /// order: pending record `i` names slot `i` and a numeric lexeme of
    /// the source, so patching every record rewrites the whole pool and no
    /// placeholder survives to run.
    pub open spec fn wf(&self, src: Seq<u8>) -> bool {
        &&& self.chunk.wf()
        &&& self.chunk.code@.len() >= 1
        &&& self.chunk.code@.last() == spec_opcode_byte(OpCode::Return)
        &&& spec_segment_depth(
            self.chunk.code@.drop_last(),
            self.chunk.constants@.len() as int,
            0,
        ) == Some(1int)
        &&& spec_pending_wf(self.pending@, self.chunk.constants@, src)
        &&& self.pending@.len() == self.chunk.constants@.len()
        &&& (forall|i: int|
            0 <= i < self.pending@.len() ==> (#[trigger] self.pending@[i]).index == i)
    }
}

/// Compiles one expression followed by end-of-input. On success the chunk
/// and its pending numeric literals come back; on any lexical or parse
/// error the result is `CompileError` together with the first diagnostic
/// recorded (panic mode silences the rest).
///
/// Success is owed, with the exact chunk, for the smallest sources: a
/// source that is one numeric literal compiles to a load of pool slot 0
/// (its span pending) and `Return`; exactly `true`, `false` or `nil`
/// compiles to its opcode and `Return`; and a single byte that starts no
/// token is owed `CompileError` with the "unexpected character"
/// diagnostic on line 1.
pub fn compile(source: &[u8]) -> (r: (Result<CompileOutput, InterpretError>, Option<Diagnostic>))
    requires
        source@.len() + 1 < isize::MAX as int,
    ensures
        (r.0 is Err) == (r.1 is Some),
        r.0 matches Err(e) ==> e == InterpretError::CompileError,
        r.0 matches Ok(out) ==> out.wf(source@),
        spec_number_lexeme(source@) ==> (r.0 matches Ok(out)
            && out.chunk.code@ == spec_encode_constant(0) + seq![spec_opcode_byte(OpCode::Return)]
            && out.chunk.constants@ == seq![Value::Double(0)]
            && out.pending@ == seq![
            PendingNumber { index: 0, start: 0, length: source@.len() as usize },
        ]),
        (source@ == kw_true() || source@ == kw_false() || source@ == kw_nil()) ==> (r.0 matches Ok(
            out) && out.chunk.code@ == seq![
            spec_opcode_byte(
                if source@ == kw_true() {
                    OpCode::True
                } else if source@ == kw_false() {
                    OpCode::False
                } else {
                    OpCode::Nil
                },
            ),
            spec_opcode_byte(OpCode::Return),
        ] && out.chunk.constants@.len() == 0 && out.pending@.len() == 0),
        source@.len() == 1 && spec_unexpected_byte(source@[0]) && !spec_skippable(source@, 0)
            ==> (r.0 is Err) && r.1 == Some(
            Diagnostic {
                line: 1,
                locus: DiagnosticLocus::AtErrorToken,
                message: CompileMessage::UnexpectedCharacter,
            },
        ),
        source@.len() == 0 ==> (r.0 is Err) && r.1 == Some(
            Diagnostic {
                line: 1,
                locus: DiagnosticLocus::AtEnd,
                message: CompileMessage::ExpectExpression,
            },
        ),
{
    let dummy_token = Token::new(TokenType::Eof, 0, 0, 0);
    let parser = Parser::new(Scanner::new(source), dummy_token);

    let mut compiler = Compiler::new(parser, Chunk::new());

    let ghost p0 = compiler.parser;
    compiler.parser.advance();
    proof {
        assert(compiler.wf());
        let src = source@;
        let tok = compiler.parser.current;
        if spec_number_lexeme(src) {
            lemma_number_lexeme_first(src);
            assert forall|i: int| 0 <= i < src.len() implies spec_is_digit(#[trigger] src[i])
                || src[i] == '.' as u8 by {
                lemma_number_lexeme_byte(src, i);
            }
            assert(!compiler.parser.had_error);
            assert(spec_scan_result(p0.scanner, compiler.parser.scanner, tok));
            assert(tok.kind != TokenType::Eof);
            assert(tok.start == 0);
            assert(tok.kind == TokenType::Number);
            lemma_number_prefix_maximal(src, tok.start + tok.length);
            assert(compiler.parser.scanner.current == src.len());
            assert(spec_single_literal_setting(compiler));
        }
        if src == kw_true() || src == kw_false() || src == kw_nil() {
            assert(spec_is_alpha(src[0]));
            assert forall|i: int| 0 <= i < src.len() implies spec_is_alpha(#[trigger] src[i]) by {}
            assert(!compiler.parser.had_error);
            assert(spec_scan_result(p0.scanner, compiler.parser.scanner, tok));
            assert(tok.kind != TokenType::Eof);
            assert(tok.start == 0);
            assert(src.subrange(tok.start as int, tok.start + tok.length)[0] == src[0]);
            assert(spec_is_identifier_like(tok.kind));
            assert(tok.start + tok.length == src.len());
            assert(src.subrange(0, src.len() as int) =~= src);
            assert(tok.kind == spec_keyword_kind(src));
            assert(spec_single_literal_setting(compiler));
        }
        if src.len() == 0 {
            assert(!compiler.parser.had_error);
            assert(spec_scan_result(p0.scanner, compiler.parser.scanner, tok));
            assert(tok.kind == TokenType::Eof && tok.line == 1);
        }
        if src.len() == 1 && spec_unexpected_byte(src[0]) && !spec_skippable(src, 0) {
            reveal_with_fuel(spec_newlines, 3);
            assert(compiler.parser.had_error) by {
                if !compiler.parser.had_error {
                    assert(spec_scan_result(p0.scanner, compiler.parser.scanner, tok));
                    assert(src.subrange(tok.start as int, tok.start + tok.length)[0] == src[0]);
                }
            }
            assert(compiler.parser.scanner.line == 1);
            assert(compiler.parser.diagnostic == Some(
                Diagnostic {
                    line: 1,
                    locus: DiagnosticLocus::AtErrorToken,
                    message: CompileMessage::UnexpectedCharacter,
                },
            ));
        }
    }
    let ghost c1 = compiler;
    let ghost empty_code = compiler.chunk.code@;
    compiler.expression();
    proof {
        if spec_single_literal_setting(c1) {
            assert(spec_single_literal_outcome(c1, compiler));
        }
        if source@.len() == 0 {
            assert(compiler.parser.had_error && compiler.parser.diagnostic == Some(
                Diagnostic {
                    line: 1,
                    locus: DiagnosticLocus::AtEnd,
                    message: CompileMessage::ExpectExpression,
                },
            ));
        }
    }
    let ghost c2 = compiler;
    let ghost mid_code = compiler.chunk.code@;
    compiler.parser.consume(TokenType::Eof, CompileMessage::ExpectEndOfExpression);
    proof {
        if spec_single_literal_setting(c1) && c1.parser.scanner.current
            == c1.parser.scanner.source@.len() {
            assert(!compiler.parser.had_error);
        }
    }
    compiler.end_compiler();

    if compiler.parser.had_error {
        proof {
            assert(!(spec_single_literal_setting(c1) && c1.parser.scanner.current
                == c1.parser.scanner.source@.len()));
        }
        return (Err(InterpretError::CompileError), compiler.parser.diagnostic);
    }
    proof {
        assert(compiler.chunk.code@.drop_last() =~= mid_code);
        assert(spec_appended(empty_code, mid_code) =~= mid_code);
        let src = source@;
        if spec_number_lexeme(src) {
            assert(compiler.chunk.code@ =~= spec_encode_constant(0) + seq![
                spec_opcode_byte(OpCode::Return),
            ]);
            assert(compiler.chunk.constants@ =~= seq![Value::Double(0)]);
            assert(compiler.pending@ =~= seq![
                PendingNumber { index: 0, start: 0, length: src.len() as usize },
            ]);
        }
        if src == kw_true() || src == kw_false() || src == kw_nil() {
            assert(compiler.chunk.code@ =~= seq![
                spec_opcode_byte(
                    if src == kw_true() {
                        OpCode::True
                    } else if src == kw_false() {
                        OpCode::False
                    } else {
                        OpCode::Nil
                    },
                ),
                spec_opcode_byte(OpCode::Return),
            ]);
        }
    }
    (Ok(CompileOutput { chunk: compiler.chunk, pending: compiler.pending }), None)
}

/// A seq is a prefix of itself.
proof fn lemma_prefix_reflexive<T>(s: Seq<T>)
    ensures
        s.is_prefix_of(s),
{
    assert(s =~= s.subrange(0, s.len() as int));
}


} // verus!
