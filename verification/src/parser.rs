//! The parser: functions on the UTF-8 bytes of a source file, one per rule of
//! the grammar, each stated against a spec function that gives the rule.
//!
//! Positions are byte offsets into the source text. A rule either succeeds and
//! moves the stream past what it read, or fails; on failure the stream stands
//! where the failure was detected, which is where an error report points.

use std::ops::Range;
use vstd::prelude::*;
use vstd::utf8::*;
use vstd::string::*;
use winnow::Parser;

use crate::ast::Expression;
use crate::ast::FileSpan;
use crate::ast::Located;
use crate::ast::LocatedExpression;

verus! {

broadcast use vstd::utf8::encode_utf8_valid_utf8;

pub const SLASH: u8 = 0x2f;
pub const CARRIAGE_RETURN: u8 = 0x0d;
pub const LINE_FEED: u8 = 0x0a;
pub const SPACE: u8 = 0x20;
pub const TAB: u8 = 0x09;
pub const UNDERSCORE: u8 = 0x5f;
pub const DIGIT_ZERO: u8 = 0x30;
pub const LOWER_X: u8 = 0x78;

// ---------------------------------------------------------------------------
// Character classes

pub open spec fn is_line_break(b: u8) -> bool {
    b == CARRIAGE_RETURN || b == LINE_FEED
}

pub open spec fn is_space(b: u8) -> bool {
    b == SPACE || b == TAB || b == CARRIAGE_RETURN || b == LINE_FEED
}

pub open spec fn is_ascii_alpha(b: u8) -> bool {
    (0x41 <= b <= 0x5a) || (0x61 <= b <= 0x7a)
}

pub open spec fn is_ascii_digit(b: u8) -> bool {
    0x30 <= b <= 0x39
}

pub open spec fn is_word_start(b: u8) -> bool {
    is_ascii_alpha(b) || b == UNDERSCORE
}

pub open spec fn is_word_char(b: u8) -> bool {
    is_ascii_alpha(b) || is_ascii_digit(b) || b == UNDERSCORE
}

pub open spec fn is_hex_digit(b: u8) -> bool {
    is_ascii_digit(b) || (0x61 <= b <= 0x66) || (0x41 <= b <= 0x46)
}

pub open spec fn hex_digit_value(b: u8) -> nat {
    if is_ascii_digit(b) {
        (b - 0x30) as nat
    } else if 0x61 <= b <= 0x66 {
        (b - 0x61 + 10) as nat
    } else {
        (b - 0x41 + 10) as nat
    }
}

fn line_break(b: u8) -> (r: bool)
    ensures
        r == is_line_break(b),
{
    b == CARRIAGE_RETURN || b == LINE_FEED
}

fn space(b: u8) -> (r: bool)
    ensures
        r == is_space(b),
{
    b == SPACE || b == TAB || b == CARRIAGE_RETURN || b == LINE_FEED
}

fn ascii_alpha(b: u8) -> (r: bool)
    ensures
        r == is_ascii_alpha(b),
{
    (0x41 <= b && b <= 0x5a) || (0x61 <= b && b <= 0x7a)
}

fn word_start(b: u8) -> (r: bool)
    ensures
        r == is_word_start(b),
{
    ascii_alpha(b) || b == UNDERSCORE
}

fn word_char(b: u8) -> (r: bool)
    ensures
        r == is_word_char(b),
{
    ascii_alpha(b) || (0x30 <= b && b <= 0x39) || b == UNDERSCORE
}

fn hex_digit(b: u8) -> (r: bool)
    ensures
        r == is_hex_digit(b),
{
    (0x30 <= b && b <= 0x39) || (0x61 <= b && b <= 0x66) || (0x41 <= b && b <= 0x46)
}

fn hex_digit_to_value(b: u8) -> (v: u32)
    requires
        is_hex_digit(b),
    ensures
        v == hex_digit_value(b),
        v < 16,
{
    if 0x30 <= b && b <= 0x39 {
        (b - 0x30) as u32
    } else if 0x61 <= b && b <= 0x66 {
        (b - 0x61 + 10) as u32
    } else {
        (b - 0x41 + 10) as u32
    }
}

// ---------------------------------------------------------------------------
// UTF-8 boundaries

/// A position is a character boundary when it is the end or its byte is ASCII.
proof fn lemma_ascii_boundary(s: Seq<u8>, q: int)
    requires
        valid_utf8(s),
        0 <= q <= s.len(),
        q == s.len() || s[q] < 0x80,
    ensures
        is_char_boundary(s, q),
{
    if q == s.len() {
        is_char_boundary_start_end_of_seq(s);
    } else {
        is_char_boundary_iff_not_is_continuation_byte(s, q);
    }
}

/// The position after an ASCII byte that starts a character is a character boundary.
proof fn lemma_boundary_after_ascii(s: Seq<u8>, q: int)
    requires
        valid_utf8(s),
        0 <= q < s.len(),
        is_char_boundary(s, q),
        s[q] < 0x80,
    ensures
        is_char_boundary(s, q + 1),
{
    valid_utf8_split(s, q);
    let t = s.subrange(q, s.len() as int);
    assert(t[0] == s[q]);
    assert(valid_utf8(pop_first_scalar(t)));
    let u = s.subrange(q + 1, s.len() as int);
    assert(pop_first_scalar(t) =~= u);
    if q + 1 == s.len() {
        is_char_boundary_start_end_of_seq(s);
    } else {
        assert(valid_first_scalar(u));
        assert(u[0] == s[q + 1]);
        is_char_boundary_iff_not_is_continuation_byte(s, q + 1);
    }
}

/// A character boundary of a text is one of every suffix that starts at an
/// earlier boundary.
proof fn lemma_boundary_in_suffix(s: Seq<u8>, p: int, q: int)
    requires
        valid_utf8(s),
        0 <= p <= q <= s.len(),
        is_char_boundary(s, p),
        is_char_boundary(s, q),
    ensures
        valid_utf8(s.subrange(p, s.len() as int)),
        is_char_boundary(s.subrange(p, s.len() as int), q - p),
{
    valid_utf8_split(s, p);
    let t = s.subrange(p, s.len() as int);
    if q == s.len() {
        is_char_boundary_start_end_of_seq(t);
    } else {
        is_char_boundary_iff_not_is_continuation_byte(s, q);
        assert(t[q - p] == s[q]);
        is_char_boundary_iff_not_is_continuation_byte(t, q - p);
    }
}

// ---------------------------------------------------------------------------
// The input stream

/// The text being parsed, the name of the file it came from, and the byte
/// position that parsing has reached.
pub struct In<'a> {
    code: &'a str,
    filename: &'a str,
    pos: usize,
}

impl<'a> In<'a> {
    #[verifier::type_invariant]
    spec fn well_formed(self) -> bool {
        &&& self.pos <= self.code.spec_bytes().len()
        &&& is_char_boundary(self.code.spec_bytes(), self.pos as int)
    }

    /// The text being parsed.
    pub closed spec fn spec_code(&self) -> &'a str {
        self.code
    }

    /// The name of the file the text came from.
    pub closed spec fn spec_filename(&self) -> &'a str {
        self.filename
    }

    /// The byte position parsing has reached.
    pub closed spec fn spec_pos(&self) -> int {
        self.pos as int
    }

    /// The UTF-8 bytes of the text.
    pub open spec fn bytes(&self) -> Seq<u8> {
        self.spec_code().spec_bytes()
    }

    /// Both streams read the same text of the same file.
    pub open spec fn same_text(&self, other: &Self) -> bool {
        self.spec_code() == other.spec_code() && self.spec_filename() == other.spec_filename()
    }

    /// A copy of the stream, to keep where a parse started.
    pub fn checkpoint(&self) -> (copy: In<'a>)
        ensures
            copy.same_text(self),
            copy.spec_pos() == self.spec_pos(),
    {
        proof {
            use_type_invariant(self);
        }
        In { code: self.code, filename: self.filename, pos: self.pos }
    }

    pub fn code(&self) -> (code: &'a str)
        ensures
            code == self.spec_code(),
    {
        self.code
    }

    pub fn filename(&self) -> (filename: &'a str)
        ensures
            filename == self.spec_filename(),
    {
        self.filename
    }

    pub fn position(&self) -> (pos: usize)
        ensures
            pos == self.spec_pos(),
            pos <= self.bytes().len(),
            is_char_boundary(self.bytes(), pos as int),
    {
        proof {
            use_type_invariant(self);
        }
        self.pos
    }

    /// The text from the current position to the end.
    pub fn rest(&self) -> (rest: &'a str)
        ensures
            rest.spec_bytes() == self.bytes().subrange(self.spec_pos(), self.bytes().len() as int),
    {
        proof {
            use_type_invariant(self);
        }
        let (_, rest) = self.code.split_at(self.pos);
        rest
    }
}

/// A stream at the start of `code`, read from the file `filename`.
pub fn stream_from<'a>(code: &'a str, filename: &'a str) -> (input: In<'a>)
    ensures
        input.spec_code() == code,
        input.spec_filename() == filename,
        input.spec_pos() == 0,
{
    In { code, filename, pos: 0 }
}


// ---------------------------------------------------------------------------
// Outcomes

/// A note attached to a failure: what was being parsed, or what was expected.
#[derive(Debug, Clone, Copy, PartialEq, Eq)]
pub enum Context {
    /// The kind of thing that was being parsed.
    Label(&'static str),
    /// A description of what would have been accepted.
    Expected(&'static str),
}

/// Why a rule did not match. A cut failure is final: it stops enclosing
/// repetitions and alternatives, where any other failure lets them stop or
/// try the next branch.
#[derive(Debug, Clone, PartialEq, Eq)]
pub struct Failure {
    pub cut: bool,
    pub context: Vec<Context>,
}

/// What a rule does at a position: it reads up to `end` and yields `value`,
/// or it fails at `at`.
pub enum Step<V> {
    Done { value: V, end: int },
    Failed { at: int, cut: bool, context: Seq<Context> },
}

/// The result of a run and the position it left agree with the rule's step.
pub open spec fn agrees<T, V>(r: Result<T, Failure>, step: Step<V>, pos: int) -> bool {
    match step {
        Step::Done { end, .. } => r is Ok && pos == end,
        Step::Failed { at, cut, context } => r matches Err(f) && f.cut == cut && f.context@
            == context && pos == at,
    }
}

pub open spec fn comment_context() -> Seq<Context> {
    seq![Context::Label("comment marker"), Context::Expected("//")]
}

fn failure(cut: bool, context: Vec<Context>) -> (f: Failure)
    ensures
        f.cut == cut,
        f.context == context,
{
    Failure { cut, context }
}

// ---------------------------------------------------------------------------
// comment -> "//" ( !'\r' !'\n' ANY )*

/// The first line break at or after `p`, or the end of the text.
pub open spec fn line_end(s: Seq<u8>, p: int) -> int
    decreases s.len() - p,
{
    if p >= s.len() || is_line_break(s[p]) {
        p
    } else {
        line_end(s, p + 1)
    }
}

pub open spec fn comment_marker_at(s: Seq<u8>, p: int) -> bool {
    0 <= p && p + 2 <= s.len() && s[p] == SLASH && s[p + 1] == SLASH
}

/// A comment runs from its marker up to the next line break, which it leaves
/// unread, or to the end of the text.
pub open spec fn comment_step(s: Seq<u8>, p: int) -> Step<()> {
    if comment_marker_at(s, p) {
        Step::Done { value: (), end: line_end(s, p + 2) }
    } else {
        Step::Failed { at: p, cut: false, context: comment_context() }
    }
}

pub fn comment(input: &mut In) -> (r: Result<(), Failure>)
    ensures
        final(input).same_text(old(input)),
        agrees(r, comment_step(old(input).bytes(), old(input).spec_pos()), final(input).spec_pos()),
{
    proof {
        use_type_invariant(&*input);
    }
    let code: &str = input.code;
    let s = code.as_bytes();
    let p = input.pos;
    if !(p < s.len() && s.len() - p >= 2 && s[p] == SLASH && s[p + 1] == SLASH) {
        let mut context = Vec::new();
        context.push(Context::Label("comment marker"));
        context.push(Context::Expected("//"));
        assert(context@ =~= comment_context());
        return Err(failure(false, context));
    }
    let mut q = p + 2;
    while q < s.len() && !line_break(s[q])
        invariant
            s@ == code.spec_bytes(),
            p + 2 <= q <= s.len(),
            line_end(s@, p + 2) == line_end(s@, q as int),
        decreases s.len() - q,
    {
        q = q + 1;
    }
    proof {
        lemma_ascii_boundary(s@, q as int);
    }
    input.pos = q;
    Ok(())
}


/// A line end lies at or after its start, within the text, and is the first
/// line break there.
pub proof fn lemma_line_end(s: Seq<u8>, p: int)
    requires
        0 <= p <= s.len(),
    ensures
        p <= line_end(s, p) <= s.len(),
        line_end(s, p) == s.len() || is_line_break(s[line_end(s, p)]),
        forall|i: int| p <= i < line_end(s, p) ==> !is_line_break(#[trigger] s[i]),
    decreases s.len() - p,
{
    if p < s.len() && !is_line_break(s[p]) {
        lemma_line_end(s, p + 1);
    }
}

// ---------------------------------------------------------------------------
// whitespace -> ( ' ' | '\t' | '\r' | '\n' | comment )*

/// Where a run of blanks and comments that starts at `p` ends.
pub open spec fn whitespace_end(s: Seq<u8>, p: int) -> int
    decreases s.len() - p,
{
    if 0 <= p < s.len() && is_space(s[p]) {
        whitespace_end(s, p + 1)
    } else if comment_marker_at(s, p) {
        proof {
            lemma_line_end(s, p + 2);
        }
        whitespace_end(s, line_end(s, p + 2))
    } else {
        p
    }
}

/// Skips blanks and comments. It never fails.
pub fn whitespace(input: &mut In) -> (r: Result<(), Failure>)
    ensures
        final(input).same_text(old(input)),
        r is Ok,
        final(input).spec_pos() == whitespace_end(old(input).bytes(), old(input).spec_pos()),
{
    proof {
        use_type_invariant(&*input);
    }
    let code: &str = input.code;
    let s = code.as_bytes();
    let ghost start = input.pos as int;
    loop
        invariant
            s@ == code.spec_bytes(),
            input.spec_code() == code,
            input.same_text(old(input)),
            start == old(input).spec_pos(),
            start <= input.spec_pos() <= s.len(),
            whitespace_end(s@, start) == whitespace_end(s@, input.spec_pos()),
        ensures
            whitespace_end(s@, start) == input.spec_pos(),
        decreases s.len() - input.spec_pos(),
    {
        proof {
            use_type_invariant(&*input);
        }
        let q = input.pos;
        if q < s.len() && space(s[q]) {
            proof {
                lemma_boundary_after_ascii(s@, q as int);
            }
            input.pos = q + 1;
        } else {
            match comment(input) {
                Ok(()) => {
                    proof {
                        lemma_line_end(s@, q + 2);
                    }
                },
                Err(_) => {
                    assert(whitespace_end(s@, q as int) == q);
                    break;
                },
            }
        }
    }
    Ok(())
}


/// Attaches a span to the outcome of a rule that started at `start` and left
/// the stream at `input`: a value gets the span from `start` to the position
/// reached, in the stream's file; a failure passes through unchanged.
pub fn with_file_span<'a, O>(input: &In<'a>, start: usize, outcome: Result<O, Failure>) -> (r:
    Result<(O, FileSpan<'a>), Failure>)
    ensures
        outcome matches Ok(o) ==> r matches Ok((value, span)) && value == o && span.source
            == input.spec_filename() && span.chars.start == start && span.chars.end
            == input.spec_pos(),
        outcome matches Err(f) ==> r == Err::<(O, FileSpan<'a>), Failure>(f),
{
    match outcome {
        Ok(o) => Ok((o, FileSpan::new(input.filename, Range { start, end: input.pos }))),
        Err(f) => Err(f),
    }
}

/// The text between two character boundaries.
fn slice_between<'a>(code: &'a str, start: usize, end: usize) -> (piece: &'a str)
    requires
        start <= end <= code.spec_bytes().len(),
        is_char_boundary(code.spec_bytes(), start as int),
        is_char_boundary(code.spec_bytes(), end as int),
    ensures
        piece.spec_bytes() == code.spec_bytes().subrange(start as int, end as int),
{
    proof {
        lemma_boundary_in_suffix(code.spec_bytes(), start as int, end as int);
    }
    let (_, rest) = code.split_at(start);
    let (piece, _) = rest.split_at(end - start);
    assert(piece.spec_bytes() =~= code.spec_bytes().subrange(start as int, end as int));
    piece
}

// ---------------------------------------------------------------------------
// word -> ( ALPHA | '_' ) ( ALPHA | NUM | '_' )*

/// Where a run of letters, digits and underscores that starts at `p` ends.
pub open spec fn word_end(s: Seq<u8>, p: int) -> int
    decreases s.len() - p,
{
    if 0 <= p < s.len() && is_word_char(s[p]) {
        word_end(s, p + 1)
    } else {
        p
    }
}

pub open spec fn word_context() -> Seq<Context> {
    seq![
        Context::Label("identifier start"),
        Context::Expected("underscore"),
        Context::Expected("any letter"),
    ]
}

/// A word starts with a letter or an underscore and takes every letter, digit
/// and underscore that follows.
pub open spec fn word_step(s: Seq<u8>, p: int) -> Step<()> {
    if 0 <= p < s.len() && is_word_start(s[p]) {
        Step::Done { value: (), end: word_end(s, p + 1) }
    } else {
        Step::Failed { at: p, cut: false, context: word_context() }
    }
}

/// Reads a word and gives its text.
fn identifier<'s>(input: &mut In<'s>) -> (r: Result<&'s str, Failure>)
    ensures
        final(input).same_text(old(input)),
        agrees(r, word_step(old(input).bytes(), old(input).spec_pos()), final(input).spec_pos()),
        r matches Ok(token) ==> token.spec_bytes() == old(input).bytes().subrange(
            old(input).spec_pos(),
            final(input).spec_pos(),
        ),
{
    proof {
        use_type_invariant(&*input);
    }
    let code: &str = input.code;
    let s = code.as_bytes();
    let p = input.pos;
    if !(p < s.len() && word_start(s[p])) {
        let mut context = Vec::new();
        context.push(Context::Label("identifier start"));
        context.push(Context::Expected("underscore"));
        context.push(Context::Expected("any letter"));
        assert(context@ =~= word_context());
        return Err(failure(false, context));
    }
    proof {
        lemma_boundary_after_ascii(s@, p as int);
    }
    let mut q = p + 1;
    while q < s.len() && word_char(s[q])
        invariant
            s@ == code.spec_bytes(),
            p < q <= s.len(),
            is_char_boundary(s@, q as int),
            word_end(s@, p + 1) == word_end(s@, q as int),
        decreases s.len() - q,
    {
        proof {
            lemma_boundary_after_ascii(s@, q as int);
        }
        q = q + 1;
    }
    let token = slice_between(code, p, q);
    input.pos = q;
    Ok(token)
}


/// Reads a word and gives its text and its span.
pub fn word<'s>(input: &mut In<'s>) -> (r: Result<(&'s str, FileSpan<'s>), Failure>)
    ensures
        final(input).same_text(old(input)),
        agrees(r, word_step(old(input).bytes(), old(input).spec_pos()), final(input).spec_pos()),
        r matches Ok((token, span)) ==> {
            &&& token.spec_bytes() == old(input).bytes().subrange(
                old(input).spec_pos(),
                final(input).spec_pos(),
            )
            &&& span.source == old(input).spec_filename()
            &&& span.chars.start == old(input).spec_pos()
            &&& span.chars.end == final(input).spec_pos()
        },
{
    let start = input.position();
    let outcome = identifier(input);
    with_file_span(input, start, outcome)
}

// ---------------------------------------------------------------------------
// HEXDIGIT -> '0'..'9' | 'a'..'f' | 'A'..'F'
// number_hex -> HEXDIGIT ( HEXDIGIT | ( '_' &HEXDIGIT ) )*
//   an underscore stands only between two digits, and at most four digits are
//   allowed

/// An underscore must be followed by a hexadecimal digit, which it leaves
/// unread. A missing underscore lets the caller go on; an underscore without
/// a digit after it is a cut failure just past the underscore.
pub open spec fn underscored_step(s: Seq<u8>, p: int) -> Step<()> {
    if 0 <= p < s.len() && s[p] == UNDERSCORE {
        if p + 1 < s.len() && is_hex_digit(s[p + 1]) {
            Step::Done { value: (), end: p + 1 }
        } else {
            Step::Failed { at: p + 1, cut: true, context: seq![] }
        }
    } else {
        Step::Failed { at: p, cut: false, context: seq![] }
    }
}

/// Reads an underscore that stands before a hexadecimal digit.
pub fn underscored(input: &mut In) -> (r: Result<(), Failure>)
    ensures
        final(input).same_text(old(input)),
        agrees(r, underscored_step(old(input).bytes(), old(input).spec_pos()), final(input).spec_pos()),
{
    proof {
        use_type_invariant(&*input);
    }
    let code: &str = input.code;
    let s = code.as_bytes();
    let p = input.pos;
    if p < s.len() && s[p] == UNDERSCORE {
        proof {
            lemma_boundary_after_ascii(s@, p as int);
        }
        input.pos = p + 1;
        if p + 1 < s.len() && hex_digit(s[p + 1]) {
            Ok(())
        } else {
            let context = Vec::new();
            assert(context@ =~= seq![]);
            Err(failure(true, context))
        }
    } else {
        let context = Vec::new();
        assert(context@ =~= seq![]);
        Err(failure(false, context))
    }
}

/// The digits of a hexadecimal number read from `q` on, after the digits in
/// `digits`: each digit is taken, each underscore before a digit is skipped,
/// and anything else ends the number.
pub open spec fn hex_digits(s: Seq<u8>, q: int, digits: Seq<u8>) -> Step<Seq<u8>>
    decreases s.len() - q,
{
    if 0 <= q < s.len() && is_hex_digit(s[q]) {
        hex_digits(s, q + 1, digits.push(s[q]))
    } else {
        match underscored_step(s, q) {
            Step::Done { end, .. } => if q < end <= s.len() {
                hex_digits(s, end, digits)
            } else {
                Step::Done { value: digits, end: q }
            },
            Step::Failed { at, cut, context } => if cut {
                Step::Failed { at, cut, context }
            } else {
                Step::Done { value: digits, end: q }
            },
        }
    }
}

/// The number that a string of hexadecimal digits denotes.
pub open spec fn hex_value(digits: Seq<u8>) -> nat
    decreases digits.len(),
{
    if digits.len() == 0 {
        0
    } else {
        hex_value(digits.drop_last()) * 16 + hex_digit_value(digits.last())
    }
}

pub open spec fn pow16(n: nat) -> nat
    decreases n,
{
    if n == 0 {
        1
    } else {
        16 * pow16((n - 1) as nat)
    }
}

pub open spec fn hex_start_context() -> Seq<Context> {
    seq![
        Context::Label("hexadecimal number"),
        Context::Expected("hexadecimal digit (i.e. 0-9, a-f, A-F)"),
    ]
}

pub open spec fn hexits_context() -> Seq<Context> {
    seq![
        Context::Label("hexadecimal number with at most 4 hexits"),
        Context::Expected("hexit (i.e. 0-9, a-f, A-F)"),
        Context::Expected("underscore (followed by a hexit)"),
    ]
}

/// A hexadecimal number must start with a digit; an underscore that no digit
/// follows is a cut failure where the digit was missing; more than four digits
/// fail where the number started; otherwise it denotes the value of its digits.
pub open spec fn number_hex_step(s: Seq<u8>, p: int) -> Step<nat> {
    if !(0 <= p < s.len() && is_hex_digit(s[p])) {
        Step::Failed { at: p, cut: false, context: hex_start_context() }
    } else {
        match hex_digits(s, p, seq![]) {
            Step::Failed { at, .. } => Step::Failed { at, cut: true, context: hexits_context() },
            Step::Done { value: digits, end } => if digits.len() > 4 {
                Step::Failed { at: p, cut: false, context: hexits_context() }
            } else {
                Step::Done { value: hex_value(digits), end }
            },
        }
    }
}

fn hexits_failure(cut: bool) -> (f: Failure)
    ensures
        f.cut == cut,
        f.context@ == hexits_context(),
{
    let mut context = Vec::new();
    context.push(Context::Label("hexadecimal number with at most 4 hexits"));
    context.push(Context::Expected("hexit (i.e. 0-9, a-f, A-F)"));
    context.push(Context::Expected("underscore (followed by a hexit)"));
    assert(context@ =~= hexits_context());
    failure(cut, context)
}

/// Reads a hexadecimal number of at most four digits.
pub fn number_hex(input: &mut In) -> (r: Result<u16, Failure>)
    ensures
        final(input).same_text(old(input)),
        agrees(r, number_hex_step(old(input).bytes(), old(input).spec_pos()), final(input).spec_pos()),
        r matches Ok(v) ==> number_hex_step(old(input).bytes(), old(input).spec_pos()) matches Step::Done { value, .. } && v == value,
{
    proof {
        use_type_invariant(&*input);
    }
    let code: &str = input.code;
    let s = code.as_bytes();
    let p = input.pos;
    if !(p < s.len() && hex_digit(s[p])) {
        let mut context = Vec::new();
        context.push(Context::Label("hexadecimal number"));
        context.push(Context::Expected("hexadecimal digit (i.e. 0-9, a-f, A-F)"));
        assert(context@ =~= hex_start_context());
        return Err(failure(false, context));
    }
    let mut count: usize = 0;
    let mut value: u32 = 0;
    let ghost mut digits: Seq<u8> = seq![];
    loop
        invariant
            s@ == code.spec_bytes(),
            input.spec_code() == code,
            input.same_text(old(input)),
            p == old(input).spec_pos(),
            p <= input.spec_pos() <= s.len(),
            p < s.len() && is_hex_digit(s@[p as int]),
            hex_digits(s@, p as int, seq![]) == hex_digits(s@, input.spec_pos(), digits),
            count == digits.len(),
            count <= input.spec_pos() - p,
            count <= 4 ==> value == hex_value(digits) && value < pow16(count as nat),
            input.spec_pos() == p ==> count == 0,
        ensures
            p < input.spec_pos() <= s.len(),
            hex_digits(s@, p as int, seq![]) == (Step::Done { value: digits, end: input.spec_pos() }),
            count == digits.len(),
            count <= 4 ==> value == hex_value(digits) && value < pow16(count as nat),
        decreases s.len() - input.spec_pos(),
    {
        proof {
            use_type_invariant(&*input);
        }
        let q = input.pos;
        if q < s.len() && hex_digit(s[q]) {
            if count < 4 {
                assert(value < 0x1000) by {
                    reveal_with_fuel(pow16, 4);
                }
                value = value * 16 + hex_digit_to_value(s[q]);
                proof {
                    assert(digits.push(s@[q as int]).drop_last() =~= digits);
                }
            }
            count = count + 1;
            proof {
                digits = digits.push(s@[q as int]);
                lemma_boundary_after_ascii(s@, q as int);
            }
            input.pos = q + 1;
        } else {
            match underscored(input) {
                Ok(()) => {},
                Err(f) => {
                    if f.cut {
                        return Err(hexits_failure(true));
                    }
                    break;
                },
            }
        }
    }
    if count > 4 {
        proof {
            use_type_invariant(&*input);
        }
        input.pos = p;
        return Err(hexits_failure(false));
    }
    assert(value < 0x10000) by {
        reveal_with_fuel(pow16, 5);
    }
    Ok(value as u16)
}


// ---------------------------------------------------------------------------
// number -> "0x" number_hex

pub open spec fn number_prefix_context() -> Seq<Context> {
    seq![Context::Label("number prefix"), Context::Expected("only 0x (FIXME)")]
}

pub open spec fn number_prefix_at(s: Seq<u8>, p: int) -> bool {
    0 <= p && p + 2 <= s.len() && s[p] == DIGIT_ZERO && s[p + 1] == LOWER_X
}

/// A number is the prefix "0x" and a hexadecimal number; without the prefix
/// it fails where it started, and a failure of the hexadecimal number is its
/// own.
pub open spec fn number_step(s: Seq<u8>, p: int) -> Step<nat> {
    if number_prefix_at(s, p) {
        number_hex_step(s, p + 2)
    } else {
        Step::Failed { at: p, cut: false, context: number_prefix_context() }
    }
}

/// Reads the prefix "0x" and then a hexadecimal number.
fn prefixed_number_hex(input: &mut In) -> (r: Result<u16, Failure>)
    ensures
        final(input).same_text(old(input)),
        agrees(r, number_step(old(input).bytes(), old(input).spec_pos()), final(input).spec_pos()),
        r matches Ok(v) ==> number_step(old(input).bytes(), old(input).spec_pos()) matches Step::Done {
            value,
            ..
        } && v == value,
{
    proof {
        use_type_invariant(&*input);
    }
    let code: &str = input.code;
    let s = code.as_bytes();
    let start = input.pos;
    if !(start < s.len() && s.len() - start >= 2 && s[start] == DIGIT_ZERO && s[start + 1]
        == LOWER_X) {
        let mut context = Vec::new();
        context.push(Context::Label("number prefix"));
        context.push(Context::Expected("only 0x (FIXME)"));
        assert(context@ =~= number_prefix_context());
        return Err(failure(false, context));
    }
    proof {
        lemma_boundary_after_ascii(s@, start as int);
        lemma_boundary_after_ascii(s@, start + 1);
    }
    input.pos = start + 2;
    number_hex(input)
}

/// Reads a number literal and gives its value and the span of the whole
/// literal, prefix included.
pub fn number<'s>(input: &mut In<'s>) -> (r: Result<(u16, FileSpan<'s>), Failure>)
    ensures
        final(input).same_text(old(input)),
        agrees(r, number_step(old(input).bytes(), old(input).spec_pos()), final(input).spec_pos()),
        r matches Ok((v, span)) ==> {
            &&& number_step(old(input).bytes(), old(input).spec_pos()) matches Step::Done {
                value,
                ..
            } && v == value
            &&& span.source == old(input).spec_filename()
            &&& span.chars.start == old(input).spec_pos()
            &&& span.chars.end == final(input).spec_pos()
        },
{
    let start = input.position();
    let outcome = prefixed_number_hex(input);
    with_file_span(input, start, outcome)
}

/// Reads an expression; for now every expression is a number literal.
pub fn expression<'s>(input: &mut In<'s>) -> (r: Result<LocatedExpression<'s>, Failure>)
    ensures
        final(input).same_text(old(input)),
        agrees(r, number_step(old(input).bytes(), old(input).spec_pos()), final(input).spec_pos()),
        r matches Ok(e) ==> {
            &&& number_step(old(input).bytes(), old(input).spec_pos()) matches Step::Done {
                value,
                ..
            } && e.value == Expression::Literal(value as u16)
            &&& e.span.source == old(input).spec_filename()
            &&& e.span.chars.start == old(input).spec_pos()
            &&& e.span.chars.end == final(input).spec_pos()
        },
{
    match number(input) {
        Ok((value, span)) => Ok(Located::new(Expression::Literal(value), span)),
        Err(f) => Err(f),
    }
}


// ---------------------------------------------------------------------------
// Reports of failed parses

/// The report winnow prints for a parse of `code` that failed at byte
/// `offset` with the notes `context`.
pub uninterp spec fn rendered_error(code: Seq<char>, offset: usize, context: Seq<Context>) -> Seq<char>;

/// `span` is the byte range of the character at `offset` in `s`, or the empty
/// range at the end of `s`.
pub open spec fn is_char_span(s: Seq<u8>, offset: int, span: Range<usize>) -> bool {
    &&& span.start == offset
    &&& offset <= span.end <= s.len()
    &&& offset == s.len() ==> span.end == offset
    &&& offset < s.len() ==> {
        &&& offset < span.end
        &&& forall|i: int| offset < i < span.end ==> is_continuation_byte(#[trigger] s[i])
        &&& span.end == s.len() || !is_continuation_byte(s[span.end as int])
    }
}

/// Renders, with winnow's `Display` for `winnow::error::ParseError`, the report
/// of a parse of `code` that failed at byte `offset` with the notes `context`.
/// winnow builds a report only for a failed run of one of its parsers, so the
/// body runs `take(offset)` followed by a parser that fails with exactly these
/// notes, over the bytes of `code`; `Parser::parse` then makes the report as it
/// does for any parser. The contract names the text and says nothing of its
/// layout.
#[verifier::external_body]
fn winnow_render(code: &str, offset: usize, context: &Vec<Context>) -> (text: String)
    requires
        offset <= code.spec_bytes().len(),
    ensures
        text@ == rendered_error(code@, offset, context@),
{
    let mut inner = winnow::error::ContextError::new();
    for note in context.iter() {
        inner.push(match note {
            Context::Label(label) => winnow::error::StrContext::Label(label),
            Context::Expected(what) => winnow::error::StrContext::Expected(
                winnow::error::StrContextValue::Description(what),
            ),
        });
    }
    let notes = move |_: &mut &[u8]| -> winnow::Result<()> { Err(inner.clone()) };
    (winnow::token::take(offset), notes).parse(code.as_bytes()).unwrap_err().to_string()
}

/// winnow's `ParseError::char_span` for a parse of `code` that failed at the
/// character boundary `offset`: the byte range of the character there, or the
/// empty range at the end of the text. As for `winnow_render`, the body makes
/// the report by running `take(offset)` and then `fail` over the bytes of `code`.
#[verifier::external_body]
fn winnow_char_span(code: &str, offset: usize) -> (span: Range<usize>)
    requires
        offset <= code.spec_bytes().len(),
        is_char_boundary(code.spec_bytes(), offset as int),
    ensures
        is_char_span(code.spec_bytes(), offset as int, span),
{
    let stop = winnow::combinator::fail::<&[u8], (), winnow::error::ContextError>;
    (winnow::token::take(offset), stop).parse(code.as_bytes()).unwrap_err().char_span()
}

/// A parse of a whole text that failed: the text, the byte offset where it
/// stopped, and the notes gathered on the way out.
#[derive(Debug)]
pub struct ParseError<'a> {
    input: &'a str,
    offset: usize,
    context: Vec<Context>,
}

impl<'a> ParseError<'a> {
    #[verifier::type_invariant]
    spec fn well_formed(self) -> bool {
        &&& self.offset <= self.input.spec_bytes().len()
        &&& is_char_boundary(self.input.spec_bytes(), self.offset as int)
    }

    pub closed spec fn spec_input(&self) -> &'a str {
        self.input
    }

    pub closed spec fn spec_offset(&self) -> usize {
        self.offset
    }

    pub closed spec fn spec_context(&self) -> Seq<Context> {
        self.context@
    }

    /// The report is of a parse that started at `started` and stopped at
    /// `stopped`: it covers the text from the start, and its offset counts
    /// from there.
    pub open spec fn reports(&self, started: &In<'a>, stopped: &In<'a>) -> bool {
        &&& self.spec_input().spec_bytes() == started.bytes().subrange(
            started.spec_pos(),
            started.bytes().len() as int,
        )
        &&& self.spec_offset() == stopped.spec_pos() - started.spec_pos()
    }

    /// The whole text that was parsed.
    pub fn input(&self) -> (input: &'a str)
        ensures
            input == self.spec_input(),
    {
        self.input
    }

    /// The byte offset where parsing stopped.
    pub fn offset(&self) -> (offset: usize)
        ensures
            offset == self.spec_offset(),
            offset <= self.spec_input().spec_bytes().len(),
    {
        proof {
            use_type_invariant(self);
        }
        self.offset
    }

    /// The notes gathered on the way out, innermost first.
    pub fn context(&self) -> (context: &Vec<Context>)
        ensures
            context@ == self.spec_context(),
    {
        &self.context
    }

    /// The byte range of the character where parsing stopped.
    pub fn char_span(&self) -> (span: Range<usize>)
        ensures
            is_char_span(self.spec_input().spec_bytes(), self.spec_offset() as int, span),
    {
        proof {
            use_type_invariant(self);
        }
        winnow_char_span(self.input, self.offset)
    }

    /// The report as text: the input, a caret under the place of failure, and
    /// the notes.
    pub fn to_string(&self) -> (text: String)
        ensures
            text@ == rendered_error(self.spec_input()@, self.spec_offset(), self.spec_context()),
    {
        proof {
            use_type_invariant(self);
        }
        winnow_render(self.input, self.offset, &self.context)
    }
}

/// Ends a parse that started at `started` once a rule has run on to `input`
/// with the given outcome, as winnow's `Parser::parse` does: a success that
/// read to the end of the text is kept, a success that left text unread fails
/// there with no notes, and a failure is reported where it left the stream.
/// The report covers the text from where the parse started, and its offset
/// counts from there: a parse started on a stream that had already moved on
/// reports only the rest of the text.
pub fn finish<'a, O>(started: &In<'a>, input: &In<'a>, outcome: Result<O, Failure>) -> (r: Result<
    O,
    ParseError<'a>,
>)
    requires
        started.same_text(input),
        started.spec_pos() <= input.spec_pos(),
    ensures
        match outcome {
            Ok(o) => if input.spec_pos() == input.bytes().len() {
                r == Ok::<O, ParseError<'a>>(o)
            } else {
                r matches Err(e) && e.reports(started, input) && e.spec_context() == Seq::<
                    Context,
                >::empty()
            },
            Err(f) => r matches Err(e) && e.reports(started, input) && e.spec_context()
                == f.context@,
        },
{
    proof {
        use_type_invariant(started);
        use_type_invariant(input);
        lemma_boundary_in_suffix(input.bytes(), started.spec_pos(), input.spec_pos());
    }
    let rest = started.rest();
    let offset = input.pos - started.pos;
    assert(rest.spec_bytes() =~= input.bytes().subrange(started.spec_pos(), input.bytes().len() as int));
    match outcome {
        Ok(o) => {
            if input.pos == input.code.as_bytes().len() {
                Ok(o)
            } else {
                let context = Vec::new();
                assert(context@ =~= Seq::<Context>::empty());
                Err(ParseError { input: rest, offset, context })
            }
        },
        Err(f) => Err(ParseError { input: rest, offset, context: f.context }),
    }
}

} // verus!
