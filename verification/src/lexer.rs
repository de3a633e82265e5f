//! Tokenizer: turns source text into a finite stream of `Token` values
//! terminated by a single end-of-input token.
//!
//! Lexical recognition is total: a character outside the recognized set
//! becomes a sentinel `Invalid` token instead of failing, deferring
//! rejection to the parser.

use vstd::prelude::*;
use vstd::string::*;

verus! {

/// The closed set of token kinds: a numeric literal, the fixed
/// single-character operators and punctuation, the end-of-input marker,
/// and a sentinel for unrecognized characters.
#[derive(Clone, Copy, Debug, PartialEq, Eq, Structural)]
pub enum TokenKind {
    Invalid,
    NumberLiteral(i64),
    Plus,
    Minus,
    ForwardSlash,
    Asterisk,
    LeftParen,
    RightParen,
    LeftBracket,
    RightBracket,
    LeftSquareBracket,
    RightSquareBracket,
    LeftAngleBracket,
    RightAngleBracket,
    Comma,
    DoubleQuote,
    SingleQuote,
    Colon,
    SemiColon,
    Equal,
    Eof,
}

/// A half-open character-offset range into the source, together with the
/// exact substring it covers.
#[derive(Debug, PartialEq, Eq, Clone)]
pub struct TextSpan {
    pub start: usize,
    pub end: usize,
    pub text: String,
}

/// Mathematical model of a `TextSpan`.
pub ghost struct SpanModel {
    pub start: int,
    pub end: int,
    pub text: Seq<char>,
}

impl View for TextSpan {
    type V = SpanModel;

    open spec fn view(&self) -> SpanModel {
        SpanModel { start: self.start as int, end: self.end as int, text: self.text@ }
    }
}

/// An immutable token: a kind plus the span of source text it covers.
#[derive(Debug, PartialEq, Eq, Clone)]
pub struct Token {
    pub kind: TokenKind,
    pub span: TextSpan,
}

/// Mathematical model of a `Token`.
pub ghost struct TokenModel {
    pub kind: TokenKind,
    pub span: SpanModel,
}

impl View for Token {
    type V = TokenModel;

    open spec fn view(&self) -> TokenModel {
        TokenModel { kind: self.kind, span: self.span@ }
    }
}

/// The whitespace characters the tokenizer skips (the ASCII whitespace set).
pub open spec fn is_whitespace_char(c: char) -> bool {
    c == ' ' || c == '\t' || c == '\n' || c == '\r' || c == '\u{b}' || c == '\u{c}'
}

/// An ASCII decimal digit.
pub open spec fn is_digit_char(c: char) -> bool {
    48 <= c as u32 && c as u32 <= 57
}

/// The numeric value of an ASCII decimal digit.
pub open spec fn digit_val(c: char) -> int {
    c as u32 - 48
}

/// The fixed single-character-to-kind table; anything not in the table is
/// the sentinel `Invalid` kind.
pub open spec fn char_kind(c: char) -> TokenKind {
    if c == '+' {
        TokenKind::Plus
    } else if c == '-' {
        TokenKind::Minus
    } else if c == '/' {
        TokenKind::ForwardSlash
    } else if c == '*' {
        TokenKind::Asterisk
    } else if c == '(' {
        TokenKind::LeftParen
    } else if c == ')' {
        TokenKind::RightParen
    } else if c == '{' {
        TokenKind::LeftBracket
    } else if c == '}' {
        TokenKind::RightBracket
    } else if c == '[' {
        TokenKind::LeftSquareBracket
    } else if c == ']' {
        TokenKind::RightSquareBracket
    } else if c == '<' {
        TokenKind::LeftAngleBracket
    } else if c == '>' {
        TokenKind::RightAngleBracket
    } else if c == ',' {
        TokenKind::Comma
    } else if c == '"' {
        TokenKind::DoubleQuote
    } else if c == '\'' {
        TokenKind::SingleQuote
    } else if c == ':' {
        TokenKind::Colon
    } else if c == ';' {
        TokenKind::SemiColon
    } else if c == '=' {
        TokenKind::Equal
    } else {
        TokenKind::Invalid
    }
}

/// First position at or after `i` holding a non-whitespace character, or the
/// end of the source.
pub open spec fn skip_ws(s: Seq<char>, i: int) -> int
    decreases s.len() - i,
{
    if i < s.len() && 0 <= i && is_whitespace_char(s[i]) {
        skip_ws(s, i + 1)
    } else {
        i
    }
}

/// End of the maximal run of decimal digits starting at `i`.
pub open spec fn digits_end(s: Seq<char>, i: int) -> int
    decreases s.len() - i,
{
    if i < s.len() && 0 <= i && is_digit_char(s[i]) {
        digits_end(s, i + 1)
    } else {
        i
    }
}

/// One step of base-10 accumulation, saturating at `i64::MAX`.
pub open spec fn sat_step(acc: int, d: int) -> int {
    if 10 * acc + d > i64::MAX {
        i64::MAX as int
    } else {
        10 * acc + d
    }
}

/// Value of the digit run `s[start..i]`, accumulated base-10 with
/// saturation at `i64::MAX`.
pub open spec fn lit_value(s: Seq<char>, start: int, i: int) -> int
    decreases i - start,
{
    if i <= start {
        0
    } else {
        sat_step(lit_value(s, start, i - 1), digit_val(s[i - 1]))
    }
}

/// Exact (unbounded) decimal value of the digit run `s[start..i]`.
pub open spec fn dec_value(s: Seq<char>, start: int, i: int) -> int
    decreases i - start,
{
    if i <= start {
        0
    } else {
        10 * dec_value(s, start, i - 1) + digit_val(s[i - 1])
    }
}

/// Where the token starting at the non-whitespace position `j` ends.
pub open spec fn token_end(s: Seq<char>, j: int) -> int {
    if is_digit_char(s[j]) {
        digits_end(s, j)
    } else {
        j + 1
    }
}

/// The token produced at the non-whitespace position `j`.
pub open spec fn token_at(s: Seq<char>, j: int) -> TokenModel {
    let e = token_end(s, j);
    let kind = if is_digit_char(s[j]) {
        TokenKind::NumberLiteral(lit_value(s, j, e) as i64)
    } else {
        char_kind(s[j])
    };
    TokenModel { kind, span: SpanModel { start: j, end: e, text: s.subrange(j, e) } }
}

/// The synthetic end-of-input token: a zero-length span with a one-character
/// placeholder text.
pub open spec fn eof_token() -> TokenModel {
    TokenModel { kind: TokenKind::Eof, span: SpanModel { start: 0, end: 0, text: seq!['\0'] } }
}

/// The sequence of tokens a tokenizer emits from position `pos` on,
/// end-of-input token included.
pub open spec fn lex_from(s: Seq<char>, pos: int) -> Seq<TokenModel>
    decreases s.len() - pos,
{
    let j = skip_ws(s, pos);
    if !(pos <= j <= s.len()) {
        // Never reached for 0 <= pos <= s.len(); the branch bounds the
        // recursion (see lemma_lex_from_step).
        Seq::empty()
    } else if j == s.len() {
        seq![eof_token()]
    } else {
        let e = token_end(s, j);
        if j < e <= s.len() {
            seq![token_at(s, j)] + lex_from(s, e)
        } else {
            // Never reached: a token always ends past its start and within
            // the source (see lemma_lex_from_step).
            Seq::empty()
        }
    }
}

/// The complete token sequence of a source text.
pub open spec fn lex(s: Seq<char>) -> Seq<TokenModel> {
    lex_from(s, 0)
}

impl TextSpan {
    /// Builds a span from its offsets and the covered substring.
    pub fn new(start: usize, end: usize, text: String) -> (r: Self)
        ensures
            r.start == start,
            r.end == end,
            r.text == text,
    {
        Self { start, end, text }
    }

    /// Length of the covered range.
    pub fn len(&self) -> (r: usize)
        requires
            self.start <= self.end,
        ensures
            r == self.end - self.start,
    {
        self.end - self.start
    }
}

impl Token {
    /// Builds a token from its kind and span.
    pub fn new(token_kind: TokenKind, span: TextSpan) -> (r: Self)
        ensures
            r.kind == token_kind,
            r.span == span,
    {
        Self { kind: token_kind, span }
    }
}

/// Pull-based tokenizer over an immutable source buffer. Positions are
/// character offsets; `current_pos` runs from `0` to one past the source
/// length (the state after the end-of-input token has been emitted).
pub struct Lexer {
    source: String,
    current_pos: usize,
}

impl Lexer {
    /// The source text being tokenized.
    pub closed spec fn src(self) -> Seq<char> {
        self.source@
    }

    /// The current cursor, as a character offset.
    pub closed spec fn pos(self) -> int {
        self.current_pos as int
    }

    /// Well-formedness: the cursor is at most one past the end of the
    /// source, and the source is short enough for the cursor to move there.
    pub closed spec fn wf(self) -> bool {
        &&& self.current_pos <= self.source@.len() + 1
        &&& self.source@.len() < usize::MAX
    }

    /// Starts a tokenizer at the beginning of `input`.
    pub fn new(input: &str) -> (r: Self)
        requires
            input@.len() < usize::MAX,
        ensures
            r.src() == input@,
            r.pos() == 0,
            r.wf(),
    {
        Self { source: input.to_owned(), current_pos: 0 }
    }

    /// The character under the cursor, if the cursor is inside the source.
    fn current_char(&self) -> (r: Option<char>)
        ensures
            r == (if self.pos() < self.src().len() {
                Some(self.src()[self.pos()])
            } else {
                None::<char>
            }),
    {
        if self.current_pos < self.source.as_str().unicode_len() {
            Some(self.source.as_str().get_char(self.current_pos))
        } else {
            None
        }
    }

    /// Whether a token starting with `c` is a numeric literal.
    fn is_number_start(c: &char) -> (r: bool)
        ensures
            r == is_digit_char(*c),
    {
        let u = *c as u32;
        48 <= u && u <= 57
    }

    /// Whether the tokenizer skips `c` as whitespace.
    fn is_whitespace(c: &char) -> (r: bool)
        ensures
            r == is_whitespace_char(*c),
    {
        let c = *c;
        c == ' ' || c == '\t' || c == '\n' || c == '\r' || c == '\u{b}' || c == '\u{c}'
    }

    /// Consumes one character: returns the character under the cursor and
    /// advances, or returns nothing at or past the end.
    fn consume(&mut self) -> (r: Option<char>)
        requires
            old(self).wf(),
        ensures
            final(self).src() == old(self).src(),
            final(self).wf(),
            old(self).pos() < old(self).src().len() ==> {
                &&& r == Some(old(self).src()[old(self).pos()])
                &&& final(self).pos() == old(self).pos() + 1
            },
            old(self).pos() >= old(self).src().len() ==> {
                &&& r is None
                &&& final(self).pos() == old(self).pos()
            },
    {
        if self.current_pos >= self.source.as_str().unicode_len() {
            return None;
        }
        let c = self.source.as_str().get_char(self.current_pos);
        self.current_pos = self.current_pos + 1;
        Some(c)
    }

    /// Consumes the maximal run of digits under the cursor, accumulating
    /// their base-10 value; the value saturates at `i64::MAX` if the
    /// literal exceeds the 64-bit range.
    fn consume_number(&mut self) -> (num: i64)
        requires
            old(self).wf(),
            old(self).pos() < old(self).src().len(),
            is_digit_char(old(self).src()[old(self).pos()]),
        ensures
            final(self).src() == old(self).src(),
            final(self).wf(),
            final(self).pos() == digits_end(old(self).src(), old(self).pos()),
            num as int == lit_value(old(self).src(), old(self).pos(), final(self).pos()),
    {
        let ghost s = self.source@;
        let ghost start = self.current_pos as int;
        proof {
            lemma_digits_end_bounds(s, start);
        }
        let len = self.source.as_str().unicode_len();
        let mut num: i64 = 0;
        while self.current_pos < len && Self::is_number_start(
            &self.source.as_str().get_char(self.current_pos),
        )
            invariant
                self.src() == s,
                self.wf(),
                len == s.len(),
                start <= self.pos() <= digits_end(s, start),
                digits_end(s, self.pos()) == digits_end(s, start),
                digits_end(s, start) <= s.len(),
                0 <= num,
                num as int == lit_value(s, start, self.pos()),
            decreases s.len() - self.pos(),
        {
            let c = self.source.as_str().get_char(self.current_pos);
            let d = (c as u32 - 48) as i64;
            let next = match num.checked_mul(10) {
                Some(m) => match m.checked_add(d) {
                    Some(v) => v,
                    None => i64::MAX,
                },
                None => i64::MAX,
            };
            proof {
                assert(next as int == sat_step(num as int, digit_val(c)));
                let p = self.pos();
                assert(digits_end(s, p) == digits_end(s, p + 1));
                lemma_digits_end_bounds(s, p + 1);
                assert(lit_value(s, start, p + 1) == sat_step(
                    lit_value(s, start, p),
                    digit_val(s[p]),
                ));
            }
            num = next;
            self.current_pos = self.current_pos + 1;
        }
        proof {
            assert(digits_end(s, self.pos()) == self.pos());
        }
        num
    }

    /// Consumes exactly one character and maps it through the fixed
    /// single-character table; an unrecognized character yields the
    /// sentinel `Invalid` kind.
    fn consume_operator(&mut self) -> (k: TokenKind)
        requires
            old(self).wf(),
            old(self).pos() < old(self).src().len(),
        ensures
            final(self).src() == old(self).src(),
            final(self).wf(),
            final(self).pos() == old(self).pos() + 1,
            k == char_kind(old(self).src()[old(self).pos()]),
    {
        let c = self.consume().unwrap();
        match c {
            '+' => TokenKind::Plus,
            '-' => TokenKind::Minus,
            '/' => TokenKind::ForwardSlash,
            '*' => TokenKind::Asterisk,
            '(' => TokenKind::LeftParen,
            ')' => TokenKind::RightParen,
            '{' => TokenKind::LeftBracket,
            '}' => TokenKind::RightBracket,
            '[' => TokenKind::LeftSquareBracket,
            ']' => TokenKind::RightSquareBracket,
            '<' => TokenKind::LeftAngleBracket,
            '>' => TokenKind::RightAngleBracket,
            ',' => TokenKind::Comma,
            '"' => TokenKind::DoubleQuote,
            '\'' => TokenKind::SingleQuote,
            ':' => TokenKind::Colon,
            ';' => TokenKind::SemiColon,
            '=' => TokenKind::Equal,
            _ => TokenKind::Invalid,
        }
    }

    /// Advances past whitespace and returns the next token: the token
    /// starting at the first non-whitespace position, the end-of-input
    /// token exactly once when the cursor reaches the end of the source,
    /// and nothing after that.
    pub fn next_token(&mut self) -> (r: Option<Token>)
        requires
            old(self).wf(),
        ensures
            final(self).src() == old(self).src(),
            final(self).wf(),
            ({
                let s = old(self).src();
                let p = old(self).pos();
                if p > s.len() {
                    r is None && final(self).pos() == p
                } else {
                    let j = skip_ws(s, p);
                    if j == s.len() {
                        &&& r matches Some(t) && t@ == eof_token()
                        &&& final(self).pos() == s.len() + 1
                    } else {
                        &&& r matches Some(t) && t@ == token_at(s, j)
                        &&& final(self).pos() == token_end(s, j)
                    }
                }
            }),
            r is Some ==> final(self).pos() > old(self).pos(),
    {
        let ghost s = self.source@;
        let ghost p0 = self.current_pos as int;
        let len = self.source.as_str().unicode_len();

        // Skip whitespace before the token.
        while self.current_pos < len && Self::is_whitespace(&self.source.as_str().get_char(
            self.current_pos,
        ))
            invariant
                self.src() == s,
                s.len() < usize::MAX,
                len == s.len(),
                p0 <= self.pos() <= s.len() + 1,
                p0 <= s.len() ==> self.pos() <= s.len() && skip_ws(s, self.pos()) == skip_ws(s, p0),
                p0 > s.len() ==> self.pos() == p0,
            decreases s.len() - self.pos(),
        {
            self.current_pos = self.current_pos + 1;
        }

        if self.current_pos > len {
            return None;
        }
        proof {
            assert(skip_ws(s, self.pos()) == self.pos());
        }

        if self.current_pos == len {
            self.current_pos = self.current_pos + 1;
            proof {
                reveal_strlit("\0");
                assert(("\0")@ =~= seq!['\0']);
            }
            let t = Token::new(TokenKind::Eof, TextSpan::new(0, 0, "\0".to_owned()));
            proof {
                assert(t@ =~~= eof_token());
            }
            return Some(t);
        }

        let start = self.current_pos;
        let c = self.source.as_str().get_char(start);
        let token_kind = if Self::is_number_start(&c) {
            let num = self.consume_number();
            TokenKind::NumberLiteral(num)
        } else {
            self.consume_operator()
        };
        let end = self.current_pos;
        proof {
            lemma_digits_end_bounds(s, start as int);
        }
        let text = self.source.as_str().substring_char(start, end).to_owned();
        let t = Token::new(token_kind, TextSpan::new(start, end, text));
        proof {
            assert(t@ =~~= token_at(s, start as int));
        }
        Some(t)
    }
}

/// The run of whitespace before a token contains only whitespace, and stops
/// either at the end of the source or at a non-whitespace character.
pub proof fn lemma_skip_ws_bounds(s: Seq<char>, i: int)
    requires
        0 <= i <= s.len(),
    ensures
        i <= skip_ws(s, i) <= s.len(),
        forall|k: int| i <= k < skip_ws(s, i) ==> is_whitespace_char(s[k]),
        skip_ws(s, i) < s.len() ==> !is_whitespace_char(s[skip_ws(s, i)]),
    decreases s.len() - i,
{
    if i < s.len() && is_whitespace_char(s[i]) {
        lemma_skip_ws_bounds(s, i + 1);
    }
}

/// Unfolds one step of `lex_from`: the whitespace before the next token is
/// skipped, and either the end of the source is reached and only the
/// end-of-input token remains, or one token is emitted and the rest of the
/// stream follows it.
pub proof fn lemma_lex_from_step(s: Seq<char>, p: int)
    requires
        0 <= p <= s.len(),
    ensures
        ({
            let j = skip_ws(s, p);
            &&& p <= j <= s.len()
            &&& (j == s.len() ==> lex_from(s, p) == seq![eof_token()])
            &&& (j < s.len() ==> j < token_end(s, j) <= s.len() && lex_from(s, p) == seq![
                token_at(s, j),
            ] + lex_from(s, token_end(s, j)))
        }),
{
    lemma_skip_ws_bounds(s, p);
    let j = skip_ws(s, p);
    if j < s.len() {
        lemma_digits_end_bounds(s, j);
        if is_digit_char(s[j]) {
            assert(digits_end(s, j) == digits_end(s, j + 1));
            lemma_digits_end_bounds(s, j + 1);
        }
    }
}

/// The exact decimal value of a digit run is non-negative.
pub proof fn lemma_dec_value_nonneg(s: Seq<char>, start: int, i: int)
    requires
        0 <= start,
        i <= s.len(),
        forall|k: int| start <= k < i ==> is_digit_char(s[k]),
    ensures
        0 <= dec_value(s, start, i),
    decreases i - start,
{
    if i > start {
        lemma_dec_value_nonneg(s, start, i - 1);
    }
}

/// As long as the exact decimal value of a digit run fits in an `i64`, the
/// saturating accumulation computes it exactly.
pub proof fn lemma_lit_value_exact(s: Seq<char>, start: int, i: int)
    requires
        0 <= start,
        i <= s.len(),
        forall|k: int| start <= k < i ==> is_digit_char(s[k]),
        dec_value(s, start, i) <= i64::MAX,
    ensures
        lit_value(s, start, i) == dec_value(s, start, i),
    decreases i - start,
{
    if i > start {
        lemma_dec_value_nonneg(s, start, i - 1);
        assert(dec_value(s, start, i - 1) <= dec_value(s, start, i));
        lemma_lit_value_exact(s, start, i - 1);
    }
}

/// A decimal digit is not whitespace.
pub proof fn lemma_digit_not_whitespace(c: char)
    requires
        is_digit_char(c),
    ensures
        !is_whitespace_char(c),
{
}

/// Law: a non-empty source consisting only of decimal digits, whose decimal
/// value fits in an `i64`, tokenizes to exactly one numeric-literal token
/// holding that value and covering the whole source, followed by exactly
/// the end-of-input token.
pub proof fn lemma_tokenize_digits_only(s: Seq<char>)
    requires
        s.len() > 0,
        forall|k: int| 0 <= k < s.len() ==> is_digit_char(s[k]),
        dec_value(s, 0, s.len() as int) <= i64::MAX,
    ensures
        lex(s) == seq![
            (TokenModel {
                kind: TokenKind::NumberLiteral(dec_value(s, 0, s.len() as int) as i64),
                span: SpanModel { start: 0, end: s.len() as int, text: s },
            }),
            eof_token(),
        ],
{
    let n = s.len() as int;
    lemma_digit_not_whitespace(s[0]);
    assert(skip_ws(s, 0) == 0);
    lemma_digits_end_bounds(s, 0);
    assert(digits_end(s, 0) == n);
    lemma_lit_value_exact(s, 0, n);
    lemma_lex_from_step(s, 0);
    assert(skip_ws(s, n) == n);
    assert(lex_from(s, n) == seq![eof_token()]);
    assert(s.subrange(0, n) =~= s);
    assert(lex(s) =~~= seq![
        (TokenModel {
            kind: TokenKind::NumberLiteral(dec_value(s, 0, n) as i64),
            span: SpanModel { start: 0, end: n, text: s },
        }),
        eof_token(),
    ]);
}

/// Law: a source consisting only of whitespace (the empty source included)
/// tokenizes to exactly the end-of-input token and nothing else.
pub proof fn lemma_tokenize_whitespace_only(s: Seq<char>)
    requires
        forall|k: int| 0 <= k < s.len() ==> is_whitespace_char(s[k]),
    ensures
        lex(s) == seq![eof_token()],
{
    lemma_skip_ws_bounds(s, 0);
    assert(skip_ws(s, 0) == s.len());
}

/// Whether some token of `ts` covers the source position `i` with its span.
pub open spec fn covered_by(ts: Seq<TokenModel>, i: int) -> bool {
    exists|k: int| 0 <= k < ts.len() && (#[trigger] ts[k]).span.start <= i < ts[k].span.end
}

/// The span-partition facts of a token stream emitted from position `p` on:
/// the stream ends in the end-of-input token; every other token carries a
/// non-empty in-bounds span whose text is the exact source slice it covers;
/// spans hold no whitespace, never overlap, and appear in source order; and
/// a source position from `p` on is covered by a span exactly when it is
/// not whitespace.
pub open spec fn spans_partition_from(s: Seq<char>, p: int, ts: Seq<TokenModel>) -> bool {
    &&& ts.len() >= 1
    &&& ts[ts.len() - 1] == eof_token()
    &&& forall|k: int|
        0 <= k < ts.len() - 1 ==> p <= (#[trigger] ts[k]).span.start < ts[k].span.end <= s.len()
    &&& forall|k: int|
        0 <= k < ts.len() - 1 ==> (#[trigger] ts[k]).span.text == s.subrange(
            ts[k].span.start,
            ts[k].span.end,
        )
    &&& forall|k: int, i: int|
        0 <= k < ts.len() - 1 && (#[trigger] ts[k]).span.start <= i < ts[k].span.end
            ==> !is_whitespace_char(#[trigger] s[i])
    &&& forall|k: int|
        0 <= k < ts.len() - 2 ==> (#[trigger] ts[k]).span.end <= ts[k + 1].span.start
    &&& forall|i: int| p <= i < s.len() ==> (covered_by(ts, i) <==> !is_whitespace_char(s[i]))
}

/// Law: the spans of a token stream partition the source exactly, minus
/// whitespace. Concatenating every non-end-of-input token's `text` in
/// order, with the skipped whitespace re-inserted at the uncovered
/// positions, therefore reproduces the original source.
pub proof fn lemma_spans_partition(s: Seq<char>)
    ensures
        spans_partition_from(s, 0, lex(s)),
{
    lemma_spans_partition_from(s, 0);
}

/// Induction form of the span-partition law, for the stream emitted from
/// position `p` on.
pub proof fn lemma_spans_partition_from(s: Seq<char>, p: int)
    requires
        0 <= p <= s.len(),
    ensures
        spans_partition_from(s, p, lex_from(s, p)),
    decreases s.len() - p,
{
    lemma_lex_from_step(s, p);
    lemma_skip_ws_bounds(s, p);
    let j = skip_ws(s, p);
    let ts = lex_from(s, p);
    if j == s.len() {
        assert(ts == seq![eof_token()]);
        assert forall|i: int| p <= i < s.len() implies (covered_by(ts, i) <==> !is_whitespace_char(
            s[i],
        )) by {
            assert(is_whitespace_char(s[i]));
            assert(!covered_by(ts, i));
        }
    } else {
        let e = token_end(s, j);
        let t0 = token_at(s, j);
        let rest = lex_from(s, e);
        lemma_spans_partition_from(s, e);
        assert(ts == seq![t0] + rest);
        assert(ts.len() == 1 + rest.len());
        assert(forall|k: int| 0 <= k < rest.len() ==> ts[k + 1] == rest[k]);
        lemma_digits_end_bounds(s, j);
        // Every position inside the token's span is non-whitespace.
        assert forall|i: int| j <= i < e implies !is_whitespace_char(s[i]) by {
            if is_digit_char(s[j]) {
                lemma_digit_not_whitespace(s[i]);
            } else {
                assert(i == j);
            }
        }
        // Non-whitespace positions are covered.
        assert forall|i: int| p <= i < s.len() && !is_whitespace_char(s[i]) implies covered_by(
            ts,
            i,
        ) by {
            if i < j {
                assert(is_whitespace_char(s[i]));
            } else if i < e {
                assert(ts[0].span.start <= i < ts[0].span.end);
            } else {
                assert(covered_by(rest, i));
                let k = choose|k: int|
                    0 <= k < rest.len() && (#[trigger] rest[k]).span.start <= i < rest[k].span.end;
                assert(ts[k + 1].span.start <= i < ts[k + 1].span.end);
            }
        }
        // Whitespace positions are not covered.
        assert forall|i: int| p <= i < s.len() && is_whitespace_char(s[i]) implies !covered_by(
            ts,
            i,
        ) by {
            if covered_by(ts, i) {
                let k = choose|k: int|
                    0 <= k < ts.len() && (#[trigger] ts[k]).span.start <= i < ts[k].span.end;
                if k == 0 {
                    assert(!is_whitespace_char(s[i]));
                } else {
                    assert(rest[k - 1].span.start <= i < rest[k - 1].span.end);
                    assert(covered_by(rest, i));
                    if i < e {
                        if k - 1 < rest.len() - 1 {
                            assert(rest[k - 1].span.start >= e);
                        } else {
                            assert(rest[k - 1] == eof_token());
                        }
                    }
                }
            }
        }
    }
}

/// Law: tokenization is a function of the source text alone; tokenizing the
/// same source again, from a fresh tokenizer, yields the identical token
/// sequence.
pub proof fn lemma_tokenize_deterministic(s1: Seq<char>, s2: Seq<char>)
    requires
        s1 == s2,
    ensures
        lex(s1) == lex(s2),
{
}

/// A maximal digit run contains only digits, and stops either at the end of
/// the source or at a non-digit character.
pub proof fn lemma_digits_end_bounds(s: Seq<char>, i: int)
    requires
        0 <= i <= s.len(),
    ensures
        i <= digits_end(s, i) <= s.len(),
        forall|k: int| i <= k < digits_end(s, i) ==> is_digit_char(s[k]),
        digits_end(s, i) < s.len() ==> !is_digit_char(s[digits_end(s, i)]),
    decreases s.len() - i,
{
    if i < s.len() && is_digit_char(s[i]) {
        lemma_digits_end_bounds(s, i + 1);
    }
}

} // verus!
