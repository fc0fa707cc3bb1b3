//! The tokenizer: turns a character sequence into tokens, one per call.
//!
//! The whole lexical grammar is stated as a spec-level model: `lex_step`
//! says, for an input and a cursor, which token (or lexical error) comes
//! next and where the cursor stands afterwards. `Tokenizer::next_token`
//! is proved to follow that model exactly. Once the input is exhausted,
//! every further call returns the `Eof` sentinel.

use vstd::prelude::*;

use crate::token::{Keyword, LexError, SpecToken, Token};

verus! {

// ---------------------------------------------------------------------------
// Character classes of the lexical grammar (the surface is ASCII).
// ---------------------------------------------------------------------------

/// Whitespace that separates tokens: space and the ASCII control range
/// tab through carriage return.
pub open spec fn is_whitespace_char(c: char) -> bool {
    c == ' ' || (9 <= c as u32 && c as u32 <= 13)
}

/// A decimal digit.
pub open spec fn is_digit_char(c: char) -> bool {
    48 <= c as u32 && c as u32 <= 57
}

/// The numeric value of a decimal digit.
pub open spec fn digit_value(c: char) -> int {
    c as u32 - 48
}

/// A character that may start an identifier: a letter or an underscore.
pub open spec fn is_ident_start_char(c: char) -> bool {
    (65 <= c as u32 && c as u32 <= 90) || (97 <= c as u32 && c as u32 <= 122) || c as u32 == 95
}

/// A character that may continue an identifier: a letter, a digit, or an
/// underscore.
pub open spec fn is_ident_char(c: char) -> bool {
    is_ident_start_char(c) || is_digit_char(c)
}

fn whitespace_char(c: char) -> (r: bool)
    ensures
        r == is_whitespace_char(c),
{
    let u = c as u32;
    c == ' ' || (9 <= u && u <= 13)
}

fn digit_char(c: char) -> (r: bool)
    ensures
        r == is_digit_char(c),
{
    let u = c as u32;
    48 <= u && u <= 57
}

fn ident_start_char(c: char) -> (r: bool)
    ensures
        r == is_ident_start_char(c),
{
    let u = c as u32;
    (65 <= u && u <= 90) || (97 <= u && u <= 122) || u == 95
}

fn ident_char(c: char) -> (r: bool)
    ensures
        r == is_ident_char(c),
{
    ident_start_char(c) || digit_char(c)
}

// ---------------------------------------------------------------------------
// Keyword recognition: ASCII case-insensitive match against the closed set.
// ---------------------------------------------------------------------------

/// `c` matches the uppercase keyword letter `k`, ignoring ASCII case.
pub open spec fn keyword_char_matches(c: char, k: char) -> bool {
    c == k || c as u32 == k as u32 + 32
}

/// The word `s` spells the keyword `kw` (given in uppercase), ignoring
/// ASCII case.
pub open spec fn keyword_matches(s: Seq<char>, kw: Seq<char>) -> bool {
    s.len() == kw.len() && forall|i: int| 0 <= i < s.len() ==> keyword_char_matches(#[trigger] s[i], kw[i])
}

/// The reserved word spelled by `s`, if any.
pub open spec fn spec_keyword_of(s: Seq<char>) -> Option<Keyword> {
    if keyword_matches(s, "SELECT"@) {
        Some(Keyword::Select)
    } else if keyword_matches(s, "CREATE"@) {
        Some(Keyword::Create)
    } else if keyword_matches(s, "TABLE"@) {
        Some(Keyword::Table)
    } else if keyword_matches(s, "WHERE"@) {
        Some(Keyword::Where)
    } else if keyword_matches(s, "ORDER"@) {
        Some(Keyword::Order)
    } else if keyword_matches(s, "BY"@) {
        Some(Keyword::By)
    } else if keyword_matches(s, "ASC"@) {
        Some(Keyword::Asc)
    } else if keyword_matches(s, "DESC"@) {
        Some(Keyword::Desc)
    } else if keyword_matches(s, "FROM"@) {
        Some(Keyword::From)
    } else if keyword_matches(s, "AND"@) {
        Some(Keyword::And)
    } else if keyword_matches(s, "OR"@) {
        Some(Keyword::Or)
    } else if keyword_matches(s, "NOT"@) {
        Some(Keyword::Not)
    } else if keyword_matches(s, "TRUE"@) {
        Some(Keyword::True)
    } else if keyword_matches(s, "FALSE"@) {
        Some(Keyword::False)
    } else if keyword_matches(s, "PRIMARY"@) {
        Some(Keyword::Primary)
    } else if keyword_matches(s, "KEY"@) {
        Some(Keyword::Key)
    } else if keyword_matches(s, "CHECK"@) {
        Some(Keyword::Check)
    } else if keyword_matches(s, "INT"@) {
        Some(Keyword::Int)
    } else if keyword_matches(s, "BOOL"@) {
        Some(Keyword::Bool)
    } else if keyword_matches(s, "VARCHAR"@) {
        Some(Keyword::Varchar)
    } else if keyword_matches(s, "NULL"@) {
        Some(Keyword::Null)
    } else {
        None
    }
}

fn keyword_char_eq(c: char, k: char) -> (r: bool)
    ensures
        r == keyword_char_matches(c, k),
{
    c == k || (c as u32) == (k as u32) + 32
}

fn keyword_eq(s: &str, kw: &str) -> (r: bool)
    ensures
        r == keyword_matches(s@, kw@),
{
    let n = s.unicode_len();
    let m = kw.unicode_len();
    if n != m {
        return false;
    }
    let mut i: usize = 0;
    while i < n
        invariant
            n == s@.len(),
            n == kw@.len(),
            i <= n,
            forall|j: int| 0 <= j < i ==> keyword_char_matches(#[trigger] s@[j], kw@[j]),
        decreases n - i,
    {
        if !keyword_char_eq(s.get_char(i), kw.get_char(i)) {
            return false;
        }
        i += 1;
    }
    true
}

/// The reserved word spelled by `s`, if any; ASCII case-insensitive.
fn keyword_lookup(s: &str) -> (r: Option<Keyword>)
    ensures
        r == spec_keyword_of(s@),
{
    if keyword_eq(s, "SELECT") {
        Some(Keyword::Select)
    } else if keyword_eq(s, "CREATE") {
        Some(Keyword::Create)
    } else if keyword_eq(s, "TABLE") {
        Some(Keyword::Table)
    } else if keyword_eq(s, "WHERE") {
        Some(Keyword::Where)
    } else if keyword_eq(s, "ORDER") {
        Some(Keyword::Order)
    } else if keyword_eq(s, "BY") {
        Some(Keyword::By)
    } else if keyword_eq(s, "ASC") {
        Some(Keyword::Asc)
    } else if keyword_eq(s, "DESC") {
        Some(Keyword::Desc)
    } else if keyword_eq(s, "FROM") {
        Some(Keyword::From)
    } else if keyword_eq(s, "AND") {
        Some(Keyword::And)
    } else if keyword_eq(s, "OR") {
        Some(Keyword::Or)
    } else if keyword_eq(s, "NOT") {
        Some(Keyword::Not)
    } else if keyword_eq(s, "TRUE") {
        Some(Keyword::True)
    } else if keyword_eq(s, "FALSE") {
        Some(Keyword::False)
    } else if keyword_eq(s, "PRIMARY") {
        Some(Keyword::Primary)
    } else if keyword_eq(s, "KEY") {
        Some(Keyword::Key)
    } else if keyword_eq(s, "CHECK") {
        Some(Keyword::Check)
    } else if keyword_eq(s, "INT") {
        Some(Keyword::Int)
    } else if keyword_eq(s, "BOOL") {
        Some(Keyword::Bool)
    } else if keyword_eq(s, "VARCHAR") {
        Some(Keyword::Varchar)
    } else if keyword_eq(s, "NULL") {
        Some(Keyword::Null)
    } else {
        None
    }
}

// ---------------------------------------------------------------------------
// Scanning: where a run of characters of one class ends.
// ---------------------------------------------------------------------------

/// The first position at or after `pos` that does not hold whitespace.
pub open spec fn whitespace_end(text: Seq<char>, pos: int) -> int
    decreases text.len() - pos,
        when 0 <= pos <= text.len()
{
    if pos < text.len() && is_whitespace_char(text[pos]) {
        whitespace_end(text, pos + 1)
    } else {
        pos
    }
}

/// The first position at or after `pos` that does not hold a digit.
pub open spec fn digits_end(text: Seq<char>, pos: int) -> int
    decreases text.len() - pos,
        when 0 <= pos <= text.len()
{
    if pos < text.len() && is_digit_char(text[pos]) {
        digits_end(text, pos + 1)
    } else {
        pos
    }
}

/// The first position at or after `pos` that does not hold an identifier
/// character.
pub open spec fn ident_end(text: Seq<char>, pos: int) -> int
    decreases text.len() - pos,
        when 0 <= pos <= text.len()
{
    if pos < text.len() && is_ident_char(text[pos]) {
        ident_end(text, pos + 1)
    } else {
        pos
    }
}

/// The position of the first `quote` character at or after `pos`, if any.
pub open spec fn find_quote(text: Seq<char>, pos: int, quote: char) -> Option<int>
    decreases text.len() - pos,
        when 0 <= pos <= text.len()
{
    if pos >= text.len() {
        None
    } else if text[pos] == quote {
        Some(pos)
    } else {
        find_quote(text, pos + 1, quote)
    }
}

pub proof fn lemma_whitespace_end_bounds(text: Seq<char>, pos: int)
    requires
        0 <= pos <= text.len(),
    ensures
        pos <= whitespace_end(text, pos) <= text.len(),
    decreases text.len() - pos,
{
    if pos < text.len() && is_whitespace_char(text[pos]) {
        lemma_whitespace_end_bounds(text, pos + 1);
    }
}

pub proof fn lemma_digits_end_bounds(text: Seq<char>, pos: int)
    requires
        0 <= pos <= text.len(),
    ensures
        pos <= digits_end(text, pos) <= text.len(),
    decreases text.len() - pos,
{
    if pos < text.len() && is_digit_char(text[pos]) {
        lemma_digits_end_bounds(text, pos + 1);
    }
}

pub proof fn lemma_ident_end_bounds(text: Seq<char>, pos: int)
    requires
        0 <= pos <= text.len(),
    ensures
        pos <= ident_end(text, pos) <= text.len(),
    decreases text.len() - pos,
{
    if pos < text.len() && is_ident_char(text[pos]) {
        lemma_ident_end_bounds(text, pos + 1);
    }
}

pub proof fn lemma_find_quote_bounds(text: Seq<char>, pos: int, quote: char)
    requires
        0 <= pos <= text.len(),
    ensures
        find_quote(text, pos, quote) matches Some(j) ==> pos <= j < text.len(),
    decreases text.len() - pos,
{
    if pos < text.len() && text[pos] != quote {
        lemma_find_quote_bounds(text, pos + 1, quote);
    }
}

// ---------------------------------------------------------------------------
// Numeric value of a digit run.
// ---------------------------------------------------------------------------

/// The base-ten value of a run of digits.
pub open spec fn digits_value(s: Seq<char>) -> int
    decreases s.len(),
{
    if s.len() == 0 {
        0
    } else {
        digits_value(s.drop_last()) * 10 + digit_value(s.last())
    }
}

pub proof fn lemma_digits_value_nonneg(s: Seq<char>)
    requires
        forall|i: int| 0 <= i < s.len() ==> is_digit_char(#[trigger] s[i]),
    ensures
        digits_value(s) >= 0,
    decreases s.len(),
{
    if s.len() > 0 {
        lemma_digits_value_nonneg(s.drop_last());
    }
}

// ---------------------------------------------------------------------------
// The lexical model: one token per step.
// ---------------------------------------------------------------------------

/// The outcome of one lexical step: the token or error produced, and the
/// cursor position after it.
pub struct LexStep {
    pub tok: Result<SpecToken, LexError>,
    pub next: int,
}

/// One numeric literal starting at the digit at `pos`. A single decimal
/// point is permitted if at least one digit follows; the value of
/// `whole.frac` is `whole * 10 + frac`. A value that does not fit in
/// 64 bits is a lexical error.
pub open spec fn lex_number(text: Seq<char>, pos: int) -> LexStep {
    let m1 = digits_end(text, pos);
    if m1 < text.len() && text[m1] == '.' {
        if m1 + 1 >= text.len() {
            LexStep { tok: Err(LexError::UnexpectedEndAfterDecimalPoint), next: m1 + 1 }
        } else if !is_digit_char(text[m1 + 1]) {
            LexStep {
                tok: Err(LexError::ExpectedDigitAfterDecimalPoint(text[m1 + 1])),
                next: m1 + 1,
            }
        } else {
            let m2 = digits_end(text, m1 + 1);
            let whole = digits_value(text.subrange(pos, m1));
            let frac = digits_value(text.subrange(m1 + 1, m2));
            if whole * 10 + frac > u64::MAX {
                LexStep { tok: Err(LexError::NumberTooLarge), next: m2 }
            } else {
                LexStep { tok: Ok(SpecToken::Number((whole * 10 + frac) as u64)), next: m2 }
            }
        }
    } else {
        let v = digits_value(text.subrange(pos, m1));
        if v > u64::MAX {
            LexStep { tok: Err(LexError::NumberTooLarge), next: m1 }
        } else {
            LexStep { tok: Ok(SpecToken::Number(v as u64)), next: m1 }
        }
    }
}

/// One word starting at `pos`: a reserved keyword if it matches the set,
/// an identifier otherwise.
pub open spec fn lex_ident(text: Seq<char>, pos: int) -> LexStep {
    let e = ident_end(text, pos);
    let s = text.subrange(pos, e);
    match spec_keyword_of(s) {
        Some(k) => LexStep { tok: Ok(SpecToken::Keyword(k)), next: e },
        None => LexStep { tok: Ok(SpecToken::Identifier(s)), next: e },
    }
}

/// One string literal whose opening quote stands at `pos`: the characters
/// up to the matching quote, taken verbatim, with no escape sequences.
pub open spec fn lex_string(text: Seq<char>, pos: int) -> LexStep {
    let quote = text[pos];
    match find_quote(text, pos + 1, quote) {
        Some(j) => LexStep { tok: Ok(SpecToken::String(text.subrange(pos + 1, j))), next: j + 1 },
        None => LexStep { tok: Err(LexError::UnterminatedString(quote)), next: text.len() as int },
    }
}

/// One lexical step: skip whitespace, then decide from the first unconsumed
/// character which token comes next. At the end of the input the step
/// yields `Eof` and does not move, so the sentinel repeats forever.
pub open spec fn lex_step(text: Seq<char>, pos: int) -> LexStep {
    let p = whitespace_end(text, pos);
    if p >= text.len() {
        LexStep { tok: Ok(SpecToken::Eof), next: p }
    } else {
        let c = text[p];
        if is_digit_char(c) {
            lex_number(text, p)
        } else if is_ident_start_char(c) {
            lex_ident(text, p)
        } else if c == '\'' || c == '"' {
            lex_string(text, p)
        } else if c == '(' {
            LexStep { tok: Ok(SpecToken::LeftParentheses), next: p + 1 }
        } else if c == ')' {
            LexStep { tok: Ok(SpecToken::RightParentheses), next: p + 1 }
        } else if c == ',' {
            LexStep { tok: Ok(SpecToken::Comma), next: p + 1 }
        } else if c == ';' {
            LexStep { tok: Ok(SpecToken::Semicolon), next: p + 1 }
        } else if c == '*' {
            LexStep { tok: Ok(SpecToken::Multiply), next: p + 1 }
        } else if c == '/' {
            LexStep { tok: Ok(SpecToken::Divide), next: p + 1 }
        } else if c == '+' {
            LexStep { tok: Ok(SpecToken::Plus), next: p + 1 }
        } else if c == '-' {
            LexStep { tok: Ok(SpecToken::Minus), next: p + 1 }
        } else if c == '=' {
            LexStep { tok: Ok(SpecToken::Equal), next: p + 1 }
        } else if c == '>' {
            if p + 1 < text.len() && text[p + 1] == '=' {
                LexStep { tok: Ok(SpecToken::GreaterThanOrEqual), next: p + 2 }
            } else {
                LexStep { tok: Ok(SpecToken::GreaterThan), next: p + 1 }
            }
        } else if c == '<' {
            if p + 1 < text.len() && text[p + 1] == '=' {
                LexStep { tok: Ok(SpecToken::LessThanOrEqual), next: p + 2 }
            } else {
                LexStep { tok: Ok(SpecToken::LessThan), next: p + 1 }
            }
        } else if c == '!' {
            if p + 1 < text.len() && text[p + 1] == '=' {
                LexStep { tok: Ok(SpecToken::NotEqual), next: p + 2 }
            } else {
                LexStep { tok: Err(LexError::ExpectedEqualsAfterBang), next: p + 1 }
            }
        } else {
            LexStep { tok: Err(LexError::UnexpectedCharacter(c)), next: p + 1 }
        }
    }
}

/// Every lexical step stays inside the input and, unless it produced the
/// `Eof` sentinel, consumes at least one character.
pub proof fn lemma_lex_step_bounds(text: Seq<char>, pos: int)
    requires
        0 <= pos <= text.len(),
    ensures
        pos <= lex_step(text, pos).next <= text.len(),
        lex_step(text, pos).tok != Ok::<SpecToken, LexError>(SpecToken::Eof) ==> lex_step(
            text,
            pos,
        ).next > pos,
{
    lemma_whitespace_end_bounds(text, pos);
    let p = whitespace_end(text, pos);
    if p < text.len() {
        let c = text[p];
        if is_digit_char(c) {
            lemma_digits_end_bounds(text, p + 1);
            assert(digits_end(text, p) == digits_end(text, p + 1));
            let m1 = digits_end(text, p);
            if m1 < text.len() && text[m1] == '.' {
                if m1 + 1 < text.len() && is_digit_char(text[m1 + 1]) {
                    lemma_digits_end_bounds(text, m1 + 1);
                }
            }
        } else if is_ident_start_char(c) {
            lemma_ident_end_bounds(text, p + 1);
            assert(ident_end(text, p) == ident_end(text, p + 1));
        } else if c == '\'' || c == '"' {
            lemma_find_quote_bounds(text, p + 1, c);
        }
    }
}

// ---------------------------------------------------------------------------
// The executable tokenizer.
// ---------------------------------------------------------------------------

/// Walks the input text one token per `next_token` call. The cursor
/// position always follows the lexical model `lex_step`.
pub struct Tokenizer<'a> {
    text: &'a str,
    length: usize,
    pos: usize,
}

/// The view of a lexical result: token payloads become character sequences.
pub open spec fn lex_result_view(r: Result<Token, LexError>) -> Result<SpecToken, LexError> {
    match r {
        Ok(t) => Ok(t@),
        Err(e) => Err(e),
    }
}

impl<'a> Tokenizer<'a> {
    /// The input as a character sequence.
    pub closed spec fn input(&self) -> Seq<char> {
        self.text@
    }

    /// The cursor: how many characters have been consumed.
    pub closed spec fn position(&self) -> int {
        self.pos as int
    }

    /// The cursor stays inside the input.
    pub closed spec fn wf(&self) -> bool {
        self.length == self.text@.len() && self.pos <= self.length
    }

    /// A fresh tokenizer over `input`, with nothing consumed yet.
    pub fn new(input: &'a str) -> (t: Tokenizer<'a>)
        ensures
            t.wf(),
            t.input() == input@,
            t.position() == 0,
    {
        let length = input.unicode_len();
        Tokenizer { text: input, length, pos: 0 }
    }
}

/// What a well-formed tokenizer guarantees of its cursor.
pub broadcast proof fn lemma_tokenizer_wf<'a>(t: &Tokenizer<'a>)
    requires
        #[trigger] t.wf(),
    ensures
        0 <= t.position() <= t.input().len(),
{
}

impl<'a> Tokenizer<'a> {
    fn skip_whitespace(&mut self)
        requires
            old(self).wf(),
        ensures
            final(self).wf(),
            final(self).input() == old(self).input(),
            final(self).position() == whitespace_end(old(self).input(), old(self).position()),
    {
        while self.pos < self.length && whitespace_char(self.text.get_char(self.pos))
            invariant
                self.wf(),
                self.input() == old(self).input(),
                whitespace_end(old(self).input(), old(self).position()) == whitespace_end(
                    self.input(),
                    self.position(),
                ),
            decreases self.length - self.pos,
        {
            self.pos += 1;
        }
    }

    /// Consumes the run of digits at the cursor and returns its value.
    /// The flag is false when the value does not fit in 64 bits; the run
    /// is consumed either way.
    fn read_digits(&mut self) -> (r: (bool, u64))
        requires
            old(self).wf(),
        ensures
            final(self).wf(),
            final(self).input() == old(self).input(),
            final(self).position() == digits_end(old(self).input(), old(self).position()),
            old(self).position() <= final(self).position(),
            forall|i: int|
                old(self).position() <= i < final(self).position() ==> is_digit_char(
                    #[trigger] old(self).input()[i],
                ),
            ({
                let s = final(self).input().subrange(old(self).position(), final(self).position());
                if r.0 {
                    r.1 == digits_value(s) && digits_value(s) <= u64::MAX
                } else {
                    digits_value(s) > u64::MAX
                }
            }),
    {
        let ghost text = self.input();
        let ghost start = self.position();
        let mut value: u64 = 0;
        let mut fits: bool = true;
        proof {
            assert(text.subrange(start, start) =~= Seq::<char>::empty());
        }
        while self.pos < self.length && digit_char(self.text.get_char(self.pos))
            invariant
                self.wf(),
                self.input() == text,
                0 <= start <= self.position() <= text.len(),
                digits_end(text, start) == digits_end(text, self.position()),
                forall|i: int| start <= i < self.position() ==> is_digit_char(#[trigger] text[i]),
                ({
                    let s = text.subrange(start, self.position());
                    if fits {
                        value == digits_value(s) && digits_value(s) <= u64::MAX
                    } else {
                        digits_value(s) > u64::MAX
                    }
                }),
            decreases self.length - self.pos,
        {
            let c = self.text.get_char(self.pos);
            let d = ((c as u32) - 48) as u64;
            let ghost s_old = text.subrange(start, self.position());
            let ghost s_new = text.subrange(start, self.position() + 1);
            proof {
                assert(s_new.drop_last() =~= s_old);
                assert(s_new.last() == text[self.position()]);
                lemma_digits_value_nonneg(s_old);
            }
            if fits {
                if value > 1844674407370955161 || (value == 1844674407370955161 && d > 5) {
                    fits = false;
                } else {
                    value = value * 10 + d;
                }
            }
            self.pos += 1;
        }
        (fits, value)
    }

    /// Reads one numeric literal; relied on by `next_token` for the digit
    /// case of the lexical model.
    fn read_number(&mut self) -> (r: Result<Token, LexError>)
        requires
            old(self).wf(),
            old(self).position() < old(self).input().len(),
            is_digit_char(old(self).input()[old(self).position()]),
        ensures
            final(self).wf(),
            final(self).input() == old(self).input(),
            ({
                let st = lex_number(old(self).input(), old(self).position());
                st.next == final(self).position() && st.tok == lex_result_view(r)
            }),
    {
        let ghost text = self.input();
        let ghost start = self.position();
        let (whole_fits, whole) = self.read_digits();
        let ghost m1 = self.position();
        if self.pos < self.length && self.text.get_char(self.pos) == '.' {
            self.pos += 1;
            if self.pos >= self.length {
                return Err(LexError::UnexpectedEndAfterDecimalPoint);
            }
            let c2 = self.text.get_char(self.pos);
            if !digit_char(c2) {
                return Err(LexError::ExpectedDigitAfterDecimalPoint(c2));
            }
            let (frac_fits, frac) = self.read_digits();
            proof {
                lemma_digits_value_nonneg(text.subrange(start, m1));
                lemma_digits_value_nonneg(text.subrange(m1 + 1, self.position()));
            }
            if !whole_fits || !frac_fits {
                return Err(LexError::NumberTooLarge);
            }
            if whole > 1844674407370955161 || (whole == 1844674407370955161 && frac > 5) {
                return Err(LexError::NumberTooLarge);
            }
            if whole * 10 > u64::MAX - frac {
                return Err(LexError::NumberTooLarge);
            }
            Ok(Token::Number(whole * 10 + frac))
        } else {
            if !whole_fits {
                return Err(LexError::NumberTooLarge);
            }
            Ok(Token::Number(whole))
        }
    }

    /// Reads one word and classifies it as keyword or identifier; relied on
    /// by `next_token` for the letter case of the lexical model.
    fn read_identifier_or_keyword(&mut self) -> (r: Result<Token, LexError>)
        requires
            old(self).wf(),
            old(self).position() < old(self).input().len(),
            is_ident_start_char(old(self).input()[old(self).position()]),
        ensures
            final(self).wf(),
            final(self).input() == old(self).input(),
            ({
                let st = lex_ident(old(self).input(), old(self).position());
                st.next == final(self).position() && st.tok == lex_result_view(r)
            }),
    {
        let ghost text = self.input();
        let start = self.pos;
        while self.pos < self.length && ident_char(self.text.get_char(self.pos))
            invariant
                self.wf(),
                self.input() == text,
                start <= self.pos,
                ident_end(text, start as int) == ident_end(text, self.position()),
            decreases self.length - self.pos,
        {
            self.pos += 1;
        }
        let word = self.text.substring_char(start, self.pos);
        match keyword_lookup(word) {
            Some(k) => Ok(Token::Keyword(k)),
            None => Ok(Token::Identifier(word.to_owned())),
        }
    }

    /// Reads one string literal delimited by `quote`; relied on by
    /// `next_token` for the quote case of the lexical model.
    fn read_string(&mut self, quote: char) -> (r: Result<Token, LexError>)
        requires
            old(self).wf(),
            old(self).position() < old(self).input().len(),
            old(self).input()[old(self).position()] == quote,
        ensures
            final(self).wf(),
            final(self).input() == old(self).input(),
            ({
                let st = lex_string(old(self).input(), old(self).position());
                st.next == final(self).position() && st.tok == lex_result_view(r)
            }),
    {
        let ghost text = self.input();
        self.pos += 1;
        let start = self.pos;
        while self.pos < self.length && self.text.get_char(self.pos) != quote
            invariant
                self.wf(),
                self.input() == text,
                start <= self.pos,
                find_quote(text, start as int, quote) == find_quote(text, self.position(), quote),
            decreases self.length - self.pos,
        {
            self.pos += 1;
        }
        if self.pos < self.length {
            let content = self.text.substring_char(start, self.pos);
            self.pos += 1;
            Ok(Token::String(content.to_owned()))
        } else {
            Err(LexError::UnterminatedString(quote))
        }
    }

    /// Produces the next token, following the lexical model `lex_step`
    /// exactly: the result is the step's token and the cursor moves to the
    /// step's end. After the input is exhausted every call returns `Eof`.
    pub fn next_token(&mut self) -> (r: Result<Token, LexError>)
        requires
            old(self).wf(),
        ensures
            final(self).wf(),
            final(self).input() == old(self).input(),
            ({
                let st = lex_step(old(self).input(), old(self).position());
                st.next == final(self).position() && st.tok == lex_result_view(r)
            }),
    {
        self.skip_whitespace();
        if self.pos >= self.length {
            return Ok(Token::Eof);
        }
        let c = self.text.get_char(self.pos);
        if digit_char(c) {
            self.read_number()
        } else if ident_start_char(c) {
            self.read_identifier_or_keyword()
        } else if c == '\'' || c == '"' {
            self.read_string(c)
        } else if c == '(' {
            self.pos += 1;
            Ok(Token::LeftParentheses)
        } else if c == ')' {
            self.pos += 1;
            Ok(Token::RightParentheses)
        } else if c == ',' {
            self.pos += 1;
            Ok(Token::Comma)
        } else if c == ';' {
            self.pos += 1;
            Ok(Token::Semicolon)
        } else if c == '*' {
            self.pos += 1;
            Ok(Token::Multiply)
        } else if c == '/' {
            self.pos += 1;
            Ok(Token::Divide)
        } else if c == '+' {
            self.pos += 1;
            Ok(Token::Plus)
        } else if c == '-' {
            self.pos += 1;
            Ok(Token::Minus)
        } else if c == '=' {
            self.pos += 1;
            Ok(Token::Equal)
        } else if c == '>' {
            self.pos += 1;
            if self.pos < self.length && self.text.get_char(self.pos) == '=' {
                self.pos += 1;
                Ok(Token::GreaterThanOrEqual)
            } else {
                Ok(Token::GreaterThan)
            }
        } else if c == '<' {
            self.pos += 1;
            if self.pos < self.length && self.text.get_char(self.pos) == '=' {
                self.pos += 1;
                Ok(Token::LessThanOrEqual)
            } else {
                Ok(Token::LessThan)
            }
        } else if c == '!' {
            self.pos += 1;
            if self.pos < self.length && self.text.get_char(self.pos) == '=' {
                self.pos += 1;
                Ok(Token::NotEqual)
            } else {
                Err(LexError::ExpectedEqualsAfterBang)
            }
        } else {
            self.pos += 1;
            Err(LexError::UnexpectedCharacter(c))
        }
    }
}

} // verus!
