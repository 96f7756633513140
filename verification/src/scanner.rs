use crate::diagnostic::{diags_view, Diagnostic, DiagnosticV};
use crate::token::{Token, TokenType, TokenTypeV, TokenV};
use vstd::prelude::*;

verus! {

/// A decimal digit.
pub open spec fn is_digit(c: char) -> bool {
    48 <= c as u32 <= 57
}

/// A character that may start an identifier: a letter or an underscore.
pub open spec fn is_alpha(c: char) -> bool {
    (97 <= c as u32 <= 122) || (65 <= c as u32 <= 90) || c as u32 == 95
}

/// A character that may continue an identifier: a letter or a digit.
pub open spec fn is_alnum(c: char) -> bool {
    is_digit(c) || (97 <= c as u32 <= 122) || (65 <= c as u32 <= 90)
}

/// The first position at or after `j` holding a newline, or the end.
pub open spec fn find_nl(src: Seq<char>, j: int) -> int
    decreases src.len() - j,
{
    if j < 0 || j >= src.len() {
        src.len() as int
    } else if src[j] == '\n' {
        j
    } else {
        find_nl(src, j + 1)
    }
}

/// The first position at or after `j` holding a double quote, or the end.
pub open spec fn find_quote(src: Seq<char>, j: int) -> int
    decreases src.len() - j,
{
    if j < 0 || j >= src.len() {
        src.len() as int
    } else if src[j] == '"' {
        j
    } else {
        find_quote(src, j + 1)
    }
}

/// The first position at or after `j` not holding a digit, or the end.
pub open spec fn digits_end(src: Seq<char>, j: int) -> int
    decreases src.len() - j,
{
    if j < 0 || j >= src.len() {
        src.len() as int
    } else if !is_digit(src[j]) {
        j
    } else {
        digits_end(src, j + 1)
    }
}

/// The first position at or after `j` not continuing an identifier.
pub open spec fn alnum_end(src: Seq<char>, j: int) -> int
    decreases src.len() - j,
{
    if j < 0 || j >= src.len() {
        src.len() as int
    } else if !is_alnum(src[j]) {
        j
    } else {
        alnum_end(src, j + 1)
    }
}

pub(crate) proof fn lemma_find_nl(src: Seq<char>, j: int)
    requires
        0 <= j,
    ensures
        find_nl(src, j) <= src.len(),
        j <= src.len() ==> j <= find_nl(src, j),
        find_nl(src, j) < src.len() ==> src[find_nl(src, j)] == '\n',
        forall|k: int| j <= k < find_nl(src, j) ==> src[k] != '\n',
    decreases src.len() - j,
{
    if 0 <= j < src.len() && src[j] != '\n' {
        lemma_find_nl(src, j + 1);
    }
}

pub(crate) proof fn lemma_find_quote(src: Seq<char>, j: int)
    requires
        0 <= j,
    ensures
        find_quote(src, j) <= src.len(),
        j <= src.len() ==> j <= find_quote(src, j),
        find_quote(src, j) < src.len() ==> src[find_quote(src, j)] == '"',
        forall|k: int| j <= k < find_quote(src, j) ==> src[k] != '"',
    decreases src.len() - j,
{
    if 0 <= j < src.len() && src[j] != '"' {
        lemma_find_quote(src, j + 1);
    }
}

pub(crate) proof fn lemma_digits_end(src: Seq<char>, j: int)
    requires
        0 <= j,
    ensures
        digits_end(src, j) <= src.len(),
        j <= src.len() ==> j <= digits_end(src, j),
        digits_end(src, j) < src.len() ==> !is_digit(src[digits_end(src, j)]),
        forall|k: int| j <= k < digits_end(src, j) ==> is_digit(src[k]),
    decreases src.len() - j,
{
    if 0 <= j < src.len() && is_digit(src[j]) {
        lemma_digits_end(src, j + 1);
    }
}

pub(crate) proof fn lemma_alnum_end(src: Seq<char>, j: int)
    requires
        0 <= j,
    ensures
        alnum_end(src, j) <= src.len(),
        j <= src.len() ==> j <= alnum_end(src, j),
        alnum_end(src, j) < src.len() ==> !is_alnum(src[alnum_end(src, j)]),
        forall|k: int| j <= k < alnum_end(src, j) ==> is_alnum(src[k]),
    decreases src.len() - j,
{
    if 0 <= j < src.len() && is_alnum(src[j]) {
        lemma_alnum_end(src, j + 1);
    }
}

/// Newlines in `src[from .. to]`.
pub open spec fn count_nl(src: Seq<char>, from: int, to: int) -> nat
    decreases to - from,
{
    if from >= to {
        0
    } else {
        count_nl(src, from, to - 1) + (if 0 <= to - 1 < src.len() && src[to - 1] == '\n' {
            1nat
        } else {
            0nat
        })
    }
}

/// The line counter saturates instead of wrapping.
pub open spec fn sat_add(line: u64, k: nat) -> u64 {
    if line + k > u64::MAX {
        u64::MAX
    } else {
        (line + k) as u64
    }
}

/// The numeric value of a digit character.
pub open spec fn digit_val(c: char) -> int {
    c as u32 - 48
}

/// The decimal value of a digit string, most significant digit first.
pub open spec fn dec_val(s: Seq<char>) -> int
    decreases s.len(),
{
    if s.len() == 0 {
        0
    } else {
        10 * dec_val(s.drop_last()) + digit_val(s.last())
    }
}

/// The decimal value of a run of digits is never negative.
proof fn lemma_dec_val_nonneg(src: Seq<char>, from: int, to: int)
    requires
        0 <= from <= to <= src.len(),
        forall|k: int| from <= k < to ==> is_digit(#[trigger] src[k]),
    ensures
        dec_val(src.subrange(from, to)) >= 0,
    decreases to - from,
{
    if to > from {
        assert(src.subrange(from, to).drop_last() =~= src.subrange(from, to - 1));
        assert(src.subrange(from, to).last() == src[to - 1]);
        lemma_dec_val_nonneg(src, from, to - 1);
    }
}

/// A numeric literal too large for the value type saturates.
pub open spec fn sat_i64(x: int) -> i64 {
    if x > i64::MAX {
        i64::MAX
    } else if x < i64::MIN {
        i64::MIN
    } else {
        x as i64
    }
}

/// The fixed keyword table: a hit lexes as the keyword, a miss as an
/// identifier.
pub open spec fn sp_keyword(s: Seq<char>) -> Option<TokenTypeV> {
    if s == "and"@ {
        Some(TokenTypeV::And)
    } else if s == "class"@ {
        Some(TokenTypeV::Class)
    } else if s == "else"@ {
        Some(TokenTypeV::Else)
    } else if s == "false"@ {
        Some(TokenTypeV::False)
    } else if s == "for"@ {
        Some(TokenTypeV::For)
    } else if s == "fun"@ {
        Some(TokenTypeV::Fun)
    } else if s == "if"@ {
        Some(TokenTypeV::If)
    } else if s == "nil"@ {
        Some(TokenTypeV::Nil)
    } else if s == "or"@ {
        Some(TokenTypeV::Or)
    } else if s == "print"@ {
        Some(TokenTypeV::Print)
    } else if s == "return"@ {
        Some(TokenTypeV::Return)
    } else if s == "super"@ {
        Some(TokenTypeV::Super)
    } else if s == "this"@ {
        Some(TokenTypeV::This)
    } else if s == "true"@ {
        Some(TokenTypeV::True)
    } else if s == "var"@ {
        Some(TokenTypeV::Var)
    } else if s == "while"@ {
        Some(TokenTypeV::While)
    } else {
        None
    }
}

/// What scanning one token at position `i` produces: at most one token,
/// at most one diagnostic, the next position, and the line afterwards.
pub struct ScanStep {
    pub token: Option<TokenV>,
    pub diag: Option<DiagnosticV>,
    pub next: int,
    pub line: u64,
}

/// A one-character token.
pub open spec fn one_char_token(src: Seq<char>, i: int, line: u64, ty: TokenTypeV) -> ScanStep {
    ScanStep {
        token: Some(TokenV { ty, lexeme: src.subrange(i, i + 1), line }),
        diag: None,
        next: i + 1,
        line,
    }
}

/// A two-character token.
pub open spec fn two_char_token(src: Seq<char>, i: int, line: u64, ty: TokenTypeV) -> ScanStep {
    ScanStep {
        token: Some(TokenV { ty, lexeme: src.subrange(i, i + 2), line }),
        diag: None,
        next: i + 2,
        line,
    }
}

/// Greedy matching: the two-character lexeme wins when the next
/// character is an equals sign.
pub open spec fn pair_or(src: Seq<char>, i: int, line: u64, two: TokenTypeV, one: TokenTypeV)
    -> ScanStep {
    if i + 1 < src.len() && src[i + 1] == '=' {
        two_char_token(src, i, line, two)
    } else {
        one_char_token(src, i, line, one)
    }
}

/// A string literal runs to the next double quote, with no escape
/// processing, tracking embedded newlines; an unterminated string is a
/// diagnostic at the line where the input ends.
pub open spec fn string_step(src: Seq<char>, i: int, line: u64) -> ScanStep {
    let e = find_quote(src, i + 1);
    if e >= src.len() {
        let l2 = sat_add(line, count_nl(src, i + 1, src.len() as int));
        ScanStep {
            token: None,
            diag: Some(
                DiagnosticV {
                    line: l2,
                    location: Seq::empty(),
                    message: "Unterminated string."@,
                },
            ),
            next: src.len() as int,
            line: l2,
        }
    } else {
        let l2 = sat_add(line, count_nl(src, i + 1, e));
        ScanStep {
            token: Some(
                TokenV {
                    ty: TokenTypeV::StrLit(src.subrange(i + 1, e)),
                    lexeme: src.subrange(i, e + 1),
                    line: l2,
                },
            ),
            diag: None,
            next: e + 1,
            line: l2,
        }
    }
}

/// A numeric literal: one or more digits, optionally a dot followed by
/// one or more digits; a trailing dot not followed by a digit stops
/// before the dot. The value is the decimal value of the integer part,
/// saturating at the largest representable number.
pub open spec fn number_step(src: Seq<char>, i: int, line: u64) -> ScanStep {
    let d1 = digits_end(src, i + 1);
    let end = if d1 < src.len() && src[d1] == '.' && d1 + 1 < src.len() && is_digit(
        src[d1 + 1],
    ) {
        digits_end(src, d1 + 1)
    } else {
        d1
    };
    ScanStep {
        token: Some(
            TokenV {
                ty: TokenTypeV::Number(sat_i64(dec_val(src.subrange(i, d1)))),
                lexeme: src.subrange(i, end),
                line,
            },
        ),
        diag: None,
        next: end,
        line,
    }
}

/// An identifier or keyword.
pub open spec fn identifier_step(src: Seq<char>, i: int, line: u64) -> ScanStep {
    let e = alnum_end(src, i + 1);
    let text = src.subrange(i, e);
    let ty = match sp_keyword(text) {
        Some(k) => k,
        None => TokenTypeV::Identifier(text),
    };
    ScanStep { token: Some(TokenV { ty, lexeme: text, line }), diag: None, next: e, line }
}

/// One step of the scanner at position `i`: the full dispatch on the
/// character there.
pub open spec fn sp_scan_step(src: Seq<char>, i: int, line: u64) -> ScanStep {
    let c = src[i];
    if c == '(' {
        one_char_token(src, i, line, TokenTypeV::LeftParen)
    } else if c == ')' {
        one_char_token(src, i, line, TokenTypeV::RightParen)
    } else if c == '{' {
        one_char_token(src, i, line, TokenTypeV::LeftBrace)
    } else if c == '}' {
        one_char_token(src, i, line, TokenTypeV::RightBrace)
    } else if c == ',' {
        one_char_token(src, i, line, TokenTypeV::Comma)
    } else if c == '.' {
        one_char_token(src, i, line, TokenTypeV::Dot)
    } else if c == '-' {
        one_char_token(src, i, line, TokenTypeV::Minus)
    } else if c == '+' {
        one_char_token(src, i, line, TokenTypeV::Plus)
    } else if c == ';' {
        one_char_token(src, i, line, TokenTypeV::Semicolon)
    } else if c == '*' {
        one_char_token(src, i, line, TokenTypeV::Star)
    } else if c == '!' {
        pair_or(src, i, line, TokenTypeV::BangEqual, TokenTypeV::Bang)
    } else if c == '=' {
        pair_or(src, i, line, TokenTypeV::EqualEqual, TokenTypeV::Equal)
    } else if c == '<' {
        pair_or(src, i, line, TokenTypeV::LessEqual, TokenTypeV::Less)
    } else if c == '>' {
        pair_or(src, i, line, TokenTypeV::GreaterEqual, TokenTypeV::Greater)
    } else if c == '/' {
        if i + 1 < src.len() && src[i + 1] == '/' {
            ScanStep { token: None, diag: None, next: find_nl(src, i + 2), line }
        } else {
            one_char_token(src, i, line, TokenTypeV::Slash)
        }
    } else if c == ' ' || c == '\r' || c == '\t' {
        ScanStep { token: None, diag: None, next: i + 1, line }
    } else if c == '\n' {
        ScanStep { token: None, diag: None, next: i + 1, line: sat_add(line, 1) }
    } else if c == '"' {
        string_step(src, i, line)
    } else if is_digit(c) {
        number_step(src, i, line)
    } else if is_alpha(c) {
        identifier_step(src, i, line)
    } else {
        ScanStep {
            token: None,
            diag: Some(
                DiagnosticV { line, location: Seq::empty(), message: "Unexpected character"@ },
            ),
            next: i + 1,
            line,
        }
    }
}

/// One scanner step always makes progress and stays inside the input.
pub proof fn lemma_step_bounds(src: Seq<char>, i: int, line: u64)
    requires
        0 <= i < src.len(),
    ensures
        i < sp_scan_step(src, i, line).next <= src.len(),
{
    lemma_find_nl(src, i + 2);
    lemma_find_quote(src, i + 1);
    lemma_digits_end(src, i + 1);
    lemma_alnum_end(src, i + 1);
    let d1 = digits_end(src, i + 1);
    if d1 < src.len() && src[d1] == '.' && d1 + 1 < src.len() && is_digit(src[d1 + 1]) {
        lemma_digits_end(src, d1 + 1);
    }
}

/// What scanning from position `i` to the end produces: the tokens and
/// diagnostics, in order, and the final line counter.
pub struct ScanRest {
    pub toks: Seq<TokenV>,
    pub diags: Seq<DiagnosticV>,
    pub line: u64,
}

/// A step's token, as a sequence of zero or one.
pub open spec fn opt_tok(o: Option<TokenV>) -> Seq<TokenV> {
    match o {
        Some(t) => seq![t],
        None => Seq::empty(),
    }
}

/// A step's diagnostic, as a sequence of zero or one.
pub open spec fn opt_diag(o: Option<DiagnosticV>) -> Seq<DiagnosticV> {
    match o {
        Some(d) => seq![d],
        None => Seq::empty(),
    }
}

/// Scanning from position `i` to the end of the input.
pub open spec fn sp_scan_from(src: Seq<char>, i: int, line: u64) -> ScanRest
    decreases src.len() - i,
    via sp_scan_from_decreases
{
    if i < 0 || i >= src.len() {
        ScanRest { toks: Seq::empty(), diags: Seq::empty(), line }
    } else {
        let st = sp_scan_step(src, i, line);
        let rest = sp_scan_from(src, st.next, st.line);
        ScanRest {
            toks: opt_tok(st.token) + rest.toks,
            diags: opt_diag(st.diag) + rest.diags,
            line: rest.line,
        }
    }
}

#[via_fn]
proof fn sp_scan_from_decreases(src: Seq<char>, i: int, line: u64) {
    if 0 <= i < src.len() {
        lemma_step_bounds(src, i, line);
    }
}

/// What scanning a whole source produces: the tokens, always closed by a
/// synthetic end-of-input token with an empty lexeme, and the
/// diagnostics. Scanning is total: unscannable characters are reported
/// and skipped.
pub struct ScanOut {
    pub toks: Seq<TokenV>,
    pub diags: Seq<DiagnosticV>,
}

/// The meaning of the scanner on a whole source text.
pub open spec fn sp_scan(src: Seq<char>) -> ScanOut {
    let rest = sp_scan_from(src, 0, 1);
    ScanOut {
        toks: rest.toks.push(TokenV { ty: TokenTypeV::Eof, lexeme: Seq::empty(), line: rest.line }),
        diags: rest.diags,
    }
}

/// The model of a vector of tokens.
pub open spec fn toks_view(v: Seq<Token>) -> Seq<TokenV> {
    v.map_values(|t: Token| t@)
}

/// An owned string holding `v[from .. to]`.
fn chars_to_string(v: &Vec<char>, from: usize, to: usize) -> (r: String)
    requires
        from <= to <= v@.len(),
    ensures
        r@ == v@.subrange(from as int, to as int),
{
    let mut s = String::new();
    let mut j: usize = from;
    while j < to
        invariant
            from <= j <= to <= v@.len(),
            s@ == v@.subrange(from as int, j as int),
        decreases to - j,
    {
        crate::render::push_char(&mut s, v[j]);
        proof {
            assert(v@.subrange(from as int, j as int + 1) =~= v@.subrange(
                from as int,
                j as int,
            ).push(v@[j as int]));
        }
        j = j + 1;
    }
    s
}

fn is_digit_char(c: char) -> (r: bool)
    ensures
        r == is_digit(c),
{
    let u = c as u32;
    48 <= u && u <= 57
}

fn is_alpha_char(c: char) -> (r: bool)
    ensures
        r == is_alpha(c),
{
    let u = c as u32;
    (97 <= u && u <= 122) || (65 <= u && u <= 90) || u == 95
}

fn is_alnum_char(c: char) -> (r: bool)
    ensures
        r == is_alnum(c),
{
    let u = c as u32;
    (48 <= u && u <= 57) || (97 <= u && u <= 122) || (65 <= u && u <= 90)
}

fn string_eq(a: &String, lit: &str) -> (r: bool)
    ensures
        r == (a@ == lit@),
{
    let b = String::from_str(lit);
    *a == b
}

/// The fixed keyword table.
fn map_keywords(text: &String) -> (r: Option<TokenType>)
    ensures
        match r {
            Some(t) => sp_keyword(text@) == Some(t@),
            None => sp_keyword(text@) is None,
        },
{
    if string_eq(text, "and") {
        Some(TokenType::And)
    } else if string_eq(text, "class") {
        Some(TokenType::Class)
    } else if string_eq(text, "else") {
        Some(TokenType::Else)
    } else if string_eq(text, "false") {
        Some(TokenType::False)
    } else if string_eq(text, "for") {
        Some(TokenType::For)
    } else if string_eq(text, "fun") {
        Some(TokenType::Fun)
    } else if string_eq(text, "if") {
        Some(TokenType::If)
    } else if string_eq(text, "nil") {
        Some(TokenType::Nil)
    } else if string_eq(text, "or") {
        Some(TokenType::Or)
    } else if string_eq(text, "print") {
        Some(TokenType::Print)
    } else if string_eq(text, "return") {
        Some(TokenType::Return)
    } else if string_eq(text, "super") {
        Some(TokenType::Super)
    } else if string_eq(text, "this") {
        Some(TokenType::This)
    } else if string_eq(text, "true") {
        Some(TokenType::True)
    } else if string_eq(text, "var") {
        Some(TokenType::Var)
    } else if string_eq(text, "while") {
        Some(TokenType::While)
    } else {
        None
    }
}

/// Saturated accumulation of one more decimal digit.
proof fn lemma_sat_step(v: int, d: int, acc: i64)
    requires
        acc == sat_i64(v),
        v >= 0,
        0 <= d <= 9,
    ensures
        (if acc > (i64::MAX - d as i64) / 10 {
            i64::MAX
        } else {
            (10 * acc + d) as i64
        }) == sat_i64(10 * v + d),
        10 * v + d >= 0,
        acc <= (i64::MAX - d as i64) / 10 ==> 10 * acc + d <= i64::MAX,
{
    let m = i64::MAX as int;
    let q = (m - d) / 10;
    assert(10 * q <= m - d < 10 * q + 10) by (nonlinear_arith)
        requires
            0 <= d <= 9,
            q == (m - d) / 10,
            m == 0x7fff_ffff_ffff_ffff,
    ;
    if v <= m {
        assert(acc == v);
        if acc > q {
            assert(10 * v >= 10 * (q + 1));
            assert(10 * v + d > m);
        } else {
            assert(10 * v <= 10 * q);
            assert(10 * v + d <= m);
        }
    } else {
        assert(acc == i64::MAX);
        assert(10 * v >= 10 * (m + 1));
        assert(10 * v + d > m);
        assert(acc > q);
    }
}

/// Turns source text into an ordered sequence of tokens in one
/// left-to-right pass, reporting unscannable input instead of failing.
pub struct Scanner {
    pub source: Vec<char>,
    pub start: usize,
    pub current: usize,
    pub line: u64,
    pub diagnostics: Vec<Diagnostic>,
}

impl Scanner {
    /// A fresh scanner over the given source text.
    pub fn new(source: &str) -> (s: Scanner)
        ensures
            s.source@ == source@,
            s.start == 0,
            s.current == 0,
            s.line == 1,
            s.diagnostics@ == Seq::<Diagnostic>::empty(),
    {
        let n = source.unicode_len();
        let mut chars: Vec<char> = Vec::new();
        let mut i: usize = 0;
        while i < n
            invariant
                n == source@.len(),
                i <= n,
                chars@ == source@.take(i as int),
            decreases n - i,
        {
            let c = source.get_char(i);
            chars.push(c);
            proof {
                assert(source@.take(i as int + 1) =~= source@.take(i as int).push(
                    source@[i as int],
                ));
            }
            i = i + 1;
        }
        proof {
            assert(source@.take(n as int) =~= source@);
        }
        Scanner { source: chars, start: 0, current: 0, line: 1, diagnostics: Vec::new() }
    }

    fn is_at_end(&self) -> (r: bool)
        ensures
            r == (self.current >= self.source@.len()),
    {
        self.current >= self.source.len()
    }

    fn advance(&mut self) -> (c: char)
        requires
            old(self).current < old(self).source@.len(),
        ensures
            c == old(self).source@[old(self).current as int],
            final(self).current == old(self).current + 1,
            final(self).source@ == old(self).source@,
            final(self).start == old(self).start,
            final(self).line == old(self).line,
            final(self).diagnostics@ == old(self).diagnostics@,
    {
        let _n = self.source.len();
        let c = self.source[self.current];
        self.current = self.current + 1;
        c
    }

    fn match_next(&mut self, expected: char) -> (r: bool)
        requires
            old(self).current <= old(self).source@.len(),
        ensures
            r == (old(self).current < old(self).source@.len() && old(self).source@[old(
                self,
            ).current as int] == expected),
            final(self).current == old(self).current + (if r {
                1int
            } else {
                0int
            }),
            final(self).source@ == old(self).source@,
            final(self).start == old(self).start,
            final(self).line == old(self).line,
            final(self).diagnostics@ == old(self).diagnostics@,
    {
        let n = self.source.len();
        if self.current >= n {
            return false;
        }
        if self.source[self.current] != expected {
            return false;
        }
        self.current = self.current + 1;
        true
    }

    fn peek(&self) -> (c: char)
        ensures
            c == (if self.current < self.source@.len() {
                self.source@[self.current as int]
            } else {
                '\u{0}'
            }),
    {
        if self.is_at_end() {
            return '\u{0}';
        }
        self.source[self.current]
    }

    fn peek_next(&self) -> (c: char)
        ensures
            c == (if self.current + 1 < self.source@.len() {
                self.source@[self.current as int + 1]
            } else {
                '\u{0}'
            }),
    {
        let n = self.source.len();
        if self.current < n && n - self.current > 1 {
            self.source[self.current + 1]
        } else {
            '\u{0}'
        }
    }

    /// Bumps the line counter, saturating instead of wrapping.
    fn next_line(&mut self)
        ensures
            final(self).line == sat_add(old(self).line, 1),
            final(self).current == old(self).current,
            final(self).source@ == old(self).source@,
            final(self).start == old(self).start,
            final(self).diagnostics@ == old(self).diagnostics@,
    {
        if self.line < u64::MAX {
            self.line = self.line + 1;
        }
    }

    /// Appends a token whose lexeme is the current `start .. current`
    /// slice of the source.
    fn add_token(&mut self, tokens: &mut Vec<Token>, token_type: TokenType)
        requires
            old(self).start <= old(self).current <= old(self).source@.len(),
        ensures
            *final(self) == *old(self),
            toks_view(final(tokens)@) == toks_view(old(tokens)@).push(
                TokenV {
                    ty: token_type@,
                    lexeme: old(self).source@.subrange(
                        old(self).start as int,
                        old(self).current as int,
                    ),
                    line: old(self).line,
                },
            ),
    {
        let ghost ty = token_type@;
        let text = chars_to_string(&self.source, self.start, self.current);
        tokens.push(Token::new(token_type, text, self.line));
        proof {
            assert(toks_view(tokens@) =~~= toks_view(old(tokens)@).push(
                TokenV {
                    ty,
                    lexeme: old(self).source@.subrange(
                        old(self).start as int,
                        old(self).current as int,
                    ),
                    line: old(self).line,
                },
            ));
        }
    }

    /// Scans the rest of a string literal; the opening quote is already
    /// consumed. Embedded newlines count; an unterminated string is
    /// reported and the token dropped.
    #[verifier::loop_isolation(false)]
    fn string(&mut self, tokens: &mut Vec<Token>)
        requires
            old(self).start + 1 == old(self).current,
            old(self).current <= old(self).source@.len(),
            old(self).source@[old(self).start as int] == '"',
        ensures
            final(self).source@ == old(self).source@,
            final(self).start == old(self).start,
            ({
                let st = string_step(old(self).source@, old(self).start as int, old(self).line);
                &&& final(self).current == st.next
                &&& final(self).line == st.line
                &&& toks_view(final(tokens)@) == toks_view(old(tokens)@) + opt_tok(st.token)
                &&& diags_view(final(self).diagnostics@) == diags_view(old(self).diagnostics@)
                    + opt_diag(st.diag)
            }),
    {
        let ghost src = self.source@;
        let ghost i0 = self.current as int;
        let ghost line0 = self.line;
        proof {
            lemma_find_quote(src, i0);
        }
        while !self.is_at_end() && self.peek() != '"'
            invariant
                self.source@ == src,
                self.start == old(self).start,
                self.diagnostics@ == old(self).diagnostics@,
                tokens@ == old(tokens)@,
                i0 <= self.current as int <= find_quote(src, i0),
                find_quote(src, self.current as int) == find_quote(src, i0),
                self.line == sat_add(line0, count_nl(src, i0, self.current as int)),
            decreases src.len() - self.current,
        {
            let ghost cur = self.current as int;
            if self.peek() == '\n' {
                self.next_line();
            }
            let _ = self.advance();
            proof {
                lemma_find_quote(src, cur + 1);
                assert(count_nl(src, i0, cur + 1) == count_nl(src, i0, cur) + (if src[cur]
                    == '\n' {
                    1nat
                } else {
                    0nat
                }));
            }
        }
        let ghost e = find_quote(src, i0);
        if self.is_at_end() {
            proof {
                assert(self.current as int == src.len() as int);
                assert(e == src.len() as int);
            }
            self.add_diag("Unterminated string.");
            proof {
                let st = string_step(src, old(self).start as int, line0);
                assert(toks_view(tokens@) + opt_tok(st.token) =~= toks_view(tokens@));
                assert(diags_view(old(self).diagnostics@).push(st.diag->Some_0) =~= diags_view(
                    old(self).diagnostics@,
                ) + opt_diag(st.diag));
            }
            return ;
        }
        proof {
            assert(self.current as int == e);
        }
        let close = self.current;
        let _ = self.advance();
        let value = chars_to_string(&self.source, self.start + 1, close);
        self.add_token(tokens, TokenType::String(value));
        proof {
            let st = string_step(src, old(self).start as int, line0);
            assert(toks_view(old(tokens)@).push(st.token->Some_0) =~= toks_view(old(tokens)@)
                + opt_tok(st.token));
            assert(diags_view(self.diagnostics@) + opt_diag(st.diag) =~= diags_view(
                self.diagnostics@,
            ));
        }
    }

    /// Scans the rest of a numeric literal; the first digit is already
    /// consumed.
    #[verifier::loop_isolation(false)]
    fn number(&mut self, tokens: &mut Vec<Token>)
        requires
            old(self).start + 1 == old(self).current,
            old(self).current <= old(self).source@.len(),
            is_digit(old(self).source@[old(self).start as int]),
        ensures
            final(self).source@ == old(self).source@,
            final(self).start == old(self).start,
            final(self).line == old(self).line,
            final(self).diagnostics@ == old(self).diagnostics@,
            ({
                let st = number_step(old(self).source@, old(self).start as int, old(self).line);
                &&& final(self).current == st.next
                &&& toks_view(final(tokens)@) == toks_view(old(tokens)@) + opt_tok(st.token)
            }),
    {
        let ghost src = self.source@;
        let ghost i0 = self.current as int;
        proof {
            lemma_digits_end(src, i0);
        }
        while is_digit_char(self.peek())
            invariant
                self.source@ == src,
                self.start == old(self).start,
                self.line == old(self).line,
                self.diagnostics@ == old(self).diagnostics@,
                tokens@ == old(tokens)@,
                i0 <= self.current as int <= digits_end(src, i0),
                digits_end(src, self.current as int) == digits_end(src, i0),
            decreases src.len() - self.current,
        {
            let ghost cur = self.current as int;
            let _ = self.advance();
            proof {
                lemma_digits_end(src, cur + 1);
            }
        }
        let d1 = self.current;
        proof {
            assert(d1 as int == digits_end(src, i0));
        }
        // The value of the integer part, saturating at i64::MAX.
        let mut value: i64 = 0;
        let mut j: usize = self.start;
        proof {
            assert(src.subrange(self.start as int, self.start as int) =~= Seq::<char>::empty());
        }
        while j < d1
            invariant
                self.start <= j <= d1,
                d1 as int <= src.len(),
                value == sat_i64(dec_val(src.subrange(old(self).start as int, j as int))),
                self.source@ == src,
                self.start == old(self).start,
                self.current == d1,
            decreases d1 - j,
        {
            let c = self.source[j];
            proof {
                assert(is_digit(c));
            }
            let d = (c as u32 - 48) as i64;
            let ghost pref = src.subrange(self.start as int, j as int);
            proof {
                lemma_dec_val_nonneg(src, self.start as int, j as int);
                lemma_sat_step(dec_val(pref), digit_val(c), value);
                assert(src.subrange(self.start as int, j as int + 1).drop_last() =~= pref);
                assert(src.subrange(self.start as int, j as int + 1).last() == src[j as int]);
            }
            if value > (i64::MAX - d) / 10 {
                value = i64::MAX;
            } else {
                value = 10 * value + d;
            }
            j = j + 1;
        }
        // A fractional part extends the lexeme but not the value.
        if self.peek() == '.' && is_digit_char(self.peek_next()) {
            let _ = self.advance();
            let ghost f0 = self.current as int;
            proof {
                lemma_digits_end(src, f0);
            }
            while is_digit_char(self.peek())
                invariant
                    self.source@ == src,
                    self.start == old(self).start,
                    self.line == old(self).line,
                    self.diagnostics@ == old(self).diagnostics@,
                    tokens@ == old(tokens)@,
                    f0 <= self.current as int <= digits_end(src, f0),
                    digits_end(src, self.current as int) == digits_end(src, f0),
                decreases src.len() - self.current,
            {
                let ghost cur = self.current as int;
                let _ = self.advance();
                proof {
                    lemma_digits_end(src, cur + 1);
                }
            }
            proof {
                assert(self.current as int == digits_end(src, d1 as int + 1));
            }
        }
        self.add_token(tokens, TokenType::Number(value));
        proof {
            let st = number_step(src, old(self).start as int, old(self).line);
            assert(toks_view(old(tokens)@).push(st.token->Some_0) =~= toks_view(old(tokens)@)
                + opt_tok(st.token));
        }
    }

    /// Scans the rest of an identifier or keyword; the first character
    /// is already consumed.
    #[verifier::loop_isolation(false)]
    fn identifier(&mut self, tokens: &mut Vec<Token>)
        requires
            old(self).start + 1 == old(self).current,
            old(self).current <= old(self).source@.len(),
            is_alpha(old(self).source@[old(self).start as int]),
        ensures
            final(self).source@ == old(self).source@,
            final(self).start == old(self).start,
            final(self).line == old(self).line,
            final(self).diagnostics@ == old(self).diagnostics@,
            ({
                let st = identifier_step(
                    old(self).source@,
                    old(self).start as int,
                    old(self).line,
                );
                &&& final(self).current == st.next
                &&& toks_view(final(tokens)@) == toks_view(old(tokens)@) + opt_tok(st.token)
            }),
    {
        let ghost src = self.source@;
        let ghost i0 = self.current as int;
        proof {
            lemma_alnum_end(src, i0);
        }
        while is_alnum_char(self.peek())
            invariant
                self.source@ == src,
                self.start == old(self).start,
                self.line == old(self).line,
                self.diagnostics@ == old(self).diagnostics@,
                tokens@ == old(tokens)@,
                i0 <= self.current as int <= alnum_end(src, i0),
                alnum_end(src, self.current as int) == alnum_end(src, i0),
            decreases src.len() - self.current,
        {
            let ghost cur = self.current as int;
            let _ = self.advance();
            proof {
                lemma_alnum_end(src, cur + 1);
            }
        }
        proof {
            assert(self.current as int == alnum_end(src, i0));
        }
        let text = chars_to_string(&self.source, self.start, self.current);
        let token_type = match map_keywords(&text) {
            Some(tt) => tt,
            None => TokenType::Identifier(text),
        };
        self.add_token(tokens, token_type);
        proof {
            let st = identifier_step(src, old(self).start as int, old(self).line);
            assert(toks_view(old(tokens)@).push(st.token->Some_0) =~= toks_view(old(tokens)@)
                + opt_tok(st.token));
        }
    }

    /// Appends a diagnostic at the current line with an empty location.
    fn add_diag(&mut self, message: &str)
        ensures
            final(self).current == old(self).current,
            final(self).source@ == old(self).source@,
            final(self).start == old(self).start,
            final(self).line == old(self).line,
            diags_view(final(self).diagnostics@) == diags_view(old(self).diagnostics@).push(
                DiagnosticV { line: old(self).line, location: Seq::empty(), message: message@ },
            ),
    {
        let ghost msg = message@;
        let d = Diagnostic {
            line: self.line,
            location: String::new(),
            message: message.to_owned(),
        };
        self.diagnostics.push(d);
        proof {
            assert(diags_view(self.diagnostics@) =~~= diags_view(old(self).diagnostics@).push(
                DiagnosticV { line: old(self).line, location: Seq::empty(), message: msg },
            ));
        }
    }

    /// Scans exactly one step: one token, one skipped run (whitespace or
    /// a comment), or one reported unexpected character.
    #[verifier::loop_isolation(false)]
    fn scan_token(&mut self, tokens: &mut Vec<Token>)
        requires
            old(self).start == old(self).current,
            old(self).current < old(self).source@.len(),
        ensures
            final(self).source@ == old(self).source@,
            final(self).start == old(self).start,
            ({
                let st = sp_scan_step(old(self).source@, old(self).current as int, old(self).line);
                &&& final(self).current == st.next
                &&& final(self).line == st.line
                &&& toks_view(final(tokens)@) == toks_view(old(tokens)@) + opt_tok(st.token)
                &&& diags_view(final(self).diagnostics@) == diags_view(old(self).diagnostics@)
                    + opt_diag(st.diag)
            }),
    {
        let ghost src = self.source@;
        let ghost i = self.current as int;
        let ghost line0 = self.line;
        let ghost st = sp_scan_step(src, i, line0);
        let c = self.advance();
        proof {
            lemma_push_tok(toks_view(old(tokens)@));
            lemma_push_diag(diags_view(old(self).diagnostics@));
            assert(toks_view(old(tokens)@) + Seq::<TokenV>::empty() =~= toks_view(old(tokens)@));
            assert(diags_view(old(self).diagnostics@) + Seq::<DiagnosticV>::empty() =~= diags_view(
                old(self).diagnostics@,
            ));
        }
        if c == '(' {
            self.add_token(tokens, TokenType::LeftParen);
        } else if c == ')' {
            self.add_token(tokens, TokenType::RightParen);
        } else if c == '{' {
            self.add_token(tokens, TokenType::LeftBrace);
        } else if c == '}' {
            self.add_token(tokens, TokenType::RightBrace);
        } else if c == ',' {
            self.add_token(tokens, TokenType::Comma);
        } else if c == '.' {
            self.add_token(tokens, TokenType::Dot);
        } else if c == '-' {
            self.add_token(tokens, TokenType::Minus);
        } else if c == '+' {
            self.add_token(tokens, TokenType::Plus);
        } else if c == ';' {
            self.add_token(tokens, TokenType::Semicolon);
        } else if c == '*' {
            self.add_token(tokens, TokenType::Star);
        } else if c == '!' {
            if self.match_next('=') {
                self.add_token(tokens, TokenType::BangEqual);
            } else {
                self.add_token(tokens, TokenType::Bang);
            }
        } else if c == '=' {
            if self.match_next('=') {
                self.add_token(tokens, TokenType::EqualEqual);
            } else {
                self.add_token(tokens, TokenType::Equal);
            }
        } else if c == '<' {
            if self.match_next('=') {
                self.add_token(tokens, TokenType::LessEqual);
            } else {
                self.add_token(tokens, TokenType::Less);
            }
        } else if c == '>' {
            if self.match_next('=') {
                self.add_token(tokens, TokenType::GreaterEqual);
            } else {
                self.add_token(tokens, TokenType::Greater);
            }
        } else if c == '/' {
            if self.match_next('/') {
                proof {
                    lemma_find_nl(src, i + 2);
                }
                while !self.is_at_end() && self.peek() != '\n'
                    invariant
                        self.source@ == src,
                        self.start == old(self).start,
                        self.line == line0,
                        self.diagnostics@ == old(self).diagnostics@,
                        tokens@ == old(tokens)@,
                        i + 2 <= self.current as int <= find_nl(src, i + 2),
                        find_nl(src, self.current as int) == find_nl(src, i + 2),
                    decreases src.len() - self.current,
                {
                    let ghost cur = self.current as int;
                    let _ = self.advance();
                    proof {
                        lemma_find_nl(src, cur + 1);
                    }
                }
                proof {
                    assert(self.current as int == find_nl(src, i + 2));
                }
            } else {
                self.add_token(tokens, TokenType::Slash);
            }
        } else if c == ' ' || c == '\r' || c == '\t' {
        } else if c == '\n' {
            self.next_line();
        } else if c == '"' {
            self.string(tokens);
        } else if is_digit_char(c) {
            self.number(tokens);
        } else if is_alpha_char(c) {
            self.identifier(tokens);
        } else {
            self.add_diag("Unexpected character");
        }
    }

    /// Scans the whole source into tokens, reporting unscannable input
    /// into `diagnostics` and always closing the stream with a
    /// synthetic end-of-input token.
    #[verifier::loop_isolation(false)]
    pub fn scan_tokens(&mut self) -> (tokens: Vec<Token>)
        requires
            old(self).current == 0,
            old(self).line == 1,
            old(self).diagnostics@ == Seq::<Diagnostic>::empty(),
        ensures
            final(self).source@ == old(self).source@,
            toks_view(tokens@) == sp_scan(old(self).source@).toks,
            diags_view(final(self).diagnostics@) == sp_scan(old(self).source@).diags,
    {
        let ghost src = self.source@;
        let mut tokens: Vec<Token> = Vec::new();
        proof {
            assert(toks_view(tokens@) =~= Seq::<TokenV>::empty());
            assert(diags_view(self.diagnostics@) =~= Seq::<DiagnosticV>::empty());
            assert(Seq::<TokenV>::empty() + sp_scan_from(src, 0, 1).toks =~= sp_scan_from(
                src,
                0,
                1,
            ).toks);
            assert(Seq::<DiagnosticV>::empty() + sp_scan_from(src, 0, 1).diags =~= sp_scan_from(
                src,
                0,
                1,
            ).diags);
        }
        while !self.is_at_end()
            invariant
                self.source@ == src,
                self.current <= src.len(),
                sp_scan_from(src, 0, 1).toks == toks_view(tokens@) + sp_scan_from(
                    src,
                    self.current as int,
                    self.line,
                ).toks,
                sp_scan_from(src, 0, 1).diags == diags_view(self.diagnostics@) + sp_scan_from(
                    src,
                    self.current as int,
                    self.line,
                ).diags,
                sp_scan_from(src, 0, 1).line == sp_scan_from(src, self.current as int, self.line).line,
            decreases src.len() - self.current,
        {
            self.start = self.current;
            let ghost cur = self.current as int;
            let ghost ln = self.line;
            let ghost toks0 = toks_view(tokens@);
            let ghost dgs0 = diags_view(self.diagnostics@);
            self.scan_token(&mut tokens);
            proof {
                lemma_step_bounds(src, cur, ln);
                let st = sp_scan_step(src, cur, ln);
                let rest = sp_scan_from(src, st.next, st.line);
                assert(sp_scan_from(src, cur, ln).toks == opt_tok(st.token) + rest.toks);
                assert((toks0 + opt_tok(st.token)) + rest.toks =~= toks0 + (opt_tok(st.token)
                    + rest.toks));
                assert((dgs0 + opt_diag(st.diag)) + rest.diags =~= dgs0 + (opt_diag(st.diag)
                    + rest.diags));
            }
        }
        proof {
            assert(sp_scan_from(src, self.current as int, self.line).toks =~= Seq::<
                TokenV,
            >::empty());
            assert(toks_view(tokens@) + Seq::<TokenV>::empty() =~= toks_view(tokens@));
            assert(diags_view(self.diagnostics@) + Seq::<DiagnosticV>::empty() =~= diags_view(
                self.diagnostics@,
            ));
        }
        let eof_lexeme = String::new();
        tokens.push(Token::new(TokenType::Eof, eof_lexeme, self.line));
        proof {
            assert(toks_view(tokens@) =~~= sp_scan(src).toks);
        }
        tokens
    }
}

/// Appending one token to a stream is concatenation with that token.
proof fn lemma_push_tok(s: Seq<TokenV>)
    ensures
        forall|x: TokenV| #[trigger] s.push(x) == s + seq![x],
{
    assert forall|x: TokenV| #[trigger] s.push(x) == s + seq![x] by {
        assert(s.push(x) =~= s + seq![x]);
    }
}

/// Appending one diagnostic to a stream is concatenation with it.
proof fn lemma_push_diag(s: Seq<DiagnosticV>)
    ensures
        forall|x: DiagnosticV| #[trigger] s.push(x) == s + seq![x],
{
    assert forall|x: DiagnosticV| #[trigger] s.push(x) == s + seq![x] by {
        assert(s.push(x) =~= s + seq![x]);
    }
}

} // verus!
