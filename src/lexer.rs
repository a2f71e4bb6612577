use vstd::prelude::*;

use crate::offsets::{byte_len, byte_offset, bytes_until, char_len_exec, lemma_byte_mono, lemma_byte_step, lemma_text_in, text_in};
use crate::span::Span;

verus! {

/// The kinds of token of the expression language.
#[derive(Clone, Copy, Debug, PartialEq, Eq, Structural)]
pub enum TokenKind {
    Number,
    Identifier,
    LeftParen,
    RightParen,
    Comma,
    Semicolon,
    Assign,
    Plus,
    Minus,
    Star,
    Slash,
    Percent,
    Caret,
    Less,
    Greater,
    LessEqual,
    GreaterEqual,
    EqualEqual,
    Bang,
    Ampersand,
    Pipe,
    /// A character that starts no token.
    Unknown,
    /// The end of the text.
    End,
    /// The end of the text, reached inside a comment that no newline closed.
    EndInComment,
}

/// A token: its kind, where it stands, and its first character.
#[derive(Clone, Copy, Debug, PartialEq, Eq, Structural)]
pub struct Token {
    pub kind: TokenKind,
    pub span: Span,
    pub first: char,
}

pub open spec fn is_end_kind(k: TokenKind) -> bool {
    k == TokenKind::End || k == TokenKind::EndInComment
}

/// Unicode white space, as `char::is_whitespace` has it.
pub open spec fn is_space(c: char) -> bool {
    ('\u{9}' <= c <= '\u{d}') || c == ' ' || c == '\u{85}' || c == '\u{a0}' || c == '\u{1680}' || ('\u{2000}' <= c
        <= '\u{200a}') || c == '\u{2028}' || c == '\u{2029}' || c == '\u{202f}' || c == '\u{205f}' || c == '\u{3000}'
}

pub open spec fn is_digit(c: char) -> bool {
    '0' <= c <= '9'
}

pub open spec fn is_ident_start(c: char) -> bool {
    ('a' <= c <= 'z') || ('A' <= c <= 'Z') || c == '_'
}

pub open spec fn is_ident_continue(c: char) -> bool {
    is_ident_start(c) || is_digit(c)
}

/// First index at or after `i` that holds no digit.
pub open spec fn digits_end(s: Seq<char>, i: int) -> int
    decreases s.len() - i,
{
    if i < 0 || i >= s.len() || !is_digit(s[i]) {
        i
    } else {
        digits_end(s, i + 1)
    }
}

/// First index at or after `i` that holds no identifier character.
pub open spec fn ident_chars_end(s: Seq<char>, i: int) -> int
    decreases s.len() - i,
{
    if i < 0 || i >= s.len() || !is_ident_continue(s[i]) {
        i
    } else {
        ident_chars_end(s, i + 1)
    }
}

/// First index at or after `i` that holds a newline, or the length of `s`.
pub open spec fn line_end(s: Seq<char>, i: int) -> int
    decreases s.len() - i,
{
    if i < 0 || i >= s.len() || s[i] == '\n' {
        i
    } else {
        line_end(s, i + 1)
    }
}

/// End of the number literal that starts at `i`: digits, then optionally
/// a period followed by at least one digit.
pub open spec fn number_end(s: Seq<char>, i: int) -> int {
    let e = digits_end(s, i);
    if e + 1 < s.len() && s[e] == '.' && is_digit(s[e + 1]) {
        digits_end(s, e + 1)
    } else {
        e
    }
}

/// End of the identifier that starts at `i`, one trailing `'` included.
pub open spec fn ident_end(s: Seq<char>, i: int) -> int {
    let e = ident_chars_end(s, i + 1);
    if e < s.len() && s[e] == '\'' {
        e + 1
    } else {
        e
    }
}

pub open spec fn followed_by(s: Seq<char>, i: int, c: char) -> bool {
    i + 1 < s.len() && s[i + 1] == c
}

/// Kind and end of the token that starts at `i`, which holds neither
/// whitespace nor `#`.
pub open spec fn scan_token(s: Seq<char>, i: int) -> (TokenKind, int) {
    let c = s[i];
    if is_ident_start(c) {
        (TokenKind::Identifier, ident_end(s, i))
    } else if is_digit(c) {
        (TokenKind::Number, number_end(s, i))
    } else if c == '<' && followed_by(s, i, '=') {
        (TokenKind::LessEqual, i + 2)
    } else if c == '>' && followed_by(s, i, '=') {
        (TokenKind::GreaterEqual, i + 2)
    } else if c == '=' && followed_by(s, i, '=') {
        (TokenKind::EqualEqual, i + 2)
    } else {
        (single_char_kind(c), i + 1)
    }
}

pub open spec fn single_char_kind(c: char) -> TokenKind {
    if c == '(' {
        TokenKind::LeftParen
    } else if c == ')' {
        TokenKind::RightParen
    } else if c == ',' {
        TokenKind::Comma
    } else if c == ';' {
        TokenKind::Semicolon
    } else if c == '=' {
        TokenKind::Assign
    } else if c == '+' {
        TokenKind::Plus
    } else if c == '-' {
        TokenKind::Minus
    } else if c == '*' {
        TokenKind::Star
    } else if c == '/' {
        TokenKind::Slash
    } else if c == '%' {
        TokenKind::Percent
    } else if c == '^' {
        TokenKind::Caret
    } else if c == '<' {
        TokenKind::Less
    } else if c == '>' {
        TokenKind::Greater
    } else if c == '!' {
        TokenKind::Bang
    } else if c == '&' {
        TokenKind::Ampersand
    } else if c == '|' {
        TokenKind::Pipe
    } else {
        TokenKind::Unknown
    }
}

/// The tokens of `s` from index `i` on. Whitespace and comments (`#` up to
/// the end of the line) separate tokens; the last token marks the end.
pub open spec fn tokens_from(s: Seq<char>, i: int) -> Seq<Token>
    decreases s.len() - i,
{
    if i < 0 || i >= s.len() {
        seq![Token { kind: TokenKind::End, span: Span { start: offset(byte_len(s)), end: offset(byte_len(s)) }, first: ' ' }]
    } else if is_space(s[i]) {
        tokens_from(s, i + 1)
    } else if s[i] == '#' {
        let e = line_end(s, i);
        if e >= s.len() {
            seq![Token { kind: TokenKind::EndInComment, span: Span { start: offset(byte_len(s)), end: offset(byte_len(s)) }, first: ' ' }]
        } else if e < i {
            seq![]
        } else {
            tokens_from(s, e + 1)
        }
    } else if scan_token(s, i).1 <= i || scan_token(s, i).1 > s.len() {
        seq![]
    } else {
        seq![token_at(s, i)] + tokens_from(s, scan_token(s, i).1)
    }
}

/// The token that starts at `i`, which holds neither whitespace nor `#`.
pub open spec fn token_at(s: Seq<char>, i: int) -> Token {
    Token {
        kind: scan_token(s, i).0,
        span: Span { start: offset(byte_offset(s, i)), end: offset(byte_offset(s, scan_token(s, i).1)) },
        first: s[i],
    }
}

/// An offset into the text, as the spans hold it.
pub open spec fn offset(i: int) -> usize {
    i as usize
}

pub open spec fn tokens(s: Seq<char>) -> Seq<Token> {
    tokens_from(s, 0)
}

/// A token sequence that ends with its one end token.
pub open spec fn well_formed(t: Seq<Token>) -> bool {
    &&& t.len() > 0
    &&& is_end_kind(t.last().kind)
    &&& forall|j: int| 0 <= j < t.len() - 1 ==> !is_end_kind(#[trigger] t[j].kind)
}

proof fn lemma_digits_end(s: Seq<char>, i: int)
    requires
        0 <= i <= s.len(),
    ensures
        i <= digits_end(s, i) <= s.len(),
    decreases s.len() - i,
{
    if i < s.len() && is_digit(s[i]) {
        lemma_digits_end(s, i + 1);
    }
}

proof fn lemma_ident_chars_end(s: Seq<char>, i: int)
    requires
        0 <= i <= s.len(),
    ensures
        i <= ident_chars_end(s, i) <= s.len(),
    decreases s.len() - i,
{
    if i < s.len() && is_ident_continue(s[i]) {
        lemma_ident_chars_end(s, i + 1);
    }
}

proof fn lemma_line_end(s: Seq<char>, i: int)
    requires
        0 <= i <= s.len(),
    ensures
        i <= line_end(s, i) <= s.len(),
    decreases s.len() - i,
{
    if i < s.len() && s[i] != '\n' {
        lemma_line_end(s, i + 1);
    }
}

proof fn lemma_scan_token(s: Seq<char>, i: int)
    requires
        0 <= i < s.len(),
    ensures
        i < scan_token(s, i).1 <= s.len(),
{
    lemma_digits_end(s, i);
    lemma_ident_chars_end(s, i + 1);
    let e = digits_end(s, i);
    if e + 1 < s.len() {
        lemma_digits_end(s, e + 1);
    }
}

proof fn lemma_cons_well_formed(t: Token, rest: Seq<Token>)
    requires
        well_formed(rest),
        !is_end_kind(t.kind),
    ensures
        well_formed(seq![t] + rest),
{
    let all = seq![t] + rest;
    assert forall|j: int| 0 <= j < all.len() - 1 implies !is_end_kind(#[trigger] all[j].kind) by {
        if j > 0 {
            assert(all[j] == rest[j - 1]);
        }
    }
    assert(all.last() == rest.last());
}

/// Every token lies in a text of length `len`.
pub open spec fn spans_within(t: Seq<Token>, len: int) -> bool {
    forall|j: int| 0 <= j < t.len() ==> (#[trigger] t[j]).span.start <= t[j].span.end <= len
}

/// The tokens of a text lie in its bytes.
pub proof fn lemma_token_spans(s: Seq<char>, i: int)
    requires
        0 <= i <= s.len(),
        byte_len(s) <= usize::MAX,
    ensures
        spans_within(tokens_from(s, i), byte_len(s)),
    decreases s.len() - i,
{
    if i < s.len() {
        if is_space(s[i]) {
            lemma_token_spans(s, i + 1);
        } else if s[i] == '#' {
            lemma_line_end(s, i);
            let e = line_end(s, i);
            if e < s.len() {
                lemma_token_spans(s, e + 1);
            }
        } else {
            lemma_scan_token(s, i);
            let e = scan_token(s, i).1;
            lemma_token_spans(s, e);
            lemma_byte_mono(s, i, e);
            lemma_byte_mono(s, e, s.len() as int);
            let rest = tokens_from(s, e);
            let all = seq![token_at(s, i)] + rest;
            assert(tokens_from(s, i) == all);
            assert forall|j: int| 0 <= j < all.len() implies (#[trigger] all[j]).span.start <= all[j].span.end <= byte_len(s) by {
                if j > 0 {
                    assert(all[j] == rest[j - 1]);
                }
            }
        }
    }
}

/// A non-empty run of digits.
pub open spec fn all_digits(w: Seq<char>) -> bool {
    w.len() > 0 && forall|k: int| 0 <= k < w.len() ==> is_digit(#[trigger] w[k])
}

/// Digits, optionally followed by a period and more digits.
pub open spec fn is_numeral(w: Seq<char>) -> bool {
    all_digits(w) || exists|d: int|
        0 < d < w.len() - 1 && #[trigger] w[d] == '.' && all_digits(w.subrange(0, d)) && all_digits(w.subrange(d + 1, w.len() as int))
}

/// A letter or `_`, then letters, digits and `_`, with at most one `'` at
/// the end.
pub open spec fn is_name(w: Seq<char>) -> bool {
    &&& w.len() > 0
    &&& is_ident_start(w[0])
    &&& forall|k: int| 1 <= k < w.len() - 1 ==> is_ident_continue(#[trigger] w[k])
    &&& (is_ident_continue(w.last()) || w.last() == '\'')
}

/// The text under a token.
pub open spec fn token_text(s: Seq<char>, k: Token) -> Seq<char> {
    text_in(s, k.span.start as int, k.span.end as int)
}

/// What a token of kind `Number` or `Identifier` covers.
pub open spec fn word_ok(s: Seq<char>, k: Token) -> bool {
    &&& k.kind == TokenKind::Number ==> is_numeral(token_text(s, k))
    &&& k.kind == TokenKind::Identifier ==> is_name(token_text(s, k))
}

proof fn lemma_digits_run(s: Seq<char>, i: int)
    requires
        0 <= i <= s.len(),
    ensures
        forall|k: int| i <= k < digits_end(s, i) ==> is_digit(#[trigger] s[k]),
    decreases s.len() - i,
{
    if i < s.len() && is_digit(s[i]) {
        lemma_digits_run(s, i + 1);
    }
}

proof fn lemma_ident_chars_run(s: Seq<char>, i: int)
    requires
        0 <= i <= s.len(),
    ensures
        forall|k: int| i <= k < ident_chars_end(s, i) ==> is_ident_continue(#[trigger] s[k]),
    decreases s.len() - i,
{
    if i < s.len() && is_ident_continue(s[i]) {
        lemma_ident_chars_run(s, i + 1);
    }
}

proof fn lemma_word_at(s: Seq<char>, i: int)
    requires
        0 <= i < s.len(),
        byte_len(s) <= usize::MAX,
        !is_space(s[i]),
        s[i] != '#',
    ensures
        word_ok(s, token_at(s, i)),
{
    lemma_scan_token(s, i);
    let e = scan_token(s, i).1;
    let w = s.subrange(i, e);
    lemma_byte_mono(s, i, e);
    lemma_byte_mono(s, e, s.len() as int);
    lemma_text_in(s, i, e);
    assert(token_text(s, token_at(s, i)) == w);
    if is_ident_start(s[i]) {
        lemma_ident_chars_end(s, i + 1);
        lemma_ident_chars_run(s, i + 1);
        let e1 = ident_chars_end(s, i + 1);
        assert forall|k: int| 1 <= k < w.len() - 1 implies is_ident_continue(#[trigger] w[k]) by {
            assert(w[k] == s[i + k]);
        }
        assert(w[0] == s[i]);
        assert(w.last() == s[e - 1]);
        if e == e1 && e1 > i + 1 {
            assert(is_ident_continue(s[e1 - 1]));
        }
        assert(is_name(w));
    } else if is_digit(s[i]) {
        lemma_digits_end(s, i);
        lemma_digits_run(s, i);
        let e1 = digits_end(s, i);
        if e1 + 1 < s.len() && s[e1] == '.' && is_digit(s[e1 + 1]) {
            lemma_digits_end(s, e1 + 1);
            lemma_digits_end(s, e1 + 2);
            lemma_digits_end(s, i + 1);
            lemma_digits_run(s, e1 + 1);
            let d = e1 - i;
            assert(e1 > i);
            assert(e > e1 + 1);
            assert(w[d] == '.');
            assert forall|k: int| 0 <= k < w.subrange(0, d).len() implies is_digit(#[trigger] w.subrange(0, d)[k]) by {
                assert(w.subrange(0, d)[k] == s[i + k]);
            }
            assert forall|k: int| 0 <= k < w.subrange(d + 1, w.len() as int).len() implies is_digit(
                #[trigger] w.subrange(d + 1, w.len() as int)[k],
            ) by {
                assert(w.subrange(d + 1, w.len() as int)[k] == s[e1 + 1 + k]);
            }
            assert(all_digits(w.subrange(0, d)));
            assert(all_digits(w.subrange(d + 1, w.len() as int)));
            assert(0 < d < w.len() - 1);
            assert(is_numeral(w));
        } else {
            assert forall|k: int| 0 <= k < w.len() implies is_digit(#[trigger] w[k]) by {
                assert(w[k] == s[i + k]);
            }
            assert(all_digits(w));
        }
        assert(is_numeral(w));
    } else {
        assert(token_at(s, i).kind != TokenKind::Number);
        assert(token_at(s, i).kind != TokenKind::Identifier);
    }
}

/// Every number token of a text covers a numeral, every identifier token
/// a name.
pub proof fn lemma_token_words(s: Seq<char>, i: int)
    requires
        0 <= i <= s.len(),
        byte_len(s) <= usize::MAX,
    ensures
        forall|j: int| 0 <= j < tokens_from(s, i).len() ==> word_ok(s, #[trigger] tokens_from(s, i)[j]),
    decreases s.len() - i,
{
    let t = tokens_from(s, i);
    if i < s.len() {
        if is_space(s[i]) {
            lemma_token_words(s, i + 1);
            assert(t == tokens_from(s, i + 1));
        } else if s[i] == '#' {
            lemma_line_end(s, i);
            let e = line_end(s, i);
            if e < s.len() {
                lemma_token_words(s, e + 1);
                assert(t == tokens_from(s, e + 1));
            } else {
                assert forall|j: int| 0 <= j < t.len() implies word_ok(s, #[trigger] t[j]) by {
                    assert(t[j].kind == TokenKind::EndInComment);
                }
            }
        } else {
            lemma_scan_token(s, i);
            let e = scan_token(s, i).1;
            lemma_token_words(s, e);
            lemma_word_at(s, i);
            let rest = tokens_from(s, e);
            let all = seq![token_at(s, i)] + rest;
            assert(t == all);
            assert forall|j: int| 0 <= j < all.len() implies word_ok(s, #[trigger] all[j]) by {
                if j > 0 {
                    assert(all[j] == rest[j - 1]);
                }
            }
        }
    } else {
        assert forall|j: int| 0 <= j < t.len() implies word_ok(s, #[trigger] t[j]) by {
            assert(t[j].kind == TokenKind::End);
        }
    }
}

/// A text of `n` characters has at most `n + 1` tokens.
pub proof fn lemma_tokens_len(s: Seq<char>, i: int)
    requires
        0 <= i <= s.len(),
    ensures
        tokens_from(s, i).len() <= s.len() - i + 1,
    decreases s.len() - i,
{
    if i < s.len() {
        if is_space(s[i]) {
            lemma_tokens_len(s, i + 1);
        } else if s[i] == '#' {
            lemma_line_end(s, i);
            let e = line_end(s, i);
            if e < s.len() {
                lemma_tokens_len(s, e + 1);
            }
        } else {
            lemma_scan_token(s, i);
            lemma_tokens_len(s, scan_token(s, i).1);
        }
    }
}

/// The tokens of any text end with their one end token.
pub proof fn lemma_tokens_well_formed(s: Seq<char>, i: int)
    requires
        0 <= i <= s.len(),
    ensures
        well_formed(tokens_from(s, i)),
    decreases s.len() - i,
{
    if i < s.len() {
        if is_space(s[i]) {
            lemma_tokens_well_formed(s, i + 1);
        } else if s[i] == '#' {
            lemma_line_end(s, i);
            let e = line_end(s, i);
            if e < s.len() {
                lemma_tokens_well_formed(s, e + 1);
            }
        } else {
            lemma_scan_token(s, i);
            let e = scan_token(s, i).1;
            lemma_tokens_well_formed(s, e);
            lemma_cons_well_formed(token_at(s, i), tokens_from(s, e));
        }
    }
}

fn is_space_exec(c: char) -> (r: bool)
    ensures
        r == is_space(c),
{
    ('\u{9}' <= c && c <= '\u{d}') || c == ' ' || c == '\u{85}' || c == '\u{a0}' || c == '\u{1680}' || ('\u{2000}' <= c
        && c <= '\u{200a}') || c == '\u{2028}' || c == '\u{2029}' || c == '\u{202f}' || c == '\u{205f}' || c == '\u{3000}'
}

fn is_digit_exec(c: char) -> (r: bool)
    ensures
        r == is_digit(c),
{
    '0' <= c && c <= '9'
}

fn is_ident_start_exec(c: char) -> (r: bool)
    ensures
        r == is_ident_start(c),
{
    ('a' <= c && c <= 'z') || ('A' <= c && c <= 'Z') || c == '_'
}

fn digits_end_exec(s: &Vec<char>, i: usize) -> (r: usize)
    requires
        i <= s.len(),
    ensures
        r == digits_end(s@, i as int),
{
    let mut j = i;
    while j < s.len() && is_digit_exec(s[j])
        invariant
            i <= j <= s.len(),
            digits_end(s@, i as int) == digits_end(s@, j as int),
        decreases s.len() - j,
    {
        j = j + 1;
    }
    j
}

fn ident_chars_end_exec(s: &Vec<char>, i: usize) -> (r: usize)
    requires
        i <= s.len(),
    ensures
        r == ident_chars_end(s@, i as int),
{
    let mut j = i;
    while j < s.len() && (is_ident_start_exec(s[j]) || is_digit_exec(s[j]))
        invariant
            i <= j <= s.len(),
            ident_chars_end(s@, i as int) == ident_chars_end(s@, j as int),
        decreases s.len() - j,
    {
        j = j + 1;
    }
    j
}

fn line_end_exec(s: &Vec<char>, i: usize) -> (r: usize)
    requires
        i <= s.len(),
    ensures
        r == line_end(s@, i as int),
{
    let mut j = i;
    while j < s.len() && s[j] != '\n'
        invariant
            i <= j <= s.len(),
            line_end(s@, i as int) == line_end(s@, j as int),
        decreases s.len() - j,
    {
        j = j + 1;
    }
    j
}

fn followed_by_exec(s: &Vec<char>, i: usize, c: char) -> (r: bool)
    requires
        i < s.len(),
    ensures
        r == followed_by(s@, i as int, c),
{
    i + 1 < s.len() && s[i + 1] == c
}

fn single_char_kind_exec(c: char) -> (r: TokenKind)
    ensures
        r == single_char_kind(c),
{
    if c == '(' {
        TokenKind::LeftParen
    } else if c == ')' {
        TokenKind::RightParen
    } else if c == ',' {
        TokenKind::Comma
    } else if c == ';' {
        TokenKind::Semicolon
    } else if c == '=' {
        TokenKind::Assign
    } else if c == '+' {
        TokenKind::Plus
    } else if c == '-' {
        TokenKind::Minus
    } else if c == '*' {
        TokenKind::Star
    } else if c == '/' {
        TokenKind::Slash
    } else if c == '%' {
        TokenKind::Percent
    } else if c == '^' {
        TokenKind::Caret
    } else if c == '<' {
        TokenKind::Less
    } else if c == '>' {
        TokenKind::Greater
    } else if c == '!' {
        TokenKind::Bang
    } else if c == '&' {
        TokenKind::Ampersand
    } else if c == '|' {
        TokenKind::Pipe
    } else {
        TokenKind::Unknown
    }
}

fn scan_token_exec(s: &Vec<char>, i: usize) -> (r: (TokenKind, usize))
    requires
        i < s.len(),
    ensures
        r.0 == scan_token(s@, i as int).0,
        r.1 as int == scan_token(s@, i as int).1,
        i < r.1 <= s.len(),
{
    proof {
        lemma_scan_token(s@, i as int);
    }
    let c = s[i];
    if is_ident_start_exec(c) {
        proof {
            lemma_ident_chars_end(s@, i + 1);
        }
        let e = ident_chars_end_exec(s, i + 1);
        if e < s.len() && s[e] == '\'' {
            (TokenKind::Identifier, e + 1)
        } else {
            (TokenKind::Identifier, e)
        }
    } else if is_digit_exec(c) {
        proof {
            lemma_digits_end(s@, i as int);
        }
        let e = digits_end_exec(s, i);
        if e < s.len() && s[e] == '.' && e + 1 < s.len() && is_digit_exec(s[e + 1]) {
            (TokenKind::Number, digits_end_exec(s, e + 1))
        } else {
            (TokenKind::Number, e)
        }
    } else if c == '<' && followed_by_exec(s, i, '=') {
        (TokenKind::LessEqual, i + 2)
    } else if c == '>' && followed_by_exec(s, i, '=') {
        (TokenKind::GreaterEqual, i + 2)
    } else if c == '=' && followed_by_exec(s, i, '=') {
        (TokenKind::EqualEqual, i + 2)
    } else {
        (single_char_kind_exec(c), i + 1)
    }
}

/// Splits `s` into tokens, with spans in bytes of its UTF-8 text; the last
/// token marks the end of the text.
pub fn tokenize(s: &Vec<char>) -> (r: Vec<Token>)
    requires
        byte_len(s@) <= usize::MAX,
    ensures
        r@ == tokens(s@),
        well_formed(r@),
{
    proof {
        lemma_tokens_well_formed(s@, 0);
        lemma_byte_mono(s@, 0, s@.len() as int);
    }
    let mut out: Vec<Token> = Vec::new();
    let mut i: usize = 0;
    let mut b: usize = 0;
    let n = s.len();
    while i < n
        invariant
            n == s.len(),
            i <= n,
            b == byte_offset(s@, i as int),
            byte_len(s@) <= usize::MAX,
            tokens(s@) == out@ + tokens_from(s@, i as int),
            well_formed(tokens(s@)),
        decreases n - i,
    {
        let c = s[i];
        if is_space_exec(c) {
            b = bytes_until(s, i, i + 1, b);
            i = i + 1;
        } else if c == '#' {
            proof {
                lemma_line_end(s@, i as int);
            }
            let e = line_end_exec(s, i);
            if e >= n {
                let end = bytes_until(s, i, n, b);
                let t = Token { kind: TokenKind::EndInComment, span: Span { start: end, end }, first: ' ' };
                proof {
                    assert(s@.subrange(0, n as int) =~= s@);
                    assert(tokens_from(s@, i as int) == seq![t]);
                    assert(out@.push(t) == out@ + seq![t]);
                }
                out.push(t);
                proof {
                    assert(out@ == tokens(s@));
                }
                return out;
            }
            b = bytes_until(s, i, e + 1, b);
            i = e + 1;
        } else {
            let (k, e) = scan_token_exec(s, i);
            let be = bytes_until(s, i, e, b);
            let t = Token { kind: k, span: Span { start: b, end: be }, first: c };
            proof {
                assert(tokens_from(s@, i as int) == seq![t] + tokens_from(s@, e as int));
                assert(out@.push(t) + tokens_from(s@, e as int) == out@ + (seq![t] + tokens_from(s@, e as int)));
            }
            out.push(t);
            i = e;
            b = be;
        }
    }
    proof {
        assert(s@.subrange(0, n as int) =~= s@);
    }
    out.push(Token { kind: TokenKind::End, span: Span { start: b, end: b }, first: ' ' });
    proof {
        assert(out@ == tokens(s@));
    }
    out
}

} // verus!
