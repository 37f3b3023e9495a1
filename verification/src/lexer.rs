//! The lexer: turns source text into a sequence of tokens.
use vstd::prelude::*;
use crate::errors::{ErrorKind, LanguageError, LanguageResult, LexerError, Span};
use vstd::slice::slice_subrange;
use crate::operators::{law_operator_table_kinds, operator_kind};
use crate::text::{byte_offset, bytes_len, char_is_ascii_alpha, char_is_numeric, char_utf8_len, chars_of, chars_start_with, is_ascii_alpha, is_blank, is_numeric, lemma_byte_offset_injective, lemma_byte_offset_mono, lemma_byte_offset_step, seq_starts_with, str_byte_len, string_from_chars};

verus! {

/// A token together with its byte range in the source.
#[derive(Debug, PartialEq)]
pub struct Token {
    pub kind: TokenKind,
    pub start: usize,
    pub end: usize,
}

/// The kinds of tokens.
#[derive(Debug, PartialEq)]
pub enum TokenKind {
    Keyword(KeywordKind),
    Identifier { value: String },
    NumericLiteral { value: String },
    BooleanLiteral { value: bool },
    StringLiteral { value: String },
    Plus,
    Minus,
    Asterisk,
    Slash,
    Percent,
    Assign,
    PlusEqual,
    MinusEqual,
    AsteriskEqual,
    SlashEqual,
    PercentEqual,
    EQ,
    NE,
    GT,
    GTE,
    LT,
    LTE,
    OpeningParenthesis,
    ClosingParenthesis,
    OpeningBracket,
    ClosingBracket,
    OpeningSquareBracket,
    ClosingSquareBracket,
    Comma,
    Range,
    And,
    Or,
    Period,
    Colon,
    Arrow,
    Bang,
}

/// The reserved words of the language.
#[derive(Debug, Copy, PartialEq, Eq, Structural)]
pub enum KeywordKind {
    If,
    Else,
    For,
    While,
    In,
    Fn,
    Return,
    Break,
    Throw,
    Try,
    Catch,
    Let,
    Export,
    Import,
    From,
    Class,
    Public,
    Protected,
    Private,
}

/// The view of a token kind: the variants that carry text hold it as a
/// character sequence; all other variants stand for themselves.
pub enum SpecTokenKind {
    Identifier(Seq<char>),
    NumericLiteral(Seq<char>),
    StringLiteral(Seq<char>),
    Other(TokenKind),
}

/// The view of a token.
pub struct SpecToken {
    pub kind: SpecTokenKind,
    pub start: nat,
    pub end: nat,
}

impl View for TokenKind {
    type V = SpecTokenKind;

    open spec fn view(&self) -> SpecTokenKind {
        match self {
            TokenKind::Identifier { value } => SpecTokenKind::Identifier(value@),
            TokenKind::NumericLiteral { value } => SpecTokenKind::NumericLiteral(value@),
            TokenKind::StringLiteral { value } => SpecTokenKind::StringLiteral(value@),
            _ => SpecTokenKind::Other(*self),
        }
    }
}

impl View for Token {
    type V = SpecToken;

    open spec fn view(&self) -> SpecToken {
        SpecToken { kind: self.kind@, start: self.start as nat, end: self.end as nat }
    }
}

/// The views of a sequence of tokens.
pub open spec fn tokens_view(ts: Seq<Token>) -> Seq<SpecToken> {
    ts.map_values(|t: Token| t@)
}

impl Clone for KeywordKind {
    fn clone(&self) -> (r: Self)
        ensures
            r == *self,
    {
        *self
    }
}

impl Clone for TokenKind {
    fn clone(&self) -> (r: Self)
        ensures
            r == *self,
    {
        match self {
            TokenKind::Keyword(k) => TokenKind::Keyword(*k),
            TokenKind::Identifier { value } => TokenKind::Identifier { value: value.clone() },
            TokenKind::NumericLiteral { value } => TokenKind::NumericLiteral { value: value.clone() },
            TokenKind::BooleanLiteral { value } => TokenKind::BooleanLiteral { value: *value },
            TokenKind::StringLiteral { value } => TokenKind::StringLiteral { value: value.clone() },
            TokenKind::Plus => TokenKind::Plus,
            TokenKind::Minus => TokenKind::Minus,
            TokenKind::Asterisk => TokenKind::Asterisk,
            TokenKind::Slash => TokenKind::Slash,
            TokenKind::Percent => TokenKind::Percent,
            TokenKind::Assign => TokenKind::Assign,
            TokenKind::PlusEqual => TokenKind::PlusEqual,
            TokenKind::MinusEqual => TokenKind::MinusEqual,
            TokenKind::AsteriskEqual => TokenKind::AsteriskEqual,
            TokenKind::SlashEqual => TokenKind::SlashEqual,
            TokenKind::PercentEqual => TokenKind::PercentEqual,
            TokenKind::EQ => TokenKind::EQ,
            TokenKind::NE => TokenKind::NE,
            TokenKind::GT => TokenKind::GT,
            TokenKind::GTE => TokenKind::GTE,
            TokenKind::LT => TokenKind::LT,
            TokenKind::LTE => TokenKind::LTE,
            TokenKind::OpeningParenthesis => TokenKind::OpeningParenthesis,
            TokenKind::ClosingParenthesis => TokenKind::ClosingParenthesis,
            TokenKind::OpeningBracket => TokenKind::OpeningBracket,
            TokenKind::ClosingBracket => TokenKind::ClosingBracket,
            TokenKind::OpeningSquareBracket => TokenKind::OpeningSquareBracket,
            TokenKind::ClosingSquareBracket => TokenKind::ClosingSquareBracket,
            TokenKind::Comma => TokenKind::Comma,
            TokenKind::Range => TokenKind::Range,
            TokenKind::And => TokenKind::And,
            TokenKind::Or => TokenKind::Or,
            TokenKind::Period => TokenKind::Period,
            TokenKind::Colon => TokenKind::Colon,
            TokenKind::Arrow => TokenKind::Arrow,
            TokenKind::Bang => TokenKind::Bang,
        }
    }
}

impl Clone for Token {
    fn clone(&self) -> (r: Self)
        ensures
            r == *self,
    {
        Token { kind: self.kind.clone(), start: self.start, end: self.end }
    }
}

/// Whether a token kind is a keyword.
pub open spec fn is_keyword(k: SpecTokenKind) -> bool {
    k matches SpecTokenKind::Other(TokenKind::Keyword(_))
}

/// The text that `π` stands for: `std::f32::consts::PI` printed by `to_string`.
pub open spec fn pi_text() -> Seq<char> {
    seq!['3', '.', '1', '4', '1', '5', '9', '2', '7']
}

/// The fixed table of punctuation, keywords, boolean literals and operators,
/// in the order in which the table lists them.
#[verifier::opaque]
pub open spec fn spec_table() -> Seq<(Seq<char>, SpecTokenKind)> {
    seq![
        (seq!['('], SpecTokenKind::Other(TokenKind::OpeningParenthesis)),
        (seq![')'], SpecTokenKind::Other(TokenKind::ClosingParenthesis)),
        (seq!['{'], SpecTokenKind::Other(TokenKind::OpeningBracket)),
        (seq!['}'], SpecTokenKind::Other(TokenKind::ClosingBracket)),
        (seq!['['], SpecTokenKind::Other(TokenKind::OpeningSquareBracket)),
        (seq![']'], SpecTokenKind::Other(TokenKind::ClosingSquareBracket)),
        (seq![','], SpecTokenKind::Other(TokenKind::Comma)),
        (seq!['.', '.'], SpecTokenKind::Other(TokenKind::Range)),
        (seq!['.'], SpecTokenKind::Other(TokenKind::Period)),
        (seq![':'], SpecTokenKind::Other(TokenKind::Colon)),
        (seq!['i', 'f'], SpecTokenKind::Other(TokenKind::Keyword(KeywordKind::If))),
        (seq!['e', 'l', 's', 'e'], SpecTokenKind::Other(TokenKind::Keyword(KeywordKind::Else))),
        (seq!['f', 'o', 'r'], SpecTokenKind::Other(TokenKind::Keyword(KeywordKind::For))),
        (seq!['w', 'h', 'i', 'l', 'e'], SpecTokenKind::Other(TokenKind::Keyword(KeywordKind::While))),
        (seq!['i', 'n'], SpecTokenKind::Other(TokenKind::Keyword(KeywordKind::In))),
        (seq!['f', 'n'], SpecTokenKind::Other(TokenKind::Keyword(KeywordKind::Fn))),
        (seq!['r', 'e', 't', 'u', 'r', 'n'], SpecTokenKind::Other(TokenKind::Keyword(KeywordKind::Return))),
        (seq!['b', 'r', 'e', 'a', 'k'], SpecTokenKind::Other(TokenKind::Keyword(KeywordKind::Break))),
        (seq!['t', 'h', 'r', 'o', 'w'], SpecTokenKind::Other(TokenKind::Keyword(KeywordKind::Throw))),
        (seq!['t', 'r', 'y'], SpecTokenKind::Other(TokenKind::Keyword(KeywordKind::Try))),
        (seq!['c', 'a', 't', 'c', 'h'], SpecTokenKind::Other(TokenKind::Keyword(KeywordKind::Catch))),
        (seq!['l', 'e', 't'], SpecTokenKind::Other(TokenKind::Keyword(KeywordKind::Let))),
        (seq!['e', 'x', 'p', 'o', 'r', 't'], SpecTokenKind::Other(TokenKind::Keyword(KeywordKind::Export))),
        (seq!['i', 'm', 'p', 'o', 'r', 't'], SpecTokenKind::Other(TokenKind::Keyword(KeywordKind::Import))),
        (seq!['f', 'r', 'o', 'm'], SpecTokenKind::Other(TokenKind::Keyword(KeywordKind::From))),
        (seq!['c', 'l', 'a', 's', 's'], SpecTokenKind::Other(TokenKind::Keyword(KeywordKind::Class))),
        (seq!['p', 'u', 'b', 'l', 'i', 'c'], SpecTokenKind::Other(TokenKind::Keyword(KeywordKind::Public))),
        (seq!['p', 'r', 'o', 't', 'e', 'c', 't', 'e', 'd'], SpecTokenKind::Other(TokenKind::Keyword(KeywordKind::Protected))),
        (seq!['p', 'r', 'i', 'v', 'a', 't', 'e'], SpecTokenKind::Other(TokenKind::Keyword(KeywordKind::Private))),
        (seq!['t', 'r', 'u', 'e'], SpecTokenKind::Other(TokenKind::BooleanLiteral { value: true })),
        (seq!['f', 'a', 'l', 's', 'e'], SpecTokenKind::Other(TokenKind::BooleanLiteral { value: false })),
        (seq!['=', '='], SpecTokenKind::Other(TokenKind::EQ)),
        (seq!['!', '='], SpecTokenKind::Other(TokenKind::NE)),
        (seq!['<', '='], SpecTokenKind::Other(TokenKind::LTE)),
        (seq!['<'], SpecTokenKind::Other(TokenKind::LT)),
        (seq!['>', '='], SpecTokenKind::Other(TokenKind::GTE)),
        (seq!['>'], SpecTokenKind::Other(TokenKind::GT)),
        (seq!['='], SpecTokenKind::Other(TokenKind::Assign)),
        (seq!['+'], SpecTokenKind::Other(TokenKind::Plus)),
        (seq!['-'], SpecTokenKind::Other(TokenKind::Minus)),
        (seq!['*'], SpecTokenKind::Other(TokenKind::Asterisk)),
        (seq!['/'], SpecTokenKind::Other(TokenKind::Slash)),
        (seq!['%'], SpecTokenKind::Other(TokenKind::Percent)),
        (seq!['!'], SpecTokenKind::Other(TokenKind::Bang)),
        (seq!['+', '='], SpecTokenKind::Other(TokenKind::PlusEqual)),
        (seq!['-', '='], SpecTokenKind::Other(TokenKind::MinusEqual)),
        (seq!['*', '='], SpecTokenKind::Other(TokenKind::AsteriskEqual)),
        (seq!['/', '='], SpecTokenKind::Other(TokenKind::SlashEqual)),
        (seq!['%', '='], SpecTokenKind::Other(TokenKind::PercentEqual)),
        (seq!['&', '&'], SpecTokenKind::Other(TokenKind::And)),
        (seq!['|', '|'], SpecTokenKind::Other(TokenKind::Or)),
        (seq!['=', '>'], SpecTokenKind::Other(TokenKind::Arrow)),
        (seq!['\u{3c0}'], SpecTokenKind::NumericLiteral(pi_text())),
    ]
}

/// The table of fixed lexemes with their token kinds, as a vector whose
/// keys are pairwise distinct.
#[verifier::rlimit(50)]
pub fn match_table() -> (r: Vec<(&'static str, TokenKind)>)
    ensures
        r@.len() == spec_table().len(),
        forall|i: int| 0 <= i < r@.len() ==> (#[trigger] r@[i]).0@ == spec_table()[i].0 && r@[i].1@ == spec_table()[i].1,
{
    reveal(spec_table);
    let mut map: Vec<(&'static str, TokenKind)> = Vec::new();
    proof { reveal_strlit("("); }
    map.push(("(", TokenKind::OpeningParenthesis));
    proof { reveal_strlit(")"); }
    map.push((")", TokenKind::ClosingParenthesis));
    proof { reveal_strlit("{"); }
    map.push(("{", TokenKind::OpeningBracket));
    proof { reveal_strlit("}"); }
    map.push(("}", TokenKind::ClosingBracket));
    proof { reveal_strlit("["); }
    map.push(("[", TokenKind::OpeningSquareBracket));
    proof { reveal_strlit("]"); }
    map.push(("]", TokenKind::ClosingSquareBracket));
    proof { reveal_strlit(","); }
    map.push((",", TokenKind::Comma));
    proof { reveal_strlit(".."); }
    map.push(("..", TokenKind::Range));
    proof { reveal_strlit("."); }
    map.push((".", TokenKind::Period));
    proof { reveal_strlit(":"); }
    map.push((":", TokenKind::Colon));
    proof { reveal_strlit("if"); }
    map.push(("if", TokenKind::Keyword(KeywordKind::If)));
    proof { reveal_strlit("else"); }
    map.push(("else", TokenKind::Keyword(KeywordKind::Else)));
    proof { reveal_strlit("for"); }
    map.push(("for", TokenKind::Keyword(KeywordKind::For)));
    proof { reveal_strlit("while"); }
    map.push(("while", TokenKind::Keyword(KeywordKind::While)));
    proof { reveal_strlit("in"); }
    map.push(("in", TokenKind::Keyword(KeywordKind::In)));
    proof { reveal_strlit("fn"); }
    map.push(("fn", TokenKind::Keyword(KeywordKind::Fn)));
    proof { reveal_strlit("return"); }
    map.push(("return", TokenKind::Keyword(KeywordKind::Return)));
    proof { reveal_strlit("break"); }
    map.push(("break", TokenKind::Keyword(KeywordKind::Break)));
    proof { reveal_strlit("throw"); }
    map.push(("throw", TokenKind::Keyword(KeywordKind::Throw)));
    proof { reveal_strlit("try"); }
    map.push(("try", TokenKind::Keyword(KeywordKind::Try)));
    proof { reveal_strlit("catch"); }
    map.push(("catch", TokenKind::Keyword(KeywordKind::Catch)));
    proof { reveal_strlit("let"); }
    map.push(("let", TokenKind::Keyword(KeywordKind::Let)));
    proof { reveal_strlit("export"); }
    map.push(("export", TokenKind::Keyword(KeywordKind::Export)));
    proof { reveal_strlit("import"); }
    map.push(("import", TokenKind::Keyword(KeywordKind::Import)));
    proof { reveal_strlit("from"); }
    map.push(("from", TokenKind::Keyword(KeywordKind::From)));
    proof { reveal_strlit("class"); }
    map.push(("class", TokenKind::Keyword(KeywordKind::Class)));
    proof { reveal_strlit("public"); }
    map.push(("public", TokenKind::Keyword(KeywordKind::Public)));
    proof { reveal_strlit("protected"); }
    map.push(("protected", TokenKind::Keyword(KeywordKind::Protected)));
    proof { reveal_strlit("private"); }
    map.push(("private", TokenKind::Keyword(KeywordKind::Private)));
    proof { reveal_strlit("true"); }
    map.push(("true", TokenKind::BooleanLiteral { value: true }));
    proof { reveal_strlit("false"); }
    map.push(("false", TokenKind::BooleanLiteral { value: false }));
    proof { reveal_strlit("=="); }
    map.push(("==", TokenKind::EQ));
    proof { reveal_strlit("!="); }
    map.push(("!=", TokenKind::NE));
    proof { reveal_strlit("<="); }
    map.push(("<=", TokenKind::LTE));
    proof { reveal_strlit("<"); }
    map.push(("<", TokenKind::LT));
    proof { reveal_strlit(">="); }
    map.push((">=", TokenKind::GTE));
    proof { reveal_strlit(">"); }
    map.push((">", TokenKind::GT));
    proof { reveal_strlit("="); }
    map.push(("=", TokenKind::Assign));
    proof { reveal_strlit("+"); }
    map.push(("+", TokenKind::Plus));
    proof { reveal_strlit("-"); }
    map.push(("-", TokenKind::Minus));
    proof { reveal_strlit("*"); }
    map.push(("*", TokenKind::Asterisk));
    proof { reveal_strlit("/"); }
    map.push(("/", TokenKind::Slash));
    proof { reveal_strlit("%"); }
    map.push(("%", TokenKind::Percent));
    proof { reveal_strlit("!"); }
    map.push(("!", TokenKind::Bang));
    proof { reveal_strlit("+="); }
    map.push(("+=", TokenKind::PlusEqual));
    proof { reveal_strlit("-="); }
    map.push(("-=", TokenKind::MinusEqual));
    proof { reveal_strlit("*="); }
    map.push(("*=", TokenKind::AsteriskEqual));
    proof { reveal_strlit("/="); }
    map.push(("/=", TokenKind::SlashEqual));
    proof { reveal_strlit("%="); }
    map.push(("%=", TokenKind::PercentEqual));
    proof { reveal_strlit("&&"); }
    map.push(("&&", TokenKind::And));
    proof { reveal_strlit("||"); }
    map.push(("||", TokenKind::Or));
    proof { reveal_strlit("=>"); }
    map.push(("=>", TokenKind::Arrow));
    let pi = "\u{3c0}";
    proof { reveal_strlit("\u{3c0}"); }
    let value = string_from_chars(&['3', '.', '1', '4', '1', '5', '9', '2', '7']);
    proof { assert(value@ =~= pi_text()); }
    map.push((pi, TokenKind::NumericLiteral { value }));
    proof {
        assert forall|i: int| 0 <= i < map@.len() implies (#[trigger] map@[i]).0@ == spec_table()[i].0 && map@[i].1@ == spec_table()[i].1 by {
        }
    }
    map
}

/// What lexing yields: tokens, the error for a string literal that is never
/// closed (with the byte range it reports), or a panic of the slicing the
/// lexing performs on byte offsets that are not character boundaries.
pub enum LexOutcome {
    Tokens(Seq<SpecToken>),
    Unterminated { start: nat, end: nat },
    Panics,
}

/// `o` with `ts` put in front of its tokens.
pub open spec fn prepend_tokens(ts: Seq<SpecToken>, o: LexOutcome) -> LexOutcome {
    match o {
        LexOutcome::Tokens(rest) => LexOutcome::Tokens(ts + rest),
        _ => o,
    }
}

/// The kind of table entry `j`, if any.
pub open spec fn table_len(best: Option<int>) -> nat {
    match best {
        Some(j) => spec_table()[j].0.len(),
        None => 0,
    }
}

/// Index of the longest table key among entries `j..` that `s` starts with,
/// given the best entry among the earlier ones.
pub open spec fn longest_from(s: Seq<char>, j: int, best: Option<int>) -> Option<int>
    decreases spec_table().len() - j,
{
    if j < 0 || j >= spec_table().len() {
        best
    } else if seq_starts_with(s, spec_table()[j].0) && spec_table()[j].0.len() > table_len(best) {
        longest_from(s, j + 1, Some(j))
    } else {
        longest_from(s, j + 1, best)
    }
}

/// Index of the longest table key that `s` starts with.
pub open spec fn longest_match(s: Seq<char>) -> Option<int> {
    longest_from(s, 0, None)
}

/// A keyword is taken as such only when a character follows it that is
/// neither an ASCII letter nor an underscore; other lexemes always are.
pub open spec fn accepts(kind: SpecTokenKind, cs: Seq<char>, after: int) -> bool {
    !is_keyword(kind) || (0 <= after < cs.len() && !(is_ascii_alpha(cs[after]) || cs[after] == '_'))
}

/// The first index at or after `i` that holds no numeric character.
pub open spec fn numeric_run_end(cs: Seq<char>, i: int) -> int
    decreases cs.len() - i,
{
    if 0 <= i < cs.len() && is_numeric(cs[i]) {
        numeric_run_end(cs, i + 1)
    } else {
        i
    }
}

/// Where a number that starts at `i` ends: a run of numeric characters,
/// optionally followed by `.` and a second run that has at least one numeric
/// character.
pub open spec fn number_end(cs: Seq<char>, i: int) -> int {
    let j = numeric_run_end(cs, i);
    if 0 <= j < cs.len() && cs[j] == '.' && j + 1 < cs.len() && is_numeric(cs[j + 1]) {
        numeric_run_end(cs, j + 2)
    } else {
        j
    }
}

/// Characters that may continue an identifier.
pub open spec fn is_word_char(c: char) -> bool {
    is_ascii_alpha(c) || c == '_' || is_numeric(c)
}

/// The first index at or after `i` that holds no word character.
pub open spec fn word_end(cs: Seq<char>, i: int) -> int
    decreases cs.len() - i,
{
    if 0 <= i < cs.len() && is_word_char(cs[i]) {
        word_end(cs, i + 1)
    } else {
        i
    }
}

/// The index of the first `"` at or after `i`.
pub open spec fn closing_quote(cs: Seq<char>, i: int) -> Option<int>
    decreases cs.len() - i,
{
    if i < 0 || i >= cs.len() {
        None
    } else if cs[i] == '"' {
        Some(i)
    } else {
        closing_quote(cs, i + 1)
    }
}

/// Where the byte cursor stops when it skips a line comment: the loop moves
/// one byte at a time until the character whose *character* index equals the
/// cursor is a newline, or the cursor reaches the end of the text.
pub open spec fn comment_end(cs: Seq<char>, p: int, total: int) -> int
    decreases total - p,
{
    if p >= total {
        p
    } else if 0 <= p < cs.len() && cs[p] == '\n' {
        p
    } else {
        comment_end(cs, p + 1, total)
    }
}

/// The character index whose byte offset is `p`, if `p` is a character boundary.
pub open spec fn index_at_byte(cs: Seq<char>, p: int) -> Option<int> {
    if exists|i: int| 0 <= i <= cs.len() && byte_offset(cs, i) == p {
        Some(choose|i: int| 0 <= i <= cs.len() && byte_offset(cs, i) == p)
    } else {
        None
    }
}

/// A token of kind `kind` spanning the characters `a..b`.
pub open spec fn spec_token(cs: Seq<char>, kind: SpecTokenKind, a: int, b: int) -> SpecToken {
    SpecToken { kind, start: byte_offset(cs, a), end: byte_offset(cs, b) }
}

pub proof fn lemma_index_at_byte(cs: Seq<char>, i: int)
    requires
        0 <= i <= cs.len(),
    ensures
        index_at_byte(cs, byte_offset(cs, i) as int) == Some(i),
{
    let p = byte_offset(cs, i) as int;
    assert(0 <= i <= cs.len() && byte_offset(cs, i) == p);
    let j = choose|j: int| 0 <= j <= cs.len() && byte_offset(cs, j) == p;
    lemma_byte_offset_injective(cs, i, j);
}

pub proof fn lemma_index_at_byte_after(cs: Seq<char>, i: int, p: int)
    requires
        0 <= i <= cs.len(),
        byte_offset(cs, i) < p,
        index_at_byte(cs, p) is Some,
    ensures
        i < index_at_byte(cs, p)->0 <= cs.len(),
        byte_offset(cs, index_at_byte(cs, p)->0) == p,
{
    let j = index_at_byte(cs, p)->0;
    if j <= i {
        lemma_byte_offset_mono(cs, j, i);
    }
}

pub proof fn lemma_comment_end_ge(cs: Seq<char>, p: int, total: int)
    ensures
        comment_end(cs, p, total) >= p,
        p <= total ==> comment_end(cs, p, total) <= total,
    decreases total - p,
{
    if p < total && !(0 <= p < cs.len() && cs[p] == '\n') {
        lemma_comment_end_ge(cs, p + 1, total);
    }
}

pub proof fn lemma_numeric_run_end_ge(cs: Seq<char>, i: int)
    ensures
        numeric_run_end(cs, i) >= i,
        0 <= i <= cs.len() ==> numeric_run_end(cs, i) <= cs.len(),
    decreases cs.len() - i,
{
    if 0 <= i < cs.len() && is_numeric(cs[i]) {
        lemma_numeric_run_end_ge(cs, i + 1);
    }
}

pub proof fn lemma_number_end_progress(cs: Seq<char>, i: int)
    requires
        0 <= i < cs.len(),
        is_numeric(cs[i]),
    ensures
        i < number_end(cs, i) <= cs.len(),
{
    lemma_numeric_run_end_ge(cs, i + 1);
    let j = numeric_run_end(cs, i);
    if 0 <= j < cs.len() && cs[j] == '.' && j + 1 < cs.len() && is_numeric(cs[j + 1]) {
        lemma_numeric_run_end_ge(cs, j + 2);
    }
}

pub proof fn lemma_word_end_ge(cs: Seq<char>, i: int)
    ensures
        word_end(cs, i) >= i,
        0 <= i <= cs.len() ==> word_end(cs, i) <= cs.len(),
    decreases cs.len() - i,
{
    if 0 <= i < cs.len() && is_word_char(cs[i]) {
        lemma_word_end_ge(cs, i + 1);
    }
}

pub proof fn lemma_word_end_progress(cs: Seq<char>, i: int)
    requires
        0 <= i < cs.len(),
        is_ascii_alpha(cs[i]) || cs[i] == '_',
    ensures
        i < word_end(cs, i) <= cs.len(),
{
    lemma_word_end_ge(cs, i + 1);
}

pub proof fn lemma_closing_quote_after(cs: Seq<char>, i: int)
    ensures
        closing_quote(cs, i) matches Some(j) ==> i <= j < cs.len() && cs[j] == '"',
    decreases cs.len() - i,
{
    if 0 <= i < cs.len() && cs[i] != '"' {
        lemma_closing_quote_after(cs, i + 1);
    }
}

/// Lexing from character index `ci` on.
#[verifier::opaque]
pub open spec fn lex_from(cs: Seq<char>, ci: int) -> LexOutcome
    decreases cs.len() - ci, 2int,
{
    if ci < 0 || ci >= cs.len() {
        LexOutcome::Tokens(seq![])
    } else if is_blank(cs[ci]) {
        lex_from(cs, ci + 1)
    } else if seq_starts_with(cs.skip(ci), seq!['/', '/']) {
        comment_case(cs, ci)
    } else {
        plain_case(cs, ci)
    }
}

/// Lexing on from a line comment that starts at character `ci`.
#[verifier::opaque]
pub open spec fn comment_case(cs: Seq<char>, ci: int) -> LexOutcome
    decreases cs.len() - ci, 1int,
{
    if ci < 0 || ci >= cs.len() {
        LexOutcome::Tokens(seq![])
    } else {
        let total = bytes_len(cs) as int;
        let p = comment_end(cs, byte_offset(cs, ci) as int, total) + 1;
        if p > total {
            LexOutcome::Panics
        } else {
            match index_at_byte(cs, p) {
                None => LexOutcome::Panics,
                Some(cj) => {
                    proof {
                        lemma_comment_end_ge(cs, byte_offset(cs, ci) as int, total);
                        lemma_index_at_byte_after(cs, ci, p);
                        lemma_longest_is_match(cs.skip(cj));
                    }
                    // The token table is tried at the new position; the
                    // fall-back steps still see the `/` that began the comment.
                    match longest_match(cs.skip(cj)) {
                        Some(k) if accepts(spec_table()[k].1, cs, cj + spec_table()[k].0.len()) => {
                            let e = cj + spec_table()[k].0.len();
                            prepend_tokens(
                                seq![spec_token(cs, spec_table()[k].1, cj, e)],
                                lex_from(cs, e),
                            )
                        },
                        _ => {
                            let q = p + 1;
                            if q >= total {
                                LexOutcome::Tokens(seq![])
                            } else {
                                match index_at_byte(cs, q) {
                                    None => LexOutcome::Panics,
                                    Some(ck) => {
                                        proof {
                                            lemma_index_at_byte_after(cs, ci, q);
                                        }
                                        lex_from(cs, ck)
                                    },
                                }
                            }
                        },
                    }
                },
            }
        }
    }
}

/// Lexing on at character `ci`, which starts neither a blank nor a comment.
#[verifier::opaque]
pub open spec fn plain_case(cs: Seq<char>, ci: int) -> LexOutcome
    decreases cs.len() - ci, 1int,
{
    if ci < 0 || ci >= cs.len() {
        LexOutcome::Tokens(seq![])
    } else {
        proof {
            lemma_longest_is_match(cs.skip(ci));
        }
        match longest_match(cs.skip(ci)) {
            Some(k) if accepts(spec_table()[k].1, cs, ci + spec_table()[k].0.len()) => {
                let e = ci + spec_table()[k].0.len();
                prepend_tokens(seq![spec_token(cs, spec_table()[k].1, ci, e)], lex_from(cs, e))
            },
            _ => {
                let c = cs[ci];
                if is_numeric(c) {
                    let e = number_end(cs, ci);
                    proof {
                        lemma_number_end_progress(cs, ci);
                    }
                    prepend_tokens(
                        seq![spec_token(cs, SpecTokenKind::NumericLiteral(cs.subrange(ci, e)), ci, e)],
                        lex_from(cs, e),
                    )
                } else if is_ascii_alpha(c) || c == '_' {
                    let e = word_end(cs, ci);
                    proof {
                        lemma_word_end_progress(cs, ci);
                    }
                    prepend_tokens(
                        seq![spec_token(cs, SpecTokenKind::Identifier(cs.subrange(ci, e)), ci, e)],
                        lex_from(cs, e),
                    )
                } else if c == '"' {
                    proof {
                        lemma_closing_quote_after(cs, ci + 1);
                    }
                    match closing_quote(cs, ci + 1) {
                        Some(j) => prepend_tokens(
                            seq![spec_token(cs, SpecTokenKind::StringLiteral(cs.subrange(ci + 1, j)), ci, j + 1)],
                            lex_from(cs, j + 1),
                        ),
                        None => LexOutcome::Unterminated {
                            start: byte_offset(cs, ci),
                            end: bytes_len(cs),
                        },
                    }
                } else {
                    lex_from(cs, ci + 1)
                }
            },
        }
    }
}

/// The outcome of lexing the text whose characters are `cs`.
pub open spec fn spec_lex(cs: Seq<char>) -> LexOutcome {
    lex_from(cs, 0)
}

/// Whether lexing `cs` would slice the text at a byte offset that is not a
/// character boundary (or past its end).
pub open spec fn lex_panics(cs: Seq<char>) -> bool {
    spec_lex(cs) is Panics
}

/// Whether a lexing result agrees with an outcome that does not panic.
pub open spec fn lex_result_matches(r: LanguageResult<Vec<Token>>, o: LexOutcome) -> bool {
    match o {
        LexOutcome::Tokens(ts) => r is Ok && tokens_view(r->Ok_0@) == ts,
        LexOutcome::Unterminated { start, end } => r is Err && r->Err_0.kind == ErrorKind::Lexer(
            LexerError::UnterminatedString,
        ) && r->Err_0.source == Some(Span { start: start as usize, end: end as usize }),
        LexOutcome::Panics => false,
    }
}

/// The byte offset of character `to`, counted on from that of character `from`.
fn advance_offset(cs: &Vec<char>, from: usize, to: usize, b: usize) -> (r: usize)
    requires
        from <= to <= cs.len(),
        b == byte_offset(cs@, from as int),
        bytes_len(cs@) <= usize::MAX,
    ensures
        r == byte_offset(cs@, to as int),
{
    let mut i = from;
    let mut o = b;
    while i < to
        invariant
            from <= i <= to <= cs.len(),
            o == byte_offset(cs@, i as int),
            bytes_len(cs@) <= usize::MAX,
        decreases to - i,
    {
        proof {
            lemma_byte_offset_step(cs@, i as int);
            lemma_byte_offset_mono(cs@, i as int + 1, cs.len() as int);
        }
        o = o + char_utf8_len(cs[i]);
        i = i + 1;
    }
    o
}

/// The index of the longest table key that the characters from `at` on start with.
fn longest_match_at(keys: &Vec<Vec<char>>, cs: &Vec<char>, at: usize) -> (r: Option<usize>)
    requires
        at <= cs.len(),
        keys@.len() == spec_table().len(),
        forall|i: int| 0 <= i < keys@.len() ==> (#[trigger] keys@[i])@ == spec_table()[i].0,
    ensures
        r matches Some(k) ==> longest_match(cs@.skip(at as int)) == Some(k as int),
        r is None ==> longest_match(cs@.skip(at as int)) is None,
{
    let ghost s = cs@.skip(at as int);
    let mut best: Option<usize> = None;
    let mut best_len: usize = 0;
    let mut j: usize = 0;
    while j < keys.len()
        invariant
            j <= keys@.len() == spec_table().len(),
            at <= cs.len(),
            s == cs@.skip(at as int),
            forall|i: int| 0 <= i < keys@.len() ==> (#[trigger] keys@[i])@ == spec_table()[i].0,
            best_len == table_len(match best { Some(k) => Some(k as int), None => None }),
            best matches Some(k) ==> k < keys@.len(),
            longest_match(s) == longest_from(s, j as int, match best { Some(k) => Some(k as int), None => None }),
        decreases keys.len() - j,
    {
        let key = &keys[j];
        if chars_start_with(cs, at, key) && key.len() > best_len {
            best = Some(j);
            best_len = key.len();
        }
        j += 1;
    }
    best
}

fn numeric_run_end_exec(cs: &Vec<char>, i: usize) -> (r: usize)
    requires
        i <= cs.len(),
    ensures
        r == numeric_run_end(cs@, i as int),
        i <= r <= cs.len(),
{
    let mut j = i;
    while j < cs.len() && char_is_numeric(cs[j])
        invariant
            i <= j <= cs.len(),
            numeric_run_end(cs@, i as int) == numeric_run_end(cs@, j as int),
        decreases cs.len() - j,
    {
        j += 1;
    }
    j
}

fn number_end_exec(cs: &Vec<char>, i: usize) -> (r: usize)
    requires
        i <= cs.len(),
    ensures
        r == number_end(cs@, i as int),
        i <= r <= cs.len(),
{
    let j = numeric_run_end_exec(cs, i);
    if j < cs.len() && cs[j] == '.' && j + 1 < cs.len() && char_is_numeric(cs[j + 1]) {
        numeric_run_end_exec(cs, j + 2)
    } else {
        j
    }
}

fn word_end_exec(cs: &Vec<char>, i: usize) -> (r: usize)
    requires
        i <= cs.len(),
    ensures
        r == word_end(cs@, i as int),
        i <= r <= cs.len(),
{
    let mut j = i;
    while j < cs.len() && (char_is_ascii_alpha(cs[j]) || cs[j] == '_' || char_is_numeric(cs[j]))
        invariant
            i <= j <= cs.len(),
            word_end(cs@, i as int) == word_end(cs@, j as int),
        decreases cs.len() - j,
    {
        j += 1;
    }
    j
}

fn closing_quote_exec(cs: &Vec<char>, i: usize) -> (r: Option<usize>)
    requires
        i <= cs.len(),
    ensures
        r matches Some(j) ==> closing_quote(cs@, i as int) == Some(j as int) && i <= j < cs.len(),
        r is None ==> closing_quote(cs@, i as int) is None,
{
    let mut j = i;
    while j < cs.len()
        invariant
            i <= j <= cs.len(),
            closing_quote(cs@, i as int) == closing_quote(cs@, j as int),
        decreases cs.len() - j,
    {
        if cs[j] == '"' {
            return Some(j);
        }
        j += 1;
    }
    None
}

/// The character index whose byte offset is `p`, searching from character
/// `from` (whose byte offset is `b < p`).
fn index_at_byte_exec(cs: &Vec<char>, from: usize, b: usize, p: usize) -> (r: Option<usize>)
    requires
        from <= cs.len(),
        b == byte_offset(cs@, from as int),
        b < p,
        bytes_len(cs@) <= usize::MAX,
    ensures
        r matches Some(j) ==> index_at_byte(cs@, p as int) == Some(j as int) && from < j <= cs.len(),
        r is None ==> index_at_byte(cs@, p as int) is None,
{
    let mut i = from;
    let mut o = b;
    while o < p && i < cs.len()
        invariant
            from <= i <= cs.len(),
            o == byte_offset(cs@, i as int),
            i > from ==> byte_offset(cs@, i - 1) < p,
            bytes_len(cs@) <= usize::MAX,
        decreases cs.len() - i,
    {
        proof {
            lemma_byte_offset_step(cs@, i as int);
            lemma_byte_offset_mono(cs@, i as int + 1, cs.len() as int);
        }
        o = o + char_utf8_len(cs[i]);
        i = i + 1;
    }
    if o == p {
        proof {
            lemma_index_at_byte(cs@, i as int);
        }
        Some(i)
    } else {
        proof {
            assert forall|j: int| 0 <= j <= cs.len() implies byte_offset(cs@, j) != p by {
                if o < p {
                    lemma_byte_offset_mono(cs@, j, i as int);
                } else if j < i {
                    lemma_byte_offset_mono(cs@, j, i - 1);
                } else {
                    lemma_byte_offset_mono(cs@, i as int, j);
                }
            }
        }
        None
    }
}

/// What one step of the lexing loop leads to.
enum Step {
    /// Go on at character `ci`, whose byte offset is `b`.
    Next(usize, usize),
    /// The loop ends here.
    Done,
    /// A string literal that starts at byte `b` is never closed.
    Unterminated,
    /// Slicing the text would panic here.
    Panic,
}

/// The facts about the fixed table that each step relies on.
spec fn table_ok(table: Seq<(&'static str, TokenKind)>, keys: Seq<Vec<char>>) -> bool {
    &&& table.len() == spec_table().len()
    &&& forall|i: int| 0 <= i < table.len() ==> (#[trigger] table[i]).0@ == spec_table()[i].0 && table[i].1@ == spec_table()[i].1
    &&& keys.len() == spec_table().len()
    &&& forall|i: int| 0 <= i < keys.len() ==> (#[trigger] keys[i])@ == spec_table()[i].0
}

/// How a step relates the lexing outcome before and after it.
spec fn step_ok(cs: Seq<char>, ci: int, before: Seq<Token>, after: Seq<Token>, s: Step) -> bool {
    match s {
        Step::Next(cj, bj) => {
            &&& ci < cj <= cs.len()
            &&& bj == byte_offset(cs, cj as int)
            &&& prepend_tokens(tokens_view(before), lex_from(cs, ci)) == prepend_tokens(tokens_view(after), lex_from(cs, cj as int))
        },
        Step::Done => after == before && lex_from(cs, ci) == LexOutcome::Tokens(seq![]),
        Step::Unterminated => lex_from(cs, ci) == LexOutcome::Unterminated { start: byte_offset(cs, ci), end: bytes_len(cs) },
        Step::Panic => lex_from(cs, ci) is Panics,
    }
}

/// Tries the token table at character `at` (byte offset `b`); pushes the
/// token and returns where lexing goes on if a lexeme is taken there.
fn take_table_token(
    cs: &Vec<char>,
    table: &Vec<(&'static str, TokenKind)>,
    keys: &Vec<Vec<char>>,
    at: usize,
    b: usize,
    tokens: &mut Vec<Token>,
) -> (r: Option<usize>)
    requires
        at <= cs.len(),
        b == byte_offset(cs@, at as int),
        bytes_len(cs@) <= usize::MAX,
        table_ok(table@, keys@),
    ensures
        r matches Some(e) ==> {
            &&& longest_match(cs@.skip(at as int)) matches Some(k)
            &&& accepts(spec_table()[k].1, cs@, at + spec_table()[k].0.len())
            &&& e == at + spec_table()[k].0.len()
            &&& at < e <= cs.len()
            &&& tokens_view(final(tokens)@) == tokens_view(old(tokens)@) + seq![spec_token(cs@, spec_table()[k].1, at as int, e as int)]
        },
        r is None ==> final(tokens)@ == old(tokens)@ && !(longest_match(cs@.skip(at as int)) matches Some(k)
            && accepts(spec_table()[k].1, cs@, at + spec_table()[k].0.len())),
{
    let m = longest_match_at(keys, cs, at);
    proof {
        lemma_longest_is_match(cs@.skip(at as int));
    }
    match m {
        None => None,
        Some(k) => {
            let klen = keys[k].len();
            let e = at + klen;
            let kind = table[k].1.clone();
            let accepted = match kind {
                TokenKind::Keyword(_) => e < cs.len() && !(char_is_ascii_alpha(cs[e]) || cs[e] == '_'),
                _ => true,
            };
            if accepted {
                let end = advance_offset(cs, at, e, b);
                let ghost before = tokens_view(tokens@);
                tokens.push(Token { kind, start: b, end });
                proof {
                    assert(tokens_view(tokens@) =~= before + seq![spec_token(cs@, spec_table()[k as int].1, at as int, e as int)]);
                }
                Some(e)
            } else {
                None
            }
        },
    }
}

/// Pushes a token spanning the characters `a..e` (bytes `b..`).
fn push_text_token(
    cs: &Vec<char>,
    a: usize,
    e: usize,
    b: usize,
    kind: TokenKind,
    tokens: &mut Vec<Token>,
) -> (end: usize)
    requires
        a < e <= cs.len(),
        b == byte_offset(cs@, a as int),
        bytes_len(cs@) <= usize::MAX,
    ensures
        end == byte_offset(cs@, e as int),
        tokens_view(final(tokens)@) == tokens_view(old(tokens)@) + seq![SpecToken { kind: kind@, start: b as nat, end: end as nat }],
{
    let end = advance_offset(cs, a, e, b);
    let ghost before = tokens_view(tokens@);
    tokens.push(Token { kind, start: b, end });
    proof {
        assert(tokens_view(tokens@) =~= before + seq![SpecToken { kind: kind@, start: b as nat, end: end as nat }]);
    }
    end
}

/// The step taken at a line comment that starts at character `ci`.
fn comment_step(
    cs: &Vec<char>,
    table: &Vec<(&'static str, TokenKind)>,
    keys: &Vec<Vec<char>>,
    total: usize,
    ci: usize,
    b: usize,
    tokens: &mut Vec<Token>,
) -> (r: Step)
    requires
        ci < cs.len(),
        b == byte_offset(cs@, ci as int),
        total == bytes_len(cs@),
        table_ok(table@, keys@),
        !is_blank(cs@[ci as int]),
        seq_starts_with(cs@.skip(ci as int), seq!['/', '/']),
    ensures
        step_ok(cs@, ci as int, old(tokens)@, final(tokens)@, r),
{
    proof {
        reveal(lex_from);
        reveal(comment_case);
    }
    let n = cs.len();
    let mut p = b;
    proof {
        lemma_byte_offset_mono(cs@, ci as int, n as int);
        assert(cs@.take(n as int) =~= cs@);
    }
    while !(p < n && cs[p] == '\n') && p < total
        invariant
            b <= p <= total,
            n == cs.len(),
            comment_end(cs@, b as int, total as int) == comment_end(cs@, p as int, total as int),
        decreases total - p,
    {
        p = p + 1;
    }
    proof {
        lemma_comment_end_ge(cs@, b as int, total as int);
        assert(comment_end(cs@, p as int, total as int) == p);
        assert(lex_from(cs@, ci as int) == comment_case(cs@, ci as int));
    }
    if p >= total {
        return Step::Panic;
    }
    let p = p + 1;
    let cj = match index_at_byte_exec(cs, ci, b, p) {
        None => {
            return Step::Panic;
        },
        Some(cj) => cj,
    };
    proof {
        lemma_index_at_byte_after(cs@, ci as int, p as int);
    }
    let ghost before = tokens@;
    match take_table_token(cs, table, keys, cj, p, tokens) {
        Some(e) => {
            proof {
                let k = longest_match(cs@.skip(cj as int))->0;
                lemma_prepend_assoc(tokens_view(before), seq![spec_token(cs@, spec_table()[k].1, cj as int, e as int)], lex_from(cs@, e as int));
            }
            let end = advance_offset(cs, cj, e, p);
            Step::Next(e, end)
        },
        None => {
            if total - p <= 1 {
                proof {
                    assert(tokens_view(before) + Seq::<SpecToken>::empty() =~= tokens_view(before));
                }
                return Step::Done;
            }
            let q = p + 1;
            match index_at_byte_exec(cs, cj, p, q) {
                None => Step::Panic,
                Some(ck) => {
                    proof {
                        lemma_index_at_byte(cs@, ck as int);
                    }
                    Step::Next(ck, q)
                },
            }
        },
    }
}

/// One step of the lexing loop at character `ci`.
fn lex_step(
    cs: &Vec<char>,
    table: &Vec<(&'static str, TokenKind)>,
    keys: &Vec<Vec<char>>,
    total: usize,
    ci: usize,
    b: usize,
    tokens: &mut Vec<Token>,
) -> (r: Step)
    requires
        ci < cs.len(),
        b == byte_offset(cs@, ci as int),
        total == bytes_len(cs@),
        table_ok(table@, keys@),
    ensures
        step_ok(cs@, ci as int, old(tokens)@, final(tokens)@, r),
{
    let n = cs.len();
    proof {
        lemma_byte_offset_mono(cs@, ci as int, n as int);
        lemma_byte_offset_step(cs@, ci as int);
        assert(cs@.take(n as int) =~= cs@);
    }
    let c = cs[ci];
    if c == ' ' || c == '\0' || c == '\n' || c == '\r' || c == '\t' {
        proof {
            reveal(lex_from);
            lemma_byte_offset_mono(cs@, ci as int + 1, n as int);
        }
        return Step::Next(ci + 1, b + char_utf8_len(c));
    }
    let is_comment = ci + 1 < n && cs[ci] == '/' && cs[ci + 1] == '/';
    proof {
        assert(is_comment == seq_starts_with(cs@.skip(ci as int), seq!['/', '/'])) by {
            if is_comment {
                assert(cs@.skip(ci as int).take(2) =~= seq!['/', '/']);
            } else if seq_starts_with(cs@.skip(ci as int), seq!['/', '/']) {
                assert(cs@.skip(ci as int).take(2)[0] == cs@[ci as int]);
                assert(cs@.skip(ci as int).take(2)[1] == cs@[ci + 1]);
            }
        }
    }
    proof {
        reveal(lex_from);
    }
    if is_comment {
        return comment_step(cs, table, keys, total, ci, b, tokens);
    }
    let ghost before = tokens@;
    proof {
        reveal(plain_case);
        assert(lex_from(cs@, ci as int) == plain_case(cs@, ci as int));
        lemma_byte_offset_mono(cs@, ci as int + 1, n as int);
    }
    if let Some(e) = take_table_token(cs, table, keys, ci, b, tokens) {
        proof {
            let k = longest_match(cs@.skip(ci as int))->0;
            lemma_prepend_assoc(tokens_view(before), seq![spec_token(cs@, spec_table()[k].1, ci as int, e as int)], lex_from(cs@, e as int));
        }
        let end = advance_offset(cs, ci, e, b);
        return Step::Next(e, end);
    }
    if char_is_numeric(c) {
        let e = number_end_exec(cs, ci);
        proof {
            lemma_number_end_progress(cs@, ci as int);
        }
        let value = string_from_chars(slice_subrange(cs.as_slice(), ci, e));
        let end = push_text_token(cs, ci, e, b, TokenKind::NumericLiteral { value }, tokens);
        proof {
            let st = spec_token(cs@, SpecTokenKind::NumericLiteral(cs@.subrange(ci as int, e as int)), ci as int, e as int);
            lemma_prepend_assoc(tokens_view(before), seq![st], lex_from(cs@, e as int));
        }
        Step::Next(e, end)
    } else if char_is_ascii_alpha(c) || c == '_' {
        let e = word_end_exec(cs, ci);
        proof {
            lemma_word_end_progress(cs@, ci as int);
        }
        let value = string_from_chars(slice_subrange(cs.as_slice(), ci, e));
        let end = push_text_token(cs, ci, e, b, TokenKind::Identifier { value }, tokens);
        proof {
            let st = spec_token(cs@, SpecTokenKind::Identifier(cs@.subrange(ci as int, e as int)), ci as int, e as int);
            lemma_prepend_assoc(tokens_view(before), seq![st], lex_from(cs@, e as int));
        }
        Step::Next(e, end)
    } else if c == '"' {
        match closing_quote_exec(cs, ci + 1) {
            Some(j) => {
                let value = string_from_chars(slice_subrange(cs.as_slice(), ci + 1, j));
                let end = push_text_token(cs, ci, j + 1, b, TokenKind::StringLiteral { value }, tokens);
                proof {
                    let st = spec_token(cs@, SpecTokenKind::StringLiteral(cs@.subrange(ci + 1, j as int)), ci as int, j + 1);
                    lemma_prepend_assoc(tokens_view(before), seq![st], lex_from(cs@, j + 1));
                }
                Step::Next(j + 1, end)
            },
            None => Step::Unterminated,
        }
    } else {
        Step::Next(ci + 1, b + char_utf8_len(c))
    }
}

/// Lexes the characters `cs` of a text whose UTF-8 length is `total`.
/// Returns `None` exactly where slicing the text would panic.
fn lex_chars(cs: &Vec<char>, total: usize) -> (r: Option<LanguageResult<Vec<Token>>>)
    requires
        total == bytes_len(cs@),
    ensures
        r is None <==> lex_panics(cs@),
        r matches Some(res) ==> lex_result_matches(res, spec_lex(cs@)),
{
    let table = match_table();
    let mut keys: Vec<Vec<char>> = Vec::new();
    let mut t: usize = 0;
    while t < table.len()
        invariant
            t <= table@.len() == spec_table().len(),
            forall|i: int| 0 <= i < table@.len() ==> (#[trigger] table@[i]).0@ == spec_table()[i].0 && table@[i].1@ == spec_table()[i].1,
            keys@.len() == t,
            forall|i: int| 0 <= i < t ==> (#[trigger] keys@[i])@ == spec_table()[i].0,
        decreases table.len() - t,
    {
        keys.push(chars_of(table[t].0));
        t += 1;
    }
    let n = cs.len();
    let mut tokens: Vec<Token> = Vec::new();
    let mut ci: usize = 0;
    let mut b: usize = 0;
    proof {
        assert(cs@.take(0) =~= Seq::<char>::empty());
        assert(tokens_view(tokens@) =~= Seq::<SpecToken>::empty());
        lemma_prepend_empty(lex_from(cs@, 0));
    }
    while ci < n
        invariant
            n == cs.len(),
            ci <= n,
            b == byte_offset(cs@, ci as int),
            total == bytes_len(cs@),
            table_ok(table@, keys@),
            spec_lex(cs@) == prepend_tokens(tokens_view(tokens@), lex_from(cs@, ci as int)),
        decreases n - ci,
    {
        let ghost before = tokens@;
        match lex_step(cs, &table, &keys, total, ci, b, &mut tokens) {
            Step::Next(cj, bj) => {
                ci = cj;
                b = bj;
            },
            Step::Done => {
                proof {
                    assert(tokens_view(tokens@) + Seq::<SpecToken>::empty() =~= tokens_view(tokens@));
                }
                return Some(Ok(tokens));
            },
            Step::Unterminated => {
                proof {
                    lemma_byte_offset_mono(cs@, ci as int, n as int);
                    assert(cs@.take(n as int) =~= cs@);
                }
                return Some(Err(LanguageError::with_source(ErrorKind::Lexer(LexerError::UnterminatedString), b, total)));
            },
            Step::Panic => {
                return None;
            },
        }
    }
    proof {
        reveal(lex_from);
        assert(tokens_view(tokens@) + Seq::<SpecToken>::empty() =~= tokens_view(tokens@));
    }
    Some(Ok(tokens))
}

proof fn lemma_prepend_empty(o: LexOutcome)
    ensures
        prepend_tokens(Seq::<SpecToken>::empty(), o) == o,
{
    match o {
        LexOutcome::Tokens(ts) => {
            assert(Seq::<SpecToken>::empty() + ts =~= ts);
        },
        _ => {},
    }
}

proof fn lemma_prepend_assoc(a: Seq<SpecToken>, b: Seq<SpecToken>, o: LexOutcome)
    ensures
        prepend_tokens(a, prepend_tokens(b, o)) == prepend_tokens(a + b, o),
{
    match o {
        LexOutcome::Tokens(ts) => {
            assert(a + (b + ts) =~= (a + b) + ts);
        },
        _ => {},
    }
}

proof fn lemma_longest_from_is_match(s: Seq<char>, j: int, best: Option<int>)
    requires
        best matches Some(k) ==> 0 <= k < spec_table().len() && seq_starts_with(s, spec_table()[k].0) && spec_table()[k].0.len() > 0,
    ensures
        longest_from(s, j, best) matches Some(k) ==> 0 <= k < spec_table().len() && seq_starts_with(s, spec_table()[k].0) && spec_table()[k].0.len() > 0,
    decreases spec_table().len() - j,
{
    if 0 <= j < spec_table().len() {
        if seq_starts_with(s, spec_table()[j].0) && spec_table()[j].0.len() > table_len(best) {
            lemma_longest_from_is_match(s, j + 1, Some(j));
        } else {
            lemma_longest_from_is_match(s, j + 1, best);
        }
    }
}

/// The entry that the longest-match search returns is a key that `s` starts with.
pub proof fn lemma_longest_is_match(s: Seq<char>)
    ensures
        longest_match(s) matches Some(k) ==> 0 <= k < spec_table().len() && seq_starts_with(s, spec_table()[k].0) && spec_table()[k].0.len() > 0,
{
    lemma_longest_from_is_match(s, 0, None);
}

/// Splits source text into tokens.
///
/// Tokens are separated by blanks; `//` starts a comment; at each position
/// the longest fixed lexeme of `match_table` is taken (a keyword only when
/// followed by a character that is not a letter or `_`), otherwise a
/// number, a word, or a string literal. Offsets are byte offsets.
pub fn lex(code: String) -> (r: LanguageResult<Vec<Token>>)
    requires
        bytes_len(code@) <= usize::MAX,
        !lex_panics(code@),
    ensures
        lex_result_matches(r, spec_lex(code@)),
{
    let cs = chars_of(code.as_str());
    let total = str_byte_len(code.as_str());
    match lex_chars(&cs, total) {
        Some(r) => r,
        None => {
            proof {
                assert(false);
            }
            Ok(Vec::new())
        },
    }
}

/// Lexes `code`; `None` stands for the inputs on which slicing the text at a
/// byte offset that is not a character boundary makes `lex` panic (a line
/// comment at the very end of the text, or one after non-ASCII characters).
pub fn try_lex(code: &str) -> (r: Option<LanguageResult<Vec<Token>>>)
    requires
        bytes_len(code@) <= usize::MAX,
    ensures
        r is None <==> lex_panics(code@),
        r matches Some(res) ==> lex_result_matches(res, spec_lex(code@)),
{
    let cs = chars_of(code);
    let total = str_byte_len(code);
    lex_chars(&cs, total)
}

/// The tokens lie within the text, each spans at least one byte, they come
/// in source order and none overlaps the next.
pub open spec fn tokens_ordered(ts: Seq<SpecToken>, lo: nat, total: nat) -> bool {
    &&& forall|i: int| 0 <= i < ts.len() ==> lo <= (#[trigger] ts[i]).start < ts[i].end <= total
    &&& forall|i: int, j: int| 0 <= i < j < ts.len() ==> (#[trigger] ts[i]).end <= (#[trigger] ts[j]).start
}

pub open spec fn outcome_ordered(o: LexOutcome, lo: nat, total: nat) -> bool {
    o matches LexOutcome::Tokens(ts) ==> tokens_ordered(ts, lo, total)
}

proof fn lemma_ordered_weaken(o: LexOutcome, lo: nat, lo2: nat, total: nat)
    requires
        outcome_ordered(o, lo2, total),
        lo <= lo2,
    ensures
        outcome_ordered(o, lo, total),
{
    match o {
        LexOutcome::Tokens(ts) => {
            assert forall|i: int| 0 <= i < ts.len() implies lo <= (#[trigger] ts[i]).start < ts[i].end <= total by {
                assert(lo2 <= ts[i].start);
            }
        },
        _ => {},
    }
}

proof fn lemma_prepend_ordered(cs: Seq<char>, t: SpecToken, a: int, e: int, lo: nat, o: LexOutcome)
    requires
        0 <= a < e <= cs.len(),
        lo <= byte_offset(cs, a),
        t.start == byte_offset(cs, a),
        t.end == byte_offset(cs, e),
        outcome_ordered(o, byte_offset(cs, e), bytes_len(cs)),
    ensures
        outcome_ordered(prepend_tokens(seq![t], o), lo, bytes_len(cs)),
{
    lemma_byte_offset_mono(cs, a, e);
    match o {
        LexOutcome::Tokens(ts) => {
            let all = seq![t] + ts;
            assert forall|i: int| 0 <= i < all.len() implies lo <= (#[trigger] all[i]).start < all[i].end <= bytes_len(cs) by {
                if i > 0 {
                    assert(all[i] == ts[i - 1]);
                }
            }
            assert forall|i: int, j: int| 0 <= i < j < all.len() implies (#[trigger] all[i]).end <= (#[trigger] all[j]).start by {
                assert(all[j] == ts[j - 1]);
                if i > 0 {
                    assert(all[i] == ts[i - 1]);
                }
            }
        },
        _ => {},
    }
}

proof fn lemma_lex_from_ordered(cs: Seq<char>, ci: int)
    requires
        0 <= ci <= cs.len(),
    ensures
        outcome_ordered(lex_from(cs, ci), byte_offset(cs, ci), bytes_len(cs)),
    decreases cs.len() - ci, 2int,
{
    reveal(lex_from);
    reveal(comment_case);
    reveal(plain_case);
    if ci < cs.len() {
        if is_blank(cs[ci]) {
            lemma_byte_offset_mono(cs, ci, ci + 1);
            lemma_lex_from_ordered(cs, ci + 1);
            lemma_ordered_weaken(lex_from(cs, ci + 1), byte_offset(cs, ci), byte_offset(cs, ci + 1), bytes_len(cs));
            assert(lex_from(cs, ci) == lex_from(cs, ci + 1));
            assert(outcome_ordered(lex_from(cs, ci), byte_offset(cs, ci), bytes_len(cs)));
        } else if seq_starts_with(cs.skip(ci), seq!['/', '/']) {
            lemma_comment_case_ordered(cs, ci);
            assert(lex_from(cs, ci) == comment_case(cs, ci));
        } else {
            lemma_plain_case_ordered(cs, ci);
            assert(lex_from(cs, ci) == plain_case(cs, ci));
        }
    }
}

proof fn lemma_comment_case_ordered(cs: Seq<char>, ci: int)
    requires
        0 <= ci < cs.len(),
    ensures
        outcome_ordered(comment_case(cs, ci), byte_offset(cs, ci), bytes_len(cs)),
    decreases cs.len() - ci, 1int,
{
    reveal(lex_from);
    reveal(comment_case);
    reveal(plain_case);
    let total = bytes_len(cs) as int;
    let p = comment_end(cs, byte_offset(cs, ci) as int, total) + 1;
    lemma_comment_end_ge(cs, byte_offset(cs, ci) as int, total);
    if p <= total {
        if let Some(cj) = index_at_byte(cs, p) {
            lemma_index_at_byte_after(cs, ci, p);
            lemma_longest_is_match(cs.skip(cj));
            lemma_byte_offset_mono(cs, ci, cj);
            match longest_match(cs.skip(cj)) {
                Some(k) if accepts(spec_table()[k].1, cs, cj + spec_table()[k].0.len()) => {
                    let e = cj + spec_table()[k].0.len();
                    lemma_lex_from_ordered(cs, e);
                    lemma_prepend_ordered(cs, spec_token(cs, spec_table()[k].1, cj, e), cj, e, byte_offset(cs, ci), lex_from(cs, e));
                },
                _ => {
                    let q = p + 1;
                    if q < total {
                        if let Some(ck) = index_at_byte(cs, q) {
                            lemma_index_at_byte_after(cs, ci, q);
                            lemma_byte_offset_mono(cs, ci, ck);
                            lemma_lex_from_ordered(cs, ck);
                            lemma_ordered_weaken(lex_from(cs, ck), byte_offset(cs, ci), byte_offset(cs, ck), bytes_len(cs));
                        }
                    }
                },
            }
        }
    }
}

proof fn lemma_plain_case_ordered(cs: Seq<char>, ci: int)
    requires
        0 <= ci < cs.len(),
    ensures
        outcome_ordered(plain_case(cs, ci), byte_offset(cs, ci), bytes_len(cs)),
    decreases cs.len() - ci, 1int,
{
    reveal(lex_from);
    reveal(comment_case);
    reveal(plain_case);
    lemma_longest_is_match(cs.skip(ci));
    match longest_match(cs.skip(ci)) {
        Some(k) if accepts(spec_table()[k].1, cs, ci + spec_table()[k].0.len()) => {
            let e = ci + spec_table()[k].0.len();
            lemma_lex_from_ordered(cs, e);
            lemma_prepend_ordered(cs, spec_token(cs, spec_table()[k].1, ci, e), ci, e, byte_offset(cs, ci), lex_from(cs, e));
        },
        _ => {
            let c = cs[ci];
            if is_numeric(c) {
                let e = number_end(cs, ci);
                lemma_number_end_progress(cs, ci);
                lemma_lex_from_ordered(cs, e);
                lemma_prepend_ordered(cs, spec_token(cs, SpecTokenKind::NumericLiteral(cs.subrange(ci, e)), ci, e), ci, e, byte_offset(cs, ci), lex_from(cs, e));
            } else if is_ascii_alpha(c) || c == '_' {
                let e = word_end(cs, ci);
                lemma_word_end_progress(cs, ci);
                lemma_lex_from_ordered(cs, e);
                lemma_prepend_ordered(cs, spec_token(cs, SpecTokenKind::Identifier(cs.subrange(ci, e)), ci, e), ci, e, byte_offset(cs, ci), lex_from(cs, e));
            } else if c == '"' {
                lemma_closing_quote_after(cs, ci + 1);
                if let Some(j) = closing_quote(cs, ci + 1) {
                    lemma_lex_from_ordered(cs, j + 1);
                    lemma_prepend_ordered(cs, spec_token(cs, SpecTokenKind::StringLiteral(cs.subrange(ci + 1, j)), ci, j + 1), ci, j + 1, byte_offset(cs, ci), lex_from(cs, j + 1));
                }
            } else {
                lemma_byte_offset_mono(cs, ci, ci + 1);
                lemma_lex_from_ordered(cs, ci + 1);
                lemma_ordered_weaken(lex_from(cs, ci + 1), byte_offset(cs, ci), byte_offset(cs, ci + 1), bytes_len(cs));
            }
        },
    }
}

/// The tokens that lexing yields lie within the text, each covers at least
/// one byte, they come in source order and do not overlap.
pub proof fn law_tokens_ordered(cs: Seq<char>)
    ensures
        spec_lex(cs) matches LexOutcome::Tokens(ts) ==> tokens_ordered(ts, 0, bytes_len(cs)),
{
    lemma_lex_from_ordered(cs, 0);
    assert(cs.take(0) =~= Seq::<char>::empty());
}


/// Where the longest lexeme of the table at `ci` is an operator (and the
/// text there is no `//` comment), lexing takes it, with that operator's own
/// kind, as the next token and goes on after it: `a != b` gives an `NE`
/// token, never an `EQ`.
pub proof fn law_lexes_operator(cs: Seq<char>, ci: int)
    requires
        0 <= ci < cs.len(),
        longest_match(cs.skip(ci)) matches Some(k) && 0 <= k < spec_table().len()
            && operator_kind(spec_table()[k].0) is Some,
        !(cs[ci] == '/' && ci + 1 < cs.len() && cs[ci + 1] == '/'),
    ensures
        ({
            let k = longest_match(cs.skip(ci))->0;
            let n = spec_table()[k].0.len();
            lex_from(cs, ci) == prepend_tokens(
                seq![spec_token(cs, SpecTokenKind::Other(operator_kind(spec_table()[k].0)->0), ci, ci + n)],
                lex_from(cs, ci + n),
            )
        }),
{
    let s = cs.skip(ci);
    let k = longest_match(s)->0;
    let n = spec_table()[k].0.len();
    let op = operator_kind(spec_table()[k].0)->0;
    law_operator_table_kinds(k);
    lemma_longest_is_match(s);
    assert(n == 1 || n == 2);
    assert(s.take(n as int) == spec_table()[k].0);
    assert(s[0] == s.take(n as int)[0]);
    assert(s[0] == cs[ci]);
    assert(!is_blank(cs[ci]));
    if seq_starts_with(s, seq!['/', '/']) {
        assert(s.take(2)[1] == s[1]);
        assert(s[1] == cs[ci + 1]);
        assert(s.take(2)[0] == seq!['/', '/'][0]);
        assert(s.take(2)[1] == seq!['/', '/'][1]);
        assert(false);
    }
    assert(!is_keyword(SpecTokenKind::Other(op)));
    assert(accepts(spec_table()[k].1, cs, ci + n));
    reveal(lex_from);
    reveal(plain_case);
    assert(lex_from(cs, ci) == plain_case(cs, ci));
}


proof fn lemma_longest_from_max(s: Seq<char>, j: int, best: Option<int>, i: int)
    requires
        0 <= i < spec_table().len(),
        0 <= j,
        i < j ==> (seq_starts_with(s, spec_table()[i].0) ==> spec_table()[i].0.len() <= table_len(best)),
    ensures
        seq_starts_with(s, spec_table()[i].0) ==> spec_table()[i].0.len() <= table_len(longest_from(s, j, best)),
    decreases spec_table().len() - j,
{
    if j < spec_table().len() {
        if seq_starts_with(s, spec_table()[j].0) && spec_table()[j].0.len() > table_len(best) {
            lemma_longest_from_max(s, j + 1, Some(j), i);
        } else {
            lemma_longest_from_max(s, j + 1, best, i);
        }
    }
}

/// The lexeme taken at a position is the longest one of the table there:
/// whenever the text starts with a lexeme of the table, some lexeme is
/// taken, the text starts with it, and it is at least as long (so `<=` is
/// taken as one token, not as `<` and `=`).
pub proof fn law_longest_match_is_longest(s: Seq<char>, i: int)
    requires
        0 <= i < spec_table().len(),
        seq_starts_with(s, spec_table()[i].0),
        spec_table()[i].0.len() > 0,
    ensures
        longest_match(s) matches Some(k) && 0 <= k < spec_table().len() && seq_starts_with(s, spec_table()[k].0)
            && spec_table()[i].0.len() <= spec_table()[k].0.len(),
{
    lemma_longest_from_max(s, 0, None, i);
    lemma_longest_is_match(s);
}

} // verus!
