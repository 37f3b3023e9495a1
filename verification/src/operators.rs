//! The fixed lexemes of the language as the lexer's table holds them:
//! every operator, keyword and punctuation lexeme maps to its own token kind.
use vstd::prelude::*;
use crate::lexer::{spec_table, KeywordKind, SpecTokenKind, TokenKind};

verus! {

/// The kind of the operator that `key` spells, if it spells one: the
/// one-character operators `=`, `!`, `<`, `>`, `+`, `-`, `*`, `/`, `%`, and
/// the two-character ones `==`, `!=`, `<=`, `>=`, `=>`, `+=`, `-=`, `*=`,
/// `/=`, `%=`, `&&`, `||`.
pub open spec fn operator_kind(key: Seq<char>) -> Option<TokenKind> {
    if key.len() == 1 {
        let c = key[0];
        if c == '=' {
            Some(TokenKind::Assign)
        } else if c == '!' {
            Some(TokenKind::Bang)
        } else if c == '<' {
            Some(TokenKind::LT)
        } else if c == '>' {
            Some(TokenKind::GT)
        } else if c == '+' {
            Some(TokenKind::Plus)
        } else if c == '-' {
            Some(TokenKind::Minus)
        } else if c == '*' {
            Some(TokenKind::Asterisk)
        } else if c == '/' {
            Some(TokenKind::Slash)
        } else if c == '%' {
            Some(TokenKind::Percent)
        } else {
            None
        }
    } else if key.len() == 2 {
        let (c, d) = (key[0], key[1]);
        if c == '=' && d == '=' {
            Some(TokenKind::EQ)
        } else if c == '!' && d == '=' {
            Some(TokenKind::NE)
        } else if c == '<' && d == '=' {
            Some(TokenKind::LTE)
        } else if c == '>' && d == '=' {
            Some(TokenKind::GTE)
        } else if c == '=' && d == '>' {
            Some(TokenKind::Arrow)
        } else if c == '+' && d == '=' {
            Some(TokenKind::PlusEqual)
        } else if c == '-' && d == '=' {
            Some(TokenKind::MinusEqual)
        } else if c == '*' && d == '=' {
            Some(TokenKind::AsteriskEqual)
        } else if c == '/' && d == '=' {
            Some(TokenKind::SlashEqual)
        } else if c == '%' && d == '=' {
            Some(TokenKind::PercentEqual)
        } else if c == '&' && d == '&' {
            Some(TokenKind::And)
        } else if c == '|' && d == '|' {
            Some(TokenKind::Or)
        } else {
            None
        }
    } else {
        None
    }
}

/// Every operator lexeme of the lexer's table has its own kind: `!=` is
/// `NE`, `==` is `EQ`, `<` is `LT`, and so on; no two operators share a kind.
pub proof fn law_operator_table_kinds(j: int)
    requires
        0 <= j < spec_table().len(),
    ensures
        operator_kind(spec_table()[j].0) matches Some(op) ==> spec_table()[j].1 == SpecTokenKind::Other(op),
{
    reveal(spec_table);
}


/// The kind of the word or punctuation that `key` spells, if it spells one:
/// each keyword its keyword, `true` and `false` the boolean literals, and
/// the brackets, the comma, `..`, `.` and `:` their own kinds.
pub open spec fn word_kind(key: Seq<char>) -> Option<TokenKind> {
    if key.len() == 2 && key[0] == 'i' && key[1] == 'f' {
        Some(TokenKind::Keyword(KeywordKind::If))
    } else if key.len() == 4 && key[0] == 'e' && key[1] == 'l' && key[2] == 's' && key[3] == 'e' {
        Some(TokenKind::Keyword(KeywordKind::Else))
    } else if key.len() == 3 && key[0] == 'f' && key[1] == 'o' && key[2] == 'r' {
        Some(TokenKind::Keyword(KeywordKind::For))
    } else if key.len() == 5 && key[0] == 'w' && key[1] == 'h' && key[2] == 'i' && key[3] == 'l' && key[4] == 'e' {
        Some(TokenKind::Keyword(KeywordKind::While))
    } else if key.len() == 2 && key[0] == 'i' && key[1] == 'n' {
        Some(TokenKind::Keyword(KeywordKind::In))
    } else if key.len() == 2 && key[0] == 'f' && key[1] == 'n' {
        Some(TokenKind::Keyword(KeywordKind::Fn))
    } else if key.len() == 6 && key[0] == 'r' && key[1] == 'e' && key[2] == 't' && key[3] == 'u' && key[4] == 'r' && key[5] == 'n' {
        Some(TokenKind::Keyword(KeywordKind::Return))
    } else if key.len() == 5 && key[0] == 'b' && key[1] == 'r' && key[2] == 'e' && key[3] == 'a' && key[4] == 'k' {
        Some(TokenKind::Keyword(KeywordKind::Break))
    } else if key.len() == 5 && key[0] == 't' && key[1] == 'h' && key[2] == 'r' && key[3] == 'o' && key[4] == 'w' {
        Some(TokenKind::Keyword(KeywordKind::Throw))
    } else if key.len() == 3 && key[0] == 't' && key[1] == 'r' && key[2] == 'y' {
        Some(TokenKind::Keyword(KeywordKind::Try))
    } else if key.len() == 5 && key[0] == 'c' && key[1] == 'a' && key[2] == 't' && key[3] == 'c' && key[4] == 'h' {
        Some(TokenKind::Keyword(KeywordKind::Catch))
    } else if key.len() == 3 && key[0] == 'l' && key[1] == 'e' && key[2] == 't' {
        Some(TokenKind::Keyword(KeywordKind::Let))
    } else if key.len() == 6 && key[0] == 'e' && key[1] == 'x' && key[2] == 'p' && key[3] == 'o' && key[4] == 'r' && key[5] == 't' {
        Some(TokenKind::Keyword(KeywordKind::Export))
    } else if key.len() == 6 && key[0] == 'i' && key[1] == 'm' && key[2] == 'p' && key[3] == 'o' && key[4] == 'r' && key[5] == 't' {
        Some(TokenKind::Keyword(KeywordKind::Import))
    } else if key.len() == 4 && key[0] == 'f' && key[1] == 'r' && key[2] == 'o' && key[3] == 'm' {
        Some(TokenKind::Keyword(KeywordKind::From))
    } else if key.len() == 5 && key[0] == 'c' && key[1] == 'l' && key[2] == 'a' && key[3] == 's' && key[4] == 's' {
        Some(TokenKind::Keyword(KeywordKind::Class))
    } else if key.len() == 6 && key[0] == 'p' && key[1] == 'u' && key[2] == 'b' && key[3] == 'l' && key[4] == 'i' && key[5] == 'c' {
        Some(TokenKind::Keyword(KeywordKind::Public))
    } else if key.len() == 9 && key[0] == 'p' && key[1] == 'r' && key[2] == 'o' && key[3] == 't' && key[4] == 'e' && key[5] == 'c' && key[6] == 't' && key[7] == 'e' && key[8] == 'd' {
        Some(TokenKind::Keyword(KeywordKind::Protected))
    } else if key.len() == 7 && key[0] == 'p' && key[1] == 'r' && key[2] == 'i' && key[3] == 'v' && key[4] == 'a' && key[5] == 't' && key[6] == 'e' {
        Some(TokenKind::Keyword(KeywordKind::Private))
    } else if key.len() == 4 && key[0] == 't' && key[1] == 'r' && key[2] == 'u' && key[3] == 'e' {
        Some(TokenKind::BooleanLiteral { value: true })
    } else if key.len() == 5 && key[0] == 'f' && key[1] == 'a' && key[2] == 'l' && key[3] == 's' && key[4] == 'e' {
        Some(TokenKind::BooleanLiteral { value: false })
    } else if key.len() == 1 && key[0] == '(' {
        Some(TokenKind::OpeningParenthesis)
    } else if key.len() == 1 && key[0] == ')' {
        Some(TokenKind::ClosingParenthesis)
    } else if key.len() == 1 && key[0] == '{' {
        Some(TokenKind::OpeningBracket)
    } else if key.len() == 1 && key[0] == '}' {
        Some(TokenKind::ClosingBracket)
    } else if key.len() == 1 && key[0] == '[' {
        Some(TokenKind::OpeningSquareBracket)
    } else if key.len() == 1 && key[0] == ']' {
        Some(TokenKind::ClosingSquareBracket)
    } else if key.len() == 1 && key[0] == ',' {
        Some(TokenKind::Comma)
    } else if key.len() == 2 && key[0] == '.' && key[1] == '.' {
        Some(TokenKind::Range)
    } else if key.len() == 1 && key[0] == '.' {
        Some(TokenKind::Period)
    } else if key.len() == 1 && key[0] == ':' {
        Some(TokenKind::Colon)
    } else {
        None
    }
}

/// Every keyword, boolean literal and punctuation lexeme of the lexer's
/// table has its own kind: `while` is the `while` keyword, `true` is the
/// literal true, `..` is a range, and so on.
pub proof fn law_word_table_kinds(j: int)
    requires
        0 <= j < spec_table().len(),
    ensures
        word_kind(spec_table()[j].0) matches Some(k) ==> spec_table()[j].1 == SpecTokenKind::Other(k),
{
    reveal(spec_table);
}

} // verus!
