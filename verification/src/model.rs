//! The mathematical model of scanning.
//!
//! `scan_spec` says, for any character sequence, exactly which tokens and
//! which diagnostics scanning produces. The executable scanner is verified
//! against this model. The model follows the language's lexical rules:
//! single- and two-character operators, `//` line comments, whitespace,
//! newline counting, string and number literals, identifiers and keywords,
//! and the two non-fatal error kinds.

use vstd::prelude::*;

use crate::token::DiagnosticKind;
use crate::token::SpecDiagnostic;
use crate::token::SpecLiteral;
use crate::token::SpecToken;
use crate::token::TokenKind;

verus! {

/// A decimal digit.
pub open spec fn is_digit(c: char) -> bool {
    ('0' as u32) <= (c as u32) && (c as u32) <= ('9' as u32)
}

/// A character that may begin an identifier: a letter or an underscore.
pub open spec fn is_alpha(c: char) -> bool {
    (('a' as u32) <= (c as u32) && (c as u32) <= ('z' as u32))
        || (('A' as u32) <= (c as u32) && (c as u32) <= ('Z' as u32))
        || c == '_'
}

/// A character that may continue an identifier.
pub open spec fn is_alnum(c: char) -> bool {
    is_digit(c) || is_alpha(c)
}

/// A character that is always a one-character token on its own.
pub open spec fn is_single(c: char) -> bool {
    c == '(' || c == ')' || c == '{' || c == '}' || c == ',' || c == '.' || c == '-' || c == '+'
        || c == ';' || c == '*'
}

/// The kind of an unconditional one-character token.
pub open spec fn single_kind(c: char) -> TokenKind {
    if c == '(' {
        TokenKind::LeftParen
    } else if c == ')' {
        TokenKind::RightParen
    } else if c == '{' {
        TokenKind::LeftBrace
    } else if c == '}' {
        TokenKind::RightBrace
    } else if c == ',' {
        TokenKind::Comma
    } else if c == '.' {
        TokenKind::Dot
    } else if c == '-' {
        TokenKind::Minus
    } else if c == '+' {
        TokenKind::Plus
    } else if c == ';' {
        TokenKind::Semicolon
    } else {
        TokenKind::Star
    }
}

/// A character that is a token on its own or, followed by `=`, forms a
/// two-character token.
pub open spec fn is_pair_start(c: char) -> bool {
    c == '!' || c == '=' || c == '<' || c == '>'
}

/// The kind emitted when a pair-start character stands alone.
pub open spec fn pair_single_kind(c: char) -> TokenKind {
    if c == '!' {
        TokenKind::Bang
    } else if c == '=' {
        TokenKind::Equal
    } else if c == '<' {
        TokenKind::Less
    } else {
        TokenKind::Greater
    }
}

/// The kind emitted when a pair-start character is followed by `=`.
pub open spec fn pair_double_kind(c: char) -> TokenKind {
    if c == '!' {
        TokenKind::BangEqual
    } else if c == '=' {
        TokenKind::EqualEqual
    } else if c == '<' {
        TokenKind::LessEqual
    } else {
        TokenKind::GreaterEqual
    }
}

/// End of the maximal run of digits starting at `i`.
pub open spec fn digits_end(s: Seq<char>, i: int) -> int
    decreases s.len() - i,
    when 0 <= i <= s.len()
{
    if i < s.len() && is_digit(s[i]) {
        digits_end(s, i + 1)
    } else {
        i
    }
}

/// End of the maximal run of identifier characters starting at `i`.
pub open spec fn ident_end(s: Seq<char>, i: int) -> int
    decreases s.len() - i,
    when 0 <= i <= s.len()
{
    if i < s.len() && is_alnum(s[i]) {
        ident_end(s, i + 1)
    } else {
        i
    }
}

/// Position of the closing quote of a string whose body starts at `i`,
/// or `s.len()` when the string is unterminated.
pub open spec fn string_body_end(s: Seq<char>, i: int) -> int
    decreases s.len() - i,
    when 0 <= i <= s.len()
{
    if i < s.len() && s[i] != '"' {
        string_body_end(s, i + 1)
    } else {
        i
    }
}

/// Position of the newline ending a `//` comment scanned from `i`, or
/// `s.len()` when the comment runs to the end of the input.
pub open spec fn comment_end(s: Seq<char>, i: int) -> int
    decreases s.len() - i,
    when 0 <= i <= s.len()
{
    if i < s.len() && s[i] != '\n' {
        comment_end(s, i + 1)
    } else {
        i
    }
}

/// End of a number literal starting at `i`: a maximal run of digits,
/// then a fractional part only when a `.` is directly followed by a digit.
pub open spec fn number_end(s: Seq<char>, i: int) -> int {
    let d = digits_end(s, i);
    if d < s.len() && s[d] == '.' && d + 1 < s.len() && is_digit(s[d + 1]) {
        digits_end(s, d + 1)
    } else {
        d
    }
}

/// The number of newline characters among `s[i..j]`.
pub open spec fn count_newlines(s: Seq<char>, i: int, j: int) -> nat
    decreases j - i,
{
    if i < j {
        count_newlines(s, i, j - 1) + (if s[j - 1] == '\n' {
            1nat
        } else {
            0nat
        })
    } else {
        0nat
    }
}

/// Exact-match lookup of an identifier against the fixed keyword table.
pub open spec fn keyword_kind(lexeme: Seq<char>) -> TokenKind {
    if lexeme == "and"@ {
        TokenKind::And
    } else if lexeme == "class"@ {
        TokenKind::Class
    } else if lexeme == "else"@ {
        TokenKind::Else
    } else if lexeme == "false"@ {
        TokenKind::False
    } else if lexeme == "fun"@ {
        TokenKind::Fun
    } else if lexeme == "for"@ {
        TokenKind::For
    } else if lexeme == "if"@ {
        TokenKind::If
    } else if lexeme == "nil"@ {
        TokenKind::Nil
    } else if lexeme == "or"@ {
        TokenKind::Or
    } else if lexeme == "print"@ {
        TokenKind::Print
    } else if lexeme == "return"@ {
        TokenKind::Return
    } else if lexeme == "super"@ {
        TokenKind::Super
    } else if lexeme == "this"@ {
        TokenKind::This
    } else if lexeme == "true"@ {
        TokenKind::True
    } else if lexeme == "var"@ {
        TokenKind::Var
    } else if lexeme == "while"@ {
        TokenKind::While
    } else {
        TokenKind::Identifier
    }
}

/// The model's result: the tokens and the diagnostics of a whole scan.
#[verifier::ext_equal]
pub struct SpecScan {
    pub tokens: Seq<SpecToken>,
    pub diags: Seq<SpecDiagnostic>,
}

/// Prepend one token to a scan result.
pub open spec fn with_token(t: SpecToken, rest: SpecScan) -> SpecScan {
    SpecScan { tokens: seq![t] + rest.tokens, diags: rest.diags }
}

/// Prepend one diagnostic to a scan result.
pub open spec fn with_diag(d: SpecDiagnostic, rest: SpecScan) -> SpecScan {
    SpecScan { tokens: rest.tokens, diags: seq![d] + rest.diags }
}

/// The end-of-file token at a given line.
pub open spec fn eof_token(line: nat) -> SpecToken {
    SpecToken {
        kind: TokenKind::Eof,
        lexeme: Seq::empty(),
        literal: SpecLiteral::Absent,
        line,
    }
}

/// A token without a literal payload whose lexeme is `s[i..j]`.
pub open spec fn plain_token(kind: TokenKind, s: Seq<char>, i: int, j: int, line: nat) -> SpecToken {
    SpecToken { kind, lexeme: s.subrange(i, j), literal: SpecLiteral::Absent, line }
}

/// What scanning produces from position `i` onward, with the line counter
/// at `line`. This is the reference semantics of the scanner.
pub open spec fn scan_from(s: Seq<char>, i: int, line: nat) -> SpecScan
    decreases s.len() - i,
    when 0 <= i <= s.len()
{
    if i == s.len() {
        SpecScan { tokens: seq![eof_token(line)], diags: Seq::empty() }
    } else {
        let c = s[i];
        if is_single(c) {
            with_token(plain_token(single_kind(c), s, i, i + 1, line), scan_from(s, i + 1, line))
        } else if is_pair_start(c) {
            if i + 1 < s.len() && s[i + 1] == '=' {
                with_token(
                    plain_token(pair_double_kind(c), s, i, i + 2, line),
                    scan_from(s, i + 2, line),
                )
            } else {
                with_token(
                    plain_token(pair_single_kind(c), s, i, i + 1, line),
                    scan_from(s, i + 1, line),
                )
            }
        } else if c == '/' {
            if i + 1 < s.len() && s[i + 1] == '/' {
                proof {
                    lemma_comment_end(s, i + 2);
                }
                scan_from(s, comment_end(s, i + 2), line)
            } else {
                with_token(
                    plain_token(TokenKind::Slash, s, i, i + 1, line),
                    scan_from(s, i + 1, line),
                )
            }
        } else if c == ' ' || c == '\r' || c == '\t' {
            scan_from(s, i + 1, line)
        } else if c == '\n' {
            scan_from(s, i + 1, line + 1)
        } else if c == '"' {
            proof {
                lemma_string_body_end(s, i + 1);
            }
            let close = string_body_end(s, i + 1);
            if close == s.len() {
                with_diag(
                    SpecDiagnostic { kind: DiagnosticKind::UnterminatedString, line },
                    scan_from(s, s.len() as int, line + count_newlines(s, i + 1, s.len() as int)),
                )
            } else {
                with_token(
                    SpecToken {
                        kind: TokenKind::Str,
                        lexeme: s.subrange(i, close + 1),
                        literal: SpecLiteral::Str(s.subrange(i + 1, close)),
                        line,
                    },
                    scan_from(s, close + 1, line + count_newlines(s, i + 1, close)),
                )
            }
        } else if is_digit(c) {
            proof {
                lemma_number_end(s, i);
            }
            let end = number_end(s, i);
            with_token(
                SpecToken {
                    kind: TokenKind::Number,
                    lexeme: s.subrange(i, end),
                    literal: SpecLiteral::Num(s.subrange(i, end)),
                    line,
                },
                scan_from(s, end, line),
            )
        } else if is_alpha(c) {
            proof {
                lemma_ident_end(s, i);
            }
            let end = ident_end(s, i);
            with_token(
                SpecToken {
                    kind: keyword_kind(s.subrange(i, end)),
                    lexeme: s.subrange(i, end),
                    literal: SpecLiteral::Absent,
                    line,
                },
                scan_from(s, end, line),
            )
        } else {
            with_diag(
                SpecDiagnostic { kind: DiagnosticKind::UnexpectedCharacter, line },
                scan_from(s, i + 1, line),
            )
        }
    }
}

/// What scanning a whole input produces: tokens and diagnostics, from the
/// first character, with the line counter at 1.
pub open spec fn scan_spec(s: Seq<char>) -> SpecScan {
    scan_from(s, 0, 1)
}

/// The maximal digit run: it moves only forward, stays in bounds, covers
/// digits only, and stops at the first non-digit.
pub proof fn lemma_digits_end(s: Seq<char>, i: int)
    requires
        0 <= i <= s.len(),
    ensures
        i <= digits_end(s, i) <= s.len(),
        forall|j: int| i <= j < digits_end(s, i) ==> is_digit(s[j]),
        digits_end(s, i) < s.len() ==> !is_digit(s[digits_end(s, i)]),
        i < s.len() && is_digit(s[i]) ==> i < digits_end(s, i),
    decreases s.len() - i,
{
    if i < s.len() && is_digit(s[i]) {
        lemma_digits_end(s, i + 1);
    }
}

/// The maximal identifier run, with the same shape as `lemma_digits_end`.
pub proof fn lemma_ident_end(s: Seq<char>, i: int)
    requires
        0 <= i <= s.len(),
    ensures
        i <= ident_end(s, i) <= s.len(),
        forall|j: int| i <= j < ident_end(s, i) ==> is_alnum(s[j]),
        ident_end(s, i) < s.len() ==> !is_alnum(s[ident_end(s, i)]),
        i < s.len() && is_alnum(s[i]) ==> i < ident_end(s, i),
    decreases s.len() - i,
{
    if i < s.len() && is_alnum(s[i]) {
        lemma_ident_end(s, i + 1);
    }
}

/// The string body scan: every character before the result is not a
/// quote, and the result is either a quote or the end of the input.
pub proof fn lemma_string_body_end(s: Seq<char>, i: int)
    requires
        0 <= i <= s.len(),
    ensures
        i <= string_body_end(s, i) <= s.len(),
        forall|j: int| i <= j < string_body_end(s, i) ==> s[j] != '"',
        string_body_end(s, i) < s.len() ==> s[string_body_end(s, i)] == '"',
    decreases s.len() - i,
{
    if i < s.len() && s[i] != '"' {
        lemma_string_body_end(s, i + 1);
    }
}

/// The comment scan: every skipped character is not a newline, and the
/// scan stops at a newline or at the end of the input.
pub proof fn lemma_comment_end(s: Seq<char>, i: int)
    requires
        0 <= i <= s.len(),
    ensures
        i <= comment_end(s, i) <= s.len(),
        forall|j: int| i <= j < comment_end(s, i) ==> s[j] != '\n',
        comment_end(s, i) < s.len() ==> s[comment_end(s, i)] == '\n',
    decreases s.len() - i,
{
    if i < s.len() && s[i] != '\n' {
        lemma_comment_end(s, i + 1);
    }
}

/// Bounds for the end of a number literal.
pub proof fn lemma_number_end(s: Seq<char>, i: int)
    requires
        0 <= i <= s.len(),
    ensures
        i <= number_end(s, i) <= s.len(),
        i < s.len() && is_digit(s[i]) ==> i < number_end(s, i),
{
    lemma_digits_end(s, i);
    let d = digits_end(s, i);
    if d < s.len() && s[d] == '.' && d + 1 < s.len() && is_digit(s[d + 1]) {
        lemma_digits_end(s, d + 1);
    }
}

/// There are at most as many newlines in a range as characters.
pub proof fn lemma_count_newlines_bound(s: Seq<char>, i: int, j: int)
    requires
        i <= j,
    ensures
        count_newlines(s, i, j) <= j - i,
    decreases j - i,
{
    if i < j {
        lemma_count_newlines_bound(s, i, j - 1);
    }
}

/// Pushing an element onto a sequence and then appending equals
/// appending with the element at the front of the second sequence.
pub proof fn lemma_push_front<T>(a: Seq<T>, x: T, b: Seq<T>)
    ensures
        a.push(x) + b == a + (seq![x] + b),
{
    assert(a.push(x) + b =~= a + (seq![x] + b));
}

/// Counting newlines over adjacent ranges adds up.
pub proof fn lemma_count_newlines_concat(s: Seq<char>, a: int, b: int, c: int)
    requires
        a <= b <= c,
    ensures
        count_newlines(s, a, c) == count_newlines(s, a, b) + count_newlines(s, b, c),
    decreases c - b,
{
    if b < c {
        lemma_count_newlines_concat(s, a, b, c - 1);
    }
}

/// Scanning from any position always produces at least one token, the
/// last one is an end-of-file token with an empty lexeme, and no earlier
/// token has kind `Eof`.
pub proof fn lemma_scan_ends_with_eof(s: Seq<char>, i: int, line: nat)
    requires
        0 <= i <= s.len(),
    ensures
        scan_from(s, i, line).tokens.len() >= 1,
        scan_from(s, i, line).tokens.last().kind == TokenKind::Eof,
        scan_from(s, i, line).tokens.last().lexeme == Seq::<char>::empty(),
        forall|j: int|
            0 <= j < scan_from(s, i, line).tokens.len() - 1 ==> scan_from(
                s,
                i,
                line,
            ).tokens[j].kind != TokenKind::Eof,
    decreases s.len() - i,
{
    if i < s.len() {
        let c = s[i];
        if is_single(c) {
            lemma_scan_ends_with_eof(s, i + 1, line);
        } else if is_pair_start(c) {
            if i + 1 < s.len() && s[i + 1] == '=' {
                lemma_scan_ends_with_eof(s, i + 2, line);
            } else {
                lemma_scan_ends_with_eof(s, i + 1, line);
            }
        } else if c == '/' {
            if i + 1 < s.len() && s[i + 1] == '/' {
                lemma_comment_end(s, i + 2);
                lemma_scan_ends_with_eof(s, comment_end(s, i + 2), line);
            } else {
                lemma_scan_ends_with_eof(s, i + 1, line);
            }
        } else if c == ' ' || c == '\r' || c == '\t' {
            lemma_scan_ends_with_eof(s, i + 1, line);
        } else if c == '\n' {
            lemma_scan_ends_with_eof(s, i + 1, line + 1);
        } else if c == '"' {
            lemma_string_body_end(s, i + 1);
            let close = string_body_end(s, i + 1);
            if close == s.len() {
                lemma_scan_ends_with_eof(
                    s,
                    s.len() as int,
                    line + count_newlines(s, i + 1, s.len() as int),
                );
            } else {
                lemma_scan_ends_with_eof(s, close + 1, line + count_newlines(s, i + 1, close));
            }
        } else if is_digit(c) {
            lemma_number_end(s, i);
            lemma_scan_ends_with_eof(s, number_end(s, i), line);
        } else if is_alpha(c) {
            lemma_ident_end(s, i);
            lemma_scan_ends_with_eof(s, ident_end(s, i), line);
        } else {
            lemma_scan_ends_with_eof(s, i + 1, line);
        }
    }
}

/// For every input text, scanning terminates — `scan_spec` is a total
/// function — and the result sequence ends with exactly one end-of-file
/// token whose lexeme is empty.
pub proof fn lemma_scan_spec_ends_with_eof(s: Seq<char>)
    ensures
        scan_spec(s).tokens.len() >= 1,
        scan_spec(s).tokens.last().kind == TokenKind::Eof,
        scan_spec(s).tokens.last().lexeme == Seq::<char>::empty(),
        forall|j: int|
            0 <= j < scan_spec(s).tokens.len() - 1 ==> scan_spec(s).tokens[j].kind
                != TokenKind::Eof,
{
    lemma_scan_ends_with_eof(s, 0, 1);
}

/// Scanning is deterministic: the tokens and the diagnostics are a
/// function of the input text alone, so scanning the same input twice
/// produces identical token and diagnostic sequences.
pub proof fn lemma_scan_deterministic(s: Seq<char>, t: Seq<char>)
    requires
        s == t,
    ensures
        scan_spec(s).tokens == scan_spec(t).tokens,
        scan_spec(s).diags == scan_spec(t).diags,
{
}

/// The character at `i` begins a token that is emitted at once: it is not
/// whitespace, not a newline, not the start of a `//` comment, not the
/// opening quote of an unterminated string, and not a rejected character.
pub open spec fn starts_token(s: Seq<char>, i: int) -> bool {
    let c = s[i];
    is_single(c) || is_pair_start(c) || (c == '/' && !(i + 1 < s.len() && s[i + 1] == '/')) || (c
        == '"' && string_body_end(s, i + 1) < s.len()) || is_digit(c) || is_alpha(c)
}

/// Line counting: when scanning stands at position `i` with the line
/// counter equal to one plus the number of newline characters before `i`
/// — as the scanner's cursor invariant always guarantees — and a token
/// begins at `i`, the token emitted there carries exactly that line
/// number: `k` newlines before it give line `k + 1`.
pub proof fn lemma_token_line(s: Seq<char>, i: int, line: nat)
    requires
        0 <= i < s.len(),
        line == 1 + count_newlines(s, 0, i),
        starts_token(s, i),
    ensures
        scan_from(s, i, line).tokens.len() >= 1,
        scan_from(s, i, line).tokens[0].line == 1 + count_newlines(s, 0, i),
{
    lemma_scan_ends_with_eof(s, i, line);
}

} // verus!

