//! The executable scanner, verified against the model in `crate::model`.

use vstd::prelude::*;

use crate::model::comment_end;
use crate::model::count_newlines;
use crate::model::digits_end;
use crate::model::eof_token;
use crate::model::ident_end;
use crate::model::lemma_digits_end;
use crate::model::lemma_ident_end;
use crate::model::plain_token;
use crate::model::with_diag;
use crate::model::with_token;
use crate::token::SpecLiteral;
use crate::model::is_alnum;
use crate::model::is_alpha;
use crate::model::is_digit;
use crate::model::is_pair_start;
use crate::model::is_single;
use crate::model::keyword_kind;
use crate::model::lemma_comment_end;
use crate::model::lemma_count_newlines_bound;
use crate::model::lemma_count_newlines_concat;
use crate::model::lemma_push_front;
use crate::model::lemma_string_body_end;
use crate::model::number_end;
use crate::model::pair_double_kind;
use crate::model::pair_single_kind;
use crate::model::scan_from;
use crate::model::scan_spec;
use crate::model::single_kind;
use crate::model::string_body_end;
use crate::model::SpecScan;
use crate::token::Diagnostic;
use crate::token::DiagnosticKind;
use crate::token::Literal;
use crate::token::SpecDiagnostic;
use crate::token::SpecToken;
use crate::token::Token;
use crate::token::TokenKind;

verus! {

/// The views of a token sequence.
pub open spec fn token_views(tokens: Seq<Token>) -> Seq<SpecToken> {
    tokens.map_values(|t: Token| t@)
}

/// The views of a diagnostic sequence.
pub open spec fn diag_views(diags: Seq<Diagnostic>) -> Seq<SpecDiagnostic> {
    diags.map_values(|d: Diagnostic| d@)
}

/// Decides `is_digit`.
fn digit_char(c: char) -> (r: bool)
    ensures
        r == is_digit(c),
{
    ('0' as u32) <= (c as u32) && (c as u32) <= ('9' as u32)
}

/// Decides `is_alpha`.
fn alpha_char(c: char) -> (r: bool)
    ensures
        r == is_alpha(c),
{
    (('a' as u32) <= (c as u32) && (c as u32) <= ('z' as u32))
        || (('A' as u32) <= (c as u32) && (c as u32) <= ('Z' as u32)) || c == '_'
}

/// Decides `is_alnum`.
fn alnum_char(c: char) -> (r: bool)
    ensures
        r == is_alnum(c),
{
    digit_char(c) || alpha_char(c)
}

/// Decides `is_single`.
fn single_char(c: char) -> (r: bool)
    ensures
        r == is_single(c),
{
    c == '(' || c == ')' || c == '{' || c == '}' || c == ',' || c == '.' || c == '-' || c == '+'
        || c == ';' || c == '*'
}

/// Decides `is_pair_start`.
fn pair_char(c: char) -> (r: bool)
    ensures
        r == is_pair_start(c),
{
    c == '!' || c == '=' || c == '<' || c == '>'
}

/// The kind of an unconditional one-character token.
fn single_kind_of(c: char) -> (kind: TokenKind)
    ensures
        kind == single_kind(c),
{
    if c == '(' {
        TokenKind::LeftParen
    } else if c == ')' {
        TokenKind::RightParen
    } else if c == '{' {
        TokenKind::LeftBrace
    } else if c == '}' {
        TokenKind::RightBrace
    } else if c == ',' {
        TokenKind::Comma
    } else if c == '.' {
        TokenKind::Dot
    } else if c == '-' {
        TokenKind::Minus
    } else if c == '+' {
        TokenKind::Plus
    } else if c == ';' {
        TokenKind::Semicolon
    } else {
        TokenKind::Star
    }
}

/// The kind of a pair-start character standing alone.
fn pair_single_kind_of(c: char) -> (kind: TokenKind)
    ensures
        kind == pair_single_kind(c),
{
    if c == '!' {
        TokenKind::Bang
    } else if c == '=' {
        TokenKind::Equal
    } else if c == '<' {
        TokenKind::Less
    } else {
        TokenKind::Greater
    }
}

/// The kind of a pair-start character followed by `=`.
fn pair_double_kind_of(c: char) -> (kind: TokenKind)
    ensures
        kind == pair_double_kind(c),
{
    if c == '!' {
        TokenKind::BangEqual
    } else if c == '=' {
        TokenKind::EqualEqual
    } else if c == '<' {
        TokenKind::LessEqual
    } else {
        TokenKind::GreaterEqual
    }
}

/// Exact-match lookup of an identifier's text in the keyword table.
fn keyword_or_identifier(text: &String) -> (kind: TokenKind)
    ensures
        kind == keyword_kind(text@),
{
    if *text == String::from_str("and") {
        TokenKind::And
    } else if *text == String::from_str("class") {
        TokenKind::Class
    } else if *text == String::from_str("else") {
        TokenKind::Else
    } else if *text == String::from_str("false") {
        TokenKind::False
    } else if *text == String::from_str("fun") {
        TokenKind::Fun
    } else if *text == String::from_str("for") {
        TokenKind::For
    } else if *text == String::from_str("if") {
        TokenKind::If
    } else if *text == String::from_str("nil") {
        TokenKind::Nil
    } else if *text == String::from_str("or") {
        TokenKind::Or
    } else if *text == String::from_str("print") {
        TokenKind::Print
    } else if *text == String::from_str("return") {
        TokenKind::Return
    } else if *text == String::from_str("super") {
        TokenKind::Super
    } else if *text == String::from_str("this") {
        TokenKind::This
    } else if *text == String::from_str("true") {
        TokenKind::True
    } else if *text == String::from_str("var") {
        TokenKind::Var
    } else if *text == String::from_str("while") {
        TokenKind::While
    } else {
        TokenKind::Identifier
    }
}

/// A stateful cursor over an immutable source buffer. One instance scans
/// one source text to completion and is then discarded.
pub struct Scanner {
    /// The full input text, never mutated during scanning.
    pub source: String,
    /// The growing, insertion-ordered token output.
    pub tokens: Vec<Token>,
    /// The accumulated non-fatal diagnostics.
    pub diagnostics: Vec<Diagnostic>,
    /// Character offset of the lexeme currently being scanned.
    pub start: usize,
    /// Character offset of the next unconsumed character.
    pub current: usize,
    /// Current 1-based line counter.
    pub line: usize,
}

impl Scanner {
    /// The views of the tokens emitted so far.
    pub open spec fn emitted_tokens(self) -> Seq<SpecToken> {
        self.tokens@.map_values(|t: Token| t@)
    }

    /// The views of the diagnostics recorded so far.
    pub open spec fn emitted_diags(self) -> Seq<SpecDiagnostic> {
        self.diagnostics@.map_values(|d: Diagnostic| d@)
    }

    /// What the model says the rest of the scan produces, from the
    /// cursor's current position and line.
    pub open spec fn remaining(self) -> SpecScan {
        scan_from(self.source@, self.current as int, self.line as nat)
    }

    /// The cursor is in bounds and the line counter equals one plus the
    /// number of newline characters already consumed.
    pub open spec fn cursor_ok(self) -> bool {
        self.current <= self.source@.len()
            && self.line as nat == 1 + count_newlines(self.source@, 0, self.current as int)
    }

    /// A scanner as `new` returns it: positioned at the start, with no
    /// tokens and no diagnostics yet.
    pub open spec fn ready(self) -> bool {
        self.tokens@.len() == 0 && self.diagnostics@.len() == 0 && self.start == 0
            && self.current == 0 && self.line == 1
    }

    /// Constructs a scanner positioned at the start of `source`. Never
    /// fails: empty input is legal and scans to a single end-of-file token.
    pub fn new(source: String) -> (scanner: Scanner)
        ensures
            scanner.source@ == source@,
            scanner.ready(),
            scanner.cursor_ok(),
    {
        Scanner {
            source,
            tokens: Vec::new(),
            diagnostics: Vec::new(),
            start: 0,
            current: 0,
            line: 1,
        }
    }

    /// Whether every character of the source has been consumed.
    pub fn is_at_end(&self) -> (at_end: bool)
        ensures
            at_end == (self.current >= self.source@.len()),
    {
        self.current >= self.source.as_str().unicode_len()
    }

    /// Appends a token whose lexeme is the source text from `start` to
    /// `current`, with the given kind, literal payload, and line.
    fn emit(&mut self, kind: TokenKind, literal: Literal, line: usize)
        requires
            old(self).start <= old(self).current <= old(self).source@.len(),
        ensures
            final(self).source == old(self).source,
            final(self).start == old(self).start,
            final(self).current == old(self).current,
            final(self).line == old(self).line,
            final(self).diagnostics == old(self).diagnostics,
            final(self).emitted_tokens() == old(self).emitted_tokens().push(
                (SpecToken {
                    kind,
                    lexeme: old(self).source@.subrange(
                        old(self).start as int,
                        old(self).current as int,
                    ),
                    literal: literal@,
                    line: line as nat,
                }),
            ),
    {
        let lexeme = self.source.as_str().substring_char(self.start, self.current).to_owned();
        let ghost expected = SpecToken {
            kind,
            lexeme: self.source@.subrange(self.start as int, self.current as int),
            literal: literal@,
            line: line as nat,
        };
        let token = Token { kind, lexeme, literal, line };
        self.tokens.push(token);
        proof {
            assert(self.emitted_tokens() =~= old(self).emitted_tokens().push(expected));
        }
    }

    /// Records a non-fatal diagnostic at the given line.
    fn report(&mut self, kind: DiagnosticKind, line: usize)
        ensures
            final(self).source == old(self).source,
            final(self).start == old(self).start,
            final(self).current == old(self).current,
            final(self).line == old(self).line,
            final(self).tokens == old(self).tokens,
            final(self).emitted_tokens() == old(self).emitted_tokens(),
            final(self).emitted_diags() == old(self).emitted_diags().push(
                (SpecDiagnostic { kind, line: line as nat }),
            ),
    {
        self.diagnostics.push(Diagnostic { kind, line });
        proof {
            assert(self.emitted_diags() =~= old(self).emitted_diags().push(
                SpecDiagnostic { kind, line: line as nat },
            ));
        }
    }

    /// Consumes the next character exactly when it equals `expected`.
    fn match_char(&mut self, expected: char) -> (matched: bool)
        requires
            old(self).current <= old(self).source@.len(),
        ensures
            final(self).source == old(self).source,
            final(self).start == old(self).start,
            final(self).line == old(self).line,
            final(self).tokens == old(self).tokens,
            final(self).diagnostics == old(self).diagnostics,
            matched == (old(self).current < old(self).source@.len()
                && old(self).source@[old(self).current as int] == expected),
            matched ==> final(self).current == old(self).current + 1,
            !matched ==> final(self).current == old(self).current,
    {
        if self.current < self.source.as_str().unicode_len() {
            let c = self.source.as_str().get_char(self.current);
            if c == expected {
                self.current = self.current + 1;
                return true;
            }
        }
        false
    }

    /// Finishes a string literal whose opening quote stands at `start`
    /// and was just consumed. Emits a string token on success, or records
    /// an unterminated-string diagnostic anchored at the opening line and
    /// resumes at end-of-input.
    #[verifier::loop_isolation(false)]
    fn scan_string(&mut self, line0: usize)
        requires
            old(self).source@.len() < usize::MAX,
            old(self).current == old(self).start + 1,
            old(self).current <= old(self).source@.len(),
            old(self).source@[old(self).start as int] == '"',
            old(self).line == line0,
            old(self).line as nat == 1 + count_newlines(old(self).source@, 0, old(self).current as int),
        ensures
            final(self).cursor_ok(),
            final(self).source == old(self).source,
            old(self).start < final(self).current,
            final(self).emitted_tokens() + final(self).remaining().tokens == old(
                self,
            ).emitted_tokens() + scan_from(
                old(self).source@,
                old(self).start as int,
                old(self).line as nat,
            ).tokens,
            final(self).emitted_diags() + final(self).remaining().diags == old(
                self,
            ).emitted_diags() + scan_from(
                old(self).source@,
                old(self).start as int,
                old(self).line as nat,
            ).diags,
    {
        let ghost s = self.source@;
        let ghost q = self.start as int;
        let ghost l0 = self.line as nat;
        let ghost toks0 = self.emitted_tokens();
        let ghost dgs0 = self.emitted_diags();
        proof {
            lemma_string_body_end(s, q + 1);
        }
        let ghost close = string_body_end(s, q + 1);
        let n = self.source.as_str().unicode_len();
        while self.current < n && self.source.as_str().get_char(self.current) != '"'
            invariant
                self.source == old(self).source,
                self.start as int == q,
                self.emitted_tokens() == toks0,
                self.emitted_diags() == dgs0,
                q + 1 <= self.current <= s.len(),
                string_body_end(s, self.current as int) == close,
                self.line as nat == 1 + count_newlines(s, 0, self.current as int),
            decreases s.len() - self.current,
        {
            let c = self.source.as_str().get_char(self.current);
            proof {
                assert(string_body_end(s, self.current as int) == string_body_end(
                    s,
                    self.current as int + 1,
                ));
            }
            if c == '\n' {
                proof {
                    lemma_count_newlines_bound(s, 0, self.current as int);
                }
                self.line = self.line + 1;
            }
            self.current = self.current + 1;
        }
        proof {
            lemma_count_newlines_concat(s, 0, q + 1, self.current as int);
            assert(count_newlines(s, 0, q + 1) == count_newlines(s, 0, q));
        }
        if self.current >= n {
            proof {
                assert(close == s.len());
            }
            self.report(DiagnosticKind::UnterminatedString, line0);
            proof {
                let d = SpecDiagnostic { kind: DiagnosticKind::UnterminatedString, line: l0 };
                assert(self.line as nat == l0 + count_newlines(s, q + 1, s.len() as int));
                assert(scan_from(s, q, l0) == with_diag(
                    d,
                    scan_from(s, s.len() as int, self.line as nat),
                ));
                lemma_push_front(dgs0, d, scan_from(s, s.len() as int, self.line as nat).diags);
            }
        } else {
            proof {
                assert(s[self.current as int] == '"');
                assert(string_body_end(s, self.current as int) == self.current as int);
                assert(close == self.current as int);
            }
            let body = self.source.as_str().substring_char(self.start + 1, self.current).to_owned();
            self.current = self.current + 1;
            self.emit(TokenKind::Str, Literal::Str(body), line0);
            proof {
                let strtok = SpecToken {
                    kind: TokenKind::Str,
                    lexeme: s.subrange(q, close + 1),
                    literal: SpecLiteral::Str(s.subrange(q + 1, close)),
                    line: l0,
                };
                assert(count_newlines(s, 0, close + 1) == count_newlines(s, 0, close));
                assert(self.line as nat == l0 + count_newlines(s, q + 1, close));
                assert(scan_from(s, q, l0) == with_token(
                    strtok,
                    scan_from(s, close + 1, self.line as nat),
                ));
                lemma_push_front(toks0, strtok, scan_from(s, close + 1, self.line as nat).tokens);
            }
        }
    }

    /// Finishes a number literal whose first digit stands at `start` and
    /// was just consumed: a maximal run of digits, then a fractional part
    /// only when a `.` is directly followed by a digit.
    #[verifier::loop_isolation(false)]
    fn scan_number(&mut self, line0: usize)
        requires
            old(self).source@.len() < usize::MAX,
            old(self).current == old(self).start + 1,
            old(self).current <= old(self).source@.len(),
            is_digit(old(self).source@[old(self).start as int]),
            old(self).line == line0,
            old(self).line as nat == 1 + count_newlines(old(self).source@, 0, old(self).current as int),
        ensures
            final(self).cursor_ok(),
            final(self).source == old(self).source,
            old(self).start < final(self).current,
            final(self).emitted_tokens() + final(self).remaining().tokens == old(
                self,
            ).emitted_tokens() + scan_from(
                old(self).source@,
                old(self).start as int,
                old(self).line as nat,
            ).tokens,
            final(self).emitted_diags() + final(self).remaining().diags == old(
                self,
            ).emitted_diags() + scan_from(
                old(self).source@,
                old(self).start as int,
                old(self).line as nat,
            ).diags,
    {
        let ghost s = self.source@;
        let ghost q = self.start as int;
        let ghost l0 = self.line as nat;
        let ghost toks0 = self.emitted_tokens();
        let ghost dgs0 = self.emitted_diags();
        proof {
            lemma_digits_end(s, q);
            assert(digits_end(s, q) == digits_end(s, q + 1));
        }
        let n = self.source.as_str().unicode_len();
        while self.current < n && digit_char(self.source.as_str().get_char(self.current))
            invariant
                self.source == old(self).source,
                self.start as int == q,
                self.line == line0,
                self.emitted_tokens() == toks0,
                self.emitted_diags() == dgs0,
                q + 1 <= self.current <= s.len(),
                digits_end(s, self.current as int) == digits_end(s, q),
                self.line as nat == 1 + count_newlines(s, 0, self.current as int),
            decreases s.len() - self.current,
        {
            proof {
                assert(is_digit(s[self.current as int]));
                assert(s[self.current as int] != '\n');
                assert(digits_end(s, self.current as int) == digits_end(
                    s,
                    self.current as int + 1,
                ));
            }
            self.current = self.current + 1;
        }
        let ghost d = digits_end(s, q);
        proof {
            assert(self.current as int == d);
        }
        if self.current < n {
            let cdot = self.source.as_str().get_char(self.current);
            if cdot == '.' && self.current + 1 < n {
                let cnext = self.source.as_str().get_char(self.current + 1);
                if digit_char(cnext) {
                    self.current = self.current + 1;
                    proof {
                        lemma_digits_end(s, d + 1);
                        assert(count_newlines(s, 0, d + 1) == count_newlines(s, 0, d));
                    }
                    while self.current < n && digit_char(self.source.as_str().get_char(self.current))
                        invariant
                            self.source == old(self).source,
                            self.start as int == q,
                            self.line == line0,
                            self.emitted_tokens() == toks0,
                            self.emitted_diags() == dgs0,
                            d + 1 <= self.current <= s.len(),
                            digits_end(s, self.current as int) == digits_end(s, d + 1),
                            self.line as nat == 1 + count_newlines(s, 0, self.current as int),
                        decreases s.len() - self.current,
                    {
                        proof {
                            assert(is_digit(s[self.current as int]));
                            assert(s[self.current as int] != '\n');
                            assert(digits_end(s, self.current as int) == digits_end(
                                s,
                                self.current as int + 1,
                            ));
                        }
                        self.current = self.current + 1;
                    }
                    proof {
                        assert(self.current as int == digits_end(s, d + 1));
                    }
                }
            }
        }
        proof {
            assert(self.current as int == number_end(s, q));
        }
        let text = self.source.as_str().substring_char(self.start, self.current).to_owned();
        self.emit(TokenKind::Number, Literal::Num(text), line0);
        proof {
            let numtok = SpecToken {
                kind: TokenKind::Number,
                lexeme: s.subrange(q, self.current as int),
                literal: SpecLiteral::Num(s.subrange(q, self.current as int)),
                line: l0,
            };
            assert(scan_from(s, q, l0) == with_token(
                numtok,
                scan_from(s, self.current as int, l0),
            ));
            lemma_push_front(toks0, numtok, scan_from(s, self.current as int, l0).tokens);
        }
    }

    /// Finishes an identifier or keyword whose first character stands at
    /// `start` and was just consumed: a maximal run of identifier
    /// characters, then an exact-match keyword lookup.
    #[verifier::loop_isolation(false)]
    fn scan_identifier(&mut self, line0: usize)
        requires
            old(self).source@.len() < usize::MAX,
            old(self).current == old(self).start + 1,
            old(self).current <= old(self).source@.len(),
            is_alpha(old(self).source@[old(self).start as int]),
            old(self).line == line0,
            old(self).line as nat == 1 + count_newlines(old(self).source@, 0, old(self).current as int),
        ensures
            final(self).cursor_ok(),
            final(self).source == old(self).source,
            old(self).start < final(self).current,
            final(self).emitted_tokens() + final(self).remaining().tokens == old(
                self,
            ).emitted_tokens() + scan_from(
                old(self).source@,
                old(self).start as int,
                old(self).line as nat,
            ).tokens,
            final(self).emitted_diags() + final(self).remaining().diags == old(
                self,
            ).emitted_diags() + scan_from(
                old(self).source@,
                old(self).start as int,
                old(self).line as nat,
            ).diags,
    {
        let ghost s = self.source@;
        let ghost q = self.start as int;
        let ghost l0 = self.line as nat;
        let ghost toks0 = self.emitted_tokens();
        let ghost dgs0 = self.emitted_diags();
        proof {
            lemma_ident_end(s, q);
            assert(ident_end(s, q) == ident_end(s, q + 1));
        }
        let n = self.source.as_str().unicode_len();
        while self.current < n && alnum_char(self.source.as_str().get_char(self.current))
            invariant
                self.source == old(self).source,
                self.start as int == q,
                self.line == line0,
                self.emitted_tokens() == toks0,
                self.emitted_diags() == dgs0,
                q + 1 <= self.current <= s.len(),
                ident_end(s, self.current as int) == ident_end(s, q),
                self.line as nat == 1 + count_newlines(s, 0, self.current as int),
            decreases s.len() - self.current,
        {
            proof {
                assert(is_alnum(s[self.current as int]));
                assert(s[self.current as int] != '\n');
                assert(ident_end(s, self.current as int) == ident_end(s, self.current as int + 1));
            }
            self.current = self.current + 1;
        }
        proof {
            assert(self.current as int == ident_end(s, q));
        }
        let text = self.source.as_str().substring_char(self.start, self.current).to_owned();
        let kind = keyword_or_identifier(&text);
        self.emit(kind, Literal::Absent, line0);
        proof {
            let idtok = SpecToken {
                kind: keyword_kind(s.subrange(q, self.current as int)),
                lexeme: s.subrange(q, self.current as int),
                literal: SpecLiteral::Absent,
                line: l0,
            };
            assert(scan_from(s, q, l0) == with_token(
                idtok,
                scan_from(s, self.current as int, l0),
            ));
            lemma_push_front(toks0, idtok, scan_from(s, self.current as int, l0).tokens);
        }
    }

    /// Scans exactly one lexeme: emits at most one token or diagnostic,
    /// consumes at least one character, and leaves the total of what was
    /// emitted and what the model says remains unchanged.
    #[verifier::loop_isolation(false)]
    pub fn scan_token(&mut self)
        requires
            old(self).cursor_ok(),
            old(self).current < old(self).source@.len(),
            old(self).source@.len() < usize::MAX,
        ensures
            final(self).cursor_ok(),
            final(self).source == old(self).source,
            old(self).current < final(self).current,
            final(self).emitted_tokens() + final(self).remaining().tokens == old(
                self,
            ).emitted_tokens() + old(self).remaining().tokens,
            final(self).emitted_diags() + final(self).remaining().diags == old(
                self,
            ).emitted_diags() + old(self).remaining().diags,
    {
        let ghost s = self.source@;
        let ghost i0 = self.current as int;
        let ghost l0 = self.line as nat;
        let ghost toks0 = self.emitted_tokens();
        let ghost dgs0 = self.emitted_diags();
        self.start = self.current;
        let line0 = self.line;
        let c = self.source.as_str().get_char(self.current);
        self.current = self.current + 1;
        proof {
            assert(count_newlines(s, 0, i0 + 1) == count_newlines(s, 0, i0) + (if s[i0] == '\n' {
                1nat
            } else {
                0nat
            }));
        }
        if single_char(c) {
            let kind = single_kind_of(c);
            self.emit(kind, Literal::Absent, line0);
            proof {
                let tok = plain_token(single_kind(c), s, i0, i0 + 1, l0);
                assert(scan_from(s, i0, l0) == with_token(tok, scan_from(s, i0 + 1, l0)));
                lemma_push_front(toks0, tok, scan_from(s, i0 + 1, l0).tokens);
            }
        } else if pair_char(c) {
            let matched = self.match_char('=');
            if matched {
                let kind = pair_double_kind_of(c);
                self.emit(kind, Literal::Absent, line0);
                proof {
                    assert(count_newlines(s, 0, i0 + 2) == count_newlines(s, 0, i0 + 1) + (
                    if s[i0 + 1] == '\n' {
                        1nat
                    } else {
                        0nat
                    }));
                    let tok = plain_token(pair_double_kind(c), s, i0, i0 + 2, l0);
                    assert(scan_from(s, i0, l0) == with_token(tok, scan_from(s, i0 + 2, l0)));
                    lemma_push_front(toks0, tok, scan_from(s, i0 + 2, l0).tokens);
                }
            } else {
                let kind = pair_single_kind_of(c);
                self.emit(kind, Literal::Absent, line0);
                proof {
                    let tok = plain_token(pair_single_kind(c), s, i0, i0 + 1, l0);
                    assert(scan_from(s, i0, l0) == with_token(tok, scan_from(s, i0 + 1, l0)));
                    lemma_push_front(toks0, tok, scan_from(s, i0 + 1, l0).tokens);
                }
            }
        } else if c == '/' {
            let matched = self.match_char('/');
            if matched {
                proof {
                    lemma_comment_end(s, i0 + 2);
                    assert(count_newlines(s, 0, i0 + 2) == count_newlines(s, 0, i0 + 1) + (
                    if s[i0 + 1] == '\n' {
                        1nat
                    } else {
                        0nat
                    }));
                }
                let n = self.source.as_str().unicode_len();
                while self.current < n && self.source.as_str().get_char(self.current) != '\n'
                    invariant
                        self.source == old(self).source,
                        self.start as int == i0,
                        self.line == line0,
                        self.tokens == old(self).tokens,
                        self.diagnostics == old(self).diagnostics,
                        i0 + 2 <= self.current <= s.len(),
                        comment_end(s, self.current as int) == comment_end(s, i0 + 2),
                        self.line as nat == 1 + count_newlines(s, 0, self.current as int),
                    decreases s.len() - self.current,
                {
                    proof {
                        assert(s[self.current as int] != '\n');
                        assert(comment_end(s, self.current as int) == comment_end(
                            s,
                            self.current as int + 1,
                        ));
                    }
                    self.current = self.current + 1;
                }
                proof {
                    assert(self.current as int == comment_end(s, i0 + 2));
                    assert(scan_from(s, i0, l0) == scan_from(s, comment_end(s, i0 + 2), l0));
                }
            } else {
                self.emit(TokenKind::Slash, Literal::Absent, line0);
                proof {
                    let tok = plain_token(TokenKind::Slash, s, i0, i0 + 1, l0);
                    assert(scan_from(s, i0, l0) == with_token(tok, scan_from(s, i0 + 1, l0)));
                    lemma_push_front(toks0, tok, scan_from(s, i0 + 1, l0).tokens);
                }
            }
        } else if c == ' ' || c == '\r' || c == '\t' {
            proof {
                assert(scan_from(s, i0, l0) == scan_from(s, i0 + 1, l0));
            }
        } else if c == '\n' {
            proof {
                lemma_count_newlines_bound(s, 0, i0);
            }
            self.line = self.line + 1;
            proof {
                assert(scan_from(s, i0, l0) == scan_from(s, i0 + 1, l0 + 1));
            }
        } else if c == '"' {
            self.scan_string(line0);
        } else if digit_char(c) {
            self.scan_number(line0);
        } else if alpha_char(c) {
            self.scan_identifier(line0);
        } else {
            self.report(DiagnosticKind::UnexpectedCharacter, line0);
            proof {
                let d = SpecDiagnostic { kind: DiagnosticKind::UnexpectedCharacter, line: l0 };
                assert(scan_from(s, i0, l0) == with_diag(d, scan_from(s, i0 + 1, l0)));
                lemma_push_front(dgs0, d, scan_from(s, i0 + 1, l0).diags);
            }
        }
    }

    /// Consumes the scanner and scans the whole source to completion.
    ///
    /// The returned token sequence and diagnostic sequence are exactly
    /// what the model `scan_spec` says for the source text; in
    /// particular, the token sequence is never empty and its final token
    /// has kind `Eof`.
    #[verifier::loop_isolation(false)]
    pub fn scan_tokens(self) -> (result: (Vec<Token>, Vec<Diagnostic>))
        requires
            self.ready(),
            self.source@.len() < usize::MAX,
        ensures
            token_views(result.0@) == scan_spec(self.source@).tokens,
            diag_views(result.1@) == scan_spec(self.source@).diags,
            result.0@.len() >= 1,
            result.0@[result.0@.len() - 1]@.kind == TokenKind::Eof,
    {
        let mut scanner = self;
        let ghost s = scanner.source@;
        proof {
            assert(scanner.emitted_tokens() =~= Seq::<SpecToken>::empty());
            assert(scanner.emitted_diags() =~= Seq::<SpecDiagnostic>::empty());
            assert(scanner.emitted_tokens() + scanner.remaining().tokens =~= scan_spec(s).tokens);
            assert(scanner.emitted_diags() + scanner.remaining().diags =~= scan_spec(s).diags);
        }
        while !scanner.is_at_end()
            invariant
                scanner.source@ == s,
                s.len() < usize::MAX,
                scanner.cursor_ok(),
                scanner.emitted_tokens() + scanner.remaining().tokens == scan_spec(s).tokens,
                scanner.emitted_diags() + scanner.remaining().diags == scan_spec(s).diags,
            decreases s.len() - scanner.current,
        {
            scanner.scan_token();
        }
        let eof = Token {
            kind: TokenKind::Eof,
            lexeme: String::new(),
            literal: Literal::Absent,
            line: scanner.line,
        };
        let ghost pre = scanner.emitted_tokens();
        proof {
            assert(scanner.remaining().tokens =~= seq![eof_token(scanner.line as nat)]);
            assert(scanner.remaining().diags =~= Seq::<SpecDiagnostic>::empty());
            assert(eof@ =~= eof_token(scanner.line as nat));
        }
        scanner.tokens.push(eof);
        proof {
            assert(scanner.emitted_tokens() =~= pre.push(eof@));
            assert(pre.push(eof@) =~= pre + seq![eof@]);
            assert(scanner.emitted_diags() + Seq::<SpecDiagnostic>::empty() =~= scanner.emitted_diags());
        }
        (scanner.tokens, scanner.diagnostics)
    }
}

} // verus!
