//! The scanner: source text to an ordered token sequence, by maximal munch,
//! batching lexical errors instead of stopping at the first one.
//!
//! `scan_step` says what one classification step at a position yields —
//! which tokens, which diagnostics, and where scanning resumes — and
//! `scan_from` folds the steps over the text. The executable scanner is
//! proved to produce exactly that.

use crate::lox::{Error, ErrorView};
use crate::text::{
    all_digits, digits_val, is_digit_char, string_from_chars, chars_vec,
};
use crate::token_type::{tokens_view, LitView, Literal, Token, TokenType, TokenView};
use vstd::prelude::*;

verus! {

/// How many line breaks a piece of text holds.
pub open spec fn count_nl(t: Seq<char>) -> nat
    decreases t.len(),
{
    if t.len() == 0 {
        0
    } else {
        count_nl(t.drop_last()) + (if t.last() == '\n' {
            1nat
        } else {
            0nat
        })
    }
}

/// The 1-based source line at position `i`: one more than the line breaks
/// before it.
pub open spec fn line_of(s: Seq<char>, i: int) -> nat {
    1 + count_nl(s.take(i))
}

/// Whether `c` can begin an identifier (a letter or an underscore).
pub open spec fn is_alpha_char(c: char) -> bool {
    ('a' <= c && c <= 'z') || ('A' <= c && c <= 'Z') || c == '_'
}

/// Whether `c` can continue an identifier.
pub open spec fn is_alnum_char(c: char) -> bool {
    is_alpha_char(c) || is_digit_char(c)
}

/// The first position at or after `k` that does not continue a digit run.
pub open spec fn end_digits(s: Seq<char>, k: int) -> int
    decreases s.len() - k,
{
    if k < 0 || k >= s.len() || !is_digit_char(s[k]) {
        k
    } else {
        end_digits(s, k + 1)
    }
}

/// The first position at or after `k` that does not continue an identifier.
pub open spec fn end_alnum(s: Seq<char>, k: int) -> int
    decreases s.len() - k,
{
    if k < 0 || k >= s.len() || !is_alnum_char(s[k]) {
        k
    } else {
        end_alnum(s, k + 1)
    }
}

/// The first position at or after `k` holding `c`, or the end of the text.
pub open spec fn find_char(s: Seq<char>, k: int, c: char) -> int
    decreases s.len() - k,
{
    if k < 0 || k >= s.len() {
        s.len() as int
    } else if s[k] == c {
        k
    } else {
        find_char(s, k + 1, c)
    }
}

/// The ends returned by the run and search functions never precede `k` and
/// never pass the end of the text.
pub proof fn lemma_scan_ends(s: Seq<char>, k: int, c: char)
    requires
        0 <= k <= s.len(),
    ensures
        k <= end_digits(s, k) <= s.len(),
        k <= end_alnum(s, k) <= s.len(),
        k <= find_char(s, k, c) <= s.len(),
    decreases s.len() - k,
{
    if k < s.len() {
        lemma_scan_ends(s, k + 1, c);
    }
}

/// The token kind an identifier lexeme denotes: its keyword, if it is one.
pub open spec fn keyword_kind(lex: Seq<char>) -> TokenType {
    if lex == "and"@ {
        TokenType::And
    } else if lex == "class"@ {
        TokenType::Class
    } else if lex == "else"@ {
        TokenType::Else
    } else if lex == "false"@ {
        TokenType::False
    } else if lex == "for"@ {
        TokenType::For
    } else if lex == "fun"@ {
        TokenType::Fun
    } else if lex == "if"@ {
        TokenType::If
    } else if lex == "nil"@ {
        TokenType::Nil
    } else if lex == "or"@ {
        TokenType::Or
    } else if lex == "print"@ {
        TokenType::Print
    } else if lex == "return"@ {
        TokenType::Return
    } else if lex == "super"@ {
        TokenType::Super
    } else if lex == "this"@ {
        TokenType::This
    } else if lex == "true"@ {
        TokenType::True
    } else if lex == "var"@ {
        TokenType::Var
    } else if lex == "while"@ {
        TokenType::While
    } else {
        TokenType::Identifier
    }
}

/// A token without a literal payload.
pub open spec fn plain_tv(kind: TokenType, lexeme: Seq<char>, line: nat) -> TokenView {
    TokenView { kind, lexeme, literal: Option::None, line }
}

/// What one scan step yields: the tokens and diagnostics it emits, and the
/// position where the next step begins.
pub struct ScanStep {
    pub toks: Seq<TokenView>,
    pub errs: Seq<ErrorView>,
    pub next: int,
}

/// A step that emits one plain token of `w` characters.
pub open spec fn tok_step(s: Seq<char>, i: int, kind: TokenType, w: int) -> ScanStep {
    ScanStep {
        toks: seq![plain_tv(kind, s.subrange(i, i + w), line_of(s, i))],
        errs: seq![],
        next: i + w,
    }
}

/// Whether the operator at `i` pairs with `=` into its two-character form.
pub open spec fn pairs_eq(s: Seq<char>, i: int) -> bool {
    i + 1 < s.len() && s[i + 1] == '='
}

/// One classification step of the scanner at position `i`: single- and
/// two-character operators by maximal munch, `//` comments to end of line,
/// string literals to the closing quote, numbers, identifiers and keywords,
/// whitespace, and a diagnostic for anything else.
pub open spec fn scan_step(s: Seq<char>, i: int) -> ScanStep {
    let c = s[i];
    if c == '(' {
        tok_step(s, i, TokenType::LeftParen, 1)
    } else if c == ')' {
        tok_step(s, i, TokenType::RightParen, 1)
    } else if c == '{' {
        tok_step(s, i, TokenType::LeftBrace, 1)
    } else if c == '}' {
        tok_step(s, i, TokenType::RightBrace, 1)
    } else if c == ',' {
        tok_step(s, i, TokenType::Comma, 1)
    } else if c == '.' {
        tok_step(s, i, TokenType::Dot, 1)
    } else if c == '-' {
        tok_step(s, i, TokenType::Minus, 1)
    } else if c == '+' {
        tok_step(s, i, TokenType::Plus, 1)
    } else if c == ';' {
        tok_step(s, i, TokenType::Semicolon, 1)
    } else if c == '*' {
        tok_step(s, i, TokenType::Star, 1)
    } else if c == '!' {
        if pairs_eq(s, i) {
            tok_step(s, i, TokenType::BangEqual, 2)
        } else {
            tok_step(s, i, TokenType::Bang, 1)
        }
    } else if c == '=' {
        if pairs_eq(s, i) {
            tok_step(s, i, TokenType::EqualEqual, 2)
        } else {
            tok_step(s, i, TokenType::Equal, 1)
        }
    } else if c == '<' {
        if pairs_eq(s, i) {
            tok_step(s, i, TokenType::LessEqual, 2)
        } else {
            tok_step(s, i, TokenType::Less, 1)
        }
    } else if c == '>' {
        if pairs_eq(s, i) {
            tok_step(s, i, TokenType::GreaterEqual, 2)
        } else {
            tok_step(s, i, TokenType::Greater, 1)
        }
    } else if c == '/' {
        if i + 1 < s.len() && s[i + 1] == '/' {
            ScanStep { toks: seq![], errs: seq![], next: find_char(s, i + 2, '\n') }
        } else {
            tok_step(s, i, TokenType::Slash, 1)
        }
    } else if c == '"' {
        scan_string_step(s, i)
    } else if is_digit_char(c) {
        scan_number_step(s, i)
    } else if is_alpha_char(c) {
        scan_identifier_step(s, i)
    } else if c == ' ' || c == '\r' || c == '\t' || c == '\n' {
        ScanStep { toks: seq![], errs: seq![], next: i + 1 }
    } else {
        ScanStep {
            toks: seq![],
            errs: seq![
                ErrorView { line: line_of(s, i), message: "Unexpected character: "@ + seq![c] },
            ],
            next: i + 1,
        }
    }
}

/// The step for a string literal: consumed verbatim (no escapes) to the
/// closing quote; reaching the end of input first is a diagnostic citing
/// the line the string began on.
pub open spec fn scan_string_step(s: Seq<char>, i: int) -> ScanStep {
    let j = find_char(s, i + 1, '"');
    if j >= s.len() {
        ScanStep {
            toks: seq![],
            errs: seq![ErrorView { line: line_of(s, i), message: "Unterminated string"@ }],
            next: s.len() as int,
        }
    } else {
        ScanStep {
            toks: seq![
                TokenView {
                    kind: TokenType::String,
                    lexeme: s.subrange(i, j + 1),
                    literal: Option::Some(LitView::Str(s.subrange(i + 1, j))),
                    line: line_of(s, j + 1),
                },
            ],
            errs: seq![],
            next: j + 1,
        }
    }
}

/// The step for a number: one or more digits, then optionally a point
/// followed by one or more digits. The numeral denotes a 64-bit number
/// when its integer part fits and its fraction digits are all zero; any
/// other numeral is a diagnostic, since values here are whole 64-bit
/// numbers.
pub open spec fn scan_number_step(s: Seq<char>, i: int) -> ScanStep {
    let k = end_digits(s, i);
    let j = if k < s.len() && s[k] == '.' && k + 1 < s.len() && is_digit_char(s[k + 1]) {
        end_digits(s, k + 1)
    } else {
        k
    };
    let lexeme = s.subrange(i, j);
    let whole = s.subrange(i, k);
    let frac_zero = forall|d: int| k + 1 <= d < j ==> s[d] == '0';
    if digits_val(whole) <= i64::MAX && frac_zero {
        ScanStep {
            toks: seq![
                TokenView {
                    kind: TokenType::Number,
                    lexeme,
                    literal: Option::Some(LitView::Num(digits_val(whole))),
                    line: line_of(s, i),
                },
            ],
            errs: seq![],
            next: j,
        }
    } else {
        ScanStep {
            errs: seq![
                ErrorView {
                    line: line_of(s, i),
                    message: "Failed to parse number: "@ + lexeme,
                },
            ],
            toks: seq![],
            next: j,
        }
    }
}

/// The step for an identifier: letters, digits and underscores, matched
/// against the keyword table.
pub open spec fn scan_identifier_step(s: Seq<char>, i: int) -> ScanStep {
    let j = end_alnum(s, i);
    let lexeme = s.subrange(i, j);
    ScanStep {
        toks: seq![plain_tv(keyword_kind(lexeme), lexeme, line_of(s, i))],
        errs: seq![],
        next: j,
    }
}

/// A position clamped to strict progress: scanning always advances.
pub open spec fn adv(i: int, j: int) -> int {
    if j > i {
        j
    } else {
        i + 1
    }
}

/// All tokens and diagnostics from position `i` to the end of the text.
pub open spec fn scan_from(s: Seq<char>, i: int) -> (Seq<TokenView>, Seq<ErrorView>)
    decreases s.len() - i,
{
    if i < 0 || i >= s.len() {
        (seq![], seq![])
    } else {
        let st = scan_step(s, i);
        let n = adv(i, st.next);
        let rest = scan_from(
            s,
            if n > s.len() {
                s.len() as int
            } else {
                n
            },
        );
        (st.toks + rest.0, st.errs + rest.1)
    }
}

/// Scanning a whole text: every token in order, a trailing end-of-input
/// token, and every diagnostic in order.
pub open spec fn scan_spec(s: Seq<char>) -> (Seq<TokenView>, Seq<ErrorView>) {
    let (t, e) = scan_from(s, 0);
    (t.push(plain_tv(TokenType::Eof, seq![], line_of(s, s.len() as int))), e)
}

/// A scan step always moves forward and never passes the end.
pub proof fn lemma_scan_step_next(s: Seq<char>, i: int)
    requires
        0 <= i < s.len(),
    ensures
        i < scan_step(s, i).next <= s.len(),
        adv(i, scan_step(s, i).next) == scan_step(s, i).next,
{
    lemma_scan_ends(s, i, '"');
    lemma_scan_ends(s, i + 1, '"');
    if i + 2 <= s.len() {
        lemma_scan_ends(s, i + 2, '\n');
    }
    let c = s[i];
    if c == '"' {
        let j = find_char(s, i + 1, '"');
        assert(i + 1 <= j <= s.len());
    } else if is_digit_char(c) {
        let k = end_digits(s, i);
        assert(end_digits(s, i) == end_digits(s, i + 1));
        if k < s.len() && s[k] == '.' && k + 1 < s.len() && is_digit_char(s[k + 1]) {
            lemma_scan_ends(s, k + 1, '"');
        }
    } else if is_alpha_char(c) {
        assert(end_alnum(s, i) == end_alnum(s, i + 1));
    }
}

} // verus!

verus! {

/// A text holds no more line breaks than characters.
pub proof fn lemma_count_nl_bound(t: Seq<char>)
    ensures
        count_nl(t) <= t.len(),
    decreases t.len(),
{
    if t.len() > 0 {
        lemma_count_nl_bound(t.drop_last());
    }
}

/// One more character of prefix adds one line break at most.
pub proof fn lemma_line_of_step(s: Seq<char>, i: int)
    requires
        0 <= i < s.len(),
    ensures
        line_of(s, i + 1) == line_of(s, i) + (if s[i] == '\n' {
            1nat
        } else {
            0nat
        }),
{
    assert(s.take(i + 1).drop_last() =~= s.take(i));
    assert(s.take(i + 1).last() == s[i]);
}

/// The line number never passes the position by more than one.
pub proof fn lemma_line_of_bound(s: Seq<char>, i: int)
    requires
        0 <= i <= s.len(),
    ensures
        1 <= line_of(s, i) <= i + 1,
{
    lemma_count_nl_bound(s.take(i));
}

/// Skipping characters that hold no line break keeps the line number.
pub proof fn lemma_line_advance(s: Seq<char>, a: int, b: int)
    requires
        0 <= a <= b <= s.len(),
        forall|k: int| a <= k < b ==> s[k] != '\n',
    ensures
        line_of(s, b) == line_of(s, a),
    decreases b - a,
{
    if a < b {
        lemma_line_of_step(s, b - 1);
        lemma_line_advance(s, a, b - 1);
    }
}

/// The characters of `chars` from `a` to `b`, as a string.
fn substring_chars(chars: &Vec<char>, a: usize, b: usize) -> (s: String)
    requires
        a <= b <= chars@.len(),
    ensures
        s@ == chars@.subrange(a as int, b as int),
{
    let mut v: Vec<char> = Vec::new();
    let mut i: usize = a;
    while i < b
        invariant
            a <= i <= b <= chars@.len(),
            v@ =~= chars@.subrange(a as int, i as int),
        decreases b - i,
    {
        v.push(chars[i]);
        assert(chars@.subrange(a as int, i + 1) =~= chars@.subrange(a as int, i as int).push(
            chars@[i as int],
        ));
        i = i + 1;
    }
    string_from_chars(&v)
}

/// A forward cursor over the characters of a source text, with the tokens
/// and diagnostics collected so far.
#[derive(Debug)]
pub struct Scanner {
    pub chars: Vec<char>,
    pub pos: usize,
    pub tokens: Vec<Token>,
    pub errors: Vec<Error>,
    pub line: usize,
}

impl Scanner {
    /// The scanner is positioned inside its text, with the line counter
    /// tracking the breaks scanned so far.
    pub open spec fn wf(&self) -> bool {
        &&& self.pos <= self.chars@.len()
        &&& self.chars@.len() < usize::MAX
        &&& self.line as nat == line_of(self.chars@, self.pos as int)
    }

    /// A fresh scanner at the head of `source`.
    pub fn new(source: String) -> (r: Scanner)
        requires
            source@.len() < usize::MAX,
        ensures
            r.wf(),
            r.chars@ == source@,
            r.pos == 0,
            r.tokens@.len() == 0,
            r.errors@.len() == 0,
    {
        let chars = chars_vec(source.as_str());
        let r = Scanner { chars, pos: 0, tokens: Vec::new(), errors: Vec::new(), line: 1 };
        proof {
            assert(r.chars@.take(0) =~= Seq::<char>::empty());
        }
        r
    }

    /// Whether `c` holds a decimal digit.
    pub fn is_digit(c: Option<&char>) -> (r: bool)
        ensures
            r == (match c {
                Option::Some(c) => is_digit_char(*c),
                Option::None => false,
            }),
    {
        match c {
            Option::Some(c) => '0' <= *c && *c <= '9',
            Option::None => false,
        }
    }

    /// Whether `c` holds a letter or an underscore.
    pub fn is_alpha(c: Option<&char>) -> (r: bool)
        ensures
            r == (match c {
                Option::Some(c) => is_alpha_char(*c),
                Option::None => false,
            }),
    {
        match c {
            Option::Some(c) => ('a' <= *c && *c <= 'z') || ('A' <= *c && *c <= 'Z') || *c == '_',
            Option::None => false,
        }
    }

    /// Whether `c` holds a character that continues an identifier.
    pub fn is_alphanumeric(c: Option<&char>) -> (r: bool)
        ensures
            r == (match c {
                Option::Some(c) => is_alnum_char(*c),
                Option::None => false,
            }),
    {
        Self::is_alpha(c) || Self::is_digit(c)
    }

    /// Emits one plain token of `w` characters at the cursor.
    fn emit_plain(&mut self, kind: TokenType, w: usize)
        requires
            old(self).wf(),
            old(self).pos + w <= old(self).chars@.len(),
            forall|k: int|
                old(self).pos <= k < old(self).pos + w ==> old(self).chars@[k] != '\n',
        ensures
            final(self).wf(),
            final(self).chars == old(self).chars,
            final(self).errors == old(self).errors,
            final(self).line == old(self).line,
            final(self).pos == old(self).pos + w,
            tokens_view(final(self).tokens@) == tokens_view(old(self).tokens@) + seq![
                plain_tv(
                    kind,
                    old(self).chars@.subrange(
                        old(self).pos as int,
                        old(self).pos + w,
                    ),
                    line_of(old(self).chars@, old(self).pos as int),
                ),
            ],
    {
        let lexeme = substring_chars(&self.chars, self.pos, self.pos + w);
        let t = Token { kind, lexeme, literal: Option::None, line: self.line };
        let ghost old_tokens = self.tokens@;
        self.tokens.push(t);
        self.pos = self.pos + w;
        proof {
            crate::token_type::lemma_tokens_view_push(old_tokens, t);
            assert(tokens_view(old_tokens).push(t@) =~= tokens_view(old_tokens) + seq![t@]);
            lemma_line_advance(self.chars@, old(self).pos as int, self.pos as int);
        }
    }
}

} // verus!

verus! {

impl Scanner {
    /// Scans a string literal from the opening quote at the cursor:
    /// verbatim to the closing quote, or a diagnostic citing the line the
    /// string began on when the input ends first.
    fn scan_string(&mut self)
        requires
            old(self).wf(),
            old(self).pos < old(self).chars@.len(),
            old(self).chars@[old(self).pos as int] == '"',
        ensures
            final(self).wf(),
            final(self).chars == old(self).chars,
            ({
                let st = scan_string_step(old(self).chars@, old(self).pos as int);
                &&& final(self).pos as int == st.next
                &&& tokens_view(final(self).tokens@) == tokens_view(old(self).tokens@) + st.toks
                &&& crate::lox::errors_view(final(self).errors@) == crate::lox::errors_view(
                    old(self).errors@,
                ) + st.errs
            }),
    {
        let ghost s = self.chars@;
        let start = self.pos;
        proof {
            lemma_line_of_step(s, start as int);
            lemma_line_of_bound(s, start as int);
        }
        let mut j: usize = start + 1;
        let mut line: usize = self.line;
        while j < self.chars.len() && self.chars[j] != '"'
            invariant
                self == old(self),
                s == self.chars@,
                start + 1 <= j <= s.len(),
                s.len() < usize::MAX,
                find_char(s, start as int + 1, '"') == find_char(s, j as int, '"'),
                line as nat == line_of(s, j as int),
            decreases s.len() - j,
        {
            proof {
                lemma_line_of_step(s, j as int);
                lemma_line_of_bound(s, j + 1);
            }
            if self.chars[j] == '\n' {
                line = line + 1;
            }
            j = j + 1;
        }
        proof {
            lemma_scan_ends(s, start as int + 1, '"');
        }
        if j >= self.chars.len() {
            let e = Error { line: self.line, message: String::from_str("Unterminated string") };
            let ghost old_errors = self.errors@;
            self.errors.push(e);
            self.pos = self.chars.len();
            self.line = line;
            proof {
                crate::lox::lemma_errors_view_push(old_errors, e);
                let st = scan_string_step(s, start as int);
                assert(crate::lox::errors_view(old_errors).push(e@) =~= crate::lox::errors_view(
                    old_errors,
                ) + st.errs);
                assert(tokens_view(self.tokens@) =~= tokens_view(old(self).tokens@) + st.toks);
            }
        } else {
            let lit = substring_chars(&self.chars, start + 1, j);
            let lex = substring_chars(&self.chars, start, j + 1);
            proof {
                lemma_line_of_step(s, j as int);
            }
            let t = Token {
                kind: TokenType::String,
                lexeme: lex,
                literal: Option::Some(Literal::String(lit)),
                line,
            };
            let ghost old_tokens = self.tokens@;
            self.tokens.push(t);
            self.pos = j + 1;
            self.line = line;
            proof {
                crate::token_type::lemma_tokens_view_push(old_tokens, t);
                let st = scan_string_step(s, start as int);
                assert(t@ == st.toks[0]);
                assert(tokens_view(old_tokens).push(t@) =~= tokens_view(old_tokens) + st.toks);
                assert(crate::lox::errors_view(self.errors@) =~= crate::lox::errors_view(
                    old(self).errors@,
                ) + st.errs);
            }
        }
    }

    /// Scans an identifier or keyword from the letter or underscore at the
    /// cursor.
    fn scan_identifier(&mut self)
        requires
            old(self).wf(),
            old(self).pos < old(self).chars@.len(),
            is_alpha_char(old(self).chars@[old(self).pos as int]),
        ensures
            final(self).wf(),
            final(self).chars == old(self).chars,
            ({
                let st = scan_identifier_step(old(self).chars@, old(self).pos as int);
                &&& final(self).pos as int == st.next
                &&& tokens_view(final(self).tokens@) == tokens_view(old(self).tokens@) + st.toks
                &&& crate::lox::errors_view(final(self).errors@) == crate::lox::errors_view(
                    old(self).errors@,
                ) + st.errs
            }),
    {
        let ghost s = self.chars@;
        let start = self.pos;
        let mut j: usize = start;
        while j < self.chars.len() && Self::is_alphanumeric(Option::Some(&self.chars[j]))
            invariant
                self == old(self),
                s == self.chars@,
                start <= j <= s.len(),
                end_alnum(s, start as int) == end_alnum(s, j as int),
                forall|k: int| start <= k < j ==> is_alnum_char(#[trigger] s[k]),
            decreases s.len() - j,
        {
            j = j + 1;
        }
        let lexeme = substring_chars(&self.chars, start, j);
        let ghost lexv = s.subrange(start as int, j as int);
        let kind: TokenType = if lexeme == String::from_str("and") {
            TokenType::And
        } else if lexeme == String::from_str("class") {
            TokenType::Class
        } else if lexeme == String::from_str("else") {
            TokenType::Else
        } else if lexeme == String::from_str("false") {
            TokenType::False
        } else if lexeme == String::from_str("for") {
            TokenType::For
        } else if lexeme == String::from_str("fun") {
            TokenType::Fun
        } else if lexeme == String::from_str("if") {
            TokenType::If
        } else if lexeme == String::from_str("nil") {
            TokenType::Nil
        } else if lexeme == String::from_str("or") {
            TokenType::Or
        } else if lexeme == String::from_str("print") {
            TokenType::Print
        } else if lexeme == String::from_str("return") {
            TokenType::Return
        } else if lexeme == String::from_str("super") {
            TokenType::Super
        } else if lexeme == String::from_str("this") {
            TokenType::This
        } else if lexeme == String::from_str("true") {
            TokenType::True
        } else if lexeme == String::from_str("var") {
            TokenType::Var
        } else if lexeme == String::from_str("while") {
            TokenType::While
        } else {
            TokenType::Identifier
        };
        proof {
            assert(kind == keyword_kind(lexv));
        }
        let t = Token { kind, lexeme, literal: Option::None, line: self.line };
        let ghost old_tokens = self.tokens@;
        self.tokens.push(t);
        self.pos = j;
        proof {
            lemma_line_advance(s, start as int, j as int);
            crate::token_type::lemma_tokens_view_push(old_tokens, t);
            let st = scan_identifier_step(s, start as int);
            assert(t@ == st.toks[0]);
            assert(tokens_view(old_tokens).push(t@) =~= tokens_view(old_tokens) + st.toks);
            assert(crate::lox::errors_view(self.errors@) =~= crate::lox::errors_view(
                old(self).errors@,
            ) + st.errs);
        }
    }

    /// Scans a number from the digit at the cursor: digits, optionally a
    /// point followed by digits. The numeral must denote a whole 64-bit
    /// number; otherwise it is a diagnostic.
    fn scan_number(&mut self)
        requires
            old(self).wf(),
            old(self).pos < old(self).chars@.len(),
            is_digit_char(old(self).chars@[old(self).pos as int]),
        ensures
            final(self).wf(),
            final(self).chars == old(self).chars,
            ({
                let st = scan_number_step(old(self).chars@, old(self).pos as int);
                &&& final(self).pos as int == st.next
                &&& tokens_view(final(self).tokens@) == tokens_view(old(self).tokens@) + st.toks
                &&& crate::lox::errors_view(final(self).errors@) == crate::lox::errors_view(
                    old(self).errors@,
                ) + st.errs
            }),
    {
        let ghost s = self.chars@;
        let start = self.pos;
        let mut k: usize = start;
        while k < self.chars.len() && '0' <= self.chars[k] && self.chars[k] <= '9'
            invariant
                self == old(self),
                s == self.chars@,
                start <= k <= s.len(),
                end_digits(s, start as int) == end_digits(s, k as int),
                forall|t: int| start <= t < k ==> is_digit_char(#[trigger] s[t]),
            decreases s.len() - k,
        {
            k = k + 1;
        }
        let ghost kk = k as int;
        proof {
            assert(kk == end_digits(s, start as int));
        }
        let mut j: usize = k;
        if k < self.chars.len() && self.chars[k] == '.' && k + 1 < self.chars.len()
            && Self::is_digit(Option::Some(&self.chars[k + 1])) {
            j = k + 1;
            while j < self.chars.len() && '0' <= self.chars[j] && self.chars[j] <= '9'
                invariant
                    self == old(self),
                    s == self.chars@,
                    kk + 1 <= j <= s.len(),
                    end_digits(s, kk + 1) == end_digits(s, j as int),
                    forall|t: int| kk + 1 <= t < j ==> is_digit_char(#[trigger] s[t]),
                decreases s.len() - j,
            {
                j = j + 1;
            }
        }
        let ghost jj = j as int;
        let mut acc: u64 = 0;
        let mut ok: bool = true;
        let mut idx: usize = start;
        proof {
            assert(s.subrange(start as int, start as int) =~= Seq::<char>::empty());
        }
        while idx < k
            invariant
                self == old(self),
                s == self.chars@,
                start <= idx <= k,
                k <= s.len(),
                forall|t: int| start <= t < k ==> is_digit_char(#[trigger] s[t]),
                ok ==> acc as int == digits_val(s.subrange(start as int, idx as int)) && acc
                    <= 9223372036854775807u64,
                !ok ==> digits_val(s.subrange(start as int, idx as int)) > i64::MAX,
            decreases k - idx,
        {
            let c = self.chars[idx];
            let d: u64 = ((c as u8) - 48u8) as u64;
            let ghost prefix = s.subrange(start as int, idx as int);
            proof {
                assert(is_digit_char(s[idx as int]));
                assert(s.subrange(start as int, idx + 1) =~= prefix.push(s[idx as int]));
                crate::text::lemma_digits_val_push(prefix, s[idx as int]);
                assert(crate::text::all_digits(prefix));
                crate::text::lemma_digits_val_nonneg(prefix);
                assert(d as int == crate::text::digit_val(s[idx as int]));
            }
            if ok {
                if acc > (9223372036854775807u64 - d) / 10 {
                    proof {
                        assert(10 * (acc as int) + (d as int) > i64::MAX as int) by (nonlinear_arith)
                            requires
                                acc as int > ((9223372036854775807 - d as int) / 10),
                                0 <= d as int <= 9,
                        ;
                    }
                    ok = false;
                } else {
                    proof {
                        assert(10 * (acc as int) + (d as int) <= i64::MAX as int) by (nonlinear_arith)
                            requires
                                acc as int <= ((9223372036854775807 - d as int) / 10),
                                0 <= d as int <= 9,
                        ;
                    }
                    acc = acc * 10 + d;
                }
            } else {
                proof {
                    assert(digits_val(s.subrange(start as int, idx + 1)) > i64::MAX);
                }
            }
            idx = idx + 1;
        }
        let mut frac_ok: bool = true;
        if j > k {
            let mut fi: usize = k + 1;
            while fi < j
                invariant
                    self == old(self),
                    s == self.chars@,
                    kk + 1 <= fi <= j <= s.len(),
                    j == jj,
                    frac_ok == (forall|d: int| kk + 1 <= d < fi ==> s[d] == '0'),
                decreases j - fi,
            {
                if self.chars[fi] != '0' {
                    frac_ok = false;
                }
                fi = fi + 1;
            }
        }
        let lexeme = substring_chars(&self.chars, start, j);
        let ghost st = scan_number_step(s, start as int);
        proof {
            assert(forall|t: int| start <= t < jj ==> #[trigger] s[t] != '\n');
            lemma_line_advance(s, start as int, jj);
        }
        if ok && frac_ok {
            let t = Token {
                kind: TokenType::Number,
                lexeme,
                literal: Option::Some(Literal::Number(acc as i64)),
                line: self.line,
            };
            let ghost old_tokens = self.tokens@;
            self.tokens.push(t);
            self.pos = j;
            proof {
                crate::token_type::lemma_tokens_view_push(old_tokens, t);
                assert(t@ == st.toks[0]);
                assert(tokens_view(old_tokens).push(t@) =~= tokens_view(old_tokens) + st.toks);
                assert(crate::lox::errors_view(self.errors@) =~= crate::lox::errors_view(
                    old(self).errors@,
                ) + st.errs);
            }
        } else {
            let mut msg = String::from_str("Failed to parse number: ");
            msg.append(lexeme.as_str());
            let e = Error { line: self.line, message: msg };
            let ghost old_errors = self.errors@;
            self.errors.push(e);
            self.pos = j;
            proof {
                crate::lox::lemma_errors_view_push(old_errors, e);
                assert(e@ == st.errs[0]);
                assert(crate::lox::errors_view(old_errors).push(e@) =~= crate::lox::errors_view(
                    old_errors,
                ) + st.errs);
                assert(tokens_view(self.tokens@) =~= tokens_view(old(self).tokens@) + st.toks);
            }
        }
    }
}

} // verus!

verus! {

impl Scanner {
    /// Classifies and consumes one construct at the cursor: exactly
    /// [`scan_step`] there.
    fn scan_token(&mut self)
        requires
            old(self).wf(),
            old(self).pos < old(self).chars@.len(),
        ensures
            final(self).wf(),
            final(self).chars == old(self).chars,
            ({
                let st = scan_step(old(self).chars@, old(self).pos as int);
                &&& final(self).pos as int == st.next
                &&& tokens_view(final(self).tokens@) == tokens_view(old(self).tokens@) + st.toks
                &&& crate::lox::errors_view(final(self).errors@) == crate::lox::errors_view(
                    old(self).errors@,
                ) + st.errs
            }),
    {
        let ghost s = self.chars@;
        let ghost i = self.pos as int;
        let ghost st = scan_step(s, i);
        let c = self.chars[self.pos];
        if c == '(' {
            self.emit_plain(TokenType::LeftParen, 1);
        } else if c == ')' {
            self.emit_plain(TokenType::RightParen, 1);
        } else if c == '{' {
            self.emit_plain(TokenType::LeftBrace, 1);
        } else if c == '}' {
            self.emit_plain(TokenType::RightBrace, 1);
        } else if c == ',' {
            self.emit_plain(TokenType::Comma, 1);
        } else if c == '.' {
            self.emit_plain(TokenType::Dot, 1);
        } else if c == '-' {
            self.emit_plain(TokenType::Minus, 1);
        } else if c == '+' {
            self.emit_plain(TokenType::Plus, 1);
        } else if c == ';' {
            self.emit_plain(TokenType::Semicolon, 1);
        } else if c == '*' {
            self.emit_plain(TokenType::Star, 1);
        } else if c == '!' {
            if self.pos + 1 < self.chars.len() && self.chars[self.pos + 1] == '=' {
                self.emit_plain(TokenType::BangEqual, 2);
            } else {
                self.emit_plain(TokenType::Bang, 1);
            }
        } else if c == '=' {
            if self.pos + 1 < self.chars.len() && self.chars[self.pos + 1] == '=' {
                self.emit_plain(TokenType::EqualEqual, 2);
            } else {
                self.emit_plain(TokenType::Equal, 1);
            }
        } else if c == '<' {
            if self.pos + 1 < self.chars.len() && self.chars[self.pos + 1] == '=' {
                self.emit_plain(TokenType::LessEqual, 2);
            } else {
                self.emit_plain(TokenType::Less, 1);
            }
        } else if c == '>' {
            if self.pos + 1 < self.chars.len() && self.chars[self.pos + 1] == '=' {
                self.emit_plain(TokenType::GreaterEqual, 2);
            } else {
                self.emit_plain(TokenType::Greater, 1);
            }
        } else if c == '/' {
            if self.pos + 1 < self.chars.len() && self.chars[self.pos + 1] == '/' {
                let mut j: usize = self.pos + 2;
                while j < self.chars.len() && self.chars[j] != '\n'
                    invariant
                        self == old(self),
                        s == self.chars@,
                        i + 2 <= j <= s.len(),
                        find_char(s, i + 2, '\n') == find_char(s, j as int, '\n'),
                        forall|t: int| i <= t < j ==> #[trigger] s[t] != '\n',
                    decreases s.len() - j,
                {
                    j = j + 1;
                }
                self.pos = j;
                proof {
                    lemma_line_advance(s, i, j as int);
                    assert(tokens_view(self.tokens@) =~= tokens_view(old(self).tokens@)
                        + st.toks);
                    assert(crate::lox::errors_view(self.errors@) =~= crate::lox::errors_view(
                        old(self).errors@,
                    ) + st.errs);
                }
            } else {
                self.emit_plain(TokenType::Slash, 1);
            }
        } else if c == '"' {
            self.scan_string();
        } else if Self::is_digit(Option::Some(&c)) {
            self.scan_number();
        } else if Self::is_alpha(Option::Some(&c)) {
            self.scan_identifier();
        } else if c == ' ' || c == '\r' || c == '\t' {
            self.pos = self.pos + 1;
            proof {
                lemma_line_of_step(s, i);
                assert(tokens_view(self.tokens@) =~= tokens_view(old(self).tokens@) + st.toks);
                assert(crate::lox::errors_view(self.errors@) =~= crate::lox::errors_view(
                    old(self).errors@,
                ) + st.errs);
            }
        } else if c == '\n' {
            proof {
                lemma_line_of_step(s, i);
                lemma_line_of_bound(s, i + 1);
            }
            self.pos = self.pos + 1;
            self.line = self.line + 1;
            proof {
                assert(tokens_view(self.tokens@) =~= tokens_view(old(self).tokens@) + st.toks);
                assert(crate::lox::errors_view(self.errors@) =~= crate::lox::errors_view(
                    old(self).errors@,
                ) + st.errs);
            }
        } else {
            let mut msg = String::from_str("Unexpected character: ");
            let mut cv: Vec<char> = Vec::new();
            cv.push(c);
            let cs = string_from_chars(&cv);
            msg.append(cs.as_str());
            proof {
                assert(cv@ =~= seq![c]);
            }
            let e = Error { line: self.line, message: msg };
            let ghost old_errors = self.errors@;
            self.errors.push(e);
            self.pos = self.pos + 1;
            proof {
                lemma_line_of_step(s, i);
                crate::lox::lemma_errors_view_push(old_errors, e);
                assert(e@ == st.errs[0]);
                assert(crate::lox::errors_view(old_errors).push(e@) =~= crate::lox::errors_view(
                    old_errors,
                ) + st.errs);
                assert(tokens_view(self.tokens@) =~= tokens_view(old(self).tokens@) + st.toks);
            }
        }
    }

    /// Scans a whole source text: all its tokens in order with a trailing
    /// end-of-input token, or all its diagnostics when any arose — exactly
    /// [`scan_spec`].
    pub fn scan_tokens(source: String) -> (r: Result<Vec<Token>, Vec<Error>>)
        requires
            source@.len() < usize::MAX,
        ensures
            ({
                let (t, e) = scan_spec(source@);
                match r {
                    Result::Ok(toks) => e.len() == 0 && tokens_view(toks@) == t,
                    Result::Err(errs) => e.len() > 0 && crate::lox::errors_view(errs@) == e,
                }
            }),
    {
        let ghost src = source@;
        let mut scanner = Scanner::new(source);
        let ghost s = scanner.chars@;
        while scanner.pos < scanner.chars.len()
            invariant
                scanner.wf(),
                scanner.chars@ == s,
                s == src,
                scan_from(s, 0).0 == tokens_view(scanner.tokens@) + scan_from(
                    s,
                    scanner.pos as int,
                ).0,
                scan_from(s, 0).1 == crate::lox::errors_view(scanner.errors@) + scan_from(
                    s,
                    scanner.pos as int,
                ).1,
            decreases s.len() - scanner.pos,
        {
            let ghost p = scanner.pos as int;
            let ghost tv0 = tokens_view(scanner.tokens@);
            let ghost ev0 = crate::lox::errors_view(scanner.errors@);
            proof {
                lemma_scan_step_next(s, p);
            }
            scanner.scan_token();
            proof {
                let st = scan_step(s, p);
                assert(scan_from(s, p).0 =~= st.toks + scan_from(s, st.next).0);
                assert(scan_from(s, p).1 =~= st.errs + scan_from(s, st.next).1);
                assert(tv0 + scan_from(s, p).0 =~= (tv0 + st.toks) + scan_from(s, st.next).0);
                assert(ev0 + scan_from(s, p).1 =~= (ev0 + st.errs) + scan_from(s, st.next).1);
            }
        }
        proof {
            assert(scan_from(s, scanner.pos as int).0 =~= Seq::<TokenView>::empty());
            assert(scan_from(s, scanner.pos as int).1 =~= Seq::<ErrorView>::empty());
            assert(tokens_view(scanner.tokens@) + scan_from(s, scanner.pos as int).0
                =~= tokens_view(scanner.tokens@));
            assert(crate::lox::errors_view(scanner.errors@) + scan_from(
                s,
                scanner.pos as int,
            ).1 =~= crate::lox::errors_view(scanner.errors@));
        }
        let eof = Token {
            kind: TokenType::Eof,
            lexeme: String::new(),
            literal: Option::None,
            line: scanner.line,
        };
        let ghost old_tokens = scanner.tokens@;
        scanner.tokens.push(eof);
        proof {
            crate::token_type::lemma_tokens_view_push(old_tokens, eof);
            assert(eof@.lexeme =~= Seq::<char>::empty());
            assert(eof@ == plain_tv(TokenType::Eof, seq![], line_of(s, s.len() as int)));
            crate::lox::lemma_errors_view(scanner.errors@);
        }
        if scanner.errors.len() == 0 {
            Result::Ok(scanner.tokens)
        } else {
            Result::Err(scanner.errors)
        }
    }
}

} // verus!
