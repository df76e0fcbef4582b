use vstd::prelude::*;
use vstd::string::StringSliceAdditionalSpecFns;

verus! {

/// A cursor over source text. `start` marks the first character of the token
/// being scanned, `current` the next character to read, `line` the source line
/// of `current`.
pub struct Scanner {
    source: Vec<char>,
    start: usize,
    current: usize,
    line: i32,
}

pub struct Token {
    pub ttype: TokenType,
    pub start: usize,
    pub length: i32,
    pub line: i32,
    pub lexeme: String,
}

#[derive(Clone, Copy, Debug, PartialEq, Eq, Structural)]
pub enum TokenType {
    LeftParen,
    RightParen,
    LeftBrace,
    RightBrace,
    Comma,
    Dot,
    Minus,
    Plus,
    Semicolon,
    Slash,
    Star,
    Bang,
    BangEqual,
    Equal,
    EqualEqual,
    Greater,
    GreaterEqual,
    Less,
    LessEqual,
    Identifier,
    String,
    Number,
    And,
    Class,
    Else,
    False,
    For,
    Fun,
    If,
    Nil,
    Or,
    Print,
    Return,
    Super,
    This,
    True,
    Var,
    While,
    Error,
    EOF,
}

/// The state of a scanner.
pub ghost struct ScannerView {
    pub source: Seq<char>,
    pub start: int,
    pub current: int,
    pub line: int,
}

impl ScannerView {
    /// The cursor lies inside the text, and the line number cannot overflow
    /// however many newlines are left to read.
    pub open spec fn wf(self) -> bool {
        &&& 0 <= self.start <= self.current <= self.source.len()
        &&& self.source.len() < i32::MAX
        &&& 1 <= self.line
        &&& self.line + (self.source.len() - self.current) <= i32::MAX
    }
}

impl View for Scanner {
    type V = ScannerView;

    closed spec fn view(&self) -> ScannerView {
        ScannerView {
            source: self.source@,
            start: self.start as int,
            current: self.current as int,
            line: self.line as int,
        }
    }
}

pub open spec fn is_alpha_char(c: char) -> bool {
    ('a' <= c && c <= 'z') || ('A' <= c && c <= 'Z') || c == '_'
}

pub open spec fn is_digit_char(c: char) -> bool {
    '0' <= c && c <= '9'
}

/// Scanning stops at the end of the text or at a NUL character.
pub open spec fn at_end(src: Seq<char>, i: int) -> bool {
    i >= src.len() || src[i] == '\0'
}

/// The character at `i`, or NUL at the end.
pub open spec fn char_at(src: Seq<char>, i: int) -> char {
    if at_end(src, i) {
        '\0'
    } else {
        src[i]
    }
}

/// The character after `i`, or NUL where there is none.
pub open spec fn char_after(src: Seq<char>, i: int) -> char {
    if at_end(src, i) || i + 1 >= src.len() {
        '\0'
    } else {
        src[i + 1]
    }
}

/// The number of newlines in `src[lo..hi]`.
pub open spec fn newlines(src: Seq<char>, lo: int, hi: int) -> int
    decreases hi - lo,
{
    if hi <= lo {
        0
    } else {
        newlines(src, lo, hi - 1) + if src[hi - 1] == '\n' {
            1int
        } else {
            0int
        }
    }
}

/// Where whitespace and line comments that begin at `i` end; `in_comment` says
/// that `i` lies inside a line comment.
pub open spec fn blank_end(src: Seq<char>, i: int, in_comment: bool) -> int
    decreases src.len() - i, if in_comment {
        1int
    } else {
        0int
    },
{
    if at_end(src, i) {
        i
    } else if in_comment {
        if src[i] == '\n' {
            blank_end(src, i, false)
        } else {
            blank_end(src, i + 1, true)
        }
    } else if src[i] == ' ' || src[i] == '\r' || src[i] == '\t' || src[i] == '\n' {
        blank_end(src, i + 1, false)
    } else if src[i] == '/' && char_after(src, i) == '/' {
        blank_end(src, i + 1, true)
    } else {
        i
    }
}

/// Where a run of letters, digits and underscores that begins at `i` ends.
pub open spec fn word_end(src: Seq<char>, i: int) -> int
    decreases src.len() - i,
{
    if 0 <= i < src.len() && (is_alpha_char(src[i]) || is_digit_char(src[i])) {
        word_end(src, i + 1)
    } else {
        i
    }
}

/// Where a run of digits that begins at `i` ends.
pub open spec fn digits_end(src: Seq<char>, i: int) -> int
    decreases src.len() - i,
{
    if 0 <= i < src.len() && is_digit_char(src[i]) {
        digits_end(src, i + 1)
    } else {
        i
    }
}

/// Where the rest of a number literal that begins at `i` ends: digits, then
/// optionally a dot followed by at least one digit and more digits.
pub open spec fn number_end(src: Seq<char>, i: int) -> int {
    let j = digits_end(src, i);
    if char_at(src, j) == '.' && is_digit_char(char_after(src, j)) {
        digits_end(src, j + 1)
    } else {
        j
    }
}

/// Where the body of a string literal that begins at `i` ends: at the closing
/// quote, or at the end of the text.
pub open spec fn quote_end(src: Seq<char>, i: int) -> int
    decreases src.len() - i,
{
    if at_end(src, i) || src[i] == '"' {
        i
    } else {
        quote_end(src, i + 1)
    }
}

/// The kind of a scanned word: a keyword, or else an identifier.
pub open spec fn keyword_kind(w: Seq<char>) -> TokenType {
    if w =~= seq!['a', 'n', 'd'] {
        TokenType::And
    } else if w =~= seq!['c', 'l', 'a', 's', 's'] {
        TokenType::Class
    } else if w =~= seq!['e', 'l', 's', 'e'] {
        TokenType::Else
    } else if w =~= seq!['f', 'a', 'l', 's', 'e'] {
        TokenType::False
    } else if w =~= seq!['f', 'o', 'r'] {
        TokenType::For
    } else if w =~= seq!['f', 'u', 'n'] {
        TokenType::Fun
    } else if w =~= seq!['i', 'f'] {
        TokenType::If
    } else if w =~= seq!['n', 'i', 'l'] {
        TokenType::Nil
    } else if w =~= seq!['o', 'r'] {
        TokenType::Or
    } else if w =~= seq!['p', 'r', 'i', 'n', 't'] {
        TokenType::Print
    } else if w =~= seq!['r', 'e', 't', 'u', 'r', 'n'] {
        TokenType::Return
    } else if w =~= seq!['s', 'u', 'p', 'e', 'r'] {
        TokenType::Super
    } else if w =~= seq!['t', 'h', 'i', 's'] {
        TokenType::This
    } else if w =~= seq!['t', 'r', 'u', 'e'] {
        TokenType::True
    } else if w =~= seq!['v', 'a', 'r'] {
        TokenType::Var
    } else if w =~= seq!['w', 'h', 'i', 'l', 'e'] {
        TokenType::While
    } else {
        TokenType::Identifier
    }
}

/// The kind of a token of one or two characters that begins with `c` and is
/// followed by `next`, with its length.
pub open spec fn operator_kind(c: char, next: char) -> (TokenType, int) {
    if c == '(' {
        (TokenType::LeftParen, 1)
    } else if c == ')' {
        (TokenType::RightParen, 1)
    } else if c == '{' {
        (TokenType::LeftBrace, 1)
    } else if c == '}' {
        (TokenType::RightBrace, 1)
    } else if c == ';' {
        (TokenType::Semicolon, 1)
    } else if c == ',' {
        (TokenType::Comma, 1)
    } else if c == '.' {
        (TokenType::Dot, 1)
    } else if c == '-' {
        (TokenType::Minus, 1)
    } else if c == '+' {
        (TokenType::Plus, 1)
    } else if c == '/' {
        (TokenType::Slash, 1)
    } else if c == '*' {
        (TokenType::Star, 1)
    } else if c == '!' {
        if next == '=' {
            (TokenType::BangEqual, 2)
        } else {
            (TokenType::Bang, 1)
        }
    } else if c == '=' {
        if next == '=' {
            (TokenType::EqualEqual, 2)
        } else {
            (TokenType::Equal, 1)
        }
    } else if c == '<' {
        if next == '=' {
            (TokenType::LessEqual, 2)
        } else {
            (TokenType::Less, 1)
        }
    } else if c == '>' {
        if next == '=' {
            (TokenType::GreaterEqual, 2)
        } else {
            (TokenType::Greater, 1)
        }
    } else {
        (TokenType::Error, 1)
    }
}

/// The kind and the end of the token that begins at `i`, where no blank
/// precedes it.
pub open spec fn token_at(src: Seq<char>, i: int) -> (TokenType, int) {
    if at_end(src, i) {
        (TokenType::EOF, i)
    } else if is_alpha_char(src[i]) {
        let e = word_end(src, i + 1);
        (keyword_kind(src.subrange(i, e)), e)
    } else if is_digit_char(src[i]) {
        (TokenType::Number, number_end(src, i + 1))
    } else if src[i] == '"' {
        let e = quote_end(src, i + 1);
        if at_end(src, e) {
            (TokenType::Error, e)
        } else {
            (TokenType::String, e + 1)
        }
    } else {
        let (k, n) = operator_kind(src[i], char_at(src, i + 1));
        (k, i + n)
    }
}

/// The message of the error token that begins at `i`.
pub open spec fn error_message(src: Seq<char>, i: int) -> Seq<char> {
    if src[i] == '"' {
        "Unterminated String"@
    } else {
        "Unexpected Character"@
    }
}

/// The scanner after the next token, and that token's kind.
pub open spec fn after_token(s: ScannerView) -> (ScannerView, TokenType) {
    let i = blank_end(s.source, s.current, false);
    let (k, e) = token_at(s.source, i);
    (ScannerView { source: s.source, start: i, current: e, line: s.line + newlines(s.source, s.current, e) }, k)
}

/// What `scan_token` returns for the scanner `s`.
pub open spec fn scanned(t: Token, s: ScannerView) -> bool {
    let (s2, k) = after_token(s);
    &&& t.ttype == k
    &&& t.start == s2.start
    &&& t.line == s2.line
    &&& if k == TokenType::Error {
        t.lexeme@ == error_message(s.source, s2.start)
    } else {
        &&& t.lexeme@ == s.source.subrange(s2.start, s2.current)
        &&& t.length == s2.current - s2.start
    }
}

proof fn lemma_newlines_split(src: Seq<char>, a: int, b: int, c: int)
    requires
        a <= b <= c,
    ensures
        newlines(src, a, c) == newlines(src, a, b) + newlines(src, b, c),
    decreases c - b,
{
    if b < c {
        lemma_newlines_split(src, a, b, c - 1);
    }
}

proof fn lemma_blank_end_bounds(src: Seq<char>, i: int, in_comment: bool)
    requires
        0 <= i <= src.len(),
    ensures
        i <= blank_end(src, i, in_comment) <= src.len(),
    decreases src.len() - i, if in_comment {
        1int
    } else {
        0int
    },
{
    if at_end(src, i) {
    } else if in_comment {
        if src[i] == '\n' {
            lemma_blank_end_bounds(src, i, false);
        } else {
            lemma_blank_end_bounds(src, i + 1, true);
        }
    } else if src[i] == ' ' || src[i] == '\r' || src[i] == '\t' || src[i] == '\n' {
        lemma_blank_end_bounds(src, i + 1, false);
    } else if src[i] == '/' && char_after(src, i) == '/' {
        lemma_blank_end_bounds(src, i + 1, true);
    }
}

proof fn lemma_word_end_bounds(src: Seq<char>, i: int)
    requires
        0 <= i <= src.len(),
    ensures
        i <= word_end(src, i) <= src.len(),
    decreases src.len() - i,
{
    if i < src.len() && (is_alpha_char(src[i]) || is_digit_char(src[i])) {
        lemma_word_end_bounds(src, i + 1);
    }
}

proof fn lemma_digits_end_bounds(src: Seq<char>, i: int)
    requires
        0 <= i <= src.len(),
    ensures
        i <= digits_end(src, i) <= src.len(),
    decreases src.len() - i,
{
    if i < src.len() && is_digit_char(src[i]) {
        lemma_digits_end_bounds(src, i + 1);
    }
}

proof fn lemma_quote_end_bounds(src: Seq<char>, i: int)
    requires
        0 <= i <= src.len(),
    ensures
        i <= quote_end(src, i) <= src.len(),
    decreases src.len() - i,
{
    if !(at_end(src, i) || src[i] == '"') {
        lemma_quote_end_bounds(src, i + 1);
    }
}

proof fn lemma_newlines_none(src: Seq<char>, a: int, b: int)
    requires
        a <= b,
        forall|j: int| a <= j < b ==> src[j] != '\n',
    ensures
        newlines(src, a, b) == 0,
    decreases b - a,
{
    if a < b {
        lemma_newlines_none(src, a, b - 1);
    }
}

proof fn lemma_word_chars(src: Seq<char>, i: int)
    requires
        0 <= i <= src.len(),
    ensures
        forall|j: int| i <= j < word_end(src, i) ==> is_alpha_char(src[j]) || is_digit_char(src[j]),
    decreases src.len() - i,
{
    if i < src.len() && (is_alpha_char(src[i]) || is_digit_char(src[i])) {
        lemma_word_chars(src, i + 1);
    }
}

proof fn lemma_digit_chars(src: Seq<char>, i: int)
    requires
        0 <= i <= src.len(),
    ensures
        forall|j: int| i <= j < digits_end(src, i) ==> is_digit_char(src[j]),
    decreases src.len() - i,
{
    if i < src.len() && is_digit_char(src[i]) {
        lemma_digit_chars(src, i + 1);
    }
}

/// A token other than a string literal holds no newline.
proof fn lemma_token_newlines(src: Seq<char>, i: int)
    requires
        0 <= i <= src.len(),
        !at_end(src, i),
        src[i] != '"',
        src[i] != '\n',
    ensures
        newlines(src, i, token_at(src, i).1) == 0,
{
    lemma_token_at_bounds(src, i);
    let e = token_at(src, i).1;
    if is_alpha_char(src[i]) {
        lemma_word_chars(src, i + 1);
        lemma_newlines_none(src, i, e);
    } else if is_digit_char(src[i]) {
        lemma_digits_end_bounds(src, i + 1);
        lemma_digit_chars(src, i + 1);
        let j = digits_end(src, i + 1);
        if char_at(src, j) == '.' && is_digit_char(char_after(src, j)) {
            lemma_digits_end_bounds(src, j + 1);
            lemma_digit_chars(src, j + 1);
        }
        lemma_newlines_none(src, i, e);
    } else {
        let (k, n) = operator_kind(src[i], char_at(src, i + 1));
        assert(n == 2 ==> char_at(src, i + 1) == '=');
        lemma_newlines_none(src, i, e);
    }
}

/// Blanks end before a character that is no blank.
proof fn lemma_blank_end_stops(src: Seq<char>, i: int, in_comment: bool)
    requires
        0 <= i <= src.len(),
    ensures
        !at_end(src, blank_end(src, i, in_comment)) ==> src[blank_end(src, i, in_comment)] != '\n',
    decreases src.len() - i, if in_comment {
        1int
    } else {
        0int
    },
{
    if at_end(src, i) {
    } else if in_comment {
        if src[i] == '\n' {
            lemma_blank_end_stops(src, i, false);
        } else {
            lemma_blank_end_stops(src, i + 1, true);
        }
    } else if src[i] == ' ' || src[i] == '\r' || src[i] == '\t' || src[i] == '\n' {
        lemma_blank_end_stops(src, i + 1, false);
    } else if src[i] == '/' && char_after(src, i) == '/' {
        lemma_blank_end_stops(src, i + 1, true);
    }
}

/// The token that begins at `i` ends inside the text, and past `i` unless it
/// is the end-of-text token.
pub proof fn lemma_token_at_bounds(src: Seq<char>, i: int)
    requires
        0 <= i <= src.len(),
    ensures
        i <= token_at(src, i).1 <= src.len(),
        token_at(src, i).0 != TokenType::EOF ==> i < token_at(src, i).1,
        token_at(src, i).0 == TokenType::EOF ==> token_at(src, i).1 == i,
{
    if at_end(src, i) {
    } else if is_alpha_char(src[i]) {
        lemma_word_end_bounds(src, i + 1);
    } else if is_digit_char(src[i]) {
        lemma_digits_end_bounds(src, i + 1);
        let j = digits_end(src, i + 1);
        if char_at(src, j) == '.' && is_digit_char(char_after(src, j)) {
            lemma_digits_end_bounds(src, j + 1);
        }
    } else if src[i] == '"' {
        lemma_quote_end_bounds(src, i + 1);
    } else {
        let (k, n) = operator_kind(src[i], char_at(src, i + 1));
        assert(n == 2 ==> char_at(src, i + 1) == '=');
    }
}

/// A scanner positioned at the start of `source`.
pub fn init_scanner(source: &str) -> (r: Scanner)
    requires
        source@.len() < i32::MAX,
    ensures
        r@.wf(),
        r@.source == source@,
        r@.start == 0,
        r@.current == 0,
        r@.line == 1,
{
    let mut chars: Vec<char> = Vec::new();
    for c in it: source.chars()
        invariant
            chars@ == it.seq().subrange(0, it.index() as int),
    {
        chars.push(c);
    }
    assert(chars@ =~= source@);
    Scanner { source: chars, start: 0, current: 0, line: 1 }
}

pub fn is_alpha(c: char) -> (r: bool)
    ensures
        r == is_alpha_char(c),
{
    (c >= 'a' && c <= 'z') || (c >= 'A' && c <= 'Z') || c == '_'
}

pub fn is_digit(c: char) -> (r: bool)
    ensures
        r == is_digit_char(c),
{
    c >= '0' && c <= '9'
}

pub fn is_at_end(scanner: &Scanner) -> (r: bool)
    requires
        scanner@.wf(),
    ensures
        r == at_end(scanner@.source, scanner@.current),
{
    scanner.current >= scanner.source.len() || scanner.source[scanner.current] == '\0'
}

/// Consumes one character and returns it.
pub fn advance(scanner: &mut Scanner) -> (r: char)
    requires
        old(scanner)@.wf(),
        old(scanner)@.current < old(scanner)@.source.len(),
    ensures
        final(scanner)@.wf(),
        r == old(scanner)@.source[old(scanner)@.current],
        final(scanner)@ == (ScannerView { current: old(scanner)@.current + 1, ..old(scanner)@ }),
{
    scanner.current += 1;
    scanner.source[scanner.current - 1]
}

/// Consumes the next character where it is `expected`.
pub fn match_token(scanner: &mut Scanner, expected: char) -> (r: bool)
    requires
        old(scanner)@.wf(),
    ensures
        final(scanner)@.wf(),
        r == (!at_end(old(scanner)@.source, old(scanner)@.current)
            && old(scanner)@.source[old(scanner)@.current] == expected),
        final(scanner)@ == (ScannerView {
            current: old(scanner)@.current + if r {
                1int
            } else {
                0int
            },
            ..old(scanner)@
        }),
{
    if is_at_end(scanner) {
        return false;
    }
    if scanner.source[scanner.current] != expected {
        return false;
    }
    scanner.current += 1;
    true
}

/// Relies on `String::push`: appends `c` to the end of `s`.
#[verifier::external_body]
fn push_char(s: &mut String, c: char)
    ensures
        final(s)@ == old(s)@.push(c),
{
    s.push(c);
}

/// The next character, or NUL at the end.
pub fn peek(scanner: &Scanner) -> (r: char)
    requires
        scanner@.wf(),
    ensures
        r == char_at(scanner@.source, scanner@.current),
{
    if is_at_end(scanner) {
        return '\0';
    }
    scanner.source[scanner.current]
}

/// The character after the next one, or NUL where there is none.
pub fn peek_next(scanner: &Scanner) -> (r: char)
    requires
        scanner@.wf(),
    ensures
        r == char_after(scanner@.source, scanner@.current),
{
    if is_at_end(scanner) || scanner.current + 1 >= scanner.source.len() {
        '\0'
    } else {
        scanner.source[scanner.current + 1]
    }
}

/// A token of kind `ttype` spanning `start..current`.
pub fn make_token(scanner: &Scanner, ttype: TokenType) -> (r: Token)
    requires
        scanner@.wf(),
    ensures
        r.ttype == ttype,
        r.start == scanner@.start,
        r.length == scanner@.current - scanner@.start,
        r.line == scanner@.line,
        r.lexeme@ == scanner@.source.subrange(scanner@.start, scanner@.current),
{
    let mut lexeme = String::new();
    let mut i: usize = scanner.start;
    while i < scanner.current
        invariant
            scanner@.wf(),
            scanner.start <= i <= scanner.current,
            lexeme@ == scanner@.source.subrange(scanner@.start, i as int),
        decreases scanner.current - i,
    {
        push_char(&mut lexeme, scanner.source[i]);
        assert(lexeme@ =~= scanner@.source.subrange(scanner@.start, i + 1));
        i += 1;
    }
    Token {
        ttype: ttype,
        start: scanner.start,
        length: (scanner.current - scanner.start) as i32,
        line: scanner.line,
        lexeme: lexeme,
    }
}

/// An error token that carries `message`.
pub fn error_token(scanner: &Scanner, message: &str) -> (r: Token)
    ensures
        r.ttype == TokenType::Error,
        r.start == scanner@.start,
        r.length == #[verifier::truncate] (message.len() as i32),
        r.line == scanner@.line,
        r.lexeme@ == message@,
{
    Token {
        ttype: TokenType::Error,
        start: scanner.start,
        length: #[verifier::truncate] (message.len() as i32),
        line: scanner.line,
        lexeme: message.to_owned(),
    }
}

/// Skips spaces, tabs, carriage returns, newlines and line comments, counting
/// the newlines.
pub fn skip_whitespace(scanner: &mut Scanner)
    requires
        old(scanner)@.wf(),
    ensures
        final(scanner)@.wf(),
        final(scanner)@ == (ScannerView {
            current: blank_end(old(scanner)@.source, old(scanner)@.current, false),
            line: old(scanner)@.line + newlines(
                old(scanner)@.source,
                old(scanner)@.current,
                blank_end(old(scanner)@.source, old(scanner)@.current, false),
            ),
            ..old(scanner)@
        }),
{
    let ghost s0 = scanner@;
    let ghost target = blank_end(s0.source, s0.current, false);
    loop
        invariant
            scanner@.wf(),
            scanner@.source == s0.source,
            scanner@.start == s0.start,
            s0.current <= scanner@.current,
            blank_end(s0.source, scanner@.current, false) == target,
            scanner@.line == s0.line + newlines(s0.source, s0.current, scanner@.current),
        ensures
            scanner@.wf(),
            scanner@ == (ScannerView {
                current: target,
                line: s0.line + newlines(s0.source, s0.current, target),
                ..s0
            }),
        decreases scanner@.source.len() - scanner@.current,
    {
        let ghost before = scanner@.current;
        let c = peek(scanner);
        if c == ' ' || c == '\r' || c == '\t' {
            advance(scanner);
        } else if c == '\n' {
            advance(scanner);
            scanner.line += 1;
        } else if c == '/' {
            if peek_next(scanner) == '/' {
                advance(scanner);
                while peek(scanner) != '\n' && !is_at_end(scanner)
                    invariant
                        scanner@.wf(),
                        scanner@.source == s0.source,
                        scanner@.start == s0.start,
                        s0.current <= before < scanner@.current,
                        blank_end(s0.source, scanner@.current, true) == target,
                        scanner@.line == s0.line + newlines(s0.source, s0.current, scanner@.current),
                    decreases scanner@.source.len() - scanner@.current,
                {
                    advance(scanner);
                }
            } else {
                break;
            }
        } else {
            break;
        }
    }
}

/// The scanner with `current` moved to `current` and `line` raised by `extra`.
pub open spec fn moved(s: ScannerView, current: int, extra: int) -> ScannerView {
    ScannerView { current: current, line: s.line + extra, ..s }
}

/// Whether `t` is the token of kind `k` that spans `s.start..s.current`.
pub open spec fn spans(t: Token, s: ScannerView, k: TokenType) -> bool {
    &&& t.ttype == k
    &&& t.start == s.start
    &&& t.length == s.current - s.start
    &&& t.line == s.line
    &&& t.lexeme@ == s.source.subrange(s.start, s.current)
}

/// Which keyword a word can be, by its first letters.
proof fn lemma_kind_by_first(w: Seq<char>)
    requires
        w.len() >= 1,
    ensures
        keyword_kind(w) == match w[0] {
            'a' => if w =~= seq!['a', 'n', 'd'] { TokenType::And } else { TokenType::Identifier },
            'c' => if w =~= seq!['c', 'l', 'a', 's', 's'] { TokenType::Class } else { TokenType::Identifier },
            'e' => if w =~= seq!['e', 'l', 's', 'e'] { TokenType::Else } else { TokenType::Identifier },
            'f' => if w.len() < 2 {
                TokenType::Identifier
            } else {
                match w[1] {
                    'a' => if w =~= seq!['f', 'a', 'l', 's', 'e'] { TokenType::False } else { TokenType::Identifier },
                    'o' => if w =~= seq!['f', 'o', 'r'] { TokenType::For } else { TokenType::Identifier },
                    'u' => if w =~= seq!['f', 'u', 'n'] { TokenType::Fun } else { TokenType::Identifier },
                    _ => TokenType::Identifier,
                }
            },
            'i' => if w =~= seq!['i', 'f'] { TokenType::If } else { TokenType::Identifier },
            'n' => if w =~= seq!['n', 'i', 'l'] { TokenType::Nil } else { TokenType::Identifier },
            'o' => if w =~= seq!['o', 'r'] { TokenType::Or } else { TokenType::Identifier },
            'p' => if w =~= seq!['p', 'r', 'i', 'n', 't'] { TokenType::Print } else { TokenType::Identifier },
            'r' => if w =~= seq!['r', 'e', 't', 'u', 'r', 'n'] { TokenType::Return } else { TokenType::Identifier },
            's' => if w =~= seq!['s', 'u', 'p', 'e', 'r'] { TokenType::Super } else { TokenType::Identifier },
            't' => if w.len() < 2 {
                TokenType::Identifier
            } else {
                match w[1] {
                    'h' => if w =~= seq!['t', 'h', 'i', 's'] { TokenType::This } else { TokenType::Identifier },
                    'r' => if w =~= seq!['t', 'r', 'u', 'e'] { TokenType::True } else { TokenType::Identifier },
                    _ => TokenType::Identifier,
                }
            },
            'v' => if w =~= seq!['v', 'a', 'r'] { TokenType::Var } else { TokenType::Identifier },
            'w' => if w =~= seq!['w', 'h', 'i', 'l', 'e'] { TokenType::While } else { TokenType::Identifier },
            _ => TokenType::Identifier,
        },
{
}

/// A word that begins with the first `k` characters of `kw` is `kw` exactly
/// when it is as long and the rest of it is `rest`.
proof fn lemma_keyword_rest(w: Seq<char>, k: int, rest: Seq<char>, kw: Seq<char>)
    requires
        1 <= k <= w.len(),
        k <= kw.len(),
        forall|j: int| 0 <= j < k ==> w[j] == kw[j],
        rest =~= kw.subrange(k, kw.len() as int),
    ensures
        (w.len() == kw.len() && w.subrange(k, w.len() as int) == rest) <==> w == kw,
{
    if w.len() == kw.len() && w.subrange(k, w.len() as int) == rest {
        assert forall|j: int| 0 <= j < w.len() implies w[j] == kw[j] by {
            if j >= k {
                assert(w[j] == w.subrange(k, w.len() as int)[j - k]);
            }
        }
        assert(w =~= kw);
    }
    if w == kw {
        assert(w.subrange(k, w.len() as int) =~= rest);
    }
}

/// `ttype` where the current word is `rest` from `start` onwards and has
/// `start + length` characters, else `Identifier`.
pub fn check_keyword(scanner: &Scanner, start: usize, length: usize, rest: &str, ttype: TokenType) -> (r: TokenType)
    requires
        scanner@.wf(),
    ensures
        r == if scanner@.current - scanner@.start == start + length && scanner@.source.subrange(
            scanner@.start + start,
            scanner@.current,
        ) == rest@ {
            ttype
        } else {
            TokenType::Identifier
        },
{
    let n = scanner.current - scanner.start;
    if start > n || length != n - start || rest.unicode_len() != length {
        return TokenType::Identifier;
    }
    let base = scanner.start + start;
    let mut k: usize = 0;
    while k < length
        invariant
            scanner@.wf(),
            base + length == scanner@.current,
            base == scanner@.start + start,
            rest@.len() == length,
            k <= length,
            forall|j: int| 0 <= j < k ==> scanner@.source[base + j] == rest@[j],
        decreases length - k,
    {
        if scanner.source[base + k] != rest.get_char(k) {
            assert(scanner@.source.subrange(base as int, scanner@.current)[k as int] != rest@[k as int]);
            return TokenType::Identifier;
        }
        k += 1;
    }
    assert(scanner@.source.subrange(base as int, scanner@.current) =~= rest@);
    ttype
}

/// The kind of the word `start..current`: a keyword or an identifier.
pub fn identifier_type(scanner: &Scanner) -> (r: TokenType)
    requires
        scanner@.wf(),
        scanner@.start < scanner@.current,
    ensures
        r == keyword_kind(scanner@.source.subrange(scanner@.start, scanner@.current)),
{
    let ghost w = scanner@.source.subrange(scanner@.start, scanner@.current);
    let ghost st = scanner@.start;
    proof {
        reveal_strlit("nd");
        reveal_strlit("lass");
        reveal_strlit("lse");
        reveal_strlit("r");
        reveal_strlit("n");
        reveal_strlit("f");
        reveal_strlit("il");
        reveal_strlit("rint");
        reveal_strlit("eturn");
        reveal_strlit("uper");
        reveal_strlit("is");
        reveal_strlit("ue");
        reveal_strlit("ar");
        reveal_strlit("hile");
        assert(forall|a: int, b: int| 0 <= a <= b <= w.len() ==> #[trigger] w.subrange(a, b) =~= scanner@.source.subrange(st + a, st + b));
        assert(w[0] == scanner@.source[st]);
        if w.len() >= 2 {
            assert(w[1] == scanner@.source[st + 1]);
        }
        lemma_kind_by_first(w);
    }
    let r = match scanner.source[scanner.start] {
        'a' => {
            proof { lemma_keyword_rest(w, 1, "nd"@, seq!['a', 'n', 'd']); }
            check_keyword(scanner, 1, 2, "nd", TokenType::And)
        },
        'c' => {
            proof { lemma_keyword_rest(w, 1, "lass"@, seq!['c', 'l', 'a', 's', 's']); }
            check_keyword(scanner, 1, 4, "lass", TokenType::Class)
        },
        'e' => {
            proof { lemma_keyword_rest(w, 1, "lse"@, seq!['e', 'l', 's', 'e']); }
            check_keyword(scanner, 1, 3, "lse", TokenType::Else)
        },
        'f' => {
            if scanner.current - scanner.start > 1 {
                match scanner.source[scanner.start + 1] {
                    'a' => {
                        proof { lemma_keyword_rest(w, 2, "lse"@, seq!['f', 'a', 'l', 's', 'e']); }
                        check_keyword(scanner, 2, 3, "lse", TokenType::False)
                    },
                    'o' => {
                        proof { lemma_keyword_rest(w, 2, "r"@, seq!['f', 'o', 'r']); }
                        check_keyword(scanner, 2, 1, "r", TokenType::For)
                    },
                    'u' => {
                        proof { lemma_keyword_rest(w, 2, "n"@, seq!['f', 'u', 'n']); }
                        check_keyword(scanner, 2, 1, "n", TokenType::Fun)
                    },
                    _ => TokenType::Identifier,
                }
            } else {
                TokenType::Identifier
            }
        },
        'i' => {
            proof { lemma_keyword_rest(w, 1, "f"@, seq!['i', 'f']); }
            check_keyword(scanner, 1, 1, "f", TokenType::If)
        },
        'n' => {
            proof { lemma_keyword_rest(w, 1, "il"@, seq!['n', 'i', 'l']); }
            check_keyword(scanner, 1, 2, "il", TokenType::Nil)
        },
        'o' => {
            proof { lemma_keyword_rest(w, 1, "r"@, seq!['o', 'r']); }
            check_keyword(scanner, 1, 1, "r", TokenType::Or)
        },
        'p' => {
            proof { lemma_keyword_rest(w, 1, "rint"@, seq!['p', 'r', 'i', 'n', 't']); }
            check_keyword(scanner, 1, 4, "rint", TokenType::Print)
        },
        'r' => {
            proof { lemma_keyword_rest(w, 1, "eturn"@, seq!['r', 'e', 't', 'u', 'r', 'n']); }
            check_keyword(scanner, 1, 5, "eturn", TokenType::Return)
        },
        's' => {
            proof { lemma_keyword_rest(w, 1, "uper"@, seq!['s', 'u', 'p', 'e', 'r']); }
            check_keyword(scanner, 1, 4, "uper", TokenType::Super)
        },
        't' => {
            if scanner.current - scanner.start > 1 {
                match scanner.source[scanner.start + 1] {
                    'h' => {
                        proof { lemma_keyword_rest(w, 2, "is"@, seq!['t', 'h', 'i', 's']); }
                        check_keyword(scanner, 2, 2, "is", TokenType::This)
                    },
                    'r' => {
                        proof { lemma_keyword_rest(w, 2, "ue"@, seq!['t', 'r', 'u', 'e']); }
                        check_keyword(scanner, 2, 2, "ue", TokenType::True)
                    },
                    _ => TokenType::Identifier,
                }
            } else {
                TokenType::Identifier
            }
        },
        'v' => {
            proof { lemma_keyword_rest(w, 1, "ar"@, seq!['v', 'a', 'r']); }
            check_keyword(scanner, 1, 2, "ar", TokenType::Var)
        },
        'w' => {
            proof { lemma_keyword_rest(w, 1, "hile"@, seq!['w', 'h', 'i', 'l', 'e']); }
            check_keyword(scanner, 1, 4, "hile", TokenType::While)
        },
        _ => TokenType::Identifier,
    };
    r
}

/// Scans the rest of a word whose first character has been read.
pub fn identifier(scanner: &mut Scanner) -> (r: Token)
    requires
        old(scanner)@.wf(),
        old(scanner)@.start < old(scanner)@.current,
    ensures
        final(scanner)@.wf(),
        final(scanner)@ == moved(old(scanner)@, word_end(old(scanner)@.source, old(scanner)@.current), 0),
        spans(r, final(scanner)@, keyword_kind(final(scanner)@.source.subrange(final(scanner)@.start, final(scanner)@.current))),
{
    let ghost s0 = scanner@;
    proof { lemma_word_end_bounds(s0.source, s0.current); }
    while is_alpha(peek(scanner)) || is_digit(peek(scanner))
        invariant
            scanner@.wf(),
            scanner@ == moved(s0, scanner@.current, 0),
            s0.current <= scanner@.current,
            word_end(s0.source, scanner@.current) == word_end(s0.source, s0.current),
        decreases scanner@.source.len() - scanner@.current,
    {
        advance(scanner);
    }
    let t = identifier_type(scanner);
    make_token(scanner, t)
}

/// Scans the rest of a number whose first digit has been read.
pub fn number(scanner: &mut Scanner) -> (r: Token)
    requires
        old(scanner)@.wf(),
    ensures
        final(scanner)@.wf(),
        final(scanner)@ == moved(old(scanner)@, number_end(old(scanner)@.source, old(scanner)@.current), 0),
        spans(r, final(scanner)@, TokenType::Number),
{
    let ghost s0 = scanner@;
    while is_digit(peek(scanner))
        invariant
            scanner@.wf(),
            scanner@ == moved(s0, scanner@.current, 0),
            s0.current <= scanner@.current,
            digits_end(s0.source, scanner@.current) == digits_end(s0.source, s0.current),
        decreases scanner@.source.len() - scanner@.current,
    {
        advance(scanner);
    }
    let ghost j = scanner@.current;
    if peek(scanner) == '.' && is_digit(peek_next(scanner)) {
        advance(scanner);
        while is_digit(peek(scanner))
            invariant
                scanner@.wf(),
                scanner@ == moved(s0, scanner@.current, 0),
                j < scanner@.current,
                digits_end(s0.source, scanner@.current) == digits_end(s0.source, j + 1),
            decreases scanner@.source.len() - scanner@.current,
        {
            advance(scanner);
        }
    }
    make_token(scanner, TokenType::Number)
}

/// Scans the rest of a string literal whose opening quote has been read.
pub fn string(scanner: &mut Scanner) -> (r: Token)
    requires
        old(scanner)@.wf(),
    ensures
        final(scanner)@.wf(),
        ({
            let s0 = old(scanner)@;
            let e = quote_end(s0.source, s0.current);
            if at_end(s0.source, e) {
                &&& final(scanner)@ == moved(s0, e, newlines(s0.source, s0.current, e))
                &&& r.ttype == TokenType::Error
                &&& r.start == s0.start
                &&& r.line == final(scanner)@.line
                &&& r.lexeme@ == "Unterminated String"@
            } else {
                &&& final(scanner)@ == moved(s0, e + 1, newlines(s0.source, s0.current, e + 1))
                &&& spans(r, final(scanner)@, TokenType::String)
            }
        }),
{
    let ghost s0 = scanner@;
    let ghost e = quote_end(s0.source, s0.current);
    proof { lemma_quote_end_bounds(s0.source, s0.current); }
    while peek(scanner) != '"' && !is_at_end(scanner)
        invariant
            scanner@.wf(),
            scanner@ == moved(s0, scanner@.current, newlines(s0.source, s0.current, scanner@.current)),
            s0.current <= scanner@.current,
            quote_end(s0.source, scanner@.current) == e,
        decreases scanner@.source.len() - scanner@.current,
    {
        if peek(scanner) == '\n' {
            advance(scanner);
            scanner.line += 1;
        } else {
            advance(scanner);
        }
    }
    if is_at_end(scanner) {
        return error_token(scanner, "Unterminated String");
    }
    advance(scanner);
    make_token(scanner, TokenType::String)
}

/// Scans the next token.
pub fn scan_token(scanner: &mut Scanner) -> (r: Token)
    requires
        old(scanner)@.wf(),
    ensures
        final(scanner)@.wf(),
        final(scanner)@ == after_token(old(scanner)@).0,
        scanned(r, old(scanner)@),
{
    let ghost s0 = scanner@;
    skip_whitespace(scanner);
    proof {
        lemma_blank_end_bounds(s0.source, s0.current, false);
    }
    scanner.start = scanner.current;
    let ghost s1 = scanner@;
    let ghost i = s1.current;
    proof {
        lemma_blank_end_stops(s0.source, s0.current, false);
        lemma_token_at_bounds(s0.source, i);
        if !at_end(s0.source, i) {
            if s0.source[i] != '"' {
                lemma_token_newlines(s0.source, i);
                lemma_newlines_split(s0.source, s0.current, i, token_at(s0.source, i).1);
            } else {
                let e = quote_end(s0.source, i + 1);
                lemma_quote_end_bounds(s0.source, i + 1);
                lemma_newlines_split(s0.source, s0.current, i, i + 1);
                lemma_newlines_split(s0.source, i, i + 1, e);
                lemma_newlines_split(s0.source, i + 1, e, e + 1);
                lemma_newlines_split(s0.source, s0.current, i, e);
                lemma_newlines_split(s0.source, s0.current, i, e + 1);
            }
        }
    }
    if is_at_end(scanner) {
        return make_token(scanner, TokenType::EOF);
    }
    let c: char = advance(scanner);
    if is_alpha(c) {
        return identifier(scanner);
    }
    if is_digit(c) {
        return number(scanner);
    }
    match c {
        '(' => make_token(scanner, TokenType::LeftParen),
        ')' => make_token(scanner, TokenType::RightParen),
        '{' => make_token(scanner, TokenType::LeftBrace),
        '}' => make_token(scanner, TokenType::RightBrace),
        ';' => make_token(scanner, TokenType::Semicolon),
        ',' => make_token(scanner, TokenType::Comma),
        '.' => make_token(scanner, TokenType::Dot),
        '-' => make_token(scanner, TokenType::Minus),
        '+' => make_token(scanner, TokenType::Plus),
        '/' => make_token(scanner, TokenType::Slash),
        '*' => make_token(scanner, TokenType::Star),
        '!' => {
            if match_token(scanner, '=') {
                make_token(scanner, TokenType::BangEqual)
            } else {
                make_token(scanner, TokenType::Bang)
            }
        },
        '=' => {
            if match_token(scanner, '=') {
                make_token(scanner, TokenType::EqualEqual)
            } else {
                make_token(scanner, TokenType::Equal)
            }
        },
        '<' => {
            if match_token(scanner, '=') {
                make_token(scanner, TokenType::LessEqual)
            } else {
                make_token(scanner, TokenType::Less)
            }
        },
        '>' => {
            if match_token(scanner, '=') {
                make_token(scanner, TokenType::GreaterEqual)
            } else {
                make_token(scanner, TokenType::Greater)
            }
        },
        '"' => string(scanner),
        _ => error_token(scanner, "Unexpected Character"),
    }
}

/// The scanner at the start of `src`.
pub open spec fn start_of(src: Seq<char>) -> ScannerView {
    ScannerView { source: src, start: 0, current: 0, line: 1 }
}

/// The scanner after `k` tokens of `src`.
pub open spec fn after_tokens(src: Seq<char>, k: nat) -> ScannerView
    decreases k,
{
    if k == 0 {
        start_of(src)
    } else {
        after_token(after_tokens(src, (k - 1) as nat)).0
    }
}

/// Scans all of `source`: every token up to and including the first
/// end-of-text token.
pub fn scan_tokens(source: &str) -> (r: Vec<Token>)
    requires
        source@.len() < i32::MAX,
    ensures
        r@.len() >= 1,
        r@.last().ttype == TokenType::EOF,
        forall|k: int| 0 <= k < r@.len() - 1 ==> (#[trigger] r@[k]).ttype != TokenType::EOF,
        forall|k: int| 0 <= k < r@.len() ==> scanned(#[trigger] r@[k], after_tokens(source@, k as nat)),
{
    let mut scanner = init_scanner(source);
    let mut tokens: Vec<Token> = Vec::new();
    loop
        invariant_except_break
            forall|k: int| 0 <= k < tokens@.len() ==> (#[trigger] tokens@[k]).ttype != TokenType::EOF,
        invariant
            scanner@.wf(),
            scanner@ == after_tokens(source@, tokens@.len()),
            forall|k: int| 0 <= k < tokens@.len() ==> scanned(#[trigger] tokens@[k], after_tokens(source@, k as nat)),
        ensures
            tokens@.len() >= 1,
            tokens@.last().ttype == TokenType::EOF,
            forall|k: int| 0 <= k < tokens@.len() - 1 ==> (#[trigger] tokens@[k]).ttype != TokenType::EOF,
            forall|k: int| 0 <= k < tokens@.len() ==> scanned(#[trigger] tokens@[k], after_tokens(source@, k as nat)),
        decreases scanner@.source.len() - scanner@.current,
    {
        let ghost s0 = scanner@;
        proof {
            lemma_blank_end_bounds(s0.source, s0.current, false);
            lemma_token_at_bounds(s0.source, blank_end(s0.source, s0.current, false));
        }
        let t = scan_token(&mut scanner);
        let is_end = t.ttype == TokenType::EOF;
        tokens.push(t);
        proof {
            assert(after_tokens(source@, tokens@.len()) == after_token(after_tokens(source@, (tokens@.len() - 1) as nat)).0);
        }
        if is_end {
            break;
        }
    }
    tokens
}

} // verus!
