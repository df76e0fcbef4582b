use vstd::prelude::*;
use crate::chunk::{Chunk, OpCode};
use crate::scanner::{Token, TokenType};
use crate::value::Value;

verus! {

/// Where in the source a diagnostic points.
#[derive(Clone, Copy, Debug, PartialEq, Eq, Structural)]
pub enum ErrorSite {
    /// At the end of the text.
    AtEnd,
    /// At the token that starts at this character offset.
    At(usize),
    /// At a token the scanner could not read; the message says why.
    Lexical,
}

/// A compile error: the source line, where on it, and what went wrong.
pub struct Diagnostic {
    pub line: i32,
    pub site: ErrorSite,
    pub message: String,
}

pub const PREC_NONE: u8 = 0;

pub const PREC_ASSIGNMENT: u8 = 1;

pub const PREC_TERM: u8 = 6;

pub const PREC_FACTOR: u8 = 7;

pub const PREC_UNARY: u8 = 8;

/// How tightly a token binds as an infix operator; `PREC_NONE` where it is none.
pub open spec fn infix_precedence(t: TokenType) -> u8 {
    match t {
        TokenType::Plus | TokenType::Minus => PREC_TERM,
        TokenType::Star | TokenType::Slash => PREC_FACTOR,
        _ => PREC_NONE,
    }
}

/// Where the operand that begins at token `i` ends, if the tokens there
/// form one: a number, a negated operand, or a parenthesised expression.
pub open spec fn operand_end(t: Seq<Token>, i: int) -> Option<int>
    decreases t.len() - i, 1int,
{
    if i < 0 || i >= t.len() {
        None
    } else if t[i].ttype == TokenType::Number {
        Some(i + 1)
    } else if t[i].ttype == TokenType::Minus {
        expression_end(t, i + 1, PREC_UNARY)
    } else if t[i].ttype == TokenType::LeftParen {
        match expression_end(t, i + 1, PREC_ASSIGNMENT) {
            Some(j) => if 0 <= j < t.len() && t[j].ttype == TokenType::RightParen {
                Some(j + 1)
            } else {
                None
            },
            None => None,
        }
    } else {
        None
    }
}

/// Where the expression that begins at token `i`, and whose operators bind at
/// least as tightly as `prec`, ends, if the tokens there form one. Operators of
/// equal precedence group to the left.
pub open spec fn expression_end(t: Seq<Token>, i: int, prec: u8) -> Option<int>
    decreases t.len() - i, 2int,
{
    if i < 0 || i >= t.len() {
        None
    } else {
        match operand_end(t, i) {
            Some(j) => if i < j <= t.len() {
                operators_end(t, j, prec)
            } else {
                None
            },
            None => None,
        }
    }
}

/// Where a run of infix operators and their right operands, each operator
/// binding at least as tightly as `prec`, that begins at token `j` ends.
pub open spec fn operators_end(t: Seq<Token>, j: int, prec: u8) -> Option<int>
    decreases t.len() - j, 0int,
{
    if j < 0 || j >= t.len() {
        None
    } else {
        let level = infix_precedence(t[j].ttype);
        if level < prec || level == PREC_NONE {
            Some(j)
        } else {
            match expression_end(t, j + 1, (level + 1) as u8) {
                Some(k) => if j < k <= t.len() {
                    operators_end(t, k, prec)
                } else {
                    None
                },
                None => None,
            }
        }
    }
}

/// How many number literals stand in `t[0..e]`.
pub open spec fn number_count(t: Seq<Token>, e: int) -> int
    decreases e,
{
    if e <= 0 {
        0
    } else {
        number_count(t, e - 1) + if t[e - 1].ttype == TokenType::Number {
            1int
        } else {
            0int
        }
    }
}

/// The values of the number literals in `t[0..e]`, in order.
pub open spec fn literal_values(t: Seq<Token>, numbers: Seq<Value>, e: int) -> Seq<Value>
    decreases e,
{
    if e <= 0 {
        Seq::empty()
    } else if t[e - 1].ttype == TokenType::Number {
        literal_values(t, numbers, e - 1).push(numbers[e - 1])
    } else {
        literal_values(t, numbers, e - 1)
    }
}

/// The instruction of an infix operator token.
pub open spec fn binary_code(t: TokenType) -> OpCode {
    match t {
        TokenType::Plus => OpCode::OpAdd,
        TokenType::Minus => OpCode::OpSubtract,
        TokenType::Star => OpCode::OpMultiply,
        _ => OpCode::OpDivide,
    }
}

/// The code of the operand that begins at token `i`: operands first, then
/// the operator, the `k`-th number literal of the text pushing constant `k`.
pub open spec fn operand_code(t: Seq<Token>, i: int) -> Seq<OpCode>
    decreases t.len() - i, 1int,
{
    if i < 0 || i >= t.len() {
        Seq::empty()
    } else if t[i].ttype == TokenType::Number {
        seq![OpCode::OpConstant(number_count(t, i) as usize)]
    } else if t[i].ttype == TokenType::Minus {
        expression_code(t, i + 1, PREC_UNARY).push(OpCode::OpNegate)
    } else if t[i].ttype == TokenType::LeftParen {
        expression_code(t, i + 1, PREC_ASSIGNMENT)
    } else {
        Seq::empty()
    }
}

/// The code of the expression that `expression_end` reads from token `i`.
pub open spec fn expression_code(t: Seq<Token>, i: int, prec: u8) -> Seq<OpCode>
    decreases t.len() - i, 2int,
{
    if i < 0 || i >= t.len() {
        Seq::empty()
    } else {
        match operand_end(t, i) {
            Some(j) => if i < j <= t.len() {
                operand_code(t, i) + operators_code(t, j, prec)
            } else {
                Seq::empty()
            },
            None => Seq::empty(),
        }
    }
}

/// The code of the operators that `operators_end` reads from token `j`.
pub open spec fn operators_code(t: Seq<Token>, j: int, prec: u8) -> Seq<OpCode>
    decreases t.len() - j, 0int,
{
    if j < 0 || j >= t.len() {
        Seq::empty()
    } else {
        let level = infix_precedence(t[j].ttype);
        if level < prec || level == PREC_NONE {
            Seq::empty()
        } else {
            match expression_end(t, j + 1, (level + 1) as u8) {
                Some(k) => if j < k <= t.len() {
                    expression_code(t, j + 1, (level + 1) as u8).push(binary_code(t[j].ttype))
                        + operators_code(t, k, prec)
                } else {
                    Seq::empty()
                },
                None => Seq::empty(),
            }
        }
    }
}

proof fn lemma_literal_count(t: Seq<Token>, numbers: Seq<Value>, e: int)
    ensures
        literal_values(t, numbers, e).len() == number_count(t, e),
    decreases e,
{
    if e > 0 {
        lemma_literal_count(t, numbers, e - 1);
    }
}

/// The code of a whole program: its expression, then a return.
pub open spec fn program_code(t: Seq<Token>) -> Seq<OpCode> {
    expression_code(t, 0, PREC_ASSIGNMENT).push(OpCode::OpReturn)
}

/// No token is one the scanner could not read.
pub open spec fn readable(t: Seq<Token>) -> bool {
    forall|i: int| 0 <= i < t.len() ==> (#[trigger] t[i]).ttype != TokenType::Error
}

/// The tokens form exactly one expression.
pub open spec fn is_expression(t: Seq<Token>) -> bool {
    &&& readable(t)
    &&& expression_end(t, 0, PREC_ASSIGNMENT) == Some(t.len() - 1)
}

/// A token list as the scanner hands it over: one end-of-text token, last.
pub open spec fn tokens_wf(tokens: Seq<Token>) -> bool {
    &&& tokens.len() >= 1
    &&& tokens.last().ttype == TokenType::EOF
    &&& forall|i: int| 0 <= i < tokens.len() - 1 ==> (#[trigger] tokens[i]).ttype != TokenType::EOF
}

/// Where a diagnostic about `t` points.
pub open spec fn site_of(t: Token) -> ErrorSite {
    if t.ttype == TokenType::EOF {
        ErrorSite::AtEnd
    } else if t.ttype == TokenType::Error {
        ErrorSite::Lexical
    } else {
        ErrorSite::At(t.start)
    }
}

/// Whether `d` reports `message` at token `t`.
pub open spec fn reports(d: Diagnostic, t: Token, message: Seq<char>) -> bool {
    &&& d.line == t.line
    &&& d.site == site_of(t)
    &&& d.message@ == message
}

struct Parser {
    current: usize,
    previous: usize,
    had_error: bool,
    panic_mode: bool,
    diagnostics: Vec<Diagnostic>,
    chunk: Chunk,
}

impl Parser {
    /// After the first error the parser stays in panic mode and reports
    /// nothing more; until then every token it has reached is a readable one.
    spec fn wf(&self, tokens: Seq<Token>) -> bool {
        &&& tokens_wf(tokens)
        &&& self.previous <= self.current < tokens.len()
        &&& self.chunk.wf()
        &&& self.chunk@.constants.len() <= self.current
        &&& self.had_error == self.panic_mode
        &&& self.diagnostics@.len() == if self.panic_mode {
            1int
        } else {
            0int
        }
        &&& !self.had_error ==> forall|i: int|
            0 <= i <= self.current ==> (#[trigger] tokens[i]).ttype != TokenType::Error
        &&& tokens[0].ttype == TokenType::Error ==> self.panic_mode && reports(
            self.diagnostics@[0],
            tokens[0],
            tokens[0].lexeme@,
        )
    }

    /// What every step keeps: the cursor only moves on, and once an error is
    /// reported the parser stays in panic mode with that one diagnostic.
    spec fn moves_to(&self, next: &Parser) -> bool {
        &&& self.current <= next.current
        &&& self.panic_mode ==> next.panic_mode && next.diagnostics@ == self.diagnostics@
    }
}

/// Reports `message` at token `index`, unless an error was reported before.
fn error_at(p: &mut Parser, tokens: &Vec<Token>, index: usize, message: &str)
    requires
        index < tokens@.len(),
        old(p).had_error == old(p).panic_mode,
    ensures
        final(p).current == old(p).current,
        final(p).previous == old(p).previous,
        final(p).chunk == old(p).chunk,
        final(p).panic_mode,
        final(p).had_error,
        old(p).panic_mode ==> final(p).diagnostics@ == old(p).diagnostics@,
        !old(p).panic_mode ==> final(p).diagnostics@.len() == old(p).diagnostics@.len() + 1
            && final(p).diagnostics@.drop_last() == old(p).diagnostics@
            && reports(final(p).diagnostics@.last(), tokens@[index as int], message@),
{
    if p.panic_mode {
        return;
    }
    p.panic_mode = true;
    let token = &tokens[index];
    let site = if token.ttype == TokenType::EOF {
        ErrorSite::AtEnd
    } else if token.ttype == TokenType::Error {
        ErrorSite::Lexical
    } else {
        ErrorSite::At(token.start)
    };
    p.diagnostics.push(Diagnostic { line: token.line, site: site, message: message.to_owned() });
    p.had_error = true;
    assert(p.diagnostics@.drop_last() =~= old(p).diagnostics@);
}

/// Reports `message` at the token just consumed.
fn error(p: &mut Parser, tokens: &Vec<Token>, message: &str)
    requires
        old(p).wf(tokens@),
    ensures
        final(p).wf(tokens@),
        old(p).moves_to(final(p)),
        final(p).had_error,
        final(p).chunk == old(p).chunk,
        final(p).current == old(p).current,
{
    error_at(p, tokens, p.previous, message);
}

/// Reports `message` at the current token.
fn error_at_current(p: &mut Parser, tokens: &Vec<Token>, message: &str)
    requires
        old(p).wf(tokens@),
    ensures
        final(p).wf(tokens@),
        old(p).moves_to(final(p)),
        final(p).had_error,
        final(p).chunk == old(p).chunk,
        final(p).current == old(p).current,
{
    error_at(p, tokens, p.current, message);
}

/// Reports and passes over the unreadable tokens at the cursor.
fn skip_errors(p: &mut Parser, tokens: &Vec<Token>)
    requires
        tokens_wf(tokens@),
        old(p).previous <= old(p).current < tokens@.len(),
        old(p).chunk.wf(),
        old(p).had_error == old(p).panic_mode,
        old(p).diagnostics@.len() == if old(p).panic_mode {
            1int
        } else {
            0int
        },
        !old(p).had_error ==> forall|i: int|
            0 <= i < old(p).current ==> (#[trigger] tokens@[i]).ttype != TokenType::Error,
        old(p).current > 0 && tokens@[0].ttype == TokenType::Error ==> old(p).panic_mode
            && reports(old(p).diagnostics@[0], tokens@[0], tokens@[0].lexeme@),
        old(p).current == 0 ==> !old(p).panic_mode,
        old(p).chunk@.constants.len() <= old(p).current,
    ensures
        final(p).wf(tokens@),
        old(p).moves_to(final(p)),
        tokens@[final(p).current as int].ttype != TokenType::Error,
        readable(tokens@) ==> final(p).current == old(p).current && final(p).had_error == old(p).had_error,
        final(p).previous == old(p).previous,
        final(p).chunk == old(p).chunk,
{
    while tokens[p.current].ttype == TokenType::Error
        invariant
            tokens_wf(tokens@),
            old(p).current <= p.current < tokens@.len(),
            p.previous == old(p).previous,
            p.chunk == old(p).chunk,
            p.had_error == p.panic_mode,
            p.diagnostics@.len() == if p.panic_mode {
                1int
            } else {
                0int
            },
            !p.had_error ==> forall|i: int|
                0 <= i < p.current ==> (#[trigger] tokens@[i]).ttype != TokenType::Error,
            p.current > 0 && tokens@[0].ttype == TokenType::Error ==> p.panic_mode
                && reports(p.diagnostics@[0], tokens@[0], tokens@[0].lexeme@),
            old(p).panic_mode ==> p.panic_mode && p.diagnostics@ == old(p).diagnostics@,
            p.current == 0 ==> !p.panic_mode,
            p.chunk@.constants.len() <= p.current,
            readable(tokens@) ==> p.current == old(p).current && p.had_error == old(p).had_error,
        decreases tokens@.len() - p.current,
    {
        let ghost before = p.diagnostics@;
        error_at(p, tokens, p.current, tokens[p.current].lexeme.as_str());
        proof {
            if before.len() == 0 {
                assert(p.diagnostics@[0] == p.diagnostics@.last());
            }
            assert(tokens@[tokens@.len() - 1].ttype == TokenType::EOF);
        }
        let count = tokens.len();
        assert(p.current + 1 < count);
        p.current += 1;
    }
}

/// Moves to the next readable token.
fn advance(p: &mut Parser, tokens: &Vec<Token>)
    requires
        old(p).wf(tokens@),
    ensures
        final(p).wf(tokens@),
        old(p).moves_to(final(p)),
        final(p).previous == old(p).current,
        final(p).chunk == old(p).chunk,
        old(p).current < tokens@.len() - 1 ==> old(p).current < final(p).current,
        readable(tokens@) ==> final(p).had_error == old(p).had_error && final(p).current == if old(
            p,
        ).current < tokens@.len() - 1 {
            old(p).current + 1
        } else {
            old(p).current as int
        },
{
    p.previous = p.current;
    if p.current < tokens.len() - 1 {
        p.current += 1;
        skip_errors(p, tokens);
    }
}

/// Consumes a token of kind `ttype`, or reports `message`.
fn consume(p: &mut Parser, tokens: &Vec<Token>, ttype: TokenType, message: &str)
    requires
        old(p).wf(tokens@),
    ensures
        final(p).wf(tokens@),
        old(p).moves_to(final(p)),
        final(p).chunk == old(p).chunk,
        !final(p).had_error ==> tokens@[old(p).current as int].ttype == ttype,
        readable(tokens@) && !old(p).had_error ==> (final(p).had_error <==> tokens@[old(
            p,
        ).current as int].ttype != ttype),
        readable(tokens@) && !final(p).had_error ==> final(p).current == if old(p).current
            < tokens@.len() - 1 {
            old(p).current + 1
        } else {
            old(p).current as int
        },
{
    if tokens[p.current].ttype == ttype {
        advance(p, tokens);
    } else {
        error_at_current(p, tokens, message);
    }
}

/// Appends `byte`, attributed to the line of the token just consumed.
fn emit_byte(p: &mut Parser, tokens: &Vec<Token>, byte: OpCode)
    requires
        old(p).wf(tokens@),
        crate::chunk::op_fits(byte, old(p).chunk@.constants.len()),
    ensures
        final(p).wf(tokens@),
        old(p).moves_to(final(p)),
        final(p).current == old(p).current,
        final(p).had_error == old(p).had_error,
        final(p).chunk@.code == old(p).chunk@.code.push(byte),
        final(p).chunk@.constants == old(p).chunk@.constants,
{
    let line = #[verifier::truncate] (tokens[p.previous].line as u32);
    p.chunk.write_chunk(byte, line);
}

/// Adds `value` to the pool and emits the instruction that pushes it.
fn emit_constant(p: &mut Parser, tokens: &Vec<Token>, value: Value)
    requires
        old(p).wf(tokens@),
        old(p).chunk@.constants.len() <= old(p).previous < old(p).current,
    ensures
        final(p).wf(tokens@),
        old(p).moves_to(final(p)),
        final(p).current == old(p).current,
        final(p).had_error == old(p).had_error,
        final(p).chunk@.constants == old(p).chunk@.constants.push(value),
        final(p).chunk@.code == old(p).chunk@.code.push(OpCode::OpConstant(old(p).chunk@.constants.len() as usize)),
{
    let count = tokens.len();
    let idx = p.chunk.add_constant(value);
    emit_byte(p, tokens, OpCode::OpConstant(idx));
}

/// Ends the chunk with a return.
fn end_compiler(p: &mut Parser, tokens: &Vec<Token>)
    requires
        old(p).wf(tokens@),
    ensures
        final(p).wf(tokens@),
        old(p).moves_to(final(p)),
        final(p).current == old(p).current,
        final(p).had_error == old(p).had_error,
        final(p).chunk@.code == old(p).chunk@.code.push(OpCode::OpReturn),
        final(p).chunk@.constants == old(p).chunk@.constants,
{
    emit_byte(p, tokens, OpCode::OpReturn);
}

/// The instruction of a binary operator token.
fn binary_op_code(t: TokenType) -> (r: OpCode)
    ensures
        r == binary_code(t),
        r is OpAdd || r is OpSubtract || r is OpMultiply || r is OpDivide,
{
    match t {
        TokenType::Plus => OpCode::OpAdd,
        TokenType::Minus => OpCode::OpSubtract,
        TokenType::Star => OpCode::OpMultiply,
        _ => OpCode::OpDivide,
    }
}

/// Parses an expression whose operators bind at least as tightly as `prec`,
/// emitting its code.
fn parse_precedence(p: &mut Parser, tokens: &Vec<Token>, numbers: &Vec<Value>, prec: u8)
    requires
        old(p).wf(tokens@),
        numbers@.len() == tokens@.len(),
        prec >= PREC_ASSIGNMENT,
    ensures
        final(p).wf(tokens@),
        old(p).moves_to(final(p)),
        readable(tokens@) && !old(p).had_error ==> match expression_end(tokens@, old(p).current as int, prec) {
            Some(e) => !final(p).had_error && final(p).current == e,
            None => final(p).had_error,
        },
        readable(tokens@) && !old(p).had_error && !final(p).had_error && old(p).chunk@.constants
            == literal_values(tokens@, numbers@, old(p).current as int) ==> final(p).chunk@.code
            == old(p).chunk@.code + expression_code(tokens@, old(p).current as int, prec)
            && final(p).chunk@.constants == literal_values(tokens@, numbers@, final(p).current as int),
    decreases tokens@.len() - old(p).current,
{
    let ghost c0 = p.current;
    let ghost target = expression_end(tokens@, c0 as int, prec);
    let ghost clean = readable(tokens@) && !p.had_error;
    let ghost exact = clean && p.chunk@.constants == literal_values(tokens@, numbers@, c0 as int);
    let ghost code0 = p.chunk@.code;
    let ghost target_code = expression_code(tokens@, c0 as int, prec);
    advance(p, tokens);
    let kind = tokens[p.previous].ttype;
    match kind {
        TokenType::LeftParen => {
            parse_precedence(p, tokens, numbers, PREC_ASSIGNMENT);
            let ghost inner = p.current as int;
            consume(p, tokens, TokenType::RightParen, "Expect ')' after expression.");
            proof {
                if exact && !p.had_error {
                    assert(tokens@[inner].ttype == TokenType::RightParen);
                    assert(p.chunk@.code =~= code0 + operand_code(tokens@, c0 as int));
                }
            }
        },
        TokenType::Minus => {
            parse_precedence(p, tokens, numbers, PREC_UNARY);
            emit_byte(p, tokens, OpCode::OpNegate);
            proof {
                if exact && !p.had_error {
                    assert(p.chunk@.code =~= code0 + operand_code(tokens@, c0 as int));
                }
            }
        },
        TokenType::Number => {
            proof { lemma_literal_count(tokens@, numbers@, c0 as int); }
            emit_constant(p, tokens, numbers[p.previous]);
            proof {
                if exact {
                    assert(p.chunk@.code =~= code0 + operand_code(tokens@, c0 as int));
                }
            }
        },
        _ => {
            error(p, tokens, "Expect expression.");
            return;
        },
    }
    proof {
        if exact && !p.had_error {
            let j = p.current as int;
            assert(code0 + target_code =~= (code0 + operand_code(tokens@, c0 as int)) + operators_code(tokens@, j, prec));
        }
    }
    loop
        invariant
            p.wf(tokens@),
            old(p).moves_to(p),
            c0 < p.current,
            numbers@.len() == tokens@.len(),
            prec >= PREC_ASSIGNMENT,
            clean ==> readable(tokens@),
            exact ==> clean,
            clean ==> if p.had_error {
                target is None
            } else {
                operators_end(tokens@, p.current as int, prec) == target
            },
            exact && !p.had_error ==> p.chunk@.code + operators_code(tokens@, p.current as int, prec)
                == code0 + target_code && p.chunk@.constants == literal_values(tokens@, numbers@, p.current as int),
        ensures
            p.wf(tokens@),
            old(p).moves_to(p),
            clean ==> match target {
                Some(e) => !p.had_error && p.current == e,
                None => p.had_error,
            },
            exact && !p.had_error ==> p.chunk@.code == code0 + target_code && p.chunk@.constants
                == literal_values(tokens@, numbers@, p.current as int),
        decreases tokens@.len() - p.current,
    {
        let next = tokens[p.current].ttype;
        let level: u8 = match next {
            TokenType::Plus | TokenType::Minus => PREC_TERM,
            TokenType::Star | TokenType::Slash => PREC_FACTOR,
            _ => PREC_NONE,
        };
        if level < prec || level == PREC_NONE {
            break;
        }
        let ghost cur = p.current as int;
        let ghost was_error = p.had_error;
        proof {
            assert(tokens@[tokens@.len() - 1].ttype == TokenType::EOF);
            assert(cur < tokens@.len() - 1);
            assert(level == infix_precedence(tokens@[cur].ttype));
        }
        advance(p, tokens);
        let ghost code_before = p.chunk@.code;
        parse_precedence(p, tokens, numbers, level + 1);
        proof {
            if clean && !was_error {
                assert(operators_end(tokens@, cur, prec) == match expression_end(tokens@, cur + 1, (level + 1) as u8) {
                    Some(k) => if cur < k <= tokens@.len() {
                        operators_end(tokens@, k, prec)
                    } else {
                        None
                    },
                    None => None,
                });
            }
        }
        emit_byte(p, tokens, binary_op_code(next));
        proof {
            if exact && !was_error && !p.had_error {
                let k = p.current as int;
                let e = expression_code(tokens@, cur + 1, (level + 1) as u8);
                assert(operators_code(tokens@, cur, prec) == e.push(binary_code(tokens@[cur].ttype)) + operators_code(tokens@, k, prec));
                assert(p.chunk@.code + operators_code(tokens@, k, prec) =~= code_before + operators_code(tokens@, cur, prec));
            }
        }
    }
}

/// Compiles `tokens` into a chunk that evaluates the expression they spell and
/// returns its value. `numbers[i]` is the value of token `i` where that token
/// is a number literal.
///
/// On any error the result is the one diagnostic of the first error: after it
/// the compiler reports nothing more.
pub fn compile(tokens: &Vec<Token>, numbers: &Vec<Value>) -> (r: Result<Chunk, Vec<Diagnostic>>)
    requires
        tokens_wf(tokens@),
        numbers@.len() == tokens@.len(),
    ensures
        (exists|i: int| 0 <= i < tokens@.len() && (#[trigger] tokens@[i]).ttype == TokenType::Error)
            ==> r is Err,
        tokens@[0].ttype == TokenType::Error ==> r is Err && reports(
            r->Err_0@[0],
            tokens@[0],
            tokens@[0].lexeme@,
        ),
        r is Ok <==> is_expression(tokens@),
        match r {
            Ok(chunk) => {
                &&& chunk.wf()
                &&& chunk@.code == program_code(tokens@)
                &&& chunk@.constants == literal_values(tokens@, numbers@, tokens@.len() as int)
            },
            Err(diagnostics) => diagnostics@.len() == 1,
        },
{
    let mut p = Parser {
        current: 0,
        previous: 0,
        had_error: false,
        panic_mode: false,
        diagnostics: Vec::new(),
        chunk: Chunk::new(),
    };
    skip_errors(&mut p, tokens);
    assert(p.chunk@.constants =~= literal_values(tokens@, numbers@, 0));
    parse_precedence(&mut p, tokens, numbers, PREC_ASSIGNMENT);
    let ghost before = p.current;
    consume(&mut p, tokens, TokenType::EOF, "Expect End Of Expression");
    end_compiler(&mut p, tokens);
    if p.had_error {
        Err(p.diagnostics)
    } else {
        assert(before == tokens@.len() - 1);
        assert(readable(tokens@));
        assert(p.chunk@.code =~= program_code(tokens@));
        assert(literal_values(tokens@, numbers@, tokens@.len() as int) == literal_values(tokens@, numbers@, before as int));
        Ok(p.chunk)
    }
}

} // verus!
