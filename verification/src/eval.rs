//! Addresses written as expressions: hexadecimal numbers, module offsets,
//! `+ - * /` and brackets.

use crate::address::{address_text, parse_address};
use crate::error::{Error, Fault};
use crate::process::ProcessInterface;
use vstd::prelude::*;
use vstd::string::*;

verus! {

/// The pieces that an expression is made of.
#[derive(Debug, PartialEq, Eq, Clone, Copy, Structural)]
pub enum Token {
    ParenLeft,
    ParenRight,
    Add,
    Sub,
    Div,
    Mul,
    /// `@`, with an optional `:1`, `:2`, `:4` or `:8` behind it.
    Deref,
    /// A hexadecimal number, with an optional `0x` before it.
    Num,
    /// An offset into a module: the name of the module, `:$`, and a
    /// hexadecimal number. Without a name it is the main module.
    Rva,
}

/// A number, or an operator that waits for its numbers.
#[derive(Debug, Clone, Copy)]
pub enum Item {
    Number(usize),
    Operator(Token),
}

impl Token {
    /// The tokens that work on numbers.
    pub open spec fn is_operator(self) -> bool {
        self is Add || self is Sub || self is Div || self is Mul || self is Deref
    }

    /// How tightly an operator binds; the other tokens do not bind.
    pub open spec fn binding(self) -> int {
        match self {
            Token::Add | Token::Sub => 2,
            Token::Div | Token::Mul => 3,
            Token::Deref => 4,
            _ => 0,
        }
    }

    /// How tightly an operator binds.
    pub fn precedence(&self) -> (level: u32)
        requires
            self.is_operator(),
        ensures
            level == self.binding(),
    {
        match self {
            Token::Add | Token::Sub => 2,
            Token::Div | Token::Mul => 3,
            _ => 4,
        }
    }
}

/// Blank, tab, line feed and form feed stand between tokens.
pub open spec fn is_space(c: char) -> bool {
    c == ' ' || c == '\t' || c == '\n' || c == '\u{c}'
}

/// What a number is made of: hexadecimal digits in either case, and the
/// underscore, which no number can hold in the end.
pub open spec fn in_number(c: char) -> bool {
    ('0' <= c <= '9') || ('a' <= c <= 'f') || ('A' <= c <= 'F') || c == '_'
}

/// What the name of a module is made of.
pub open spec fn in_name(c: char) -> bool {
    ('a' <= c <= 'z') || ('A' <= c <= 'Z') || c == '_' || c == '.'
}

/// Where the characters of a number that begin at `pos` end.
pub open spec fn number_run(text: Seq<char>, pos: int) -> int
    decreases text.len() - pos,
{
    if 0 <= pos < text.len() && in_number(text[pos]) {
        number_run(text, pos + 1)
    } else {
        pos
    }
}

/// Where the characters of a name that begin at `pos` end.
pub open spec fn name_run(text: Seq<char>, pos: int) -> int
    decreases text.len() - pos,
{
    if 0 <= pos < text.len() && in_name(text[pos]) {
        name_run(text, pos + 1)
    } else {
        pos
    }
}

/// Where the longest number that begins at `pos` ends; `pos` if none begins
/// there. `0x` belongs to the number if a character of a number follows.
pub open spec fn number_end(text: Seq<char>, pos: int) -> int {
    if 0 <= pos && pos + 2 < text.len() && text[pos] == '0' && text[pos + 1] == 'x' && in_number(
        text[pos + 2],
    ) {
        number_run(text, pos + 2)
    } else {
        number_run(text, pos)
    }
}

/// Where the module offset that begins at `pos` ends; `pos` if none begins
/// there.
pub open spec fn offset_end(text: Seq<char>, pos: int) -> int {
    let mark = name_run(text, pos);
    if 0 <= mark && mark + 1 < text.len() && text[mark] == ':' && text[mark + 1] == '$' {
        number_end(text, mark + 2)
    } else {
        pos
    }
}

/// The token that begins at `pos` and where it ends: the longest that
/// matches. Nothing if no token begins there.
pub open spec fn token_at(text: Seq<char>, pos: int) -> Option<(Token, int)> {
    if pos < 0 || pos >= text.len() {
        None
    } else if offset_end(text, pos) > pos && offset_end(text, pos) > number_end(text, pos) {
        Some((Token::Rva, offset_end(text, pos)))
    } else if number_end(text, pos) > pos {
        Some((Token::Num, number_end(text, pos)))
    } else if text[pos] == '(' {
        Some((Token::ParenLeft, pos + 1))
    } else if text[pos] == ')' {
        Some((Token::ParenRight, pos + 1))
    } else if text[pos] == '+' {
        Some((Token::Add, pos + 1))
    } else if text[pos] == '-' {
        Some((Token::Sub, pos + 1))
    } else if text[pos] == '/' {
        Some((Token::Div, pos + 1))
    } else if text[pos] == '*' {
        Some((Token::Mul, pos + 1))
    } else if text[pos] == '@' {
        if pos + 2 < text.len() && text[pos + 1] == ':' && (text[pos + 2] == '1' || text[pos + 2]
            == '2' || text[pos + 2] == '4' || text[pos + 2] == '8') {
            Some((Token::Deref, pos + 3))
        } else {
            Some((Token::Deref, pos + 1))
        }
    } else {
        None
    }
}

/// The number that a `Num` or `Rva` token from `from` to `to` stands for.
/// A module offset is counted from where the module begins, and wraps
/// round at the end of the address space.
pub open spec fn operand<P: ProcessInterface>(
    text: Seq<char>,
    token: Token,
    from: int,
    to: int,
    process: &P,
) -> Result<usize, Fault> {
    if token is Num {
        match address_text(text.subrange(from, to)) {
            Some(number) => Ok(number as usize),
            None => Err(Fault::AddrEval),
        }
    } else {
        let mark = name_run(text, from);
        let name = text.subrange(from, mark);
        match address_text(text.subrange(mark + 2, to)) {
            None => Err(Fault::AddrEval),
            Some(offset) => match process.base_of(
                if mark == from {
                    None
                } else {
                    Some(name)
                },
            ) {
                None => Err(Fault::MissingModule(name)),
                Some(base) => Ok((offset as usize).wrapping_add(base)),
            },
        }
    }
}

/// Moves operators from the top of the stack to the output as long as they
/// bind at least as tightly as `level`, and stops at a left bracket.
pub open spec fn unwound(operators: Seq<Token>, output: Seq<Item>, level: int) -> (
    Seq<Token>,
    Seq<Item>,
)
    decreases operators.len(),
{
    if operators.len() > 0 && operators.last() != Token::ParenLeft && operators.last().binding()
        >= level {
        unwound(operators.drop_last(), output.push(Item::Operator(operators.last())), level)
    } else {
        (operators, output)
    }
}

/// Moves the operators that are left to the output. A left bracket among
/// them was never closed.
pub open spec fn flushed(operators: Seq<Token>, output: Seq<Item>) -> Result<Seq<Item>, Fault>
    decreases operators.len(),
{
    if operators.len() == 0 {
        Ok(output)
    } else if operators.last() == Token::ParenLeft {
        Err(Fault::AddrEval)
    } else {
        flushed(operators.drop_last(), output.push(Item::Operator(operators.last())))
    }
}

/// Reads the expression from `pos` on and puts it in the order in which it
/// is worked off: each operator behind its numbers.
pub open spec fn ordered<P: ProcessInterface>(
    text: Seq<char>,
    process: &P,
    pos: int,
    operators: Seq<Token>,
    output: Seq<Item>,
) -> Result<Seq<Item>, Fault>
    decreases
        (if pos < text.len() {
            text.len() - pos
        } else {
            0
        }),
{
    if pos < 0 || pos >= text.len() {
        flushed(operators, output)
    } else if is_space(text[pos]) {
        ordered(text, process, pos + 1, operators, output)
    } else {
        match token_at(text, pos) {
            None => Err(Fault::AddrEval),
            Some((token, end)) => if end <= pos {
                Err(Fault::AddrEval)
            } else if token is Num || token is Rva {
                match operand(text, token, pos, end, process) {
                    Err(fault) => Err(fault),
                    Ok(number) => ordered(
                        text,
                        process,
                        end,
                        operators,
                        output.push(Item::Number(number)),
                    ),
                }
            } else if token is ParenLeft {
                ordered(text, process, end, operators.push(token), output)
            } else if token is ParenRight {
                let (rest, moved) = unwound(operators, output, 0);
                if rest.len() == 0 {
                    Err(Fault::AddrEval)
                } else {
                    ordered(text, process, end, rest.drop_last(), moved)
                }
            } else {
                let (rest, moved) = unwound(operators, output, token.binding());
                ordered(text, process, end, rest.push(token), moved)
            },
        }
    }
}

/// What an operator makes of two numbers. Sums, differences and products
/// wrap round.
pub open spec fn applied(operator: Token, left: usize, right: usize) -> usize {
    match operator {
        Token::Add => left.wrapping_add(right),
        Token::Sub => left.wrapping_sub(right),
        Token::Mul => left.wrapping_mul(right),
        _ => (left / right) as usize,
    }
}

/// Works the ordered expression off from `pos` on: numbers go on the
/// stack, an operator takes the two on top and leaves what it makes of
/// them. In the end the number on top is the result. It is a fault if an
/// operator finds fewer than two numbers, if it divides by zero, if it is
/// none of `+ - * /`, and if no number is left.
pub open spec fn worked_off(items: Seq<Item>, pos: int, stack: Seq<usize>) -> Result<usize, Fault>
    decreases items.len() - pos,
{
    if pos < 0 || pos >= items.len() {
        if stack.len() == 0 {
            Err(Fault::AddrEval)
        } else {
            Ok(stack.last())
        }
    } else {
        match items[pos] {
            Item::Number(number) => worked_off(items, pos + 1, stack.push(number)),
            Item::Operator(operator) => if !(operator is Add || operator is Sub || operator is Mul
                || operator is Div) || stack.len() < 2 || (operator is Div && stack.last() == 0) {
                Err(Fault::AddrEval)
            } else {
                worked_off(
                    items,
                    pos + 1,
                    stack.drop_last().drop_last().push(
                        applied(operator, stack[stack.len() - 2], stack.last()),
                    ),
                )
            },
        }
    }
}

/// The address that an expression stands for. Text with a character
/// outside ASCII stands for none.
pub open spec fn evaluated<P: ProcessInterface>(text: Seq<char>, process: &P) -> Result<
    usize,
    Fault,
> {
    if !vstd::utf8::is_ascii_chars(text) {
        Err(Fault::AddrEval)
    } else {
        match ordered(text, process, 0, Seq::empty(), Seq::empty()) {
            Err(fault) => Err(fault),
            Ok(items) => worked_off(items, 0, Seq::empty()),
        }
    }
}

/// The bytes are the text, character by character.
spec fn spelled(bytes: Seq<u8>, text: Seq<char>) -> bool {
    &&& bytes.len() == text.len()
    &&& forall|i: int|
        0 <= i < text.len() ==> #[trigger] text[i] == bytes[i] as char && bytes[i] < 128
}

/// A number ends at or behind the place where it begins.
proof fn lemma_number_end_bounds(text: Seq<char>, pos: int)
    requires
        0 <= pos <= text.len(),
    ensures
        pos <= number_run(text, pos) <= text.len(),
        pos <= number_end(text, pos) <= text.len(),
    decreases text.len() - pos,
{
    if pos < text.len() && in_number(text[pos]) {
        lemma_number_end_bounds(text, pos + 1);
    }
    if pos + 2 < text.len() {
        lemma_number_end_bounds_from(text, pos + 2);
    }
}

proof fn lemma_number_end_bounds_from(text: Seq<char>, pos: int)
    requires
        0 <= pos <= text.len(),
    ensures
        pos <= number_run(text, pos) <= text.len(),
    decreases text.len() - pos,
{
    if pos < text.len() && in_number(text[pos]) {
        lemma_number_end_bounds_from(text, pos + 1);
    }
}

/// A name ends at or behind the place where it begins.
proof fn lemma_name_run_bounds(text: Seq<char>, pos: int)
    requires
        0 <= pos <= text.len(),
    ensures
        pos <= name_run(text, pos) <= text.len(),
    decreases text.len() - pos,
{
    if pos < text.len() && in_name(text[pos]) {
        lemma_name_run_bounds(text, pos + 1);
    }
}

fn byte_in_number(b: u8) -> (r: bool)
    ensures
        b < 128 ==> r == in_number(b as char),
{
    (b >= 48 && b <= 57) || (b >= 97 && b <= 102) || (b >= 65 && b <= 70) || b == 95
}

fn byte_in_name(b: u8) -> (r: bool)
    ensures
        b < 128 ==> r == in_name(b as char),
{
    (b >= 97 && b <= 122) || (b >= 65 && b <= 90) || b == 95 || b == 46
}

fn find_number_run(bytes: &[u8], pos: usize, Ghost(text): Ghost<Seq<char>>) -> (end: usize)
    requires
        spelled(bytes@, text),
        pos <= bytes@.len(),
    ensures
        end == number_run(text, pos as int),
        pos <= end <= bytes@.len(),
{
    let mut end: usize = pos;
    while end < bytes.len() && byte_in_number(bytes[end])
        invariant
            spelled(bytes@, text),
            pos <= end <= bytes@.len(),
            number_run(text, pos as int) == number_run(text, end as int),
        decreases bytes@.len() - end,
    {
        assert(text[end as int] == bytes@[end as int] as char);
        end += 1;
    }
    proof {
        if end < bytes@.len() {
            assert(text[end as int] == bytes@[end as int] as char);
        }
    }
    end
}

fn find_name_run(bytes: &[u8], pos: usize, Ghost(text): Ghost<Seq<char>>) -> (end: usize)
    requires
        spelled(bytes@, text),
        pos <= bytes@.len(),
    ensures
        end == name_run(text, pos as int),
        pos <= end <= bytes@.len(),
{
    let mut end: usize = pos;
    while end < bytes.len() && byte_in_name(bytes[end])
        invariant
            spelled(bytes@, text),
            pos <= end <= bytes@.len(),
            name_run(text, pos as int) == name_run(text, end as int),
        decreases bytes@.len() - end,
    {
        assert(text[end as int] == bytes@[end as int] as char);
        end += 1;
    }
    proof {
        if end < bytes@.len() {
            assert(text[end as int] == bytes@[end as int] as char);
        }
    }
    end
}

fn find_number_end(bytes: &[u8], pos: usize, Ghost(text): Ghost<Seq<char>>) -> (end: usize)
    requires
        spelled(bytes@, text),
        pos <= bytes@.len(),
    ensures
        end == number_end(text, pos as int),
        pos <= end <= bytes@.len(),
{
    let len = bytes.len();
    proof {
        if pos + 2 < len {
            assert(text[pos as int] == bytes@[pos as int] as char);
            assert(text[pos + 1] == bytes@[pos + 1] as char);
            assert(text[pos + 2] == bytes@[pos + 2] as char);
        }
    }
    if len - pos > 2 && bytes[pos] == 48 && bytes[pos + 1] == 120 && byte_in_number(
        bytes[pos + 2],
    ) {
        find_number_run(bytes, pos + 2, Ghost(text))
    } else {
        find_number_run(bytes, pos, Ghost(text))
    }
}

fn find_offset_end(bytes: &[u8], pos: usize, Ghost(text): Ghost<Seq<char>>) -> (end: usize)
    requires
        spelled(bytes@, text),
        pos <= bytes@.len(),
    ensures
        end == offset_end(text, pos as int),
        pos <= end <= bytes@.len(),
{
    let len = bytes.len();
    let mark = find_name_run(bytes, pos, Ghost(text));
    proof {
        if mark + 1 < len {
            assert(text[mark as int] == bytes@[mark as int] as char);
            assert(text[mark + 1] == bytes@[mark + 1] as char);
        }
    }
    if len - mark > 1 && bytes[mark] == 58 && bytes[mark + 1] == 36 {
        find_number_end(bytes, mark + 2, Ghost(text))
    } else {
        pos
    }
}

/// The token that begins at `pos`, and where it ends.
fn next_token(bytes: &[u8], pos: usize, Ghost(text): Ghost<Seq<char>>) -> (found: Option<
    (Token, usize),
>)
    requires
        spelled(bytes@, text),
        pos < bytes@.len(),
    ensures
        match found {
            Some((token, end)) => token_at(text, pos as int) == Some((token, end as int)) && pos
                < end <= bytes@.len(),
            None => token_at(text, pos as int) is None,
        },
{
    let len = bytes.len();
    let offset = find_offset_end(bytes, pos, Ghost(text));
    let number = find_number_end(bytes, pos, Ghost(text));
    proof {
        assert(text[pos as int] == bytes@[pos as int] as char);
        if pos + 2 < len {
            assert(text[pos + 1] == bytes@[pos + 1] as char);
            assert(text[pos + 2] == bytes@[pos + 2] as char);
        }
    }
    if offset > pos && offset > number {
        Some((Token::Rva, offset))
    } else if number > pos {
        Some((Token::Num, number))
    } else {
        let b = bytes[pos];
        if b == 40 {
            Some((Token::ParenLeft, pos + 1))
        } else if b == 41 {
            Some((Token::ParenRight, pos + 1))
        } else if b == 43 {
            Some((Token::Add, pos + 1))
        } else if b == 45 {
            Some((Token::Sub, pos + 1))
        } else if b == 47 {
            Some((Token::Div, pos + 1))
        } else if b == 42 {
            Some((Token::Mul, pos + 1))
        } else if b == 64 {
            if len - pos > 2 && bytes[pos + 1] == 58 && (bytes[pos + 2] == 49 || bytes[pos + 2]
                == 50 || bytes[pos + 2] == 52 || bytes[pos + 2] == 56) {
                Some((Token::Deref, pos + 3))
            } else {
                Some((Token::Deref, pos + 1))
            }
        } else {
            None
        }
    }
}

/// The number that a `Num` or `Rva` token stands for.
fn read_operand<P: ProcessInterface>(
    expr: &str,
    bytes: &[u8],
    token: Token,
    from: usize,
    to: usize,
    process: &P,
) -> (number: Result<usize, Error>)
    requires
        expr.is_ascii(),
        spelled(bytes@, expr@),
        token is Num || token is Rva,
        from < to <= bytes@.len(),
        token_at(expr@, from as int) == Some((token, to as int)),
    ensures
        match number {
            Ok(n) => operand(expr@, token, from as int, to as int, process) == Ok::<usize, Fault>(
                n,
            ),
            Err(e) => operand(expr@, token, from as int, to as int, process) == Err::<
                usize,
                Fault,
            >(e@),
        },
{
    match token {
        Token::Num => match parse_address(expr.substring_ascii(from, to)) {
            Some(n) => Ok(n),
            None => Err(Error::AddrEval),
        },
        _ => {
            let mark = find_name_run(bytes, from, Ghost(expr@));
            proof {
                if mark + 2 <= expr@.len() {
                    lemma_number_end_bounds(expr@, mark + 2);
                }
            }
            assert(mark + 2 <= to);
            match parse_address(expr.substring_ascii(mark + 2, to)) {
                None => Err(Error::AddrEval),
                Some(offset) => {
                    let name = expr.substring_ascii(from, mark);
                    let base = if mark == from {
                        process.module_base(None)
                    } else {
                        process.module_base(Some(name))
                    };
                    match base {
                        None => Err(Error::MissingModule(String::from_str(name))),
                        Some(base) => Ok(offset.wrapping_add(base)),
                    }
                },
            }
        },
    }
}

/// Moves operators from the top of the stack to the output as long as they
/// bind at least as tightly as `level`.
fn unwind(operators: &mut Vec<Token>, output: &mut Vec<Item>, level: u32)
    requires
        forall|i: int|
            0 <= i < old(operators)@.len() ==> (#[trigger] old(operators)@[i]).is_operator() || old(operators)@[i] is ParenLeft,
    ensures
        (final(operators)@, final(output)@) == unwound(
            old(operators)@,
            old(output)@,
            level as int,
        ),
        forall|i: int|
            0 <= i < final(operators)@.len() ==> (#[trigger] final(operators)@[i]).is_operator()
                || final(operators)@[i] is ParenLeft,
{
    loop
        invariant
            unwound(operators@, output@, level as int) == unwound(
                old(operators)@,
                old(output)@,
                level as int,
            ),
            forall|i: int|
                0 <= i < operators@.len() ==> (#[trigger] operators@[i]).is_operator()
                    || operators@[i] is ParenLeft,
        ensures
            (operators@, output@) == unwound(old(operators)@, old(output)@, level as int),
        decreases operators@.len(),
    {
        let count = operators.len();
        if count == 0 {
            break ;
        }
        let last = operators[count - 1];
        if last == Token::ParenLeft || last.precedence() < level {
            break ;
        }
        operators.pop();
        output.push(Item::Operator(last));
    }
}

/// Works the ordered expression off.
fn work_off(items: &Vec<Item>) -> (result: Result<usize, Error>)
    ensures
        match result {
            Ok(n) => worked_off(items@, 0, Seq::empty()) == Ok::<usize, Fault>(n),
            Err(e) => worked_off(items@, 0, Seq::empty()) == Err::<usize, Fault>(e@),
        },
{
    let mut stack: Vec<usize> = Vec::new();
    let mut pos: usize = 0;
    while pos < items.len()
        invariant
            pos <= items@.len(),
            worked_off(items@, 0, Seq::empty()) == worked_off(items@, pos as int, stack@),
        decreases items@.len() - pos,
    {
        match items[pos] {
            Item::Number(number) => {
                stack.push(number);
            },
            Item::Operator(operator) => {
                let count = stack.len();
                if count < 2 {
                    return Err(Error::AddrEval);
                }
                let right = stack[count - 1];
                let left = stack[count - 2];
                let made = match operator {
                    Token::Add => left.wrapping_add(right),
                    Token::Sub => left.wrapping_sub(right),
                    Token::Mul => left.wrapping_mul(right),
                    Token::Div => {
                        if right == 0 {
                            return Err(Error::AddrEval);
                        }
                        left / right
                    },
                    _ => { return Err(Error::AddrEval); },
                };
                stack.pop();
                stack.pop();
                stack.push(made);
            },
        }
        pos += 1;
    }
    let count = stack.len();
    if count == 0 {
        Err(Error::AddrEval)
    } else {
        Ok(stack[count - 1])
    }
}

/// Evaluates an address expression: hexadecimal numbers, offsets into
/// modules (`name:$offset`), the operators `+ - * /` with the usual
/// binding, and brackets. Blanks may stand between the tokens. The
/// arithmetic wraps round. An expression that cannot be read, divides by
/// zero or dereferences fails with `AddrEval`; the offset into a module
/// that the process does not have fails with `MissingModule`.
pub fn eval<P: ProcessInterface>(expr: &str, process: &P) -> (result: Result<usize, Error>)
    ensures
        match result {
            Ok(n) => evaluated(expr@, process) == Ok::<usize, Fault>(n),
            Err(e) => evaluated(expr@, process) == Err::<usize, Fault>(e@),
        },
{
    broadcast use vstd::string::is_ascii_spec_bytes;

    if !expr.is_ascii() {
        return Err(Error::AddrEval);
    }
    let bytes = expr.as_bytes();
    let ghost text = expr@;
    assert(spelled(bytes@, text)) by {
        assert forall|i: int| 0 <= i < text.len() implies #[trigger] text[i] == bytes@[i] as char
            && bytes@[i] < 128 by {
            assert(bytes@[i] == text[i] as u8);
        }
    }
    let mut output: Vec<Item> = Vec::new();
    let mut operators: Vec<Token> = Vec::new();
    let mut pos: usize = 0;
    while pos < bytes.len()
        invariant
            pos <= bytes@.len(),
            text == expr@,
            expr.is_ascii(),
            spelled(bytes@, text),
            ordered(text, process, 0, Seq::empty(), Seq::empty()) == ordered(
                text,
                process,
                pos as int,
                operators@,
                output@,
            ),
            forall|i: int|
                0 <= i < operators@.len() ==> (#[trigger] operators@[i]).is_operator()
                    || operators@[i] is ParenLeft,
        decreases bytes@.len() - pos,
    {
        let b = bytes[pos];
        assert(text[pos as int] == b as char);
        if b == 32 || b == 9 || b == 10 || b == 12 {
            pos += 1;
        } else {
            match next_token(bytes, pos, Ghost(text)) {
                None => { return Err(Error::AddrEval); },
                Some((token, end)) => {
                    match token {
                        Token::Num | Token::Rva => {
                            match read_operand(expr, bytes, token, pos, end, process) {
                                Err(e) => { return Err(e); },
                                Ok(number) => {
                                    output.push(Item::Number(number));
                                },
                            }
                        },
                        Token::ParenLeft => {
                            operators.push(token);
                        },
                        Token::ParenRight => {
                            unwind(&mut operators, &mut output, 0);
                            if operators.len() == 0 {
                                return Err(Error::AddrEval);
                            }
                            operators.pop();
                        },
                        _ => {
                            unwind(&mut operators, &mut output, token.precedence());
                            operators.push(token);
                        },
                    }
                    pos = end;
                },
            }
        }
    }
    loop
        invariant
            text == expr@,
            expr.is_ascii(),
            flushed(operators@, output@) == ordered(text, process, 0, Seq::empty(), Seq::empty()),
        ensures
            ordered(text, process, 0, Seq::empty(), Seq::empty()) == Ok::<Seq<Item>, Fault>(
                output@,
            ),
        decreases operators@.len(),
    {
        let ghost waiting = operators@;
        match operators.pop() {
            None => { break ; },
            Some(operator) => {
                assert(operator == waiting.last());
                if operator == Token::ParenLeft {
                    assert(flushed(waiting, output@) == Err::<Seq<Item>, Fault>(Fault::AddrEval));
                    return Err(Error::AddrEval);
                }
                output.push(Item::Operator(operator));
            },
        }
    }
    work_off(&output)
}

} // verus!
