use vstd::prelude::*;

use crate::numeric::{int_of, nat_of, parse_i64, parse_usize};
use crate::text::{same_chars, string_of};
use crate::tokenizer::{
    lemma_next_lexeme_advances, lex_partial, lexemes, LexError, Lexeme, Token, Tokenizer,
};
use crate::value::{Op, OpModel, Val, ValModel};

verus! {

/// Why source text does not hold a program.
#[derive(PartialEq, Eq, Structural, Clone, Copy, Debug)]
pub enum ParseError {
    /// The text could not be split into tokens.
    Lex(LexError),
    /// A definition does not start with its name.
    ExpectedName,
    /// A definition's name is not followed by `{`.
    ExpectedOpen,
    /// The text ends, or reading it stops at a lexical error, before a
    /// definition is complete; a parser holding that error reports it instead.
    UnexpectedEnd,
    /// A word in a body is neither a mnemonic nor `none`, `true` or `false`.
    UnknownWord,
    /// A mnemonic lacks an operand of the kind it takes, or a number operand is
    /// not a non-negative integer.
    BadOperand,
    /// A number literal is not followed by `i64` or `f64`.
    BadTypeHint,
    /// A number literal does not fit the type its hint names.
    BadNumber,
    /// A `{` inside a function body.
    UnexpectedToken,
}

pub open spec fn ops_model(v: Seq<Op>) -> Seq<OpModel> {
    v.map_values(|o: Op| o@)
}

/// The opcode that a word stands for by itself: a literal word or a mnemonic
/// without operands.
pub open spec fn word_op(w: Seq<char>) -> Option<OpModel> {
    if w == seq!['n', 'o', 'n', 'e'] {
        Some(OpModel::GetLit(ValModel::Nil))
    } else if w == seq!['t', 'r', 'u', 'e'] {
        Some(OpModel::GetLit(ValModel::Bool(true)))
    } else if w == seq!['f', 'a', 'l', 's', 'e'] {
        Some(OpModel::GetLit(ValModel::Bool(false)))
    } else if w == seq!['n', 'e', 'w', '_', 's', 'c', 'o', 'p', 'e'] {
        Some(OpModel::NewScope)
    } else if w == seq!['e', 'n', 'd', '_', 's', 'c', 'o', 'p', 'e'] {
        Some(OpModel::EndScope)
    } else if w == seq!['n', 'e', 'w', '_', 'v', 'a', 'r'] {
        Some(OpModel::NewVar)
    } else if w == seq!['c', 'a', 'l', 'l', '_', 'f', 'u', 'n', 'c'] {
        Some(OpModel::CallFunc)
    } else if w == seq!['r', 'e', 't', 'u', 'r', 'n'] {
        Some(OpModel::ReturnCall)
    } else if w == seq!['g', 't', 'e'] {
        Some(OpModel::Gte)
    } else if w == seq!['l', 't', 'e'] {
        Some(OpModel::Lte)
    } else if w == seq!['g', 't'] {
        Some(OpModel::Gt)
    } else if w == seq!['l', 't'] {
        Some(OpModel::Lt)
    } else if w == seq!['e', 'q'] {
        Some(OpModel::Eq)
    } else if w == seq!['n', 'o', 't'] {
        Some(OpModel::Not)
    } else if w == seq!['a', 'd', 'd'] {
        Some(OpModel::Add)
    } else if w == seq!['s', 'u', 'b'] {
        Some(OpModel::Sub)
    } else if w == seq!['m', 'u', 'l'] {
        Some(OpModel::Mul)
    } else if w == seq!['d', 'i', 'v'] {
        Some(OpModel::Div)
    } else if w == seq!['c', 'o', 'n', 'c', 'a', 't'] {
        Some(OpModel::Concat)
    } else if w == seq!['t', 'o', '_', 'i', '6', '4'] {
        Some(OpModel::ToInt)
    } else if w == seq!['t', 'o', '_', 'f', '6', '4'] {
        Some(OpModel::ToFloat)
    } else if w == seq!['t', 'o', '_', 's', 't', 'r', 'i', 'n', 'g'] {
        Some(OpModel::ToString)
    } else if w == seq!['n', 'e', 'w', '_', 'v', 'e', 'c'] {
        Some(OpModel::NewVec)
    } else if w == seq!['p', 'u', 's', 'h', '_', 't', 'o', '_', 'v', 'e', 'c'] {
        Some(OpModel::PushToVec)
    } else if w == seq!['g', 'e', 't', '_', 'v', 'e', 'c', '_', 'v', 'a', 'l'] {
        Some(OpModel::GetVecVal)
    } else if w == seq!['s', 'e', 't', '_', 'v', 'e', 'c', '_', 'v', 'a', 'l'] {
        Some(OpModel::SetVecVal)
    } else if w == seq!['n', 'e', 'w', '_', 'm', 'a', 'p'] {
        Some(OpModel::NewMap)
    } else if w == seq!['g', 'e', 't', '_', 'm', 'a', 'p', '_', 'v', 'a', 'l'] {
        Some(OpModel::GetMapVal)
    } else if w == seq!['s', 'e', 't', '_', 'm', 'a', 'p', '_', 'v', 'a', 'l'] {
        Some(OpModel::SetMapVal)
    } else {
        None
    }
}

fn word_op_of(w: &[char]) -> (r: Option<Op>)
    ensures
        match word_op(w@) {
            Some(m) => r is Some && r->0@ == m,
            None => r is None,
        },
{
    if same_chars(w, &['n', 'o', 'n', 'e']) {
        Some(Op::GetLit(Val::Nil))
    } else if same_chars(w, &['t', 'r', 'u', 'e']) {
        Some(Op::GetLit(Val::Bool(true)))
    } else if same_chars(w, &['f', 'a', 'l', 's', 'e']) {
        Some(Op::GetLit(Val::Bool(false)))
    } else if same_chars(w, &['n', 'e', 'w', '_', 's', 'c', 'o', 'p', 'e']) {
        Some(Op::NewScope)
    } else if same_chars(w, &['e', 'n', 'd', '_', 's', 'c', 'o', 'p', 'e']) {
        Some(Op::EndScope)
    } else if same_chars(w, &['n', 'e', 'w', '_', 'v', 'a', 'r']) {
        Some(Op::NewVar)
    } else if same_chars(w, &['c', 'a', 'l', 'l', '_', 'f', 'u', 'n', 'c']) {
        Some(Op::CallFunc)
    } else if same_chars(w, &['r', 'e', 't', 'u', 'r', 'n']) {
        Some(Op::ReturnCall)
    } else if same_chars(w, &['g', 't', 'e']) {
        Some(Op::Gte)
    } else if same_chars(w, &['l', 't', 'e']) {
        Some(Op::Lte)
    } else if same_chars(w, &['g', 't']) {
        Some(Op::Gt)
    } else if same_chars(w, &['l', 't']) {
        Some(Op::Lt)
    } else if same_chars(w, &['e', 'q']) {
        Some(Op::Eq)
    } else if same_chars(w, &['n', 'o', 't']) {
        Some(Op::Not)
    } else if same_chars(w, &['a', 'd', 'd']) {
        Some(Op::Add)
    } else if same_chars(w, &['s', 'u', 'b']) {
        Some(Op::Sub)
    } else if same_chars(w, &['m', 'u', 'l']) {
        Some(Op::Mul)
    } else if same_chars(w, &['d', 'i', 'v']) {
        Some(Op::Div)
    } else if same_chars(w, &['c', 'o', 'n', 'c', 'a', 't']) {
        Some(Op::Concat)
    } else if same_chars(w, &['t', 'o', '_', 'i', '6', '4']) {
        Some(Op::ToInt)
    } else if same_chars(w, &['t', 'o', '_', 'f', '6', '4']) {
        Some(Op::ToFloat)
    } else if same_chars(w, &['t', 'o', '_', 's', 't', 'r', 'i', 'n', 'g']) {
        Some(Op::ToString)
    } else if same_chars(w, &['n', 'e', 'w', '_', 'v', 'e', 'c']) {
        Some(Op::NewVec)
    } else if same_chars(w, &['p', 'u', 's', 'h', '_', 't', 'o', '_', 'v', 'e', 'c']) {
        Some(Op::PushToVec)
    } else if same_chars(w, &['g', 'e', 't', '_', 'v', 'e', 'c', '_', 'v', 'a', 'l']) {
        Some(Op::GetVecVal)
    } else if same_chars(w, &['s', 'e', 't', '_', 'v', 'e', 'c', '_', 'v', 'a', 'l']) {
        Some(Op::SetVecVal)
    } else if same_chars(w, &['n', 'e', 'w', '_', 'm', 'a', 'p']) {
        Some(Op::NewMap)
    } else if same_chars(w, &['g', 'e', 't', '_', 'm', 'a', 'p', '_', 'v', 'a', 'l']) {
        Some(Op::GetMapVal)
    } else if same_chars(w, &['s', 'e', 't', '_', 'm', 'a', 'p', '_', 'v', 'a', 'l']) {
        Some(Op::SetMapVal)
    } else {
        None
    }
}

pub open spec fn is_word(x: Lexeme, w: Seq<char>) -> bool {
    x matches Lexeme::Word(v) && v == w
}

/// A number operand: a non-negative integer that fits in `usize`.
pub open spec fn index_operand(x: Lexeme) -> Option<nat> {
    match x {
        Lexeme::Number(n) => match nat_of(n) {
            Some(v) => if v <= usize::MAX {
                Some(v)
            } else {
                None
            },
            None => None,
        },
        _ => None,
    }
}

pub open spec fn has_digit(s: Seq<char>) -> bool {
    exists|i: int| 0 <= i < s.len() && '0' <= #[trigger] s[i] <= '9'
}

/// The literal that number text `n` with type hint `hint` stands for.
pub open spec fn number_literal(n: Seq<char>, hint: Lexeme) -> Result<ValModel, ParseError> {
    if is_word(hint, seq!['i', '6', '4']) {
        match int_of(n) {
            Some(v) => if i64::MIN <= v <= i64::MAX {
                Ok(ValModel::Int(v as i64))
            } else {
                Err(ParseError::BadNumber)
            },
            None => Err(ParseError::BadNumber),
        }
    } else if is_word(hint, seq!['f', '6', '4']) {
        if has_digit(n) {
            Ok(ValModel::Float(n))
        } else {
            Err(ParseError::BadNumber)
        }
    } else {
        Err(ParseError::BadTypeHint)
    }
}

/// The opcode that starts at token `i` of a body, and the index of the token
/// after it.
pub open spec fn parse_op(ts: Seq<Lexeme>, i: int) -> Result<(OpModel, int), ParseError> {
    if i < 0 || i >= ts.len() {
        Err(ParseError::UnexpectedEnd)
    } else {
        match ts[i] {
            Lexeme::Word(w) => match word_op(w) {
                Some(op) => Ok((op, i + 1)),
                None => if w == seq!['g', 'e', 't', '_', 'c', 'o', 'n', 's', 't'] {
                    if i + 1 < ts.len() {
                        match ts[i + 1] {
                            Lexeme::Word(k) => Ok((OpModel::GetConst(k), i + 2)),
                            Lexeme::Text(k) => Ok((OpModel::GetConst(k), i + 2)),
                            _ => Err(ParseError::BadOperand),
                        }
                    } else {
                        Err(ParseError::UnexpectedEnd)
                    }
                } else if w == seq!['c', 'a', 'l', 'l', '_', 's', 'y', 's'] {
                    if i + 1 < ts.len() {
                        match ts[i + 1] {
                            Lexeme::Text(k) => Ok((OpModel::CallSys(k), i + 2)),
                            _ => Err(ParseError::BadOperand),
                        }
                    } else {
                        Err(ParseError::UnexpectedEnd)
                    }
                } else if w == seq!['s', 'e', 't', '_', 'v', 'a', 'r'] || w == seq![
                    'g',
                    'e',
                    't',
                    '_',
                    'v',
                    'a',
                    'r',
                ] {
                    if i + 2 < ts.len() && index_operand(ts[i + 1]) is Some && index_operand(
                        ts[i + 2],
                    ) is Some {
                        let o = index_operand(ts[i + 1])->0;
                        let x = index_operand(ts[i + 2])->0;
                        if w == seq!['s', 'e', 't', '_', 'v', 'a', 'r'] {
                            Ok((OpModel::SetVar(o, x), i + 3))
                        } else {
                            Ok((OpModel::GetVar(o, x), i + 3))
                        }
                    } else if i + 2 < ts.len() {
                        Err(ParseError::BadOperand)
                    } else {
                        Err(ParseError::UnexpectedEnd)
                    }
                } else if w == seq!['g', 'o', 't', 'o'] || w == seq![
                    'i',
                    'f',
                    '_',
                    't',
                    'r',
                    'u',
                    'e',
                    '_',
                    'g',
                    'o',
                    't',
                    'o',
                ] || w == seq!['i', 'f', '_', 'f', 'a', 'l', 's', 'e', '_', 'g', 'o', 't', 'o'] {
                    if i + 1 < ts.len() && index_operand(ts[i + 1]) is Some {
                        let t = index_operand(ts[i + 1])->0;
                        if w == seq!['g', 'o', 't', 'o'] {
                            Ok((OpModel::GoTo(t), i + 2))
                        } else if w == seq![
                            'i',
                            'f',
                            '_',
                            't',
                            'r',
                            'u',
                            'e',
                            '_',
                            'g',
                            'o',
                            't',
                            'o',
                        ] {
                            Ok((OpModel::IfTrueGoTo(t), i + 2))
                        } else {
                            Ok((OpModel::IfFalseGoTo(t), i + 2))
                        }
                    } else if i + 1 < ts.len() {
                        Err(ParseError::BadOperand)
                    } else {
                        Err(ParseError::UnexpectedEnd)
                    }
                } else {
                    Err(ParseError::UnknownWord)
                },
            },
            Lexeme::Number(n) => if i + 1 < ts.len() {
                match number_literal(n, ts[i + 1]) {
                    Ok(v) => Ok((OpModel::GetLit(v), i + 2)),
                    Err(e) => Err(e),
                }
            } else {
                Err(ParseError::UnexpectedEnd)
            },
            Lexeme::Text(t) => Ok((OpModel::GetLit(ValModel::Str(t)), i + 1)),
            Lexeme::Open => Err(ParseError::UnexpectedToken),
            Lexeme::Close => Err(ParseError::UnexpectedToken),
        }
    }
}

/// The opcodes of the body that starts at token `i`, up to its `}`, and the
/// index of the token after that `}`.
pub open spec fn parse_body(ts: Seq<Lexeme>, i: int) -> Result<(Seq<OpModel>, int), ParseError>
    decreases ts.len() - i,
{
    if i < 0 || i >= ts.len() {
        Err(ParseError::UnexpectedEnd)
    } else if ts[i] is Close {
        Ok((Seq::empty(), i + 1))
    } else {
        match parse_op(ts, i) {
            Err(e) => Err(e),
            Ok((op, j)) => if i < j {
                match parse_body(ts, j) {
                    Ok((ops, k)) => Ok((seq![op] + ops, k)),
                    Err(e) => Err(e),
                }
            } else {
                Err(ParseError::UnexpectedEnd)
            },
        }
    }
}

/// The definition `NAME { body }` that starts at token `i`: its name, its
/// opcodes, and the index of the token after it.
pub open spec fn parse_def(ts: Seq<Lexeme>, i: int) -> Result<
    (Seq<char>, Seq<OpModel>, int),
    ParseError,
> {
    if 0 <= i < ts.len() && ts[i] is Word {
        if i + 1 < ts.len() && ts[i + 1] is Open {
            match parse_body(ts, i + 2) {
                Ok((ops, k)) => Ok((ts[i]->Word_0, ops, k)),
                Err(e) => Err(e),
            }
        } else if i + 1 < ts.len() {
            Err(ParseError::ExpectedOpen)
        } else {
            Err(ParseError::UnexpectedEnd)
        }
    } else {
        Err(ParseError::ExpectedName)
    }
}

/// The error that ends parsing when the tokens at hand stop before the text
/// does: running out of tokens there means reaching the lexical error `stop`.
pub open spec fn settle(e: ParseError, stop: Option<LexError>) -> ParseError {
    match stop {
        Some(x) => if e == ParseError::UnexpectedEnd {
            ParseError::Lex(x)
        } else {
            e
        },
        None => e,
    }
}

/// The definition that starts at token `i` of the tokens read before the
/// lexical error `stop` (if any), with the index of the token after it;
/// `None` when the text ends there.
pub open spec fn next_def(ts: Seq<Lexeme>, stop: Option<LexError>, i: int) -> Result<
    Option<(Seq<char>, Seq<OpModel>, int)>,
    ParseError,
> {
    if i >= ts.len() {
        match stop {
            Some(x) => Err(ParseError::Lex(x)),
            None => Ok(None),
        }
    } else {
        match parse_def(ts, i) {
            Ok(d) => Ok(Some(d)),
            Err(e) => Err(settle(e, stop)),
        }
    }
}

/// The definitions from token `i` on.
pub open spec fn parse_defs(ts: Seq<Lexeme>, stop: Option<LexError>, i: int) -> Result<
    Seq<(Seq<char>, Seq<OpModel>)>,
    ParseError,
>
    decreases ts.len() - i,
{
    match next_def(ts, stop, i) {
        Err(e) => Err(e),
        Ok(None) => Ok(Seq::empty()),
        Ok(Some((name, ops, k))) => if i < k <= ts.len() {
            match parse_defs(ts, stop, k) {
                Ok(ds) => Ok(seq![(name, ops)] + ds),
                Err(e) => Err(e),
            }
        } else {
            Ok(seq![(name, ops)])
        },
    }
}

/// The functions that source text `s` defines, each name preceded by `prefix`,
/// read as a stream: definitions are taken from the tokens as they come, so a
/// lexical error is met only where parsing reaches it.
pub open spec fn program(prefix: Seq<char>, s: Seq<char>) -> Result<
    Seq<(Seq<char>, Seq<OpModel>)>,
    ParseError,
> {
    let (ts, stop) = lex_partial(s);
    match parse_defs(ts, stop, 0) {
        Err(e) => Err(e),
        Ok(ds) => Ok(ds.map_values(|d: (Seq<char>, Seq<OpModel>)| (prefix + d.0, d.1))),
    }
}

pub open spec fn defs_model(v: Seq<(String, Vec<Op>)>) -> Seq<(Seq<char>, Seq<OpModel>)> {
    v.map_values(|d: (String, Vec<Op>)| (d.0@, ops_model(d.1@)))
}

fn index_operand_of(t: &Token) -> (r: Option<usize>)
    ensures
        match index_operand(t@) {
            Some(v) => r == Some(v as usize),
            None => r is None,
        },
{
    match t {
        Token::Number(n) => parse_usize(n.as_slice()),
        _ => None,
    }
}

fn has_digit_in(s: &Vec<char>) -> (r: bool)
    ensures
        r == has_digit(s@),
{
    let mut i: usize = 0;
    while i < s.len()
        invariant
            i <= s@.len(),
            forall|j: int| 0 <= j < i ==> !('0' <= #[trigger] s@[j] <= '9'),
        decreases s@.len() - i,
    {
        if '0' <= s[i] && s[i] <= '9' {
            return true;
        }
        i = i + 1;
    }
    false
}

fn is_word_of(t: &Token, w: &[char]) -> (r: bool)
    ensures
        r == is_word(t@, w@),
{
    match t {
        Token::Word(v) => same_chars(v.as_slice(), w),
        _ => false,
    }
}

fn number_literal_of(n: &Vec<char>, hint: &Token) -> (r: Result<Val, ParseError>)
    ensures
        match number_literal(n@, hint@) {
            Ok(v) => r is Ok && r->Ok_0@ == v,
            Err(e) => r == Err::<Val, ParseError>(e),
        },
{
    proof {
        reveal_strlit("i64");
    }
    if is_word_of(hint, &['i', '6', '4']) {
        match parse_i64(n.as_slice()) {
            Some(v) => Ok(Val::Int(v)),
            None => Err(ParseError::BadNumber),
        }
    } else if is_word_of(hint, &['f', '6', '4']) {
        if has_digit_in(n) {
            Ok(Val::Float(string_of(n)))
        } else {
            Err(ParseError::BadNumber)
        }
    } else {
        Err(ParseError::BadTypeHint)
    }
}

/// Parses the opcode that starts at token `i` of a body.
fn parse_op_at(ts: &Vec<Token>, i: usize) -> (r: Result<(Op, usize), ParseError>)
    ensures
        match parse_op(lexemes(ts@), i as int) {
            Ok((op, j)) => r is Ok && r->Ok_0.0@ == op && r->Ok_0.1 == j,
            Err(e) => r == Err::<(Op, usize), ParseError>(e),
        },
        r is Ok ==> i < r->Ok_0.1 <= ts@.len(),
{
    let ghost l = lexemes(ts@);
    if i >= ts.len() {
        return Err(ParseError::UnexpectedEnd);
    }
    assert(l[i as int] == ts@[i as int]@);
    assert(i + 1 < ts@.len() ==> l[i + 1] == ts@[i + 1]@);
    assert(i + 2 < ts@.len() ==> l[i + 2] == ts@[i + 2]@);
    match &ts[i] {
        Token::Word(w) => {
            let w = w.as_slice();
            match word_op_of(w) {
                Some(op) => {
                    return Ok((op, i + 1));
                },
                None => {},
            }
            if same_chars(w, &['g', 'e', 't', '_', 'c', 'o', 'n', 's', 't']) {
                if i + 1 < ts.len() {
                    match &ts[i + 1] {
                        Token::Word(k) => Ok((Op::GetConst(string_of(k)), i + 2)),
                        Token::Text(k) => Ok((Op::GetConst(string_of(k)), i + 2)),
                        _ => Err(ParseError::BadOperand),
                    }
                } else {
                    Err(ParseError::UnexpectedEnd)
                }
            } else if same_chars(w, &['c', 'a', 'l', 'l', '_', 's', 'y', 's']) {
                if i + 1 < ts.len() {
                    match &ts[i + 1] {
                        Token::Text(k) => Ok((Op::CallSys(string_of(k)), i + 2)),
                        _ => Err(ParseError::BadOperand),
                    }
                } else {
                    Err(ParseError::UnexpectedEnd)
                }
            } else if same_chars(w, &['s', 'e', 't', '_', 'v', 'a', 'r']) || same_chars(
                w,
                &['g', 'e', 't', '_', 'v', 'a', 'r'],
            ) {
                if ts.len() - i > 2 {
                    match (index_operand_of(&ts[i + 1]), index_operand_of(&ts[i + 2])) {
                        (Some(o), Some(x)) => {
                            if same_chars(w, &['s', 'e', 't', '_', 'v', 'a', 'r']) {
                                Ok((Op::SetVar(o, x), i + 3))
                            } else {
                                Ok((Op::GetVar(o, x), i + 3))
                            }
                        },
                        _ => Err(ParseError::BadOperand),
                    }
                } else {
                    Err(ParseError::UnexpectedEnd)
                }
            } else if same_chars(w, &['g', 'o', 't', 'o']) || same_chars(
                w,
                &['i', 'f', '_', 't', 'r', 'u', 'e', '_', 'g', 'o', 't', 'o'],
            ) || same_chars(w, &['i', 'f', '_', 'f', 'a', 'l', 's', 'e', '_', 'g', 'o', 't', 'o']) {
                if i + 1 < ts.len() {
                    match index_operand_of(&ts[i + 1]) {
                        Some(t) => {
                            if same_chars(w, &['g', 'o', 't', 'o']) {
                                Ok((Op::GoTo(t), i + 2))
                            } else if same_chars(
                                w,
                                &['i', 'f', '_', 't', 'r', 'u', 'e', '_', 'g', 'o', 't', 'o'],
                            ) {
                                Ok((Op::IfTrueGoTo(t), i + 2))
                            } else {
                                Ok((Op::IfFalseGoTo(t), i + 2))
                            }
                        },
                        None => Err(ParseError::BadOperand),
                    }
                } else {
                    Err(ParseError::UnexpectedEnd)
                }
            } else {
                Err(ParseError::UnknownWord)
            }
        },
        Token::Number(n) => {
            if i + 1 < ts.len() {
                match number_literal_of(n, &ts[i + 1]) {
                    Ok(v) => Ok((Op::GetLit(v), i + 2)),
                    Err(e) => Err(e),
                }
            } else {
                Err(ParseError::UnexpectedEnd)
            }
        },
        Token::Text(t) => Ok((Op::GetLit(Val::Str(string_of(t))), i + 1)),
        Token::OBracket => Err(ParseError::UnexpectedToken),
        Token::CBracket => Err(ParseError::UnexpectedToken),
    }
}

/// Parses the body that starts at token `i`, up to and including its `}`.
fn parse_body_at(ts: &Vec<Token>, i: usize) -> (r: Result<(Vec<Op>, usize), ParseError>)
    ensures
        match parse_body(lexemes(ts@), i as int) {
            Ok((ops, k)) => r is Ok && ops_model(r->Ok_0.0@) == ops && r->Ok_0.1 == k,
            Err(e) => r == Err::<(Vec<Op>, usize), ParseError>(e),
        },
        r is Ok ==> i < r->Ok_0.1 <= ts@.len(),
{
    let ghost l = lexemes(ts@);
    let mut ops: Vec<Op> = Vec::new();
    let mut j: usize = i;
    loop
        invariant
            i <= j,
            l == lexemes(ts@),
            parse_body(l, i as int) == match parse_body(l, j as int) {
                Ok((rest, k)) => Ok((ops_model(ops@) + rest, k)),
                Err(e) => Err(e),
            },
        decreases ts@.len() - j,
    {
        if j >= ts.len() {
            return Err(ParseError::UnexpectedEnd);
        }
        assert(l[j as int] == ts@[j as int]@);
        if let Token::CBracket = &ts[j] {
            assert(ops_model(ops@) + Seq::<OpModel>::empty() =~= ops_model(ops@));
            return Ok((ops, j + 1));
        }
        match parse_op_at(ts, j) {
            Err(e) => {
                return Err(e);
            },
            Ok((op, next)) => {
                proof {
                    assert(ops_model(ops@.push(op)) =~= ops_model(ops@).push(op@));
                    match parse_body(l, next as int) {
                        Ok((rest, k)) => {
                            assert(ops_model(ops@).push(op@) + rest =~= ops_model(ops@) + (seq![
                                op@,
                            ] + rest));
                        },
                        Err(_) => {},
                    }
                }
                ops.push(op);
                j = next;
            },
        }
    }
}

/// Reads function definitions from source text, one at a time. It holds the
/// tokens up to the first lexical error, and that error, which it reports only
/// when a definition reaches it.
pub struct Parser {
    tokens: Vec<Token>,
    pos: usize,
    error: Option<LexError>,
}

impl Parser {
    /// The tokens read before the first lexical error.
    pub closed spec fn tokens(&self) -> Seq<Lexeme> {
        lexemes(self.tokens@)
    }

    /// The first lexical error of the text, if any.
    pub closed spec fn error(&self) -> Option<LexError> {
        self.error
    }

    /// The index of the token where the next definition starts.
    pub closed spec fn at(&self) -> int {
        self.pos as int
    }

    pub closed spec fn wf(&self) -> bool {
        self.pos <= self.tokens@.len()
    }

    pub fn new(text: &str) -> (r: Parser)
        ensures
            r.wf(),
            (r.tokens(), r.error()) == lex_partial(text@),
            r.at() == 0,
    {
        let mut tokenizer = Tokenizer::from(text);
        let mut tokens: Vec<Token> = Vec::new();
        loop
            invariant
                tokenizer.wf(),
                lex_partial(text@) == (lexemes(tokens@) + lex_partial(tokenizer.rest()).0,
                    lex_partial(tokenizer.rest()).1),
            decreases tokenizer.rest().len(),
        {
            let ghost s = tokenizer.rest();
            proof {
                lemma_next_lexeme_advances(s);
            }
            match tokenizer.next_token() {
                Err(e) => {
                    assert(lexemes(tokens@) + Seq::<Lexeme>::empty() =~= lexemes(tokens@));
                    return Parser { tokens, pos: 0, error: Some(e) };
                },
                Ok(None) => {
                    assert(lexemes(tokens@) + Seq::<Lexeme>::empty() =~= lexemes(tokens@));
                    return Parser { tokens, pos: 0, error: None };
                },
                Ok(Some(t)) => {
                    proof {
                        let rest = lex_partial(tokenizer.rest());
                        assert(lexemes(tokens@.push(t)) =~= lexemes(tokens@).push(t@));
                        assert(lexemes(tokens@).push(t@) + rest.0 =~= lexemes(tokens@) + (seq![
                            t@,
                        ] + rest.0));
                    }
                    tokens.push(t);
                },
            }
        }
    }

    /// The next definition: its name and its body; `None` after the last one.
    pub fn next_func(&mut self) -> (r: Result<Option<(String, Vec<Op>)>, ParseError>)
        requires
            old(self).wf(),
        ensures
            final(self).wf(),
            final(self).tokens() == old(self).tokens(),
            final(self).error() == old(self).error(),
            match next_def(old(self).tokens(), old(self).error(), old(self).at()) {
                Err(e) => r == Err::<Option<(String, Vec<Op>)>, ParseError>(e),
                Ok(None) => r == Ok::<Option<(String, Vec<Op>)>, ParseError>(None),
                Ok(Some((name, ops, k))) => r matches Ok(Some(d)) && d.0@ == name && ops_model(
                    d.1@,
                ) == ops && final(self).at() == k && old(self).at() < k,
            },
    {
        let ghost l = lexemes(self.tokens@);
        let i = self.pos;
        if i >= self.tokens.len() {
            return match self.error {
                Some(e) => Err(ParseError::Lex(e)),
                None => Ok(None),
            };
        }
        let stop = self.error;
        assert(l[i as int] == self.tokens@[i as int]@);
        assert(i + 1 < self.tokens@.len() ==> l[i + 1] == self.tokens@[i + 1]@);
        let name = match &self.tokens[i] {
            Token::Word(w) => string_of(w),
            _ => {
                return Err(ParseError::ExpectedName);
            },
        };
        if i + 1 >= self.tokens.len() {
            return Err(settle_of(ParseError::UnexpectedEnd, stop));
        }
        match &self.tokens[i + 1] {
            Token::OBracket => {},
            _ => {
                return Err(ParseError::ExpectedOpen);
            },
        }
        match parse_body_at(&self.tokens, i + 2) {
            Err(e) => Err(settle_of(e, stop)),
            Ok((ops, k)) => {
                self.pos = k;
                Ok(Some((name, ops)))
            },
        }
    }
}

fn settle_of(e: ParseError, stop: Option<LexError>) -> (r: ParseError)
    ensures
        r == settle(e, stop),
{
    match stop {
        Some(x) => if e == ParseError::UnexpectedEnd {
            ParseError::Lex(x)
        } else {
            e
        },
        None => e,
    }
}

/// Reads every function that source text defines, each name preceded by `prefix`.
pub fn read_funcs(prefix: &str, text: &str) -> (r: Result<Vec<(String, Vec<Op>)>, ParseError>)
    ensures
        match program(prefix@, text@) {
            Ok(ds) => r is Ok && defs_model(r->Ok_0@) == ds,
            Err(e) => r == Err::<Vec<(String, Vec<Op>)>, ParseError>(e),
        },
{
    let mut parser = Parser::new(text);
    let mut funcs: Vec<(String, Vec<Op>)> = Vec::new();
    let ghost f = |d: (Seq<char>, Seq<OpModel>)| (prefix@ + d.0, d.1);
    let ghost ts = parser.tokens();
    let ghost stop = parser.error();
    loop
        invariant
            parser.wf(),
            parser.tokens() == ts,
            parser.error() == stop,
            (ts, stop) == lex_partial(text@),
            parser.at() >= 0,
            f == (|d: (Seq<char>, Seq<OpModel>)| (prefix@ + d.0, d.1)),
            match parse_defs(ts, stop, 0) {
                Ok(all) => parse_defs(ts, stop, parser.at()) is Ok && all.map_values(f)
                    == defs_model(funcs@) + parse_defs(ts, stop, parser.at())->Ok_0.map_values(f),
                Err(e) => parse_defs(ts, stop, parser.at()) == Err::<
                    Seq<(Seq<char>, Seq<OpModel>)>,
                    ParseError,
                >(e),
            },
        decreases ts.len() - parser.at(),
    {
        let ghost at = parser.at();
        match parser.next_func() {
            Err(e) => {
                return Err(e);
            },
            Ok(None) => {
                proof {
                    if let Ok(all) = parse_defs(ts, stop, 0) {
                        assert(parse_defs(ts, stop, at)->Ok_0 =~= Seq::<
                            (Seq<char>, Seq<OpModel>),
                        >::empty());
                        assert(defs_model(funcs@) + Seq::<
                            (Seq<char>, Seq<OpModel>),
                        >::empty().map_values(f) =~= defs_model(funcs@));
                    }
                }
                return Ok(funcs);
            },
            Ok(Some((name, ops))) => {
                let mut full = prefix.to_owned();
                full.append(name.as_str());
                proof {
                    let d = (prefix@ + name@, ops_model(ops@));
                    assert(defs_model(funcs@.push((full, ops))) =~= defs_model(funcs@).push(d));
                    if let Ok(all) = parse_defs(ts, stop, 0) {
                        let rest = parse_defs(ts, stop, parser.at())->Ok_0;
                        assert(parse_defs(ts, stop, at)->Ok_0 == seq![(name@, ops_model(ops@))]
                            + rest);
                        assert((seq![(name@, ops_model(ops@))] + rest).map_values(f) =~= seq![d]
                            + rest.map_values(f));
                        assert(defs_model(funcs@).push(d) + rest.map_values(f) =~= defs_model(
                            funcs@,
                        ) + (seq![d] + rest.map_values(f)));
                    }
                }
                funcs.push((full, ops));
            },
        }
    }
}

} // verus!
