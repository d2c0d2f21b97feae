use vstd::prelude::*;

use crate::laws::{lemma_lex_render, render, well_formed};
use crate::numeric::{all_digits, lemma_nat_of_nat_text, nat_text};
use crate::parser::{
    index_operand, parse_body, parse_def, parse_defs, parse_op, program, word_op, ParseError,
};
use crate::tokenizer::{is_word_char, lemma_lex_partial, lex, points, LexError, Lexeme};
use crate::value::{Op, OpModel};

verus! {

/// The tokens that write opcode `op` in source text: its mnemonic, then its
/// operands. A literal has no mnemonic and is written as itself.
pub open spec fn emit(op: OpModel) -> Seq<Lexeme> {
    match op {
        OpModel::GetConst(k) => seq![Lexeme::Word(seq!['g', 'e', 't', '_', 'c', 'o', 'n', 's', 't']), Lexeme::Text(k)],
        OpModel::CallSys(k) => seq![Lexeme::Word(seq!['c', 'a', 'l', 'l', '_', 's', 'y', 's']), Lexeme::Text(k)],
        OpModel::SetVar(o, i) => seq![
            Lexeme::Word(seq!['s', 'e', 't', '_', 'v', 'a', 'r']),
            Lexeme::Number(nat_text(o)),
            Lexeme::Number(nat_text(i)),
        ],
        OpModel::GetVar(o, i) => seq![
            Lexeme::Word(seq!['g', 'e', 't', '_', 'v', 'a', 'r']),
            Lexeme::Number(nat_text(o)),
            Lexeme::Number(nat_text(i)),
        ],
        OpModel::GoTo(t) => seq![Lexeme::Word(seq!['g', 'o', 't', 'o']), Lexeme::Number(nat_text(t))],
        OpModel::IfTrueGoTo(t) => seq![Lexeme::Word(seq!['i', 'f', '_', 't', 'r', 'u', 'e', '_', 'g', 'o', 't', 'o']), Lexeme::Number(nat_text(t))],
        OpModel::IfFalseGoTo(t) => seq![Lexeme::Word(seq!['i', 'f', '_', 'f', 'a', 'l', 's', 'e', '_', 'g', 'o', 't', 'o']), Lexeme::Number(nat_text(t))],

        OpModel::NewScope => seq![Lexeme::Word(seq!['n', 'e', 'w', '_', 's', 'c', 'o', 'p', 'e'])],
        OpModel::EndScope => seq![Lexeme::Word(seq!['e', 'n', 'd', '_', 's', 'c', 'o', 'p', 'e'])],
        OpModel::NewVar => seq![Lexeme::Word(seq!['n', 'e', 'w', '_', 'v', 'a', 'r'])],
        OpModel::CallFunc => seq![Lexeme::Word(seq!['c', 'a', 'l', 'l', '_', 'f', 'u', 'n', 'c'])],
        OpModel::ReturnCall => seq![Lexeme::Word(seq!['r', 'e', 't', 'u', 'r', 'n'])],
        OpModel::Gte => seq![Lexeme::Word(seq!['g', 't', 'e'])],
        OpModel::Lte => seq![Lexeme::Word(seq!['l', 't', 'e'])],
        OpModel::Gt => seq![Lexeme::Word(seq!['g', 't'])],
        OpModel::Lt => seq![Lexeme::Word(seq!['l', 't'])],
        OpModel::Eq => seq![Lexeme::Word(seq!['e', 'q'])],
        OpModel::Not => seq![Lexeme::Word(seq!['n', 'o', 't'])],
        OpModel::Add => seq![Lexeme::Word(seq!['a', 'd', 'd'])],
        OpModel::Sub => seq![Lexeme::Word(seq!['s', 'u', 'b'])],
        OpModel::Mul => seq![Lexeme::Word(seq!['m', 'u', 'l'])],
        OpModel::Div => seq![Lexeme::Word(seq!['d', 'i', 'v'])],
        OpModel::Concat => seq![Lexeme::Word(seq!['c', 'o', 'n', 'c', 'a', 't'])],
        OpModel::ToInt => seq![Lexeme::Word(seq!['t', 'o', '_', 'i', '6', '4'])],
        OpModel::ToFloat => seq![Lexeme::Word(seq!['t', 'o', '_', 'f', '6', '4'])],
        OpModel::ToString => seq![Lexeme::Word(seq!['t', 'o', '_', 's', 't', 'r', 'i', 'n', 'g'])],
        OpModel::NewVec => seq![Lexeme::Word(seq!['n', 'e', 'w', '_', 'v', 'e', 'c'])],
        OpModel::PushToVec => seq![Lexeme::Word(seq!['p', 'u', 's', 'h', '_', 't', 'o', '_', 'v', 'e', 'c'])],
        OpModel::GetVecVal => seq![Lexeme::Word(seq!['g', 'e', 't', '_', 'v', 'e', 'c', '_', 'v', 'a', 'l'])],
        OpModel::SetVecVal => seq![Lexeme::Word(seq!['s', 'e', 't', '_', 'v', 'e', 'c', '_', 'v', 'a', 'l'])],
        OpModel::NewMap => seq![Lexeme::Word(seq!['n', 'e', 'w', '_', 'm', 'a', 'p'])],
        OpModel::GetMapVal => seq![Lexeme::Word(seq!['g', 'e', 't', '_', 'm', 'a', 'p', '_', 'v', 'a', 'l'])],
        OpModel::SetMapVal => seq![Lexeme::Word(seq!['s', 'e', 't', '_', 'm', 'a', 'p', '_', 'v', 'a', 'l'])],
        OpModel::GetLit(v) => seq![],
    }
}

/// Every opcode with a mnemonic reads back as itself from the tokens that
/// write it.
pub proof fn lemma_mnemonic_round_trip(op: Op)
    requires
        !(op is GetLit),
    ensures
        parse_op(emit(op@), 0) == Ok::<(OpModel, int), ParseError>((op@, emit(op@).len() as int)),
{
    let none = Seq::<Lexeme>::empty();
    lemma_op_round_trip_within(op, none, none);
    assert(none + emit(op@) + none =~= emit(op@));
}

/// The opcode reads back as itself wherever its tokens stand in a longer
/// token sequence.
pub proof fn lemma_op_round_trip_within(op: Op, pre: Seq<Lexeme>, post: Seq<Lexeme>)
    requires
        !(op is GetLit),
    ensures
        parse_op(pre + emit(op@) + post, pre.len() as int) == Ok::<(OpModel, int), ParseError>(
            (op@, (pre.len() + emit(op@).len()) as int),
        ),
{
    if op is SetVar || op is GetVar || op is GoTo || op is IfTrueGoTo || op is IfFalseGoTo {
        lemma_operands_round_trip(op, pre, post);
    } else if op is GetConst || op is CallSys {
        lemma_names_round_trip(op, pre, post);
    } else if op is NewScope || op is EndScope || op is NewVar || op is CallFunc || op is ReturnCall
        || op is Gte || op is Lte || op is Gt || op is Lt || op is Eq || op is Not || op is Add
        || op is Sub {
        lemma_first_words_round_trip(op, pre, post);
    } else {
        lemma_last_words_round_trip(op, pre, post);
    }
}

#[verifier::rlimit(100)]
proof fn lemma_operands_round_trip(op: Op, pre: Seq<Lexeme>, post: Seq<Lexeme>)
    requires
        op is SetVar || op is GetVar || op is GoTo || op is IfTrueGoTo || op is IfFalseGoTo,
    ensures
        parse_op(pre + emit(op@) + post, pre.len() as int) == Ok::<(OpModel, int), ParseError>(
            (op@, (pre.len() + emit(op@).len()) as int),
        ),
{
    let e = emit(op@);
    let ts = pre + e + post;
    let p = pre.len() as int;
    assert forall|k: int| 0 <= k < e.len() implies ts[p + k] == e[k] by {}
    assert(ts.len() == p + e.len() + post.len());
    match op {
        Op::SetVar(o, i) => {
            lemma_nat_of_nat_text(o as nat);
            lemma_nat_of_nat_text(i as nat);
            let w = seq!['s', 'e', 't', '_', 'v', 'a', 'r'];
            assert(ts[p] == Lexeme::Word(w));
            assert(index_operand(ts[p + 1]) == Some(o as nat));
            assert(index_operand(ts[p + 2]) == Some(i as nat));
            assert(word_op(w) is None);
            assert(w != seq!['g', 'e', 't', '_', 'c', 'o', 'n', 's', 't']);
            assert(w != seq!['c', 'a', 'l', 'l', '_', 's', 'y', 's']);
            assert(parse_op(ts, p) == Ok::<(OpModel, int), ParseError>(
                (OpModel::SetVar(o as nat, i as nat), p + 3),
            ));
        },
        Op::GetVar(o, i) => {
            lemma_nat_of_nat_text(o as nat);
            lemma_nat_of_nat_text(i as nat);
            assert(index_operand(ts[p + 1]) == Some(o as nat));
            assert(index_operand(ts[p + 2]) == Some(i as nat));
            let w = seq!['g', 'e', 't', '_', 'v', 'a', 'r'];
            assert(ts[p] == Lexeme::Word(w));
            assert(word_op(w) is None);
            assert(w != seq!['g', 'e', 't', '_', 'c', 'o', 'n', 's', 't']);
            assert(w != seq!['s', 'e', 't', '_', 'v', 'a', 'r']);
            assert(parse_op(ts, p) == Ok::<(OpModel, int), ParseError>(
                (OpModel::GetVar(o as nat, i as nat), p + 3),
            ));
        },
        Op::GoTo(t) => {
            lemma_nat_of_nat_text(t as nat);
            assert(index_operand(ts[p + 1]) == Some(t as nat));
            assert(word_op(seq!['g', 'o', 't', 'o']) is None);
            assert(ts[p] == Lexeme::Word(seq!['g', 'o', 't', 'o']));
            assert(parse_op(ts, p) == Ok::<(OpModel, int), ParseError>(
                (OpModel::GoTo(t as nat), p + 2),
            ));
        },
        Op::IfTrueGoTo(t) => {
            lemma_nat_of_nat_text(t as nat);
            assert(index_operand(ts[p + 1]) == Some(t as nat));
            assert(word_op(seq!['i', 'f', '_', 't', 'r', 'u', 'e', '_', 'g', 'o', 't', 'o']) is None);
            assert(ts[p] == Lexeme::Word(seq!['i', 'f', '_', 't', 'r', 'u', 'e', '_', 'g', 'o', 't', 'o']));
            assert(parse_op(ts, p) == Ok::<(OpModel, int), ParseError>(
                (OpModel::IfTrueGoTo(t as nat), p + 2),
            ));
        },
        Op::IfFalseGoTo(t) => {
            lemma_nat_of_nat_text(t as nat);
            assert(index_operand(ts[p + 1]) == Some(t as nat));
            assert(word_op(seq!['i', 'f', '_', 'f', 'a', 'l', 's', 'e', '_', 'g', 'o', 't', 'o'])
                is None);
            assert(ts[p] == Lexeme::Word(
                seq!['i', 'f', '_', 'f', 'a', 'l', 's', 'e', '_', 'g', 'o', 't', 'o'],
            ));
            assert(parse_op(ts, p) == Ok::<(OpModel, int), ParseError>(
                (OpModel::IfFalseGoTo(t as nat), p + 2),
            ));
        },
        _ => {},
    }
}

proof fn lemma_names_round_trip(op: Op, pre: Seq<Lexeme>, post: Seq<Lexeme>)
    requires
        op is GetConst || op is CallSys,
    ensures
        parse_op(pre + emit(op@) + post, pre.len() as int) == Ok::<(OpModel, int), ParseError>(
            (op@, (pre.len() + emit(op@).len()) as int),
        ),
{
    let e = emit(op@);
    let ts = pre + e + post;
    let p = pre.len() as int;
    assert forall|k: int| 0 <= k < e.len() implies ts[p + k] == e[k] by {}
    assert(ts.len() == p + e.len() + post.len());
}

proof fn lemma_first_words_round_trip(op: Op, pre: Seq<Lexeme>, post: Seq<Lexeme>)
    requires
        op is NewScope || op is EndScope || op is NewVar || op is CallFunc || op is ReturnCall || op is Gte || op is Lte || op is Gt || op is Lt || op is Eq || op is Not || op is Add || op is Sub,
    ensures
        parse_op(pre + emit(op@) + post, pre.len() as int) == Ok::<(OpModel, int), ParseError>(
            (op@, (pre.len() + emit(op@).len()) as int),
        ),
{
    let e = emit(op@);
    let ts = pre + e + post;
    let p = pre.len() as int;
    assert forall|k: int| 0 <= k < e.len() implies ts[p + k] == e[k] by {}
    assert(ts.len() == p + e.len() + post.len());
    match op {
        Op::NewScope => {
            assert(word_op(seq!['n', 'e', 'w', '_', 's', 'c', 'o', 'p', 'e']) == Some(OpModel::NewScope));
        },
        Op::EndScope => {
            assert(word_op(seq!['e', 'n', 'd', '_', 's', 'c', 'o', 'p', 'e']) == Some(OpModel::EndScope));
        },
        Op::NewVar => {
            assert(word_op(seq!['n', 'e', 'w', '_', 'v', 'a', 'r']) == Some(OpModel::NewVar));
        },
        Op::CallFunc => {
            assert(word_op(seq!['c', 'a', 'l', 'l', '_', 'f', 'u', 'n', 'c']) == Some(OpModel::CallFunc));
        },
        Op::ReturnCall => {
            assert(word_op(seq!['r', 'e', 't', 'u', 'r', 'n']) == Some(OpModel::ReturnCall));
        },
        Op::Gte => {
            assert(word_op(seq!['g', 't', 'e']) == Some(OpModel::Gte));
        },
        Op::Lte => {
            assert(word_op(seq!['l', 't', 'e']) == Some(OpModel::Lte));
        },
        Op::Gt => {
            assert(seq!['g', 't', 'e'].len() == 3);
            assert(word_op(seq!['g', 't']) == Some(OpModel::Gt));
        },
        Op::Lt => {
            assert(seq!['g', 't', 'e'].len() == 3);
            assert(seq!['l', 't', 'e'].len() == 3);
            assert(word_op(seq!['l', 't']) == Some(OpModel::Lt));
        },
        Op::Eq => {
            assert(word_op(seq!['e', 'q']) == Some(OpModel::Eq));
        },
        Op::Not => {
            assert(word_op(seq!['n', 'o', 't']) == Some(OpModel::Not));
        },
        Op::Add => {
            assert(word_op(seq!['a', 'd', 'd']) == Some(OpModel::Add));
        },
        Op::Sub => {
            assert(word_op(seq!['s', 'u', 'b']) == Some(OpModel::Sub));
        },
        _ => {},
    }
}

proof fn lemma_last_words_round_trip(op: Op, pre: Seq<Lexeme>, post: Seq<Lexeme>)
    requires
        op is Mul || op is Div || op is Concat || op is ToInt || op is ToFloat || op is ToString || op is NewVec || op is PushToVec || op is GetVecVal || op is SetVecVal || op is NewMap || op is GetMapVal || op is SetMapVal,
    ensures
        parse_op(pre + emit(op@) + post, pre.len() as int) == Ok::<(OpModel, int), ParseError>(
            (op@, (pre.len() + emit(op@).len()) as int),
        ),
{
    let e = emit(op@);
    let ts = pre + e + post;
    let p = pre.len() as int;
    assert forall|k: int| 0 <= k < e.len() implies ts[p + k] == e[k] by {}
    assert(ts.len() == p + e.len() + post.len());
    match op {
        Op::Mul => {
            assert(word_op(seq!['m', 'u', 'l']) == Some(OpModel::Mul));
        },
        Op::Div => {
            assert(word_op(seq!['d', 'i', 'v']) == Some(OpModel::Div));
        },
        Op::Concat => {
            assert(word_op(seq!['c', 'o', 'n', 'c', 'a', 't']) == Some(OpModel::Concat));
        },
        Op::ToInt => {
            assert(word_op(seq!['t', 'o', '_', 'i', '6', '4']) == Some(OpModel::ToInt));
        },
        Op::ToFloat => {
            assert(word_op(seq!['t', 'o', '_', 'f', '6', '4']) == Some(OpModel::ToFloat));
        },
        Op::ToString => {
            assert(word_op(seq!['t', 'o', '_', 's', 't', 'r', 'i', 'n', 'g']) == Some(OpModel::ToString));
        },
        Op::NewVec => {
            assert(word_op(seq!['n', 'e', 'w', '_', 'v', 'e', 'c']) == Some(OpModel::NewVec));
        },
        Op::PushToVec => {
            assert(word_op(seq!['p', 'u', 's', 'h', '_', 't', 'o', '_', 'v', 'e', 'c']) == Some(OpModel::PushToVec));
        },
        Op::GetVecVal => {
            assert(word_op(seq!['g', 'e', 't', '_', 'v', 'e', 'c', '_', 'v', 'a', 'l']) == Some(OpModel::GetVecVal));
        },
        Op::SetVecVal => {
            assert(word_op(seq!['s', 'e', 't', '_', 'v', 'e', 'c', '_', 'v', 'a', 'l']) == Some(OpModel::SetVecVal));
        },
        Op::NewMap => {
            assert(word_op(seq!['n', 'e', 'w', '_', 'm', 'a', 'p']) == Some(OpModel::NewMap));
        },
        Op::GetMapVal => {
            assert(word_op(seq!['g', 'e', 't', '_', 'm', 'a', 'p', '_', 'v', 'a', 'l']) == Some(OpModel::GetMapVal));
        },
        Op::SetMapVal => {
            assert(word_op(seq!['s', 'e', 't', '_', 'm', 'a', 'p', '_', 'v', 'a', 'l']) == Some(OpModel::SetMapVal));
        },
        _ => {},
    }
}

#[verifier::rlimit(100)]
proof fn lemma_emitted_well_formed_0(op: Op)
    requires
        op is NewScope || op is EndScope || op is NewVar || op is CallFunc || op is ReturnCall || op is Gte || op is Lte || op is Gt || op is Lt || op is Eq || op is Not,
    ensures
        forall|k: int| 0 <= k < emit(op@).len() ==> well_formed(#[trigger] emit(op@)[k]),
{
    match op {
        Op::NewScope => {
            let w = seq!['n', 'e', 'w', '_', 's', 'c', 'o', 'p', 'e'];
            assert forall|j: int| 0 <= j < w.len() implies is_word_char(#[trigger] w[j]) by {
                assert(j == 0 || j == 1 || j == 2 || j == 3 || j == 4 || j == 5 || j == 6 || j == 7 || j == 8);
            }
        },
        Op::EndScope => {
            let w = seq!['e', 'n', 'd', '_', 's', 'c', 'o', 'p', 'e'];
            assert forall|j: int| 0 <= j < w.len() implies is_word_char(#[trigger] w[j]) by {
                assert(j == 0 || j == 1 || j == 2 || j == 3 || j == 4 || j == 5 || j == 6 || j == 7 || j == 8);
            }
        },
        Op::NewVar => {
            let w = seq!['n', 'e', 'w', '_', 'v', 'a', 'r'];
            assert forall|j: int| 0 <= j < w.len() implies is_word_char(#[trigger] w[j]) by {
                assert(j == 0 || j == 1 || j == 2 || j == 3 || j == 4 || j == 5 || j == 6);
            }
        },
        Op::CallFunc => {
            let w = seq!['c', 'a', 'l', 'l', '_', 'f', 'u', 'n', 'c'];
            assert forall|j: int| 0 <= j < w.len() implies is_word_char(#[trigger] w[j]) by {
                assert(j == 0 || j == 1 || j == 2 || j == 3 || j == 4 || j == 5 || j == 6 || j == 7 || j == 8);
            }
        },
        Op::ReturnCall => {
            let w = seq!['r', 'e', 't', 'u', 'r', 'n'];
            assert forall|j: int| 0 <= j < w.len() implies is_word_char(#[trigger] w[j]) by {
                assert(j == 0 || j == 1 || j == 2 || j == 3 || j == 4 || j == 5);
            }
        },
        Op::Gte => {
            let w = seq!['g', 't', 'e'];
            assert forall|j: int| 0 <= j < w.len() implies is_word_char(#[trigger] w[j]) by {
                assert(j == 0 || j == 1 || j == 2);
            }
        },
        Op::Lte => {
            let w = seq!['l', 't', 'e'];
            assert forall|j: int| 0 <= j < w.len() implies is_word_char(#[trigger] w[j]) by {
                assert(j == 0 || j == 1 || j == 2);
            }
        },
        Op::Gt => {
            let w = seq!['g', 't'];
            assert forall|j: int| 0 <= j < w.len() implies is_word_char(#[trigger] w[j]) by {
                assert(j == 0 || j == 1);
            }
        },
        Op::Lt => {
            let w = seq!['l', 't'];
            assert forall|j: int| 0 <= j < w.len() implies is_word_char(#[trigger] w[j]) by {
                assert(j == 0 || j == 1);
            }
        },
        Op::Eq => {
            let w = seq!['e', 'q'];
            assert forall|j: int| 0 <= j < w.len() implies is_word_char(#[trigger] w[j]) by {
                assert(j == 0 || j == 1);
            }
        },
        Op::Not => {
            let w = seq!['n', 'o', 't'];
            assert forall|j: int| 0 <= j < w.len() implies is_word_char(#[trigger] w[j]) by {
                assert(j == 0 || j == 1 || j == 2);
            }
        },
        _ => {},
    }
}

#[verifier::rlimit(100)]
proof fn lemma_emitted_well_formed_1(op: Op)
    requires
        op is Add || op is Sub || op is Mul || op is Div || op is Concat || op is ToInt || op is ToFloat || op is ToString || op is NewVec || op is PushToVec || op is GetVecVal,
    ensures
        forall|k: int| 0 <= k < emit(op@).len() ==> well_formed(#[trigger] emit(op@)[k]),
{
    match op {
        Op::Add => {
            let w = seq!['a', 'd', 'd'];
            assert forall|j: int| 0 <= j < w.len() implies is_word_char(#[trigger] w[j]) by {
                assert(j == 0 || j == 1 || j == 2);
            }
        },
        Op::Sub => {
            let w = seq!['s', 'u', 'b'];
            assert forall|j: int| 0 <= j < w.len() implies is_word_char(#[trigger] w[j]) by {
                assert(j == 0 || j == 1 || j == 2);
            }
        },
        Op::Mul => {
            let w = seq!['m', 'u', 'l'];
            assert forall|j: int| 0 <= j < w.len() implies is_word_char(#[trigger] w[j]) by {
                assert(j == 0 || j == 1 || j == 2);
            }
        },
        Op::Div => {
            let w = seq!['d', 'i', 'v'];
            assert forall|j: int| 0 <= j < w.len() implies is_word_char(#[trigger] w[j]) by {
                assert(j == 0 || j == 1 || j == 2);
            }
        },
        Op::Concat => {
            let w = seq!['c', 'o', 'n', 'c', 'a', 't'];
            assert forall|j: int| 0 <= j < w.len() implies is_word_char(#[trigger] w[j]) by {
                assert(j == 0 || j == 1 || j == 2 || j == 3 || j == 4 || j == 5);
            }
        },
        Op::ToInt => {
            let w = seq!['t', 'o', '_', 'i', '6', '4'];
            assert forall|j: int| 0 <= j < w.len() implies is_word_char(#[trigger] w[j]) by {
                assert(j == 0 || j == 1 || j == 2 || j == 3 || j == 4 || j == 5);
            }
        },
        Op::ToFloat => {
            let w = seq!['t', 'o', '_', 'f', '6', '4'];
            assert forall|j: int| 0 <= j < w.len() implies is_word_char(#[trigger] w[j]) by {
                assert(j == 0 || j == 1 || j == 2 || j == 3 || j == 4 || j == 5);
            }
        },
        Op::ToString => {
            let w = seq!['t', 'o', '_', 's', 't', 'r', 'i', 'n', 'g'];
            assert forall|j: int| 0 <= j < w.len() implies is_word_char(#[trigger] w[j]) by {
                assert(j == 0 || j == 1 || j == 2 || j == 3 || j == 4 || j == 5 || j == 6 || j == 7 || j == 8);
            }
        },
        Op::NewVec => {
            let w = seq!['n', 'e', 'w', '_', 'v', 'e', 'c'];
            assert forall|j: int| 0 <= j < w.len() implies is_word_char(#[trigger] w[j]) by {
                assert(j == 0 || j == 1 || j == 2 || j == 3 || j == 4 || j == 5 || j == 6);
            }
        },
        Op::PushToVec => {
            let w = seq!['p', 'u', 's', 'h', '_', 't', 'o', '_', 'v', 'e', 'c'];
            assert forall|j: int| 0 <= j < w.len() implies is_word_char(#[trigger] w[j]) by {
                assert(j == 0 || j == 1 || j == 2 || j == 3 || j == 4 || j == 5 || j == 6 || j == 7 || j == 8 || j == 9 || j == 10);
            }
        },
        Op::GetVecVal => {
            let w = seq!['g', 'e', 't', '_', 'v', 'e', 'c', '_', 'v', 'a', 'l'];
            assert forall|j: int| 0 <= j < w.len() implies is_word_char(#[trigger] w[j]) by {
                assert(j == 0 || j == 1 || j == 2 || j == 3 || j == 4 || j == 5 || j == 6 || j == 7 || j == 8 || j == 9 || j == 10);
            }
        },
        _ => {},
    }
}

#[verifier::rlimit(100)]
proof fn lemma_emitted_well_formed_2(op: Op)
    requires
        op is SetVecVal || op is NewMap || op is GetMapVal || op is SetMapVal || op is GetConst || op is CallSys || op is SetVar || op is GetVar || op is GoTo || op is IfTrueGoTo || op is IfFalseGoTo,
    ensures
        forall|k: int| 0 <= k < emit(op@).len() ==> well_formed(#[trigger] emit(op@)[k]),
{
    match op {
        Op::SetVecVal => {
            let w = seq!['s', 'e', 't', '_', 'v', 'e', 'c', '_', 'v', 'a', 'l'];
            assert forall|j: int| 0 <= j < w.len() implies is_word_char(#[trigger] w[j]) by {
                assert(j == 0 || j == 1 || j == 2 || j == 3 || j == 4 || j == 5 || j == 6 || j == 7 || j == 8 || j == 9 || j == 10);
            }
        },
        Op::NewMap => {
            let w = seq!['n', 'e', 'w', '_', 'm', 'a', 'p'];
            assert forall|j: int| 0 <= j < w.len() implies is_word_char(#[trigger] w[j]) by {
                assert(j == 0 || j == 1 || j == 2 || j == 3 || j == 4 || j == 5 || j == 6);
            }
        },
        Op::GetMapVal => {
            let w = seq!['g', 'e', 't', '_', 'm', 'a', 'p', '_', 'v', 'a', 'l'];
            assert forall|j: int| 0 <= j < w.len() implies is_word_char(#[trigger] w[j]) by {
                assert(j == 0 || j == 1 || j == 2 || j == 3 || j == 4 || j == 5 || j == 6 || j == 7 || j == 8 || j == 9 || j == 10);
            }
        },
        Op::SetMapVal => {
            let w = seq!['s', 'e', 't', '_', 'm', 'a', 'p', '_', 'v', 'a', 'l'];
            assert forall|j: int| 0 <= j < w.len() implies is_word_char(#[trigger] w[j]) by {
                assert(j == 0 || j == 1 || j == 2 || j == 3 || j == 4 || j == 5 || j == 6 || j == 7 || j == 8 || j == 9 || j == 10);
            }
        },
        Op::GetConst(_) => {
            let w = seq!['g', 'e', 't', '_', 'c', 'o', 'n', 's', 't'];
            assert forall|j: int| 0 <= j < w.len() implies is_word_char(#[trigger] w[j]) by {
                assert(j == 0 || j == 1 || j == 2 || j == 3 || j == 4 || j == 5 || j == 6 || j == 7 || j == 8);
            }
        },
        Op::CallSys(_) => {
            let w = seq!['c', 'a', 'l', 'l', '_', 's', 'y', 's'];
            assert forall|j: int| 0 <= j < w.len() implies is_word_char(#[trigger] w[j]) by {
                assert(j == 0 || j == 1 || j == 2 || j == 3 || j == 4 || j == 5 || j == 6 || j == 7);
            }
        },
        Op::SetVar(o, i) => {
            let w = seq!['s', 'e', 't', '_', 'v', 'a', 'r'];
            assert forall|j: int| 0 <= j < w.len() implies is_word_char(#[trigger] w[j]) by {
                assert(j == 0 || j == 1 || j == 2 || j == 3 || j == 4 || j == 5 || j == 6);
            }
            lemma_number_text_well_formed(o as nat);
            lemma_number_text_well_formed(i as nat);
        },
        Op::GetVar(o, i) => {
            let w = seq!['g', 'e', 't', '_', 'v', 'a', 'r'];
            assert forall|j: int| 0 <= j < w.len() implies is_word_char(#[trigger] w[j]) by {
                assert(j == 0 || j == 1 || j == 2 || j == 3 || j == 4 || j == 5 || j == 6);
            }
            lemma_number_text_well_formed(o as nat);
            lemma_number_text_well_formed(i as nat);
        },
        Op::GoTo(t) => {
            let w = seq!['g', 'o', 't', 'o'];
            assert forall|j: int| 0 <= j < w.len() implies is_word_char(#[trigger] w[j]) by {
                assert(j == 0 || j == 1 || j == 2 || j == 3);
            }
            lemma_number_text_well_formed(t as nat);
        },
        Op::IfTrueGoTo(t) => {
            let w = seq!['i', 'f', '_', 't', 'r', 'u', 'e', '_', 'g', 'o', 't', 'o'];
            assert forall|j: int| 0 <= j < w.len() implies is_word_char(#[trigger] w[j]) by {
                assert(j == 0 || j == 1 || j == 2 || j == 3 || j == 4 || j == 5 || j == 6 || j == 7 || j == 8 || j == 9 || j == 10 || j == 11);
            }
            lemma_number_text_well_formed(t as nat);
        },
        Op::IfFalseGoTo(t) => {
            let w = seq!['i', 'f', '_', 'f', 'a', 'l', 's', 'e', '_', 'g', 'o', 't', 'o'];
            assert forall|j: int| 0 <= j < w.len() implies is_word_char(#[trigger] w[j]) by {
                assert(j == 0 || j == 1 || j == 2 || j == 3 || j == 4 || j == 5 || j == 6 || j == 7 || j == 8 || j == 9 || j == 10 || j == 11 || j == 12);
            }
            lemma_number_text_well_formed(t as nat);
        },
        _ => {},
    }
}

proof fn lemma_number_text_well_formed(n: nat)
    ensures
        well_formed(Lexeme::Number(nat_text(n))),
{
    lemma_nat_of_nat_text(n);
    lemma_digits_have_no_points(nat_text(n));
}

proof fn lemma_digits_have_no_points(s: Seq<char>)
    requires
        all_digits(s),
    ensures
        points(s) == 0,
    decreases s.len(),
{
    if s.len() > 0 {
        assert(s[0] != '.');
        assert(all_digits(s.drop_first())) by {
            assert forall|i: int| 0 <= i < s.drop_first().len() implies '0' <= #[trigger] s.drop_first()[i]
                <= '9' by {
                assert(s.drop_first()[i] == s[i + 1]);
            }
        }
        lemma_digits_have_no_points(s.drop_first());
    }
}

/// Every opcode with a mnemonic, written as source text with canonical
/// spacing, reads back as itself: the text gives back the tokens, and the
/// tokens give back the opcode.
pub proof fn lemma_mnemonic_text_round_trip(op: Op)
    requires
        !(op is GetLit),
    ensures
        lex(render(emit(op@))) == Ok::<Seq<Lexeme>, LexError>(emit(op@)),
        parse_op(emit(op@), 0) == Ok::<(OpModel, int), ParseError>((op@, emit(op@).len() as int)),
{
    lemma_emitted_well_formed(op);
    lemma_lex_render(emit(op@));
    lemma_mnemonic_round_trip(op);
}

proof fn lemma_emitted_well_formed(op: Op)
    requires
        !(op is GetLit),
    ensures
        forall|k: int| 0 <= k < emit(op@).len() ==> well_formed(#[trigger] emit(op@)[k]),
{
    if op is NewScope || op is EndScope || op is NewVar || op is CallFunc || op is ReturnCall || op is Gte || op is Lte || op is Gt || op is Lt || op is Eq || op is Not {
        lemma_emitted_well_formed_0(op);
    } else if op is Add || op is Sub || op is Mul || op is Div || op is Concat || op is ToInt || op is ToFloat || op is ToString || op is NewVec || op is PushToVec || op is GetVecVal {
        lemma_emitted_well_formed_1(op);
    } else {
        lemma_emitted_well_formed_2(op);
    }
}

/// A definition `NAME { OP }` of one opcode with a mnemonic, written with
/// canonical spacing, reads back as one function named `NAME` (after the
/// prefix) whose body is that opcode.
pub proof fn lemma_definition_round_trip(prefix: Seq<char>, name: Seq<char>, op: Op)
    requires
        !(op is GetLit),
        well_formed(Lexeme::Word(name)),
    ensures
        program(
            prefix,
            render(seq![Lexeme::Word(name), Lexeme::Open] + emit(op@) + seq![Lexeme::Close]),
        ) == Ok::<Seq<(Seq<char>, Seq<OpModel>)>, ParseError>(
            seq![(prefix + name, seq![op@])],
        ),
{
    let pre = seq![Lexeme::Word(name), Lexeme::Open];
    let post = seq![Lexeme::Close];
    let e = emit(op@);
    let ts = pre + e + post;
    lemma_emitted_well_formed(op);
    assert forall|k: int| 0 <= k < ts.len() implies well_formed(#[trigger] ts[k]) by {
        if 2 <= k < 2 + e.len() {
            assert(ts[k] == e[k - 2]);
        }
    }
    lemma_lex_render(ts);
    lemma_lex_partial(render(ts));
    lemma_op_round_trip_within(op, pre, post);
    let j: int = 2 + e.len() as int;
    assert(ts[j] == Lexeme::Close);
    assert(ts.len() == j + 1);
    assert(parse_body(ts, j) == Ok::<(Seq<OpModel>, int), ParseError>((Seq::empty(), j + 1)));
    assert(parse_body(ts, 2) == Ok::<(Seq<OpModel>, int), ParseError>((seq![op@], j + 1))) by {
        assert(seq![op@] + Seq::<OpModel>::empty() =~= seq![op@]);
    }
    assert(parse_def(ts, 0) == Ok::<(Seq<char>, Seq<OpModel>, int), ParseError>(
        (name, seq![op@], j + 1),
    ));
    assert(parse_defs(ts, None, j + 1) == Ok::<Seq<(Seq<char>, Seq<OpModel>)>, ParseError>(
        Seq::empty(),
    ));
    let d = (name, seq![op@]);
    assert(parse_defs(ts, None, 0) == Ok::<Seq<(Seq<char>, Seq<OpModel>)>, ParseError>(seq![d]))
        by {
        assert(seq![d] + Seq::<(Seq<char>, Seq<OpModel>)>::empty() =~= seq![d]);
    }
    let f = |x: (Seq<char>, Seq<OpModel>)| (prefix + x.0, x.1);
    assert(seq![d].map_values(f) =~= seq![(prefix + name, seq![op@])]);
}

} // verus!
