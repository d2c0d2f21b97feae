use stackvm::parser::{read_funcs, ParseError, Parser};
use stackvm::tokenizer::{tokenize, LexError, Token, Tokenizer};
use stackvm::value::{Op, Val};

fn word(t: &Token) -> String {
    match t {
        Token::Word(w) => w.iter().collect(),
        _ => panic!("expected a word"),
    }
}

#[test]
fn tokens_of_a_definition() {
    let tokens = tokenize("main { 12 i64 \"a\\tb\" add }").unwrap();
    assert_eq!(tokens.len(), 7);
    assert_eq!(word(&tokens[0]), "main");
    assert!(matches!(tokens[1], Token::OBracket));
    match &tokens[2] {
        Token::Number(n) => assert_eq!(n.iter().collect::<String>(), "12"),
        _ => panic!("expected a number"),
    }
    match &tokens[4] {
        Token::Text(t) => assert_eq!(t.iter().collect::<String>(), "a\tb"),
        _ => panic!("expected a string"),
    }
    assert!(matches!(tokens[6], Token::CBracket));
}

#[test]
fn numbers_drop_underscores_and_take_one_sign() {
    let tokens = tokenize("1_000.5 --5").unwrap();
    let texts: Vec<String> = tokens
        .iter()
        .map(|t| match t {
            Token::Number(n) => n.iter().collect(),
            _ => panic!("expected a number"),
        })
        .collect();
    assert_eq!(texts, vec!["1000.5", "-", "-5"]);
}

#[test]
fn comments_and_blanks_are_skipped() {
    let tokens = tokenize("a |note| b |to the end\n c").unwrap();
    assert_eq!(tokens.len(), 3);
    assert_eq!(word(&tokens[2]), "c");
}

#[test]
fn lexing_errors() {
    assert!(matches!(tokenize("a | open"), Err(LexError::UnclosedComment)));
    assert!(matches!(tokenize("\"abc"), Err(LexError::UnclosedString)));
    assert!(matches!(tokenize("\"a\\qb\""), Err(LexError::BadEscape)));
    assert!(matches!(tokenize("1.2.3"), Err(LexError::SecondPoint)));
    assert!(matches!(tokenize("a # b"), Err(LexError::Unexpected('#'))));
}

#[test]
fn tokenizer_steps_one_token_at_a_time() {
    let mut t = Tokenizer::from("x }");
    assert!(matches!(t.next_token(), Ok(Some(Token::Word(_)))));
    assert!(matches!(t.next_token(), Ok(Some(Token::CBracket))));
    assert!(matches!(t.next_token(), Ok(None)));
}

fn render(tokens: &[Token]) -> String {
    let mut out = String::new();
    for t in tokens {
        match t {
            Token::OBracket => out.push('{'),
            Token::CBracket => out.push('}'),
            Token::Word(w) | Token::Number(w) => out.extend(w.iter()),
            Token::Text(c) => {
                out.push('"');
                for ch in c {
                    match ch {
                        '\t' => out.push_str("\\t"),
                        '\n' => out.push_str("\\n"),
                        '\\' => out.push_str("\\\\"),
                        '"' => out.push_str("\\\""),
                        other => out.push(*other),
                    }
                }
                out.push('"');
            }
        }
        out.push(' ');
    }
    out
}

fn same_tokens(a: &[Token], b: &[Token]) -> bool {
    a.len() == b.len()
        && a.iter().zip(b.iter()).all(|(x, y)| match (x, y) {
            (Token::OBracket, Token::OBracket) | (Token::CBracket, Token::CBracket) => true,
            (Token::Word(p), Token::Word(q))
            | (Token::Number(p), Token::Number(q))
            | (Token::Text(p), Token::Text(q)) => p == q,
            _ => false,
        })
}

#[test]
fn tokens_survive_reserialising() {
    let source = "f{get_const \"x\\\"y\" -1_0 i64 2.5 f64\n\"tab\\there\"}g{return}";
    let tokens = tokenize(source).unwrap();
    let again = tokenize(&render(&tokens)).unwrap();
    assert!(same_tokens(&tokens, &again));
}

fn single(text: &str) -> (String, Vec<Op>) {
    let mut funcs = read_funcs("", text).unwrap();
    assert_eq!(funcs.len(), 1);
    funcs.pop().unwrap()
}

#[test]
fn return_only_function_parses_to_one_opcode() {
    let (name, body) = single("N { return }");
    assert_eq!(name, "N");
    assert_eq!(body.len(), 1);
    assert!(matches!(body[0], Op::ReturnCall));
}

#[test]
fn numeric_operand_without_hint_is_parse_error() {
    assert!(matches!(read_funcs("", "foo { add 1 }"), Err(ParseError::BadTypeHint)));
}

#[test]
fn prefix_goes_before_each_name() {
    let funcs = read_funcs("lib/", "a { } b { return }").unwrap();
    let names: Vec<&str> = funcs.iter().map(|(n, _)| n.as_str()).collect();
    assert_eq!(names, vec!["lib/a", "lib/b"]);
}

#[test]
fn literals_and_operands() {
    let (_, body) = single(
        "m { none true false -3 i64 2.50 f64 \"s\" get_const \"k\" get_const w call_sys \"io/print\" set_var 1 2 get_var 0 3 goto 4 if_true_goto 5 if_false_goto 6 return }",
    );
    assert_eq!(body.len(), 15);
    assert!(matches!(body[0], Op::GetLit(Val::Nil)));
    assert!(matches!(body[1], Op::GetLit(Val::Bool(true))));
    assert!(matches!(body[2], Op::GetLit(Val::Bool(false))));
    assert!(matches!(body[3], Op::GetLit(Val::Int(-3))));
    match &body[4] {
        Op::GetLit(Val::Float(t)) => assert_eq!(t, "2.50"),
        _ => panic!("expected a float literal"),
    }
    match &body[5] {
        Op::GetLit(Val::Str(s)) => assert_eq!(s, "s"),
        _ => panic!("expected a string literal"),
    }
    match &body[6] {
        Op::GetConst(k) => assert_eq!(k, "k"),
        _ => panic!("expected get_const"),
    }
    match &body[7] {
        Op::GetConst(k) => assert_eq!(k, "w"),
        _ => panic!("expected get_const"),
    }
    match &body[8] {
        Op::CallSys(k) => assert_eq!(k, "io/print"),
        _ => panic!("expected call_sys"),
    }
    assert!(matches!(body[9], Op::SetVar(1, 2)));
    assert!(matches!(body[10], Op::GetVar(0, 3)));
    assert!(matches!(body[11], Op::GoTo(4)));
    assert!(matches!(body[12], Op::IfTrueGoTo(5)));
    assert!(matches!(body[13], Op::IfFalseGoTo(6)));
    assert!(matches!(body[14], Op::ReturnCall));
}

#[test]
fn every_plain_mnemonic_round_trips() {
    let source = "m { new_scope end_scope new_var call_func return gte lte gt lt eq not add sub mul div concat to_i64 to_f64 to_string new_vec push_to_vec get_vec_val set_vec_val new_map get_map_val set_map_val }";
    let (_, body) = single(source);
    let expected = [
        "NewScope", "EndScope", "NewVar", "CallFunc", "ReturnCall", "Gte", "Lte", "Gt", "Lt",
        "Eq", "Not", "Add", "Sub", "Mul", "Div", "Concat", "ToInt", "ToFloat", "ToString",
        "NewVec", "PushToVec", "GetVecVal", "SetVecVal", "NewMap", "GetMapVal", "SetMapVal",
    ];
    assert_eq!(body.len(), expected.len());
    for (op, name) in body.iter().zip(expected.iter()) {
        let got = match op {
            Op::NewScope => "NewScope",
            Op::EndScope => "EndScope",
            Op::NewVar => "NewVar",
            Op::CallFunc => "CallFunc",
            Op::ReturnCall => "ReturnCall",
            Op::Gte => "Gte",
            Op::Lte => "Lte",
            Op::Gt => "Gt",
            Op::Lt => "Lt",
            Op::Eq => "Eq",
            Op::Not => "Not",
            Op::Add => "Add",
            Op::Sub => "Sub",
            Op::Mul => "Mul",
            Op::Div => "Div",
            Op::Concat => "Concat",
            Op::ToInt => "ToInt",
            Op::ToFloat => "ToFloat",
            Op::ToString => "ToString",
            Op::NewVec => "NewVec",
            Op::PushToVec => "PushToVec",
            Op::GetVecVal => "GetVecVal",
            Op::SetVecVal => "SetVecVal",
            Op::NewMap => "NewMap",
            Op::GetMapVal => "GetMapVal",
            Op::SetMapVal => "SetMapVal",
            _ => "other",
        };
        assert_eq!(got, *name);
    }
}

#[test]
fn parse_errors() {
    assert!(matches!(read_funcs("", "{ }"), Err(ParseError::ExpectedName)));
    assert!(matches!(read_funcs("", "f add }"), Err(ParseError::ExpectedOpen)));
    assert!(matches!(read_funcs("", "f { add"), Err(ParseError::UnexpectedEnd)));
    assert!(matches!(read_funcs("", "f { jump }"), Err(ParseError::UnknownWord)));
    assert!(matches!(read_funcs("", "f { goto x }"), Err(ParseError::BadOperand)));
    assert!(matches!(read_funcs("", "f { goto -1 }"), Err(ParseError::BadOperand)));
    assert!(matches!(read_funcs("", "f { call_sys name }"), Err(ParseError::BadOperand)));
    assert!(matches!(read_funcs("", "f { 1 u8 }"), Err(ParseError::BadTypeHint)));
    assert!(matches!(read_funcs("", "f { 1.5 i64 }"), Err(ParseError::BadNumber)));
    assert!(matches!(read_funcs("", "f { - f64 }"), Err(ParseError::BadNumber)));
    assert!(matches!(read_funcs("", "f { { }"), Err(ParseError::UnexpectedToken)));
    assert!(matches!(read_funcs("", "f { \"x }"), Err(ParseError::Lex(LexError::UnclosedString))));
}

#[test]
fn parser_reads_definitions_in_order() {
    let mut p = Parser::new("a { add } b { }");
    match p.next_func() {
        Ok(Some((name, body))) => {
            assert_eq!(name, "a");
            assert_eq!(body.len(), 1);
        }
        _ => panic!("expected a definition"),
    }
    assert!(matches!(p.next_func(), Ok(Some(_))));
    assert!(matches!(p.next_func(), Ok(None)));
}

#[test]
fn lexical_error_is_met_only_where_parsing_reaches_it() {
    let mut p = Parser::new("f { add } g { @ }");
    match p.next_func() {
        Ok(Some((name, body))) => {
            assert_eq!(name, "f");
            assert_eq!(body.len(), 1);
            assert!(matches!(body[0], Op::Add));
        }
        _ => panic!("expected the first definition"),
    }
    assert!(matches!(p.next_func(), Err(ParseError::Lex(LexError::Unexpected('@')))));
    assert!(matches!(
        read_funcs("", "f { add } g { @ }"),
        Err(ParseError::Lex(LexError::Unexpected('@')))
    ));
}

#[test]
fn parse_error_before_lexical_error_wins() {
    assert!(matches!(read_funcs("", "f { jump } g { @ }"), Err(ParseError::UnknownWord)));
    assert!(matches!(read_funcs("", "f { goto"), Err(ParseError::UnexpectedEnd)));
    assert!(matches!(
        read_funcs("", "f { goto @"),
        Err(ParseError::Lex(LexError::Unexpected('@')))
    ));
}
