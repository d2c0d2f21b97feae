use vstd::prelude::*;

use crate::machine::{
    advance, below, fetch, find_key, run_model, run_op, set_entry, step_model, Call, EventModel, Machine, Status,
};
use crate::tokenizer::{
    digits_len, escape, is_digit, is_letter, is_number_char, is_word_char, lemma_next_lexeme_advances,
    lemma_lex_partial, lex, next_lexeme, number_len, points, strip_underscores, string_body, token_at, trivia_len,
    word_len, LexError, Lexeme,
};
use crate::parser::{parse_body, parse_defs, parse_op, program, word_op, ParseError};
use crate::value::{OpModel, ValModel};

verus! {

/// When the outermost frame runs `ReturnCall`, the machine halts with status
/// `End`, stays halted, and a bounded run stops right there.
pub proof fn lemma_outermost_return_ends(m: Machine)
    requires
        m.status == Status::Run,
        m.calls.len() == 1,
        fetch(m) == Some(OpModel::ReturnCall),
    ensures
        step_model(m) matches Ok((next, EventModel::Halt)) && next.status == Status::End
            && step_model(next) == Ok::<(Machine, EventModel), crate::machine::Fault>(
            (next, EventModel::Halt),
        ),
        forall|budget: nat| budget > 0 ==> #[trigger] run_model(m, budget) == step_model(m),
{
    reveal(run_op);
    assert forall|budget: nat| budget > 0 implies #[trigger] run_model(m, budget) == step_model(
        m,
    ) by {
        assert(run_model(m, budget) == match step_model(m) {
            Ok((next, EventModel::Continue)) => run_model(next, (budget - 1) as nat),
            other => other,
        });
    }
}

/// Every opcode but `CallFunc`, `ReturnCall`, `NewScope` and `EndScope` leaves
/// the depth of the call stack and of the scope stack as it was.
pub proof fn lemma_depths_kept(m: Machine)
    requires
        fetch(m) matches Some(op) && !(op is CallFunc || op is ReturnCall || op is NewScope
            || op is EndScope),
    ensures
        step_model(m) matches Ok((next, _)) ==> next.calls.len() == m.calls.len()
            && next.scopes.len() == m.scopes.len(),
{
    if m.status == Status::Run {
        let a = advance(m);
        assert(a.calls.len() == m.calls.len() && a.scopes == m.scopes);
        lemma_op_keeps_depths(a, fetch(m)->0);
    }
}

proof fn lemma_op_keeps_depths(a: Machine, op: OpModel)
    requires
        a.calls.len() > 0,
        !(op is CallFunc || op is ReturnCall || op is NewScope || op is EndScope),
    ensures
        run_op(a, op) matches Ok((next, _)) ==> next.calls.len() == a.calls.len()
            && next.scopes.len() == a.scopes.len(),
{
    reveal(run_op);
    match op {
        OpModel::GetConst(_) => {},
        OpModel::GetLit(_) => {},
        OpModel::NewVar => {},
        OpModel::SetVar(_, _) => {},
        OpModel::GetVar(_, _) => {},
        OpModel::CallSys(_) => {},
        OpModel::GoTo(_) => {},
        OpModel::IfTrueGoTo(_) => {},
        OpModel::IfFalseGoTo(_) => {},
        OpModel::Gte => {},
        OpModel::Lte => {},
        OpModel::Gt => {},
        OpModel::Lt => {},
        OpModel::Eq => {},
        OpModel::Not => {},
        OpModel::Add => {},
        OpModel::Sub => {},
        OpModel::Mul => {},
        OpModel::Div => {},
        OpModel::Concat => {},
        OpModel::ToInt => {},
        OpModel::ToFloat => {},
        OpModel::ToString => {},
        OpModel::NewVec => {},
        OpModel::PushToVec => {},
        OpModel::GetVecVal => {},
        OpModel::SetVecVal => {},
        OpModel::NewMap => {},
        OpModel::GetMapVal => {},
        OpModel::SetMapVal => {},
        _ => {},
    }
}

/// A function whose body is `return`, started with one value on the operand
/// stack, halts at once and leaves that value where it was.
pub proof fn lemma_return_only_keeps_value(m: Machine, v: ValModel)
    requires
        m.status == Status::Run,
        m.calls.len() == 1,
        m.calls[0].pc == 0,
        m.calls[0].func < m.funcs.len(),
        m.funcs[m.calls[0].func as int].1 == seq![OpModel::ReturnCall],
        m.vals == seq![v],
    ensures
        step_model(m) matches Ok((next, EventModel::Halt)) && next.status == Status::End
            && next.vals == seq![v],
{
    reveal(run_op);
}

/// The characters of a string literal's body that stand for `c`.
pub open spec fn escape_char(c: char) -> Seq<char> {
    if c == '\t' {
        seq!['\\', 't']
    } else if c == '\n' {
        seq!['\\', 'n']
    } else if c == '\\' {
        seq!['\\', '\\']
    } else if c == '"' {
        seq!['\\', '"']
    } else {
        seq![c]
    }
}

pub open spec fn escaped(c: Seq<char>) -> Seq<char>
    decreases c.len(),
{
    if c.len() == 0 {
        c
    } else {
        escape_char(c[0]) + escaped(c.drop_first())
    }
}

/// The source text of one token.
pub open spec fn render_token(x: Lexeme) -> Seq<char> {
    match x {
        Lexeme::Open => seq!['{'],
        Lexeme::Close => seq!['}'],
        Lexeme::Word(w) => w,
        Lexeme::Number(n) => n,
        Lexeme::Text(c) => seq!['"'] + escaped(c) + seq!['"'],
    }
}

/// Source text for a token stream in canonical spacing: each token followed
/// by one space.
pub open spec fn render(ts: Seq<Lexeme>) -> Seq<char>
    decreases ts.len(),
{
    if ts.len() == 0 {
        Seq::empty()
    } else {
        render_token(ts[0]) + seq![' '] + render(ts.drop_first())
    }
}

/// A token that the tokenizer can produce.
pub open spec fn well_formed(x: Lexeme) -> bool {
    match x {
        Lexeme::Word(w) => w.len() > 0 && (is_letter(w[0]) || w[0] == '_') && forall|i: int|
            0 <= i < w.len() ==> is_word_char(#[trigger] w[i]),
        Lexeme::Number(n) => n.len() > 0 && (is_digit(n[0]) || n[0] == '-') && (forall|i: int|
            1 <= i < n.len() ==> is_digit(#[trigger] n[i]) || n[i] == '.') && points(n) < 2,
        _ => true,
    }
}

proof fn lemma_word_len_of(w: Seq<char>, q: Seq<char>)
    requires
        forall|i: int| 0 <= i < w.len() ==> is_word_char(#[trigger] w[i]),
        q.len() > 0,
        !is_word_char(q[0]),
    ensures
        word_len(w + q) == w.len(),
    decreases w.len(),
{
    if w.len() > 0 {
        assert((w + q).drop_first() =~= w.drop_first() + q);
        lemma_word_len_of(w.drop_first(), q);
    } else {
        assert(w + q =~= q);
    }
}

proof fn lemma_digits_len_of(d: Seq<char>, q: Seq<char>)
    requires
        forall|i: int| 0 <= i < d.len() ==> is_digit(#[trigger] d[i]) || d[i] == '.',
        q.len() > 0,
        !is_number_char(q[0]),
    ensures
        digits_len(d + q) == d.len(),
    decreases d.len(),
{
    if d.len() > 0 {
        assert((d + q).drop_first() =~= d.drop_first() + q);
        lemma_digits_len_of(d.drop_first(), q);
    } else {
        assert(d + q =~= q);
    }
}

proof fn lemma_strip_keeps(n: Seq<char>)
    requires
        forall|i: int| 0 <= i < n.len() ==> #[trigger] n[i] != '_',
    ensures
        strip_underscores(n) == n,
    decreases n.len(),
{
    if n.len() > 0 {
        lemma_strip_keeps(n.drop_first());
        assert(seq![n[0]] + n.drop_first() =~= n);
    }
}

proof fn lemma_string_body_of(c: Seq<char>, q: Seq<char>)
    ensures
        string_body(escaped(c) + seq!['"'] + q) == Ok::<(Seq<char>, nat), LexError>(
            (c, escaped(c).len() + 1),
        ),
    decreases c.len(),
{
    let s = escaped(c) + seq!['"'] + q;
    if c.len() == 0 {
        assert(s =~= seq!['"'] + q);
        assert(s[0] == '"');
        assert(c =~= Seq::<char>::empty());
    } else {
        let ch = c[0];
        let rest = c.drop_first();
        lemma_string_body_of(rest, q);
        let tail = escaped(rest) + seq!['"'] + q;
        assert(seq![ch] + rest =~= c);
        if ch == '\t' || ch == '\n' || ch == '\\' || ch == '"' {
            assert(s =~= escape_char(ch) + tail);
            assert(s[0] == '\\');
            assert(s.skip(2) =~= tail);
            assert(escape(s[1]) == Some(ch));
            assert(s.len() >= 2);
            assert(string_body(s) == Ok::<(Seq<char>, nat), LexError>(
                (seq![ch] + rest, escaped(rest).len() + 1 + 2),
            ));
        } else {
            assert(s =~= seq![ch] + tail);
            assert(s.drop_first() =~= tail);
            assert(string_body(s) == Ok::<(Seq<char>, nat), LexError>(
                (seq![ch] + rest, escaped(rest).len() + 1 + 1),
            ));
        }
    }
}

/// A well-formed token followed by a space is read back as itself, and the
/// space is where reading goes on.
proof fn lemma_next_lexeme_of(x: Lexeme, q: Seq<char>)
    requires
        well_formed(x),
    ensures
        next_lexeme(render_token(x) + seq![' '] + q) == Ok::<Option<(Lexeme, nat)>, LexError>(
            Some((x, render_token(x).len()))),
        render_token(x).len() > 0,
{
    let r = render_token(x);
    let s = r + seq![' '] + q;
    let q2 = seq![' '] + q;
    assert(s =~= r + q2);
    match x {
        Lexeme::Open => {
            assert(s[0] == '{');
        },
        Lexeme::Close => {
            assert(s[0] == '}');
        },
        Lexeme::Word(w) => {
            lemma_word_len_of(w, q2);
            assert(s[0] == w[0]);
            assert(s.take(w.len() as int) =~= w);
        },
        Lexeme::Number(n) => {
            assert(s[0] == n[0]);
            assert(s.take(n.len() as int) =~= n);
            lemma_strip_keeps(n);
            if n[0] == '-' {
                assert(s.drop_first() =~= n.drop_first() + q2);
                lemma_digits_len_of(n.drop_first(), q2);
            } else {
                lemma_digits_len_of(n, q2);
            }
        },
        Lexeme::Text(c) => {
            lemma_string_body_of(c, q2);
            assert(s[0] == '"');
            assert(s.drop_first() =~= escaped(c) + seq!['"'] + q2);
        },
    }
    assert(trivia_len(s) == Ok::<nat, LexError>(0));
    assert(s.skip(0) =~= s);
}

/// A leading space does not change the tokens of a text.
proof fn lemma_lex_space(q: Seq<char>)
    ensures
        lex(seq![' '] + q) == lex(q),
{
    let s = seq![' '] + q;
    assert(s.drop_first() =~= q);
    lemma_next_lexeme_advances(q);
    match trivia_len(q) {
        Ok(t) => {
            assert(trivia_len(s) == Ok::<nat, LexError>(t + 1));
            if t < q.len() {
                assert(s.skip((t + 1) as int) =~= q.skip(t as int));
                match token_at(q.skip(t as int)) {
                    Ok((x, n)) => {
                        assert(s.skip((t + 1 + n) as int) =~= q.skip((t + n) as int));
                    },
                    Err(_) => {},
                }
            }
        },
        Err(_) => {},
    }
}

/// Well-formed tokens, written out with one space after each, read back as
/// themselves.
pub proof fn lemma_lex_render(ts: Seq<Lexeme>)
    requires
        forall|k: int| 0 <= k < ts.len() ==> well_formed(#[trigger] ts[k]),
    ensures
        lex(render(ts)) == Ok::<Seq<Lexeme>, LexError>(ts),
    decreases ts.len(),
{
    if ts.len() == 0 {
        assert(lex(render(ts)) == Ok::<Seq<Lexeme>, LexError>(Seq::empty()));
        assert(ts =~= Seq::<Lexeme>::empty());
    } else {
        let x = ts[0];
        let rest = ts.drop_first();
        assert forall|k: int| 0 <= k < rest.len() implies well_formed(#[trigger] rest[k]) by {
            assert(rest[k] == ts[k + 1]);
        }
        lemma_lex_render(rest);
        let s = render(ts);
        let l = render_token(x).len();
        lemma_next_lexeme_of(x, render(rest));
        assert(s.skip(l as int) =~= seq![' '] + render(rest));
        lemma_lex_space(render(rest));
        assert(seq![x] + rest =~= ts);
    }
}

proof fn lemma_word_chars(r: Seq<char>)
    ensures
        forall|i: int| 0 <= i < word_len(r) ==> is_word_char(#[trigger] r[i]),
        word_len(r) <= r.len(),
    decreases r.len(),
{
    if r.len() > 0 && is_word_char(r[0]) {
        lemma_word_chars(r.drop_first());
        assert forall|i: int| 0 <= i < word_len(r) implies is_word_char(#[trigger] r[i]) by {
            if i > 0 {
                assert(r[i] == r.drop_first()[i - 1]);
            }
        }
    }
}

proof fn lemma_digit_chars(r: Seq<char>)
    ensures
        forall|i: int| 0 <= i < digits_len(r) ==> is_number_char(#[trigger] r[i]),
        digits_len(r) <= r.len(),
    decreases r.len(),
{
    if r.len() > 0 && is_number_char(r[0]) {
        lemma_digit_chars(r.drop_first());
        assert forall|i: int| 0 <= i < digits_len(r) implies is_number_char(#[trigger] r[i]) by {
            if i > 0 {
                assert(r[i] == r.drop_first()[i - 1]);
            }
        }
    }
}

/// Dropping underscores from number characters leaves digits and points, as
/// many points as before.
proof fn lemma_strip_number(u: Seq<char>)
    requires
        forall|i: int| 0 <= i < u.len() ==> is_number_char(#[trigger] u[i]),
    ensures
        forall|i: int|
            0 <= i < strip_underscores(u).len() ==> is_digit(#[trigger] strip_underscores(u)[i])
                || strip_underscores(u)[i] == '.',
        points(strip_underscores(u)) == points(u),
    decreases u.len(),
{
    if u.len() > 0 {
        let rest = u.drop_first();
        lemma_strip_number(rest);
        let sr = strip_underscores(rest);
        if u[0] != '_' {
            let su = seq![u[0]] + sr;
            assert(su.drop_first() =~= sr);
            assert forall|i: int| 0 <= i < su.len() implies is_digit(#[trigger] su[i]) || su[i]
                == '.' by {
                if i > 0 {
                    assert(su[i] == sr[i - 1]);
                }
            }
        }
    }
}

proof fn lemma_token_well_formed(r: Seq<char>)
    requires
        r.len() > 0,
    ensures
        token_at(r) matches Ok((x, _)) ==> well_formed(x),
{
    if r.len() > 0 {
        if is_digit(r[0]) || r[0] == '-' {
            let n = number_len(r);
            let seg = r.take(n as int);
            if points(seg) < 2 {
                let body = seg.drop_first();
                if r[0] == '-' {
                    lemma_digit_chars(r.drop_first());
                    assert forall|i: int| 0 <= i < body.len() implies is_number_char(
                        #[trigger] body[i],
                    ) by {
                        assert(body[i] == r.drop_first()[i]);
                    }
                } else {
                    lemma_digit_chars(r);
                    assert forall|i: int| 0 <= i < body.len() implies is_number_char(
                        #[trigger] body[i],
                    ) by {
                        assert(body[i] == r[i + 1]);
                    }
                }
                lemma_strip_number(body);
                let sb = strip_underscores(body);
                let t = strip_underscores(seg);
                assert(seg[0] == r[0]);
                assert(t == seq![seg[0]] + strip_underscores(seg.drop_first()));
                assert(t.drop_first() =~= sb);
                assert forall|i: int| 1 <= i < t.len() implies is_digit(#[trigger] t[i]) || t[i]
                    == '.' by {
                    assert(t[i] == sb[i - 1]);
                }
                assert(points(seg) == (if seg[0] == '.' { 1nat } else { 0nat }) + points(body));
                assert(points(t) == (if t[0] == '.' { 1nat } else { 0nat }) + points(t.drop_first()));
            }
        } else if is_letter(r[0]) || r[0] == '_' {
            lemma_word_chars(r);
            let w = r.take(word_len(r) as int);
            assert forall|i: int| 0 <= i < w.len() implies is_word_char(#[trigger] w[i]) by {
                assert(w[i] == r[i]);
            }
        }
    }
}

proof fn lemma_lex_well_formed(s: Seq<char>)
    ensures
        lex(s) matches Ok(ts) ==> forall|k: int| 0 <= k < ts.len() ==> well_formed(#[trigger] ts[k]),
    decreases s.len(),
{
    lemma_next_lexeme_advances(s);
    if let Ok(Some((x, n))) = next_lexeme(s) {
        let t = trivia_len(s)->Ok_0;
        lemma_token_well_formed(s.skip(t as int));
        if 0 < n <= s.len() {
            lemma_lex_well_formed(s.skip(n as int));
            if let Ok(ts) = lex(s) {
                let rest = lex(s.skip(n as int))->Ok_0;
                assert(ts == seq![x] + rest);
                assert forall|k: int| 0 <= k < ts.len() implies well_formed(#[trigger] ts[k]) by {
                    if k > 0 {
                        assert(ts[k] == rest[k - 1]);
                    }
                }
            }
        }
    }
}

/// Tokenizing, writing the tokens back out with one space after each, and
/// tokenizing again gives the same tokens.
pub proof fn lemma_tokens_round_trip(s: Seq<char>)
    ensures
        lex(s) matches Ok(ts) ==> lex(render(ts)) == Ok::<Seq<Lexeme>, LexError>(ts),
{
    lemma_lex_well_formed(s);
    if let Ok(ts) = lex(s) {
        lemma_lex_render(ts);
    }
}

/// Source text `N { return }` defines one function, named `N` after the
/// prefix, whose body is the single opcode `ReturnCall`.
pub proof fn lemma_return_only_parses(prefix: Seq<char>, name: Seq<char>)
    requires
        well_formed(Lexeme::Word(name)),
    ensures
        program(prefix, name + seq![' ', '{', ' ', 'r', 'e', 't', 'u', 'r', 'n', ' ', '}'])
            == Ok::<Seq<(Seq<char>, Seq<OpModel>)>, ParseError>(
            seq![(prefix + name, seq![OpModel::ReturnCall])],
        ),
{
    let ret = seq!['r', 'e', 't', 'u', 'r', 'n'];
    assert forall|i: int| 0 <= i < ret.len() implies is_word_char(#[trigger] ret[i]) by {
        assert(ret[i] == 'r' || ret[i] == 'e' || ret[i] == 't' || ret[i] == 'u' || ret[i] == 'n');
    }
    let close = seq!['}'];
    let t3 = ret + seq![' '] + close;
    let t2 = seq!['{'] + seq![' '] + t3;
    let text = name + seq![' '] + t2;
    assert(text =~= name + seq![' ', '{', ' ', 'r', 'e', 't', 'u', 'r', 'n', ' ', '}']);
    // The last token.
    assert(trivia_len(close) == Ok::<nat, LexError>(0));
    assert(close.skip(0) =~= close);
    assert(close.skip(1) =~= Seq::<char>::empty());
    assert(lex(Seq::<char>::empty()) == Ok::<Seq<Lexeme>, LexError>(Seq::empty()));
    assert(lex(close) == Ok::<Seq<Lexeme>, LexError>(seq![Lexeme::Close]));
    lemma_lex_token_then(Lexeme::Word(ret), close);
    lemma_lex_token_then(Lexeme::Open, t3);
    lemma_lex_token_then(Lexeme::Word(name), t2);
    let ts = seq![Lexeme::Word(name), Lexeme::Open, Lexeme::Word(ret), Lexeme::Close];
    assert(lex(text) == Ok::<Seq<Lexeme>, LexError>(ts)) by {
        assert(seq![Lexeme::Word(ret)] + seq![Lexeme::Close] =~= ts.skip(2));
        assert(seq![Lexeme::Open] + ts.skip(2) =~= ts.skip(1));
        assert(seq![Lexeme::Word(name)] + ts.skip(1) =~= ts);
    }
    assert(word_op(ret) == Some(OpModel::ReturnCall));
    assert(parse_op(ts, 2) == Ok::<(OpModel, int), ParseError>((OpModel::ReturnCall, 3)));
    assert(parse_body(ts, 3) == Ok::<(Seq<OpModel>, int), ParseError>((Seq::empty(), 4)));
    assert(parse_body(ts, 2) == Ok::<(Seq<OpModel>, int), ParseError>(
        (seq![OpModel::ReturnCall], 4),
    )) by {
        assert(seq![OpModel::ReturnCall] + Seq::<OpModel>::empty() =~= seq![OpModel::ReturnCall]);
    }
    lemma_lex_partial(text);
    assert(parse_defs(ts, None, 4) == Ok::<Seq<(Seq<char>, Seq<OpModel>)>, ParseError>(
        Seq::empty(),
    ));
    let d = (name, seq![OpModel::ReturnCall]);
    assert(parse_defs(ts, None, 0) == Ok::<Seq<(Seq<char>, Seq<OpModel>)>, ParseError>(seq![d]))
        by {
        assert(seq![d] + Seq::<(Seq<char>, Seq<OpModel>)>::empty() =~= seq![d]);
    }
    let f = |e: (Seq<char>, Seq<OpModel>)| (prefix + e.0, e.1);
    assert(seq![d].map_values(f) =~= seq![(prefix + name, seq![OpModel::ReturnCall])]);
}

/// A well-formed token, a space, then `q`: the token comes first, then the
/// tokens of `q`.
proof fn lemma_lex_token_then(x: Lexeme, q: Seq<char>)
    requires
        well_formed(x),
    ensures
        lex(render_token(x) + seq![' '] + q) == match lex(q) {
            Ok(ts) => Ok(seq![x] + ts),
            Err(e) => Err(e),
        },
{
    let s = render_token(x) + seq![' '] + q;
    let l = render_token(x).len();
    lemma_next_lexeme_of(x, q);
    assert(s.skip(l as int) =~= seq![' '] + q);
    lemma_lex_space(q);
}

/// No two entries of a map's entry list hold the same key.
pub open spec fn keys_unique(e: Seq<(Seq<char>, ValModel)>) -> bool {
    forall|i: int, j: int| 0 <= i < j < e.len() ==> (#[trigger] e[i]).0 != (#[trigger] e[j]).0
}

/// Every map of the machine holds each key at most once.
pub open spec fn maps_well_formed(m: Machine) -> bool {
    forall|h: int| 0 <= h < m.maps.len() ==> keys_unique(#[trigger] m.maps[h])
}

/// Binding a key keeps the keys of a map unique.
pub proof fn lemma_set_entry_keeps_keys_unique(e: Seq<(Seq<char>, ValModel)>, k: Seq<char>, v: ValModel)
    requires
        keys_unique(e),
    ensures
        keys_unique(set_entry(e, k, v)),
{
    let r = set_entry(e, k, v);
    match find_key(e, k) {
        Some(i) => {
            assert forall|a: int, b: int| 0 <= a < b < r.len() implies (#[trigger] r[a]).0 != (
            #[trigger] r[b]).0 by {
                assert(r[a].0 == e[a].0);
                assert(r[b].0 == e[b].0);
            }
        },
        None => {
            assert forall|a: int, b: int| 0 <= a < b < r.len() implies (#[trigger] r[a]).0 != (
            #[trigger] r[b]).0 by {
                if b == e.len() {
                    assert(r[a] == e[a]);
                } else {
                    assert(r[a] == e[a] && r[b] == e[b]);
                }
            }
        },
    }
}

/// Every step keeps the keys of every map unique; a fresh machine has no map,
/// so the maps of a running machine never hold a key twice.
pub proof fn lemma_step_keeps_keys_unique(m: Machine)
    requires
        maps_well_formed(m),
    ensures
        step_model(m) matches Ok((next, _)) ==> maps_well_formed(next),
{
    if m.status == Status::Run && fetch(m) is Some {
        let a = advance(m);
        assert(a.maps == m.maps);
        lemma_op_keeps_keys_unique(a, fetch(m)->0);
    }
}

proof fn lemma_op_keeps_keys_unique(a: Machine, op: OpModel)
    requires
        maps_well_formed(a),
    ensures
        run_op(a, op) matches Ok((next, _)) ==> maps_well_formed(next),
{
    reveal(run_op);
    match op {
        OpModel::NewMap => {
            if let Ok((next, _)) = run_op(a, op) {
                assert forall|h: int| 0 <= h < next.maps.len() implies keys_unique(
                    #[trigger] next.maps[h],
                ) by {
                    if h < a.maps.len() {
                        assert(next.maps[h] == a.maps[h]);
                    }
                }
            }
        },
        OpModel::SetMapVal => {
            if let Ok((next, _)) = run_op(a, op) {
                let h = below(a, 0)->Dict_0 as int;
                let k = below(a, 1)->Str_0;
                lemma_set_entry_keeps_keys_unique(a.maps[h], k, below(a, 2));
                assert forall|g: int| 0 <= g < next.maps.len() implies keys_unique(
                    #[trigger] next.maps[g],
                ) by {
                    if g != h {
                        assert(next.maps[g] == a.maps[g]);
                    }
                }
            }
        },
        _ => {
            assert(run_op(a, op) matches Ok((next, _)) ==> next.maps == a.maps);
        },
    }
}

proof fn lemma_op_halts_only_on_last_return(a: Machine, op: OpModel)
    ensures
        run_op(a, op) matches Ok((next, e)) ==> ((e is Halt <==> (op is ReturnCall
            && a.calls.len() == 1)) && (e is Halt ==> next.status == Status::End
            && next.calls.len() == 0) && (!(e is Halt) ==> next.status == a.status)),
{
    reveal(run_op);
    match op {
        OpModel::GetConst(_) => {},
        OpModel::GetLit(_) => {},
        OpModel::NewScope => {},
        OpModel::EndScope => {},
        OpModel::NewVar => {},
        OpModel::SetVar(_, _) => {},
        OpModel::GetVar(_, _) => {},
        OpModel::CallSys(_) => {},
        OpModel::CallFunc => {},
        OpModel::ReturnCall => {},
        OpModel::GoTo(_) => {},
        OpModel::IfTrueGoTo(_) => {},
        OpModel::IfFalseGoTo(_) => {},
        OpModel::Gte => {},
        OpModel::Lte => {},
        OpModel::Gt => {},
        OpModel::Lt => {},
        OpModel::Eq => {},
        OpModel::Not => {},
        OpModel::Add => {},
        OpModel::Sub => {},
        OpModel::Mul => {},
        OpModel::Div => {},
        OpModel::Concat => {},
        OpModel::ToInt => {},
        OpModel::ToFloat => {},
        OpModel::ToString => {},
        OpModel::NewVec => {},
        OpModel::PushToVec => {},
        OpModel::GetVecVal => {},
        OpModel::SetVecVal => {},
        OpModel::NewMap => {},
        OpModel::GetMapVal => {},
        OpModel::SetMapVal => {},
    }
}

/// A running machine halts only when its outermost frame runs `ReturnCall`,
/// and then it has status `End` and no frame left; every other step leaves it
/// running. This holds whatever host calls were served before.
pub proof fn lemma_halt_only_at_outermost_return(m: Machine)
    requires
        m.status == Status::Run,
    ensures
        step_model(m) matches Ok((next, e)) ==> ((e is Halt <==> (fetch(m) == Some(
            OpModel::ReturnCall,
        ) && m.calls.len() == 1)) && (e is Halt ==> next.status == Status::End
            && next.calls.len() == 0) && (!(e is Halt) ==> next.status == Status::Run)),
{
    if fetch(m) is Some {
        lemma_op_halts_only_on_last_return(advance(m), fetch(m)->0);
    }
}

/// A bounded run from a running machine that ends in `Halt` leaves the machine
/// with status `End` and no frame.
pub proof fn lemma_run_halts_with_end(m: Machine, budget: nat)
    requires
        m.status == Status::Run,
    ensures
        run_model(m, budget) matches Ok((next, EventModel::Halt)) ==> next.status == Status::End
            && next.calls.len() == 0,
    decreases budget,
{
    if budget > 0 {
        lemma_halt_only_at_outermost_return(m);
        if let Ok((next, EventModel::Continue)) = step_model(m) {
            lemma_run_halts_with_end(next, (budget - 1) as nat);
        }
    }
}

/// The scope stack changes only through `NewScope`, which adds one scope, and
/// `EndScope`, which removes one: every other opcode, calls and returns
/// included, leaves its depth as it was. So a program in which each
/// `NewScope` is closed by an `EndScope` on every path ends with the scope
/// depth it started with; the machine relies on the program for that balance
/// and does not check it.
pub proof fn lemma_scope_depth_changes(m: Machine)
    requires
        m.status == Status::Run,
        fetch(m) is Some,
    ensures
        step_model(m) matches Ok((next, _)) ==> next.scopes.len() == m.scopes.len() + (if fetch(
            m,
        ) == Some(OpModel::NewScope) {
            1int
        } else if fetch(m) == Some(OpModel::EndScope) {
            -1int
        } else {
            0int
        }),
{
    let op = fetch(m)->0;
    let a = advance(m);
    assert(a.scopes == m.scopes);
    if op is CallFunc || op is ReturnCall || op is NewScope || op is EndScope {
        reveal(run_op);
    } else {
        lemma_op_keeps_depths(a, op);
    }
}

} // verus!
