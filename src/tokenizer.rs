use vstd::prelude::*;

use crate::text::chars_of;

verus! {

/// What a token denotes.
pub enum Lexeme {
    Open,
    Close,
    Word(Seq<char>),
    Number(Seq<char>),
    Text(Seq<char>),
}

/// One token of source text: `{`, `}`, a word, a number literal (without its
/// underscores) or a string literal (with its escapes resolved).
pub enum Token {
    OBracket,
    CBracket,
    Word(Vec<char>),
    Number(Vec<char>),
    Text(Vec<char>),
}

impl View for Token {
    type V = Lexeme;

    open spec fn view(&self) -> Lexeme {
        match self {
            Token::OBracket => Lexeme::Open,
            Token::CBracket => Lexeme::Close,
            Token::Word(w) => Lexeme::Word(w@),
            Token::Number(n) => Lexeme::Number(n@),
            Token::Text(t) => Lexeme::Text(t@),
        }
    }
}

pub open spec fn lexemes(v: Seq<Token>) -> Seq<Lexeme> {
    v.map_values(|t: Token| t@)
}

/// Why source text could not be split into tokens.
#[derive(PartialEq, Eq, Structural, Clone, Copy, Debug)]
pub enum LexError {
    UnclosedComment,
    UnclosedString,
    BadEscape,
    SecondPoint,
    Unexpected(char),
}

pub open spec fn is_blank(c: char) -> bool {
    c == ' ' || c == '\t' || c == '\n' || c == '\r'
}

pub open spec fn is_digit(c: char) -> bool {
    '0' <= c <= '9'
}

pub open spec fn is_letter(c: char) -> bool {
    ('A' <= c <= 'Z') || ('a' <= c <= 'z')
}

pub open spec fn is_word_char(c: char) -> bool {
    is_digit(c) || is_letter(c) || c == '_'
}

pub open spec fn is_number_char(c: char) -> bool {
    is_digit(c) || c == '_' || c == '.'
}

/// Length of the comment body that `s` starts with, up to and including the
/// `|` or newline that closes it.
pub open spec fn comment_len(s: Seq<char>) -> Option<nat>
    decreases s.len(),
{
    if s.len() == 0 {
        None
    } else if s[0] == '|' || s[0] == '\n' {
        Some(1)
    } else {
        match comment_len(s.drop_first()) {
            Some(n) => Some(n + 1),
            None => None,
        }
    }
}

/// Length of the blanks and comments that `s` starts with.
pub open spec fn trivia_len(s: Seq<char>) -> Result<nat, LexError>
    decreases s.len(),
{
    if s.len() == 0 {
        Ok(0)
    } else if is_blank(s[0]) {
        match trivia_len(s.drop_first()) {
            Ok(n) => Ok(n + 1),
            Err(e) => Err(e),
        }
    } else if s[0] == '|' {
        match comment_len(s.drop_first()) {
            None => Err(LexError::UnclosedComment),
            Some(c) => if 0 < c + 1 <= s.len() {
                match trivia_len(s.skip((c + 1) as int)) {
                    Ok(n) => Ok(n + c + 1),
                    Err(e) => Err(e),
                }
            } else {
                Ok(0)
            },
        }
    } else {
        Ok(0)
    }
}

pub open spec fn word_len(s: Seq<char>) -> nat
    decreases s.len(),
{
    if s.len() > 0 && is_word_char(s[0]) {
        1 + word_len(s.drop_first())
    } else {
        0
    }
}

/// Length of the digits, points and underscores that `s` starts with.
pub open spec fn digits_len(s: Seq<char>) -> nat
    decreases s.len(),
{
    if s.len() > 0 && is_number_char(s[0]) {
        1 + digits_len(s.drop_first())
    } else {
        0
    }
}

/// Length of the number literal that `s` starts with: one optional leading
/// `-`, then digits, points and underscores.
pub open spec fn number_len(s: Seq<char>) -> nat {
    if s.len() > 0 && s[0] == '-' {
        1 + digits_len(s.drop_first())
    } else {
        digits_len(s)
    }
}

pub open spec fn points(s: Seq<char>) -> nat
    decreases s.len(),
{
    if s.len() == 0 {
        0
    } else {
        (if s[0] == '.' { 1nat } else { 0nat }) + points(s.drop_first())
    }
}

pub open spec fn strip_underscores(s: Seq<char>) -> Seq<char>
    decreases s.len(),
{
    if s.len() == 0 {
        s
    } else if s[0] == '_' {
        strip_underscores(s.drop_first())
    } else {
        seq![s[0]] + strip_underscores(s.drop_first())
    }
}

/// The character that an escape `\c` stands for.
pub open spec fn escape(c: char) -> Option<char> {
    if c == 't' {
        Some('\t')
    } else if c == 'n' {
        Some('\n')
    } else if c == '\\' {
        Some('\\')
    } else if c == '"' {
        Some('"')
    } else {
        None
    }
}

/// The contents of the string literal whose body `s` starts with (just after
/// the opening quote), and how many characters it takes up to and including
/// the closing quote.
pub open spec fn string_body(s: Seq<char>) -> Result<(Seq<char>, nat), LexError>
    decreases s.len(),
{
    if s.len() == 0 {
        Err(LexError::UnclosedString)
    } else if s[0] == '"' {
        Ok((Seq::empty(), 1))
    } else if s[0] == '\\' {
        if s.len() < 2 {
            Err(LexError::BadEscape)
        } else {
            match escape(s[1]) {
                None => Err(LexError::BadEscape),
                Some(e) => match string_body(s.skip(2)) {
                    Ok((c, n)) => Ok((seq![e] + c, n + 2)),
                    Err(x) => Err(x),
                },
            }
        }
    } else {
        match string_body(s.drop_first()) {
            Ok((c, n)) => Ok((seq![s[0]] + c, n + 1)),
            Err(x) => Err(x),
        }
    }
}

/// The token that `s` starts with (`s` does not start with a blank or a
/// comment), and its length.
pub open spec fn token_at(s: Seq<char>) -> Result<(Lexeme, nat), LexError>
    recommends
        s.len() > 0,
{
    if s[0] == '{' {
        Ok((Lexeme::Open, 1))
    } else if s[0] == '}' {
        Ok((Lexeme::Close, 1))
    } else if s[0] == '"' {
        match string_body(s.drop_first()) {
            Ok((c, n)) => Ok((Lexeme::Text(c), n + 1)),
            Err(e) => Err(e),
        }
    } else if is_digit(s[0]) || s[0] == '-' {
        let n = number_len(s);
        if points(s.take(n as int)) >= 2 {
            Err(LexError::SecondPoint)
        } else {
            Ok((Lexeme::Number(strip_underscores(s.take(n as int))), n))
        }
    } else if is_letter(s[0]) || s[0] == '_' {
        Ok((Lexeme::Word(s.take(word_len(s) as int)), word_len(s)))
    } else {
        Err(LexError::Unexpected(s[0]))
    }
}

/// The next token of `s` after blanks and comments, and how many characters
/// it takes to reach its end; `None` at the end of the text.
pub open spec fn next_lexeme(s: Seq<char>) -> Result<Option<(Lexeme, nat)>, LexError> {
    match trivia_len(s) {
        Err(e) => Err(e),
        Ok(t) => if t >= s.len() {
            Ok(None)
        } else {
            match token_at(s.skip(t as int)) {
                Ok((x, n)) => Ok(Some((x, t + n))),
                Err(e) => Err(e),
            }
        },
    }
}

/// The tokens of source text `s`, or the first reason it has none.
pub open spec fn lex(s: Seq<char>) -> Result<Seq<Lexeme>, LexError>
    decreases s.len(),
{
    match next_lexeme(s) {
        Err(e) => Err(e),
        Ok(None) => Ok(Seq::empty()),
        Ok(Some((x, n))) => if 0 < n <= s.len() {
            match lex(s.skip(n as int)) {
                Ok(ts) => Ok(seq![x] + ts),
                Err(e) => Err(e),
            }
        } else {
            Ok(seq![x])
        },
    }
}

/// The tokens of `s` up to its first lexical error, and that error; `None` when
/// the whole text splits into tokens.
pub open spec fn lex_partial(s: Seq<char>) -> (Seq<Lexeme>, Option<LexError>)
    decreases s.len(),
{
    match next_lexeme(s) {
        Err(e) => (Seq::empty(), Some(e)),
        Ok(None) => (Seq::empty(), None),
        Ok(Some((x, n))) => if 0 < n <= s.len() {
            let rest = lex_partial(s.skip(n as int));
            (seq![x] + rest.0, rest.1)
        } else {
            (seq![x], None)
        },
    }
}

/// Text that splits into tokens has them all before no error; text that does
/// not fails with the error that ends its partial reading.
pub proof fn lemma_lex_partial(s: Seq<char>)
    ensures
        lex(s) matches Ok(ts) ==> lex_partial(s) == (ts, None::<LexError>),
        lex(s) matches Err(e) ==> lex_partial(s).1 == Some(e),
    decreases s.len(),
{
    if let Ok(Some((x, n))) = next_lexeme(s) {
        if 0 < n <= s.len() {
            lemma_lex_partial(s.skip(n as int));
        }
    }
}

/// Splits text into tokens, one at a time.
pub struct Tokenizer {
    chars: Vec<char>,
    pos: usize,
}

impl Tokenizer {
    /// The text not yet read.
    pub closed spec fn rest(&self) -> Seq<char> {
        self.chars@.skip(self.pos as int)
    }

    pub closed spec fn wf(&self) -> bool {
        self.pos <= self.chars@.len() <= usize::MAX
    }

    pub fn from(string: &str) -> (r: Tokenizer)
        ensures
            r.wf(),
            r.rest() == string@,
    {
        let chars = chars_of(string);
        let _len = chars.len();
        let r = Tokenizer { chars, pos: 0 };
        assert(r.rest() =~= string@);
        r
    }

    fn peek(&self) -> (r: Option<char>)
        requires
            self.wf(),
        ensures
            self.rest().len() == 0 ==> r is None,
            self.rest().len() > 0 ==> r == Some(self.rest()[0]),
    {
        if self.pos < self.chars.len() {
            Some(self.chars[self.pos])
        } else {
            None
        }
    }

    proof fn lemma_advance(&self, n: int)
        requires
            self.wf(),
            0 <= n <= self.rest().len(),
        ensures
            self.rest().skip(n) == self.chars@.skip(self.pos + n),
            n == 1 ==> self.rest().drop_first() == self.chars@.skip(self.pos + 1),
    {
        assert(self.rest().skip(n) =~= self.chars@.skip(self.pos + n));
        if n == 1 {
            assert(self.rest().drop_first() =~= self.chars@.skip(self.pos + 1));
        }
    }

    /// Skips a comment; the next character is its opening `|`.
    fn skip_comment(&mut self) -> (r: Result<(), LexError>)
        requires
            old(self).wf(),
            old(self).rest().len() > 0,
            old(self).rest()[0] == '|',
        ensures
            final(self).wf(),
            final(self).chars@ == old(self).chars@,
            r is Err ==> comment_len(old(self).rest().drop_first()) is None && r == Err::<
                (),
                LexError,
            >(LexError::UnclosedComment),
            r is Ok ==> comment_len(old(self).rest().drop_first()) == Some(
                (final(self).pos - old(self).pos - 1) as nat,
            ) && old(self).pos < final(self).pos,
    {
        let ghost s0 = self.rest();
        let start = self.pos;
        proof {
            self.lemma_advance(1);
        }
        self.pos = self.pos + 1;
        loop
            invariant
                self.wf(),
                self.chars@ == old(self).chars@,
                start == old(self).pos,
                start < self.pos,
                s0 == self.chars@.skip(start as int),
                comment_len(s0.drop_first()) == match comment_len(self.rest()) {
                    Some(n) => Some((n + (self.pos - start - 1)) as nat),
                    None => None,
                },
            decreases self.chars@.len() - self.pos,
        {
            match self.peek() {
                None => {
                    return Err(LexError::UnclosedComment);
                },
                Some(c) => {
                    proof {
                        self.lemma_advance(1);
                    }
                    self.pos = self.pos + 1;
                    if c == '|' || c == '\n' {
                        return Ok(());
                    }
                },
            }
        }
    }

    /// Skips blanks and comments.
    fn skip_trivia(&mut self) -> (r: Result<(), LexError>)
        requires
            old(self).wf(),
        ensures
            final(self).wf(),
            final(self).chars@ == old(self).chars@,
            match trivia_len(old(self).rest()) {
                Err(e) => r == Err::<(), LexError>(e),
                Ok(t) => r is Ok && final(self).pos == old(self).pos + t,
            },
    {
        let ghost s0 = self.rest();
        let ghost start = self.pos;
        loop
            invariant
                self.wf(),
                self.chars@ == old(self).chars@,
                start == old(self).pos,
                start <= self.pos,
                s0 == self.chars@.skip(start as int),
                trivia_len(s0) == match trivia_len(self.rest()) {
                    Ok(n) => Ok((n + (self.pos - start)) as nat),
                    Err(e) => Err(e),
                },
            decreases self.chars@.len() - self.pos,
        {
            match self.peek() {
                Some(c) => {
                    if c == ' ' || c == '\t' || c == '\n' || c == '\r' {
                        proof {
                            self.lemma_advance(1);
                        }
                        self.pos = self.pos + 1;
                    } else if c == '|' {
                        let ghost before = self.pos;
                        let ghost rest = self.rest();
                        match self.skip_comment() {
                            Err(e) => {
                                return Err(e);
                            },
                            Ok(()) => {
                                assert(rest.skip((self.pos - before) as int) =~= self.rest());
                            },
                        }
                    } else {
                        return Ok(());
                    }
                },
                None => {
                    return Ok(());
                },
            }
        }
    }

    fn build_word(&mut self) -> (r: Vec<char>)
        requires
            old(self).wf(),
        ensures
            final(self).wf(),
            final(self).chars@ == old(self).chars@,
            final(self).pos == old(self).pos + word_len(old(self).rest()),
            r@ == old(self).rest().take(word_len(old(self).rest()) as int),
    {
        let ghost s0 = self.rest();
        let ghost start = self.pos;
        let mut word: Vec<char> = Vec::new();
        loop
            invariant
                self.wf(),
                self.chars@ == old(self).chars@,
                start == old(self).pos,
                start <= self.pos,
                s0 == self.chars@.skip(start as int),
                word_len(s0) == word_len(self.rest()) + (self.pos - start),
                word@ == s0.take(self.pos - start),
                self.pos - start <= s0.len(),
            decreases self.chars@.len() - self.pos,
        {
            match self.peek() {
                Some(c) => {
                    if ('0' <= c && c <= '9') || ('A' <= c && c <= 'Z') || ('a' <= c && c <= 'z')
                        || c == '_' {
                        proof {
                            self.lemma_advance(1);
                            assert(s0.take(self.pos - start + 1) =~= s0.take(self.pos - start).push(
                                c,
                            ));
                        }
                        word.push(c);
                        self.pos = self.pos + 1;
                    } else {
                        return word;
                    }
                },
                None => {
                    return word;
                },
            }
        }
    }

    fn build_number(&mut self) -> (r: Result<Vec<char>, LexError>)
        requires
            old(self).wf(),
        ensures
            final(self).wf(),
            final(self).chars@ == old(self).chars@,
            ({
                let s = old(self).rest();
                let n = number_len(s);
                if points(s.take(n as int)) >= 2 {
                    r == Err::<Vec<char>, LexError>(LexError::SecondPoint)
                } else {
                    r is Ok && r->Ok_0@ == strip_underscores(s.take(n as int))
                        && final(self).pos == old(self).pos + n
                }
            }),
    {
        let ghost s0 = self.rest();
        let ghost start = self.pos;
        let ghost n0 = number_len(s0);
        let mut num: Vec<char> = Vec::new();
        let mut seen_point = false;
        if self.peek() == Some('-') {
            proof {
                self.lemma_advance(1);
                let d = digits_len(s0.drop_first());
                lemma_digits_len_bound(s0.drop_first());
                assert(s0.take(n0 as int).drop_first() =~= s0.drop_first().take(d as int));
                assert(s0.take(n0 as int)[0] == '-');
                assert(strip_underscores(s0.take(n0 as int)) == seq!['-'] + strip_underscores(
                    s0.drop_first().take(d as int),
                ));
                assert(points(s0.take(n0 as int)) == points(s0.drop_first().take(d as int)));
            }
            num.push('-');
            self.pos = self.pos + 1;
            assert(seq!['-'] =~= num@);
        } else {
            assert(num@ + strip_underscores(s0.take(n0 as int)) =~= strip_underscores(
                s0.take(n0 as int),
            ));
        }
        loop
            invariant
                self.wf(),
                self.chars@ == old(self).chars@,
                start == old(self).pos,
                start <= self.pos,
                s0 == self.chars@.skip(start as int),
                n0 == number_len(s0),
                n0 == (self.pos - start) + digits_len(self.rest()),
                strip_underscores(s0.take(n0 as int)) == num@ + strip_underscores(
                    self.rest().take(digits_len(self.rest()) as int),
                ),
                points(s0.take(n0 as int)) == (if seen_point { 1nat } else { 0nat }) + points(
                    self.rest().take(digits_len(self.rest()) as int),
                ),
            ensures
                digits_len(self.rest()) == 0,
            decreases self.chars@.len() - self.pos,
        {
            let ghost rest = self.rest();
            let ghost k = digits_len(rest);
            match self.peek() {
                Some(c) => {
                    if ('0' <= c && c <= '9') || c == '_' || c == '.' {
                        proof {
                            self.lemma_advance(1);
                            lemma_digits_step(rest);
                        }
                        if c == '.' {
                            if seen_point {
                                return Err(LexError::SecondPoint);
                            }
                            seen_point = true;
                        }
                        let ghost before = num@;
                        if c != '_' {
                            num.push(c);
                        }
                        proof {
                            let tail = strip_underscores(rest.drop_first().take(k - 1));
                            if c == '_' {
                                assert(num@ == before);
                            } else {
                                assert(before + (seq![c] + tail) =~= num@ + tail);
                            }
                        }
                        self.pos = self.pos + 1;
                    } else {
                        break ;
                    }
                },
                None => {
                    break ;
                },
            }
        }
        proof {
            lemma_digits_step(self.rest());
        }
        assert(num@ =~= strip_underscores(s0.take(n0 as int)));
        Ok(num)
    }

    /// Reads a string literal; the next character is its opening quote.
    fn build_string(&mut self) -> (r: Result<Vec<char>, LexError>)
        requires
            old(self).wf(),
            old(self).rest().len() > 0,
        ensures
            final(self).wf(),
            final(self).chars@ == old(self).chars@,
            match string_body(old(self).rest().drop_first()) {
                Err(e) => r == Err::<Vec<char>, LexError>(e),
                Ok((c, n)) => r is Ok && r->Ok_0@ == c && final(self).pos == old(self).pos + n
                    + 1,
            },
    {
        let ghost start = self.pos;
        proof {
            self.lemma_advance(1);
        }
        self.pos = self.pos + 1;
        let ghost s0 = self.rest();
        let ghost body_start = self.pos;
        let mut string: Vec<char> = Vec::new();
        loop
            invariant
                self.wf(),
                self.chars@ == old(self).chars@,
                start == old(self).pos,
                s0 == old(self).rest().drop_first(),
                body_start <= self.pos,
                body_start == start + 1,
                s0 == self.chars@.skip(body_start as int),
                string_body(s0) == match string_body(self.rest()) {
                    Ok((c, n)) => Ok((string@ + c, (n + (self.pos - body_start)) as nat)),
                    Err(e) => Err(e),
                },
            decreases self.chars@.len() - self.pos,
        {
            let ghost rest = self.rest();
            match self.peek() {
                None => {
                    return Err(LexError::UnclosedString);
                },
                Some(c) => {
                    if c == '"' {
                        self.pos = self.pos + 1;
                        assert(string@ + Seq::<char>::empty() =~= string@);
                        return Ok(string);
                    } else if c == '\\' {
                        proof {
                            self.lemma_advance(1);
                        }
                        self.pos = self.pos + 1;
                        assert(self.rest() == rest.drop_first());
                        assert(self.rest().len() > 0 ==> self.rest()[0] == rest[1]);
                        let e = match self.peek() {
                            Some('t') => '\t',
                            Some('n') => '\n',
                            Some('\\') => '\\',
                            Some('"') => '"',
                            _ => {
                                return Err(LexError::BadEscape);
                            },
                        };
                        proof {
                            self.lemma_advance(1);
                            assert(rest.skip(2) =~= self.chars@.skip(self.pos + 1));
                            assert(escape(rest[1]) == Some(e));
                        }
                        self.pos = self.pos + 1;
                        proof {
                            match string_body(self.rest()) {
                                Ok((c2, n2)) => {
                                    assert(string@.push(e) + c2 =~= string@ + (seq![e] + c2));
                                },
                                Err(_) => {},
                            }
                        }
                        string.push(e);
                    } else {
                        proof {
                            self.lemma_advance(1);
                            match string_body(rest.drop_first()) {
                                Ok((c2, n2)) => {
                                    assert(string@.push(c) + c2 =~= string@ + (seq![c] + c2));
                                },
                                Err(_) => {},
                            }
                        }
                        self.pos = self.pos + 1;
                        string.push(c);
                    }
                },
            }
        }
    }

    /// The next token, `None` at the end of the text.
    pub fn next_token(&mut self) -> (r: Result<Option<Token>, LexError>)
        requires
            old(self).wf(),
        ensures
            final(self).wf(),
            match next_lexeme(old(self).rest()) {
                Err(e) => r == Err::<Option<Token>, LexError>(e),
                Ok(None) => r == Ok::<Option<Token>, LexError>(None),
                Ok(Some((x, n))) => r is Ok && r->Ok_0 is Some && r->Ok_0->0@ == x
                    && final(self).rest() == old(self).rest().skip(n as int),
            },
    {
        let ghost s0 = self.rest();
        let ghost p0 = self.pos;
        match self.skip_trivia() {
            Err(e) => {
                return Err(e);
            },
            Ok(()) => {},
        }
        proof {
            assert(s0.skip(self.pos - p0) =~= self.rest());
        }
        let ghost s1 = self.rest();
        let ghost p1 = self.pos;
        let r = match self.peek() {
            None => {
                return Ok(None);
            },
            Some('{') => {
                self.pos = self.pos + 1;
                Token::OBracket
            },
            Some('}') => {
                self.pos = self.pos + 1;
                Token::CBracket
            },
            Some('"') => {
                match self.build_string() {
                    Ok(t) => Token::Text(t),
                    Err(e) => {
                        return Err(e);
                    },
                }
            },
            Some(c) => {
                if ('0' <= c && c <= '9') || c == '-' {
                    match self.build_number() {
                        Ok(t) => Token::Number(t),
                        Err(e) => {
                            return Err(e);
                        },
                    }
                } else if ('A' <= c && c <= 'Z') || ('a' <= c && c <= 'z') || c == '_' {
                    proof {
                        assert(word_len(s1) > 0);
                    }
                    Token::Word(self.build_word())
                } else {
                    return Err(LexError::Unexpected(c));
                }
            },
        };
        proof {
            assert(s1.skip(self.pos - p1) =~= self.rest());
            assert(s0.skip(self.pos - p0) =~= self.rest());
        }
        Ok(Some(r))
    }
}

/// Splits `text` into tokens.
pub fn tokenize(text: &str) -> (r: Result<Vec<Token>, LexError>)
    ensures
        match lex(text@) {
            Ok(ts) => r is Ok && lexemes(r->Ok_0@) == ts,
            Err(e) => r == Err::<Vec<Token>, LexError>(e),
        },
{
    let mut tokenizer = Tokenizer::from(text);
    let mut tokens: Vec<Token> = Vec::new();
    loop
        invariant
            tokenizer.wf(),
            lex(text@) == match lex(tokenizer.rest()) {
                Ok(ts) => Ok(lexemes(tokens@) + ts),
                Err(e) => Err(e),
            },
        decreases tokenizer.rest().len(),
    {
        let ghost s = tokenizer.rest();
        match tokenizer.next_token() {
            Err(e) => {
                return Err(e);
            },
            Ok(None) => {
                assert(lexemes(tokens@) + Seq::<Lexeme>::empty() =~= lexemes(tokens@));
                return Ok(tokens);
            },
            Ok(Some(t)) => {
                proof {
                    lemma_next_lexeme_advances(s);
                    assert(lexemes(tokens@.push(t)) =~= lexemes(tokens@).push(t@));
                    match lex(tokenizer.rest()) {
                        Ok(ts) => {
                            assert(lexemes(tokens@).push(t@) + ts =~= lexemes(tokens@) + (seq![t@]
                                + ts));
                        },
                        Err(_) => {},
                    }
                }
                tokens.push(t);
            },
        }
    }
}

proof fn lemma_digits_step(r: Seq<char>)
    ensures
        ({
            let k = digits_len(r);
            if r.len() > 0 && is_number_char(r[0]) {
                &&& k == 1 + digits_len(r.drop_first())
                &&& strip_underscores(r.take(k as int)) == (if r[0] == '_' {
                    Seq::<char>::empty()
                } else {
                    seq![r[0]]
                }) + strip_underscores(r.drop_first().take(k - 1))
                &&& points(r.take(k as int)) == (if r[0] == '.' { 1nat } else { 0nat }) + points(
                    r.drop_first().take(k - 1),
                )
            } else {
                &&& k == 0
                &&& strip_underscores(r.take(0)) == Seq::<char>::empty()
                &&& points(r.take(0)) == 0
            }
        }),
{
    let k = digits_len(r);
    lemma_digits_len_bound(r);
    if r.len() > 0 && is_number_char(r[0]) {
        assert(r.take(k as int).drop_first() =~= r.drop_first().take(k - 1));
        assert(r.take(k as int)[0] == r[0]);
        if r[0] != '_' {
            assert(strip_underscores(r.take(k as int)) == seq![r[0]] + strip_underscores(
                r.take(k as int).drop_first(),
            ));
        }
    } else {
        assert(r.take(0) =~= Seq::<char>::empty());
    }
}

proof fn lemma_comment_len_bound(s: Seq<char>)
    ensures
        comment_len(s) matches Some(n) ==> 1 <= n <= s.len(),
    decreases s.len(),
{
    if s.len() > 0 && !(s[0] == '|' || s[0] == '\n') {
        lemma_comment_len_bound(s.drop_first());
    }
}

proof fn lemma_trivia_len_bound(s: Seq<char>)
    ensures
        trivia_len(s) matches Ok(n) ==> n <= s.len(),
    decreases s.len(),
{
    if s.len() > 0 {
        if is_blank(s[0]) {
            lemma_trivia_len_bound(s.drop_first());
        } else if s[0] == '|' {
            lemma_comment_len_bound(s.drop_first());
            if let Some(c) = comment_len(s.drop_first()) {
                lemma_trivia_len_bound(s.skip((c + 1) as int));
            }
        }
    }
}

proof fn lemma_word_len_bound(s: Seq<char>)
    ensures
        word_len(s) <= s.len(),
    decreases s.len(),
{
    if s.len() > 0 && is_word_char(s[0]) {
        lemma_word_len_bound(s.drop_first());
    }
}

proof fn lemma_digits_len_bound(s: Seq<char>)
    ensures
        digits_len(s) <= s.len(),
    decreases s.len(),
{
    if s.len() > 0 && is_number_char(s[0]) {
        lemma_digits_len_bound(s.drop_first());
    }
}

proof fn lemma_string_body_bound(s: Seq<char>)
    ensures
        string_body(s) matches Ok((_, n)) ==> 1 <= n <= s.len(),
    decreases s.len(),
{
    if s.len() > 0 && s[0] != '"' {
        if s[0] == '\\' {
            if s.len() >= 2 {
                lemma_string_body_bound(s.skip(2));
            }
        } else {
            lemma_string_body_bound(s.drop_first());
        }
    }
}

/// A token found by `next_lexeme` ends within the text and past its start.
pub proof fn lemma_next_lexeme_advances(s: Seq<char>)
    ensures
        next_lexeme(s) matches Ok(Some((_, n))) ==> 0 < n <= s.len(),
{
    lemma_trivia_len_bound(s);
    if let Ok(t) = trivia_len(s) {
        if t < s.len() {
            let r = s.skip(t as int);
            if r[0] == '"' {
                lemma_string_body_bound(r.drop_first());
            } else if r[0] == '-' {
                lemma_digits_len_bound(r.drop_first());
            } else if is_digit(r[0]) {
                lemma_digits_len_bound(r);
            } else {
                lemma_word_len_bound(r);
            }
        }
    }
}

} // verus!
