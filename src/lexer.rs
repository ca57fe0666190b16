//! The lexer: characters to tokens, with an identifier table that gives each
//! name an index, 1 for the first name met, 2 for the next new one, and so on.
use crate::number::{call_parse, count_char, is_ascii_digit, is_number_literal, parse_of, parse_ok};
use crate::text::{
    alphabetic_char, alphanumeric_char, chars_of, is_alphabetic, is_alphanumeric, is_numeric,
    is_whitespace, numeric_char, push_char, string_of, whitespace_char,
};
use crate::ast::texts;
use crate::error::ParseError;
use crate::token::Token;
use vstd::prelude::*;

verus! {

/// A token with its identifier spelled out as characters.
pub enum TokenView {
    Number(u64),
    Identifier(Seq<char>, nat),
    Plus,
    Minus,
    Multiply,
    Divide,
    Power,
    LParen,
    RParen,
    Sqrt,
    Assign,
}

impl View for Token {
    type V = TokenView;

    open spec fn view(&self) -> TokenView {
        match *self {
            Token::Number(b) => TokenView::Number(b),
            Token::Identifier(name, idx) => TokenView::Identifier(name@, idx as nat),
            Token::Plus => TokenView::Plus,
            Token::Minus => TokenView::Minus,
            Token::Multiply => TokenView::Multiply,
            Token::Divide => TokenView::Divide,
            Token::Power => TokenView::Power,
            Token::LParen => TokenView::LParen,
            Token::RParen => TokenView::RParen,
            Token::Sqrt => TokenView::Sqrt,
            Token::Assign => TokenView::Assign,
        }
    }
}

pub open spec fn token_views(v: Seq<Token>) -> Seq<TokenView> {
    v.map_values(|t: Token| t@)
}

/// Why lexing failed: a character that starts no lexeme, or a malformed number.
pub enum LexFailure {
    InvalidToken(char),
    InvalidNumber(Seq<char>),
}

/// The first position at or after `i` that holds no whitespace.
pub open spec fn ws_end(s: Seq<char>, i: int) -> int
    decreases s.len() - i,
{
    if 0 <= i < s.len() && whitespace_char(s[i]) {
        ws_end(s, i + 1)
    } else {
        i
    }
}

pub open spec fn number_char(c: char) -> bool {
    numeric_char(c) || c == '.'
}

pub open spec fn name_char(c: char) -> bool {
    alphanumeric_char(c) || c == '_'
}

/// The end of the run of number characters from `i`.
pub open spec fn number_end(s: Seq<char>, i: int) -> int
    decreases s.len() - i,
{
    if 0 <= i < s.len() && number_char(s[i]) {
        number_end(s, i + 1)
    } else {
        i
    }
}

/// The end of the run of name characters from `i`.
pub open spec fn name_end(s: Seq<char>, i: int) -> int
    decreases s.len() - i,
{
    if 0 <= i < s.len() && name_char(s[i]) {
        name_end(s, i + 1)
    } else {
        i
    }
}

/// The word `sqrt` in any letter case.
pub open spec fn is_sqrt_word(t: Seq<char>) -> bool {
    &&& t.len() == 4
    &&& (t[0] == 's' || t[0] == 'S')
    &&& (t[1] == 'q' || t[1] == 'Q')
    &&& (t[2] == 'r' || t[2] == 'R')
    &&& (t[3] == 't' || t[3] == 'T')
}

/// No name occurs twice in the table.
pub open spec fn distinct(names: Seq<Seq<char>>) -> bool {
    forall|i: int, j: int| 0 <= i < j < names.len() ==> names[i] != names[j]
}

/// The index of `t` in the table, a new one if it is not there yet.
pub open spec fn index_of(names: Seq<Seq<char>>, t: Seq<char>) -> nat {
    if names.contains(t) {
        (choose|i: int| 0 <= i < names.len() && names[i] == t) as nat + 1
    } else {
        names.len() + 1
    }
}

/// The table once `t` has been met.
pub open spec fn interned(names: Seq<Seq<char>>, t: Seq<char>) -> Seq<Seq<char>> {
    if names.contains(t) {
        names
    } else {
        names.push(t)
    }
}

/// What reading one lexeme from `i` gives.
pub enum Step {
    Done,
    Token(TokenView, int, Seq<Seq<char>>),
    Fail(LexFailure),
}

pub open spec fn single_char_token(c: char) -> Option<TokenView> {
    if c == '+' {
        Some(TokenView::Plus)
    } else if c == '-' {
        Some(TokenView::Minus)
    } else if c == '*' {
        Some(TokenView::Multiply)
    } else if c == '/' {
        Some(TokenView::Divide)
    } else if c == '^' {
        Some(TokenView::Power)
    } else if c == '(' {
        Some(TokenView::LParen)
    } else if c == ')' {
        Some(TokenView::RParen)
    } else if c == '=' {
        Some(TokenView::Assign)
    } else {
        None
    }
}

/// One lexeme from `i`: whitespace is skipped; then an operator, a number, a
/// name or `sqrt`, or a failure; or the end of the input.
pub open spec fn step<P: Fn(String) -> u64>(
    s: Seq<char>,
    i: int,
    names: Seq<Seq<char>>,
    parse: P,
) -> Step {
    let j = ws_end(s, i);
    if j >= s.len() {
        Step::Done
    } else {
        let c = s[j];
        if single_char_token(c) is Some {
            Step::Token(single_char_token(c)->0, j + 1, names)
        } else if numeric_char(c) {
            let k = number_end(s, j);
            let t = s.subrange(j, k);
            if is_number_literal(t) {
                Step::Token(TokenView::Number(parse_of(parse, t)), k, names)
            } else {
                Step::Fail(LexFailure::InvalidNumber(t))
            }
        } else if alphabetic_char(c) || c == '_' {
            let k = name_end(s, j);
            let t = s.subrange(j, k);
            if is_sqrt_word(t) {
                Step::Token(TokenView::Sqrt, k, names)
            } else {
                Step::Token(TokenView::Identifier(t, index_of(names, t)), k, interned(names, t))
            }
        } else {
            Step::Fail(LexFailure::InvalidToken(c))
        }
    }
}

pub type Lexed = Result<(Seq<TokenView>, Seq<Seq<char>>), LexFailure>;

/// `r` with `ts` in front of its tokens.
pub open spec fn prepend(ts: Seq<TokenView>, r: Lexed) -> Lexed {
    match r {
        Ok((us, names)) => Ok((ts + us, names)),
        Err(f) => Err(f),
    }
}

/// The tokens of `s` from `i` on and the final table, or the first failure.
/// (Every lexeme moves past `i`; the bound on `k` only makes that evident here.)
pub open spec fn lex_from<P: Fn(String) -> u64>(
    s: Seq<char>,
    i: int,
    names: Seq<Seq<char>>,
    parse: P,
) -> Lexed
    decreases s.len() - i,
{
    match step(s, i, names, parse) {
        Step::Done => Ok((Seq::empty(), names)),
        Step::Fail(f) => Err(f),
        Step::Token(t, k, names2) => if i < k <= s.len() {
            prepend(seq![t], lex_from(s, k, names2, parse))
        } else {
            Ok((Seq::empty(), names))
        },
    }
}

/// The tokens of a whole input, and its identifier table.
pub open spec fn lex<P: Fn(String) -> u64>(s: Seq<char>, parse: P) -> Lexed {
    lex_from(s, 0, Seq::empty(), parse)
}

/// The error that the lexer reports for a failure.
pub open spec fn reports_failure(e: ParseError, f: LexFailure) -> bool {
    match f {
        LexFailure::InvalidToken(c) => e matches ParseError::InvalidToken(m) && m@ == seq![c],
        LexFailure::InvalidNumber(t) => e matches ParseError::InvalidNumber(m) && m@ == t,
    }
}

/// Turns an input string into tokens, one lexeme at a time.
pub struct Lexer {
    input: Vec<char>,
    pos: usize,
    names: Vec<String>,
}

impl Lexer {
    pub closed spec fn chars(&self) -> Seq<char> {
        self.input@
    }

    pub closed spec fn position(&self) -> int {
        self.pos as int
    }

    /// The identifier table: the name with index `i + 1` stands at `i`.
    pub closed spec fn names(&self) -> Seq<Seq<char>> {
        texts(self.names@)
    }

    /// The cursor is within the input, no name is entered twice, and each
    /// name took at least one character to read.
    pub open spec fn wf(&self) -> bool {
        &&& self.position() <= self.chars().len()
        &&& distinct(self.names())
        &&& self.names().len() <= self.position()
    }

    pub fn new(input: &str) -> (r: Self)
        ensures
            r.wf(),
            r.chars() == input@,
            r.position() == 0,
            r.names() == Seq::<Seq<char>>::empty(),
    {
        let r = Self { input: chars_of(input), pos: 0, names: Vec::new() };
        assert(r.names() =~= Seq::<Seq<char>>::empty());
        r
    }

    /// The index of `name`, entering it in the table if it is new.
    pub fn get_identifier_index(&mut self, name: &String) -> (r: usize)
        requires
            distinct(old(self).names()),
            old(self).names().len() < usize::MAX,
        ensures
            distinct(final(self).names()),
            final(self).chars() == old(self).chars(),
            final(self).position() == old(self).position(),
            final(self).names() == interned(old(self).names(), name@),
            r == index_of(old(self).names(), name@),
    {
        match find_name(&self.names, name) {
            Some(i) => i + 1,
            None => {
                let ghost ns = self.names();
                self.names.push(name.clone());
                assert(self.names() =~= ns.push(name@));
                self.names.len()
            },
        }
    }

    pub fn peek(&self) -> (r: Option<char>)
        ensures
            r == (if self.position() < self.chars().len() {
                Some(self.chars()[self.position()])
            } else {
                None::<char>
            }),
    {
        if self.pos < self.input.len() {
            Some(self.input[self.pos])
        } else {
            None
        }
    }

    pub fn advance(&mut self) -> (r: Option<char>)
        requires
            old(self).position() <= old(self).chars().len(),
        ensures
            final(self).chars() == old(self).chars(),
            final(self).names() == old(self).names(),
            r == (if old(self).position() < old(self).chars().len() {
                Some(old(self).chars()[old(self).position()])
            } else {
                None::<char>
            }),
            final(self).position() == if r is Some {
                old(self).position() + 1
            } else {
                old(self).position()
            },
    {
        if self.pos < self.input.len() {
            let ch = self.input[self.pos];
            self.pos = self.pos + 1;
            Some(ch)
        } else {
            None
        }
    }

    pub fn skip_whitespace(&mut self)
        requires
            old(self).wf(),
        ensures
            final(self).wf(),
            final(self).chars() == old(self).chars(),
            final(self).names() == old(self).names(),
            final(self).position() == ws_end(old(self).chars(), old(self).position()),
            old(self).position() <= final(self).position(),
    {
        let ghost s = self.input@;
        let ghost i0 = self.pos as int;
        let ghost ns = self.names@;
        assert(self.pos <= self.input.len());
        assert(texts(ns).len() == ns.len());
        while self.pos < self.input.len() && is_whitespace(self.input[self.pos])
            invariant
                self.input@ == s,
                self.names@ == ns,
                distinct(texts(ns)),
                texts(ns).len() <= i0,
                i0 <= self.pos <= s.len(),
                ws_end(s, i0) == ws_end(s, self.pos as int),
            decreases self.input.len() - self.pos,
        {
            self.pos = self.pos + 1;
        }
    }

    fn read_number<P: Fn(String) -> u64>(&mut self, parse: &P) -> (r: Result<u64, ParseError>)
        requires
            old(self).wf(),
            parse_ok(*parse),
        ensures
            final(self).wf(),
            final(self).chars() == old(self).chars(),
            final(self).names() == old(self).names(),
            final(self).position() == number_end(old(self).chars(), old(self).position()),
            ({
                let t = old(self).chars().subrange(
                    old(self).position(),
                    number_end(old(self).chars(), old(self).position()),
                );
                if is_number_literal(t) {
                    r == Ok::<u64, ParseError>(parse_of(*parse, t))
                } else {
                    r matches Err(e) && reports_failure(e, LexFailure::InvalidNumber(t))
                }
            }),
    {
        let ghost i0 = self.pos as int;
        let input = &self.input;
        let mut k: usize = self.pos;
        let mut text: Vec<char> = Vec::new();
        while k < input.len() && (is_numeric(input[k]) || input[k]
            == '.')
            invariant
                0 <= i0 <= k <= input.len(),
                number_end(input@, i0) == number_end(input@, k as int),
                text@ == input@.subrange(i0, k as int),
            decreases input.len() - k,
        {
            let c = input[k];
            assert(input@.subrange(i0, k + 1) =~= input@.subrange(i0, k as int).push(c));
            text.push(c);
            k = k + 1;
        }
        self.pos = k;
        let ok = literal_ok(&text);
        let num_str = string_of(&text);
        if ok {
            Ok(call_parse(parse, num_str))
        } else {
            Err(ParseError::InvalidNumber(num_str))
        }
    }

    pub fn read_identifier(&mut self) -> (r: String)
        requires
            old(self).wf(),
        ensures
            final(self).wf(),
            final(self).chars() == old(self).chars(),
            final(self).names() == old(self).names(),
            final(self).position() == name_end(old(self).chars(), old(self).position()),
            r@ == old(self).chars().subrange(old(self).position(), final(self).position()),
    {
        let ghost i0 = self.pos as int;
        let input = &self.input;
        let mut k: usize = self.pos;
        let mut text: Vec<char> = Vec::new();
        while k < input.len() && (is_alphanumeric(input[k])
            || input[k] == '_')
            invariant
                0 <= i0 <= k <= input.len(),
                name_end(input@, i0) == name_end(input@, k as int),
                text@ == input@.subrange(i0, k as int),
            decreases input.len() - k,
        {
            let c = input[k];
            assert(input@.subrange(i0, k + 1) =~= input@.subrange(i0, k as int).push(c));
            text.push(c);
            k = k + 1;
        }
        self.pos = k;
        string_of(&text)
    }
    fn next_token<P: Fn(String) -> u64>(&mut self, parse: &P) -> (r: Result<Option<Token>, ParseError>)
        requires
            old(self).wf(),
            parse_ok(*parse),
        ensures
            final(self).wf(),
            final(self).chars() == old(self).chars(),
            match step(old(self).chars(), old(self).position(), old(self).names(), *parse) {
                Step::Done => r matches Ok(None) && final(self).names() == old(self).names(),
                Step::Token(t, k, names) => r matches Ok(Some(tok)) && tok@ == t
                    && final(self).position() == k && final(self).names() == names
                    && old(self).position() < k,
                Step::Fail(f) => r matches Err(e) && reports_failure(e, f),
            },
    {
        let ghost s = self.chars();
        let ghost i0 = self.position();
        proof {
            lemma_ws_end(s, i0);
        }
        self.skip_whitespace();
        let ghost j = self.position();
        let ch = match self.peek() {
            Some(c) => c,
            None => return Ok(None),
        };
        let token = if ch == '+' {
            self.advance();
            Token::Plus
        } else if ch == '-' {
            self.advance();
            Token::Minus
        } else if ch == '*' {
            self.advance();
            Token::Multiply
        } else if ch == '/' {
            self.advance();
            Token::Divide
        } else if ch == '^' {
            self.advance();
            Token::Power
        } else if ch == '(' {
            self.advance();
            Token::LParen
        } else if ch == ')' {
            self.advance();
            Token::RParen
        } else if ch == '=' {
            self.advance();
            Token::Assign
        } else if is_numeric(ch) {
            proof {
                lemma_number_end(s, j);
            }
            match self.read_number(parse) {
                Ok(n) => Token::Number(n),
                Err(e) => return Err(e),
            }
        } else if is_alphabetic(ch) || ch == '_' {
            proof {
                lemma_name_end(s, j);
            }
            let name = self.read_identifier();
            if is_sqrt_spelling(&name) {
                return Ok(Some(Token::Sqrt));
            }
            let idx = self.get_identifier_index(&name);
            Token::Identifier(name, idx)
        } else {
            let mut m = String::new();
            push_char(&mut m, ch);
            return Err(ParseError::InvalidToken(m));
        };
        Ok(Some(token))
    }

    /// All tokens from the cursor to the end of the input, or the first error.
    pub fn tokenize<P: Fn(String) -> u64>(&mut self, parse: &P) -> (r: Result<Vec<Token>, ParseError>)
        requires
            old(self).wf(),
            parse_ok(*parse),
        ensures
            final(self).wf(),
            final(self).chars() == old(self).chars(),
            match lex_from(old(self).chars(), old(self).position(), old(self).names(), *parse) {
                Ok((ts, names)) => r matches Ok(v) && token_views(v@) == ts && final(self).names()
                    == names,
                Err(f) => r matches Err(e) && reports_failure(e, f),
            },
    {
        let ghost whole = lex_from(self.chars(), self.position(), self.names(), *parse);
        let mut tokens: Vec<Token> = Vec::new();
        assert(prepend(token_views(tokens@), whole) == whole) by {
            if let Ok((us, names)) = whole {
                assert(token_views(tokens@) + us =~= us);
            }
        }
        loop
            invariant
                self.wf(),
                self.chars() == old(self).chars(),
                parse_ok(*parse),
                whole == lex_from(old(self).chars(), old(self).position(), old(self).names(), *parse),
                whole == prepend(
                    token_views(tokens@),
                    lex_from(self.chars(), self.position(), self.names(), *parse),
                ),
            decreases self.chars().len() - self.position(),
        {
            let ghost tv = token_views(tokens@);
            let ghost cur = lex_from(self.chars(), self.position(), self.names(), *parse);
            let ghost st = step(self.chars(), self.position(), self.names(), *parse);
            let ghost names0 = self.names();
            assert(st is Done ==> cur == Ok::<(Seq<TokenView>, Seq<Seq<char>>), LexFailure>((Seq::empty(), names0)));
            assert(st matches Step::Fail(f) ==> cur == Err::<(Seq<TokenView>, Seq<Seq<char>>), LexFailure>(f));
            match self.next_token(parse) {
                Ok(Some(t)) => {
                    proof {
                        lemma_prepend_twice(tv, seq![t@], lex_from(self.chars(), self.position(), self.names(), *parse));
                    }
                    tokens.push(t);
                    assert(token_views(tokens@) =~= tv + seq![t@]);
                },
                Ok(None) => {
                    assert(tv + Seq::<TokenView>::empty() =~= tv);
                    return Ok(tokens);
                },
                Err(e) => {
                    return Err(e);
                },
            }
        }
    }

    /// The identifier table: each name with its index, in index order.
    pub fn into_identifier_table(self) -> (r: Vec<(String, usize)>)
        requires
            self.wf(),
        ensures
            r.len() == self.names().len(),
            forall|i: int| 0 <= i < r.len() ==> (#[trigger] r@[i]).0@ == self.names()[i] && r@[i].1 == i + 1,
    {
        let mut r: Vec<(String, usize)> = Vec::new();
        let mut i: usize = 0;
        while i < self.names.len()
            invariant
                i <= self.names.len() <= self.pos,
                r.len() == i,
                forall|j: int| 0 <= j < i ==> (#[trigger] r@[j]).0@ == self.names@[j]@ && r@[j].1 == j + 1,
            decreases self.names.len() - i,
        {
            r.push((self.names[i].clone(), i + 1));
            i = i + 1;
        }
        r
    }
}

proof fn lemma_ws_end(s: Seq<char>, i: int)
    requires
        0 <= i <= s.len(),
    ensures
        i <= ws_end(s, i) <= s.len(),
    decreases s.len() - i,
{
    if i < s.len() && whitespace_char(s[i]) {
        lemma_ws_end(s, i + 1);
    }
}

proof fn lemma_number_end(s: Seq<char>, i: int)
    requires
        0 <= i <= s.len(),
    ensures
        i <= number_end(s, i) <= s.len(),
        i < s.len() && number_char(s[i]) ==> i < number_end(s, i),
    decreases s.len() - i,
{
    if i < s.len() && number_char(s[i]) {
        lemma_number_end(s, i + 1);
    }
}

proof fn lemma_name_end(s: Seq<char>, i: int)
    requires
        0 <= i <= s.len(),
    ensures
        i <= name_end(s, i) <= s.len(),
        i < s.len() && name_char(s[i]) ==> i < name_end(s, i),
    decreases s.len() - i,
{
    if i < s.len() && name_char(s[i]) {
        lemma_name_end(s, i + 1);
    }
}

proof fn lemma_prepend_twice(a: Seq<TokenView>, b: Seq<TokenView>, r: Lexed)
    ensures
        prepend(a, prepend(b, r)) == prepend(a + b, r),
{
    if let Ok((us, names)) = r {
        assert(a + (b + us) =~= (a + b) + us);
    }
}

fn is_sqrt_spelling(t: &String) -> (r: bool)
    ensures
        r == is_sqrt_word(t@),
{
    let s = t.as_str();
    if s.unicode_len() != 4 {
        return false;
    }
    let c0 = s.get_char(0);
    let c1 = s.get_char(1);
    let c2 = s.get_char(2);
    let c3 = s.get_char(3);
    (c0 == 's' || c0 == 'S') && (c1 == 'q' || c1 == 'Q') && (c2 == 'r' || c2 == 'R') && (c3 == 't'
        || c3 == 'T')
}

/// Where `name` stands in a table of distinct names.
fn find_name(names: &Vec<String>, name: &String) -> (r: Option<usize>)
    requires
        distinct(texts(names@)),
    ensures
        match r {
            Some(i) => texts(names@).contains(name@) && i + 1 == index_of(texts(names@), name@),
            None => !texts(names@).contains(name@),
        },
{
    let ghost ns = texts(names@);
    let mut i: usize = 0;
    while i < names.len()
        invariant
            i <= names.len(),
            ns == texts(names@),
            distinct(ns),
            forall|j: int| 0 <= j < i ==> ns[j] != name@,
        decreases names.len() - i,
    {
        assert(ns[i as int] == names@[i as int]@);
        if names[i] == *name {
            proof {
                assert(ns.contains(name@));
                let k = choose|k: int| 0 <= k < ns.len() && ns[k] == name@;
                if k != i {
                    assert(ns[k] == ns[i as int]);
                }
            }
            return Some(i);
        }
        i = i + 1;
    }
    None
}

/// Whether `t` is a well-formed number literal.
pub fn literal_ok(t: &Vec<char>) -> (r: bool)
    ensures
        r == is_number_literal(t@),
{
    if t.len() == 0 || !('0' <= t[0] && t[0] <= '9') {
        return false;
    }
    let mut dots: usize = 0;
    let mut i: usize = 0;
    while i < t.len()
        invariant
            i <= t.len(),
            dots == count_char(t@.subrange(0, i as int), '.'),
            dots <= i,
            forall|j: int| 0 <= j < i ==> is_ascii_digit(#[trigger] t@[j]) || t@[j] == '.',
        decreases t.len() - i,
    {
        assert(t@.subrange(0, i as int + 1).drop_last() =~= t@.subrange(0, i as int));
        let c = t[i];
        if c == '.' {
            dots = dots + 1;
        } else if !('0' <= c && c <= '9') {
            return false;
        }
        i = i + 1;
    }
    assert(t@.subrange(0, i as int) =~= t@);
    dots <= 1
}

} // verus!
