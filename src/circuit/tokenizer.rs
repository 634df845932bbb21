use crate::circuit::error::{Failure, ParserError};
use crate::text::chars_to_string;
use vstd::prelude::*;

verus! {

#[derive(Debug)]
pub enum LexicalUnit {
    Number(usize),
    Identifier(String),
    NewLine,
    EndOfFile,
}

/// Line and column of a character, both counted from zero.
#[derive(Debug, Clone, Copy, PartialEq, Eq, Structural)]
pub struct Location {
    pub line: usize,
    pub column: usize,
}

#[derive(Debug)]
pub struct Token {
    pub location: Location,
    pub value: LexicalUnit,
}

/// A token as a mathematical value; a number is kept whole, however large.
pub enum Lexeme {
    Number(nat),
    Identifier(Seq<char>),
    NewLine,
    EndOfFile,
}

impl View for LexicalUnit {
    type V = Lexeme;

    open spec fn view(&self) -> Lexeme {
        match self {
            LexicalUnit::Number(n) => Lexeme::Number(*n as nat),
            LexicalUnit::Identifier(s) => Lexeme::Identifier(s@),
            LexicalUnit::NewLine => Lexeme::NewLine,
            LexicalUnit::EndOfFile => Lexeme::EndOfFile,
        }
    }
}

/// Characters that separate tokens; a carriage return is ignored like a space.
pub open spec fn is_blank(c: char) -> bool {
    c == ' ' || c == '\r'
}

pub open spec fn is_digit(c: char) -> bool {
    '0' <= c && c <= '9'
}

pub open spec fn is_word_char(c: char) -> bool {
    c != ' ' && c != '\r' && c != '\n'
}

/// Where the character at index `i` of `s` stands.
pub open spec fn location_at(s: Seq<char>, i: int) -> Location
    decreases i,
{
    if i <= 0 {
        Location { line: 0, column: 0 }
    } else {
        let l = location_at(s, i - 1);
        if s[i - 1] == '\n' {
            Location { line: (l.line + 1) as usize, column: 0 }
        } else {
            Location { line: l.line, column: (l.column + 1) as usize }
        }
    }
}

/// First index at or after `i` that holds no blank.
pub open spec fn skip_blanks(s: Seq<char>, i: int) -> int
    decreases s.len() - i,
{
    if 0 <= i < s.len() && is_blank(s[i]) {
        skip_blanks(s, i + 1)
    } else {
        i
    }
}

/// End of the run of digits that starts at `i`.
pub open spec fn digits_end(s: Seq<char>, i: int) -> int
    decreases s.len() - i,
{
    if 0 <= i < s.len() && is_digit(s[i]) {
        digits_end(s, i + 1)
    } else {
        i
    }
}

/// End of the run of word characters that starts at `i`.
pub open spec fn word_end(s: Seq<char>, i: int) -> int
    decreases s.len() - i,
{
    if 0 <= i < s.len() && is_word_char(s[i]) {
        word_end(s, i + 1)
    } else {
        i
    }
}

/// The decimal value of the digits `s[i..j]`.
pub open spec fn digits_value(s: Seq<char>, i: int, j: int) -> nat
    decreases j - i,
{
    if j <= i {
        0
    } else {
        digits_value(s, i, j - 1) * 10 + (s[j - 1] as nat - '0' as nat) as nat
    }
}

/// The token that starts at or after index `i`, with the indices where it starts and ends.
pub struct Scan {
    pub start: int,
    pub end: int,
    pub unit: Lexeme,
}

pub open spec fn scan(s: Seq<char>, i: int) -> Scan {
    let j = skip_blanks(s, i);
    if j >= s.len() {
        Scan { start: j, end: j, unit: Lexeme::EndOfFile }
    } else if s[j] == '\n' {
        Scan { start: j, end: j + 1, unit: Lexeme::NewLine }
    } else if is_digit(s[j]) {
        let e = digits_end(s, j);
        Scan { start: j, end: e, unit: Lexeme::Number(digits_value(s, j, e)) }
    } else {
        let e = word_end(s, j);
        Scan { start: j, end: e, unit: Lexeme::Identifier(s.subrange(j, e)) }
    }
}

/// Reading the next token: it fails only on a number too large for `usize`.
pub open spec fn next_lexeme(s: Seq<char>, i: int) -> Result<(Lexeme, Location, int), Failure> {
    let sc = scan(s, i);
    match sc.unit {
        Lexeme::Number(n) => if n <= usize::MAX {
            Ok((sc.unit, location_at(s, sc.start), sc.end))
        } else {
            Err(Failure::Syntax { message: "Number too large"@, location: location_at(s, sc.start) })
        },
        _ => Ok((sc.unit, location_at(s, sc.start), sc.end)),
    }
}

pub open spec fn take_number(s: Seq<char>, i: int) -> Result<(usize, int), Failure> {
    match next_lexeme(s, i) {
        Ok((Lexeme::Number(n), _, e)) => Ok((n as usize, e)),
        Ok((u, l, _)) => Err(Failure::Token { expected: "Number"@, actual: u, location: l }),
        Err(f) => Err(f),
    }
}

pub open spec fn take_identifier(s: Seq<char>, i: int) -> Result<(Seq<char>, int), Failure> {
    match next_lexeme(s, i) {
        Ok((Lexeme::Identifier(w), _, e)) => Ok((w, e)),
        Ok((u, l, _)) => Err(Failure::Token { expected: "Identifier"@, actual: u, location: l }),
        Err(f) => Err(f),
    }
}

/// The end of a line: a newline, or the end of the text.
pub open spec fn take_newline(s: Seq<char>, i: int) -> Result<int, Failure> {
    match next_lexeme(s, i) {
        Ok((Lexeme::NewLine, _, e)) => Ok(e),
        Ok((Lexeme::EndOfFile, _, e)) => Ok(e),
        Ok((u, l, _)) => Err(Failure::Token { expected: "NewLine"@, actual: u, location: l }),
        Err(f) => Err(f),
    }
}

pub open spec fn take_n_numbers(s: Seq<char>, i: int, n: nat) -> Result<(Seq<usize>, int), Failure>
    decreases n,
{
    if n == 0 {
        Ok((Seq::empty(), i))
    } else {
        match take_n_numbers(s, i, (n - 1) as nat) {
            Ok((v, p)) => match take_number(s, p) {
                Ok((x, q)) => Ok((v.push(x), q)),
                Err(f) => Err(f),
            },
            Err(f) => Err(f),
        }
    }
}

/// Reading `n` numbers, where it succeeds, gives `n` numbers.
pub proof fn lemma_take_n_numbers_len(s: Seq<char>, i: int, n: nat)
    requires
        take_n_numbers(s, i, n) is Ok,
    ensures
        take_n_numbers(s, i, n)->Ok_0.0.len() == n,
    decreases n,
{
    if n > 0 {
        lemma_take_n_numbers_len(s, i, (n - 1) as nat);
    }
}

/// Once reading numbers fails, reading more fails the same way.
pub proof fn lemma_take_n_numbers_fails(s: Seq<char>, i: int, k: nat, n: nat)
    requires
        k <= n,
        take_n_numbers(s, i, k) is Err,
    ensures
        take_n_numbers(s, i, n) == take_n_numbers(s, i, k),
    decreases n - k,
{
    if k < n {
        lemma_take_n_numbers_fails(s, i, k, (n - 1) as nat);
    }
}

pub proof fn lemma_location_bounded(s: Seq<char>, i: int)
    requires
        0 <= i,
    ensures
        location_at(s, i).line + location_at(s, i).column <= i,
    decreases i,
{
    if i > 0 {
        lemma_location_bounded(s, i - 1);
    }
}

pub proof fn lemma_skip_blanks(s: Seq<char>, i: int)
    requires
        0 <= i <= s.len(),
    ensures
        i <= skip_blanks(s, i) <= s.len(),
        skip_blanks(s, i) < s.len() ==> !is_blank(s[skip_blanks(s, i)]),
    decreases s.len() - i,
{
    if i < s.len() && is_blank(s[i]) {
        lemma_skip_blanks(s, i + 1);
    }
}

pub proof fn lemma_digits_end(s: Seq<char>, i: int)
    requires
        0 <= i <= s.len(),
    ensures
        i <= digits_end(s, i) <= s.len(),
    decreases s.len() - i,
{
    if i < s.len() && is_digit(s[i]) {
        lemma_digits_end(s, i + 1);
    }
}

pub proof fn lemma_word_end(s: Seq<char>, i: int)
    requires
        0 <= i <= s.len(),
    ensures
        i <= word_end(s, i) <= s.len(),
    decreases s.len() - i,
{
    if i < s.len() && is_word_char(s[i]) {
        lemma_word_end(s, i + 1);
    }
}

/// A run of digits is worth at least as much as any of its prefixes.
pub proof fn lemma_digits_value_grows(s: Seq<char>, i: int, j: int, k: int)
    requires
        i <= j <= k,
        forall|m: int| i <= m < k ==> is_digit(#[trigger] s[m]),
    ensures
        digits_value(s, i, j) <= digits_value(s, i, k),
    decreases k - j,
{
    if j < k {
        lemma_digits_value_grows(s, i, j, k - 1);
    }
}

/// Every character of a run of digits is a digit.
pub proof fn lemma_digit_run(s: Seq<char>, i: int, m: int)
    requires
        0 <= i <= m < digits_end(s, i),
    ensures
        is_digit(s[m]),
    decreases s.len() - i,
{
    if i < m {
        lemma_digit_run(s, i + 1, m);
    }
}

pub struct TokenStream {
    chars: Vec<char>,
    position: usize,
    location: Location,
}

impl TokenStream {
    /// The text being read.
    pub closed spec fn text(&self) -> Seq<char> {
        self.chars@
    }

    /// Index of the next character to read.
    pub closed spec fn pos(&self) -> int {
        self.position as int
    }

    pub closed spec fn wf(&self) -> bool {
        &&& self.position <= self.chars.len()
        &&& self.location == location_at(self.chars@, self.position as int)
    }

    /// The position never leaves the text.
    pub proof fn lemma_pos_bounded(&self)
        requires
            self.wf(),
        ensures
            0 <= self.pos() <= self.text().len(),
    {
    }

    pub fn new(chars: Vec<char>) -> (r: Self)
        ensures
            r.wf(),
            r.text() == chars@,
            r.pos() == 0,
    {
        TokenStream { chars, position: 0, location: Location { line: 0, column: 0 } }
    }

    pub fn current_location(&self) -> (r: Location)
        requires
            self.wf(),
        ensures
            r == location_at(self.text(), self.pos()),
    {
        self.location
    }

    /// Moves past one character.
    fn advance(&mut self)
        requires
            old(self).wf(),
            old(self).position < old(self).chars.len(),
        ensures
            final(self).wf(),
            final(self).chars == old(self).chars,
            final(self).position == old(self).position + 1,
    {
        proof {
            lemma_location_bounded(self.chars@, self.position as int);
        }
        if self.chars[self.position] == '\n' {
            self.location = Location { line: self.location.line + 1, column: 0 };
        } else {
            self.location = Location { line: self.location.line, column: self.location.column + 1 };
        }
        self.position = self.position + 1;
    }

    fn skip_whitespace(&mut self)
        requires
            old(self).wf(),
        ensures
            final(self).wf(),
            final(self).chars == old(self).chars,
            final(self).position == skip_blanks(old(self).chars@, old(self).position as int),
    {
        proof {
            lemma_skip_blanks(self.chars@, self.position as int);
        }
        while self.position < self.chars.len() && (self.chars[self.position] == ' '
            || self.chars[self.position] == '\r')
            invariant
                self.wf(),
                self.chars == old(self).chars,
                skip_blanks(self.chars@, self.position as int) == skip_blanks(
                    old(self).chars@,
                    old(self).position as int,
                ),
            decreases self.chars.len() - self.position,
        {
            self.advance();
        }
    }

    /// Reads a run of digits; `None` where its value does not fit in `usize`.
    fn parse_number(&mut self) -> (r: Option<usize>)
        requires
            old(self).wf(),
        ensures
            final(self).wf(),
            final(self).chars == old(self).chars,
            ({
                let s = old(self).chars@;
                let i = old(self).position as int;
                let v = digits_value(s, i, digits_end(s, i));
                &&& v <= usize::MAX ==> r == Some(v as usize) && final(self).position == digits_end(s, i)
                &&& v > usize::MAX ==> r is None
            }),
    {
        let ghost s = self.chars@;
        let ghost i = self.position as int;
        proof {
            lemma_digits_end(s, i);
        }
        let mut n: usize = 0;
        while self.position < self.chars.len() && '0' <= self.chars[self.position]
            && self.chars[self.position] <= '9'
            invariant
                self.wf(),
                self.chars == old(self).chars,
                i <= self.position <= digits_end(s, i) <= s.len(),
                s == self.chars@,
                s == old(self).chars@,
                i == old(self).position,
                digits_end(s, self.position as int) == digits_end(s, i),
                n == digits_value(s, i, self.position as int),
            decreases self.chars.len() - self.position,
        {
            proof {
                lemma_digits_end(s, self.position + 1);
            }
            let d = (self.chars[self.position] as u32 - '0' as u32) as usize;
            assert(digits_value(s, i, self.position + 1) == n * 10 + d);
            if n > (usize::MAX - d) / 10 {
                proof {
                    assert(forall|m: int| i <= m < digits_end(s, i) ==> is_digit(#[trigger] s[m]))
                        by {
                        assert forall|m: int| i <= m < digits_end(s, i) implies is_digit(
                            #[trigger] s[m],
                        ) by {
                            lemma_digit_run(s, i, m);
                        }
                    }
                    assert(is_digit(s[self.position as int]));
                    assert(digits_end(s, self.position as int) == digits_end(s, self.position + 1));
                    assert(self.position + 1 <= digits_end(s, i));
                    lemma_digits_value_grows(s, i, self.position + 1, digits_end(s, i));
                    assert(n * 10 + d > usize::MAX) by (nonlinear_arith)
                        requires
                            n > (usize::MAX - d) / 10,
                            d <= 9,
                    ;
                    assert(digits_value(s, i, digits_end(s, i)) > usize::MAX);
                }
                return None;
            }
            proof {
                assert(n * 10 + d <= usize::MAX) by (nonlinear_arith)
                    requires
                        n <= (usize::MAX - d) / 10,
                        d <= 9,
                ;
            }
            n = n * 10 + d;
            self.advance();
        }
        Some(n)
    }

    fn parse_identifier(&mut self) -> (r: String)
        requires
            old(self).wf(),
        ensures
            final(self).wf(),
            final(self).chars == old(self).chars,
            final(self).position == word_end(old(self).chars@, old(self).position as int),
            r@ == old(self).chars@.subrange(old(self).position as int, final(self).position as int),
    {
        let ghost s = self.chars@;
        let start = self.position;
        proof {
            lemma_word_end(s, start as int);
        }
        let mut word: Vec<char> = Vec::new();
        while self.position < self.chars.len() && self.chars[self.position] != ' '
            && self.chars[self.position] != '\r' && self.chars[self.position] != '\n'
            invariant
                self.wf(),
                self.chars == old(self).chars,
                start <= self.position <= word_end(s, start as int) <= s.len(),
                s == self.chars@,
                word_end(s, self.position as int) == word_end(s, start as int),
                word@ == s.subrange(start as int, self.position as int),
            decreases self.chars.len() - self.position,
        {
            proof {
                lemma_word_end(s, self.position + 1);
            }
            word.push(self.chars[self.position]);
            proof {
                assert(word@ =~= s.subrange(start as int, self.position + 1));
            }
            self.advance();
        }
        chars_to_string(&word)
    }

    /// Reads the next token.
    pub fn next_token(&mut self) -> (r: Result<Token, ParserError>)
        requires
            old(self).wf(),
        ensures
            final(self).wf(),
            final(self).text() == old(self).text(),
            match next_lexeme(old(self).text(), old(self).pos()) {
                Ok((u, l, e)) => r matches Ok(t) && t.value@ == u && t.location == l
                    && final(self).pos() == e,
                Err(f) => r matches Err(err) && err@ == f,
            },
    {
        self.skip_whitespace();
        let location = self.location;
        proof {
            lemma_skip_blanks(self.chars@, old(self).position as int);
        }
        if self.position >= self.chars.len() {
            return Ok(Token { location, value: LexicalUnit::EndOfFile });
        }
        let c = self.chars[self.position];
        if c == '\n' {
            self.advance();
            Ok(Token { location, value: LexicalUnit::NewLine })
        } else if '0' <= c && c <= '9' {
            match self.parse_number() {
                Some(n) => Ok(Token { location, value: LexicalUnit::Number(n) }),
                None => Err(
                    ParserError::Syntax { message: String::from_str("Number too large"), location },
                ),
            }
        } else {
            let w = self.parse_identifier();
            Ok(Token { location, value: LexicalUnit::Identifier(w) })
        }
    }

    /// The next token, left in place.
    pub fn peek(&mut self) -> (r: Result<Token, ParserError>)
        requires
            old(self).wf(),
        ensures
            final(self).wf(),
            final(self).text() == old(self).text(),
            final(self).pos() == old(self).pos(),
            match next_lexeme(old(self).text(), old(self).pos()) {
                Ok((u, l, _)) => r matches Ok(t) && t.value@ == u && t.location == l,
                Err(f) => r matches Err(err) && err@ == f,
            },
    {
        let position = self.position;
        let location = self.location;
        let r = self.next_token();
        self.position = position;
        self.location = location;
        r
    }

    pub fn accept_newline(&mut self) -> (r: Result<(), ParserError>)
        requires
            old(self).wf(),
        ensures
            final(self).wf(),
            final(self).text() == old(self).text(),
            match take_newline(old(self).text(), old(self).pos()) {
                Ok(e) => r is Ok && final(self).pos() == e,
                Err(f) => r matches Err(err) && err@ == f,
            },
    {
        let token = self.next_token()?;
        match token.value {
            LexicalUnit::NewLine => Ok(()),
            LexicalUnit::EndOfFile => Ok(()),
            _ => Err(ParserError::Token { expected: "NewLine", actual: token }),
        }
    }

    pub fn accept_number(&mut self) -> (r: Result<usize, ParserError>)
        requires
            old(self).wf(),
        ensures
            final(self).wf(),
            final(self).text() == old(self).text(),
            match take_number(old(self).text(), old(self).pos()) {
                Ok((n, e)) => r == Ok::<usize, ParserError>(n) && final(self).pos() == e,
                Err(f) => r matches Err(err) && err@ == f,
            },
    {
        let token = self.next_token()?;
        match token.value {
            LexicalUnit::Number(n) => Ok(n),
            _ => Err(ParserError::Token { expected: "Number", actual: token }),
        }
    }

    pub fn accept_n_numbers(&mut self, n: usize) -> (r: Result<Vec<usize>, ParserError>)
        requires
            old(self).wf(),
        ensures
            final(self).wf(),
            final(self).text() == old(self).text(),
            match take_n_numbers(old(self).text(), old(self).pos(), n as nat) {
                Ok((v, e)) => r matches Ok(w) && w@ == v && final(self).pos() == e,
                Err(f) => r matches Err(err) && err@ == f,
            },
    {
        let mut numbers: Vec<usize> = Vec::new();
        let mut k: usize = 0;
        while k < n
            invariant
                self.wf(),
                self.text() == old(self).text(),
                k <= n,
                take_n_numbers(old(self).text(), old(self).pos(), k as nat) == Ok::<
                    (Seq<usize>, int),
                    Failure,
                >((numbers@, self.pos())),
            decreases n - k,
        {
            let x = match self.accept_number() {
                Ok(x) => x,
                Err(e) => {
                    proof {
                        lemma_take_n_numbers_fails(
                            old(self).text(),
                            old(self).pos(),
                            (k + 1) as nat,
                            n as nat,
                        );
                    }
                    return Err(e);
                },
            };
            numbers.push(x);
            k = k + 1;
        }
        Ok(numbers)
    }

    pub fn accept_identifier(&mut self) -> (r: Result<String, ParserError>)
        requires
            old(self).wf(),
        ensures
            final(self).wf(),
            final(self).text() == old(self).text(),
            match take_identifier(old(self).text(), old(self).pos()) {
                Ok((w, e)) => r matches Ok(x) && x@ == w && final(self).pos() == e,
                Err(f) => r matches Err(err) && err@ == f,
            },
    {
        let token = self.next_token()?;
        match token.value {
            LexicalUnit::Identifier(s) => Ok(s),
            _ => Err(ParserError::Token { expected: "Identifier", actual: token }),
        }
    }
}

} // verus!
