//! The lexer: from a string of characters to a stream of tokens.

use vstd::prelude::*;
use crate::text::{chars_of, text_of};

pub mod token;

pub use token::{Token, TokenView};

verus! {

/// The four characters that separate tokens without being one.
pub open spec fn is_whitespace(c: char) -> bool {
    c == ' ' || c == '\t' || c == '\n' || c == '\r'
}

/// An ASCII lowercase letter: what an identifier or keyword starts with.
pub open spec fn is_lowercase(c: char) -> bool {
    'a' <= c <= 'z'
}

/// An ASCII letter: what an identifier continues with.
pub open spec fn is_letter(c: char) -> bool {
    ('a' <= c <= 'z') || ('A' <= c <= 'Z')
}

/// An ASCII decimal digit.
pub open spec fn is_digit(c: char) -> bool {
    '0' <= c <= '9'
}

/// Any character but the double quote: what a string literal holds.
pub open spec fn is_string_char(c: char) -> bool {
    c != '"'
}

/// The length of the longest run of characters that satisfy `pred`,
/// starting at index `i` of `s`.
pub open spec fn run_len(s: Seq<char>, i: int, pred: spec_fn(char) -> bool) -> nat
    decreases s.len() - i,
{
    if 0 <= i < s.len() && pred(s[i]) {
        1 + run_len(s, i + 1, pred)
    } else {
        0
    }
}

/// The number that a sequence of decimal digits denotes.
pub open spec fn decimal_value(digits: Seq<char>) -> nat
    decreases digits.len(),
{
    if digits.len() == 0 {
        0
    } else {
        decimal_value(digits.drop_last()) * 10 + (digits.last() as nat - '0' as nat) as nat
    }
}

/// The keyword or identifier that a run of letters spells.
pub open spec fn word_token(word: Seq<char>) -> TokenView {
    if word == seq!['f', 'n'] {
        TokenView::Function
    } else if word == seq!['l', 'e', 't'] {
        TokenView::Let
    } else if word == seq!['t', 'r', 'u', 'e'] {
        TokenView::True
    } else if word == seq!['f', 'a', 'l', 's', 'e'] {
        TokenView::False
    } else if word == seq!['i', 'f'] {
        TokenView::If
    } else if word == seq!['e', 'l', 's', 'e'] {
        TokenView::Else
    } else if word == seq!['r', 'e', 't', 'u', 'r', 'n'] {
        TokenView::Return
    } else {
        TokenView::Ident(word)
    }
}

/// The token that a run of digits spells: its value, or `Illegal` where the
/// value does not fit in 64 bits signed.
pub open spec fn number_token(digits: Seq<char>) -> TokenView {
    if decimal_value(digits) <= i64::MAX {
        TokenView::Int(decimal_value(digits) as i64)
    } else {
        TokenView::Illegal
    }
}

/// The token made of one punctuation character, if `c` is one.
pub open spec fn punctuation(c: char) -> Option<TokenView> {
    if c == '+' {
        Some(TokenView::Plus)
    } else if c == '-' {
        Some(TokenView::Minus)
    } else if c == '*' {
        Some(TokenView::Asterisk)
    } else if c == '/' {
        Some(TokenView::Slash)
    } else if c == '<' {
        Some(TokenView::Lt)
    } else if c == '>' {
        Some(TokenView::Gt)
    } else if c == ',' {
        Some(TokenView::Comma)
    } else if c == ';' {
        Some(TokenView::Semicolon)
    } else if c == ':' {
        Some(TokenView::Colon)
    } else if c == '(' {
        Some(TokenView::LParen)
    } else if c == ')' {
        Some(TokenView::RParen)
    } else if c == '{' {
        Some(TokenView::LBrace)
    } else if c == '}' {
        Some(TokenView::RBrace)
    } else if c == '[' {
        Some(TokenView::LBracket)
    } else if c == ']' {
        Some(TokenView::RBracket)
    } else {
        None
    }
}

/// The token that starts at index `start` of `s`, where `s[start]` is not
/// whitespace, and the number of characters it takes up (at least one).
pub open spec fn token_at(s: Seq<char>, start: int) -> (TokenView, nat)
    recommends
        0 <= start < s.len(),
{
    let c = s[start];
    let followed_by_eq = start + 1 < s.len() && s[start + 1] == '=';
    if c == '=' {
        if followed_by_eq {
            (TokenView::Eq, 2)
        } else {
            (TokenView::Assign, 1)
        }
    } else if c == '!' {
        if followed_by_eq {
            (TokenView::NotEq, 2)
        } else {
            (TokenView::Bang, 1)
        }
    } else if punctuation(c) is Some {
        (punctuation(c).unwrap(), 1)
    } else if is_lowercase(c) {
        let more = run_len(s, start + 1, |c: char| is_letter(c));
        (word_token(s.subrange(start, start + 1 + more)), 1 + more)
    } else if is_digit(c) {
        let more = run_len(s, start + 1, |c: char| is_digit(c));
        (number_token(s.subrange(start, start + 1 + more)), 1 + more)
    } else if c == '"' {
        let inside = run_len(s, start + 1, |c: char| is_string_char(c));
        let closed = start + 1 + inside < s.len();
        (
            TokenView::String(s.subrange(start + 1, start + 1 + inside)),
            if closed {
                inside + 2
            } else {
                inside + 1
            },
        )
    } else {
        (TokenView::Illegal, 1)
    }
}

/// The next token of `s` from index `pos` on, and the index after it:
/// whitespace is skipped, and at the end of `s` the token is `Eof`.
pub open spec fn next_token(s: Seq<char>, pos: int) -> (TokenView, int) {
    let start = pos + run_len(s, pos, |c: char| is_whitespace(c));
    if 0 <= start < s.len() {
        (token_at(s, start).0, start + token_at(s, start).1)
    } else {
        (TokenView::Eof, start)
    }
}

/// All the tokens of `s` from index `pos` on, up to the end, `Eof` left out.
pub open spec fn tokens_from(s: Seq<char>, pos: int) -> Seq<TokenView>
    decreases s.len() - pos,
{
    let (token, next) = next_token(s, pos);
    if 0 <= pos < s.len() && token !is Eof {
        proof {
            lemma_next_token_advances(s, pos);
        }
        seq![token] + tokens_from(s, next)
    } else {
        Seq::empty()
    }
}

/// All the tokens of a source text, `Eof` left out.
pub open spec fn tokens_of(source: Seq<char>) -> Seq<TokenView> {
    tokens_from(source, 0)
}

/// A run never leaves the text.
pub proof fn lemma_run_len_bound(s: Seq<char>, i: int, pred: spec_fn(char) -> bool)
    requires
        0 <= i <= s.len(),
    ensures
        i + run_len(s, i, pred) <= s.len(),
    decreases s.len() - i,
{
    if i < s.len() && pred(s[i]) {
        lemma_run_len_bound(s, i + 1, pred);
    }
}

/// A stretch whose characters all satisfy `pred`, and that ends where one
/// does not or the text ends, is the run that starts there.
pub proof fn lemma_run_len_is(s: Seq<char>, i: int, j: int, pred: spec_fn(char) -> bool)
    requires
        0 <= i <= j <= s.len(),
        forall|k: int| i <= k < j ==> pred(#[trigger] s[k]),
        j == s.len() || !pred(s[j]),
    ensures
        run_len(s, i, pred) == j - i,
    decreases j - i,
{
    if i < j {
        lemma_run_len_is(s, i + 1, j, pred);
    }
}

/// The next token starts no earlier than `pos` and ends inside the text;
/// unless it is `Eof`, it takes up at least one character.
pub proof fn lemma_next_token_advances(s: Seq<char>, pos: int)
    requires
        0 <= pos <= s.len(),
    ensures
        pos <= next_token(s, pos).1 <= s.len(),
        next_token(s, pos).0 !is Eof ==> pos < next_token(s, pos).1,
        next_token(s, pos).0 is Eof ==> next_token(s, pos).1 == s.len(),
{
    let ws = |c: char| is_whitespace(c);
    lemma_run_len_bound(s, pos, ws);
    let start = pos + run_len(s, pos, ws);
    if start < s.len() {
        lemma_run_len_bound(s, start + 1, |c: char| is_letter(c));
        lemma_run_len_bound(s, start + 1, |c: char| is_digit(c));
        lemma_run_len_bound(s, start + 1, |c: char| is_string_char(c));
    }
}

/// Once the end of the input is reached, every further token is `Eof`,
/// and the position stays where it is.
pub proof fn lemma_eof_repeats(s: Seq<char>, pos: int)
    requires
        0 <= pos <= s.len(),
        next_token(s, pos).0 is Eof,
    ensures
        next_token(s, next_token(s, pos).1) == (TokenView::Eof, next_token(s, pos).1),
{
    lemma_next_token_advances(s, pos);
}

/// The state of a lexer: the characters of the input and the index of the
/// first one not yet read.
pub struct Lexer {
    chars: Vec<char>,
    pos: usize,
}

impl Lexer {
    /// The characters of the input.
    pub closed spec fn source(&self) -> Seq<char> {
        self.chars@
    }

    /// The index of the first character not yet read.
    pub closed spec fn position(&self) -> int {
        self.pos as int
    }

    /// The position lies within the input.
    pub open spec fn well_formed(&self) -> bool {
        0 <= self.position() <= self.source().len()
    }

    /// The tokens still to come, `Eof` left out.
    pub open spec fn remaining(&self) -> Seq<TokenView> {
        tokens_from(self.source(), self.position())
    }

    /// A lexer at the start of `input`.
    pub fn init(input: &str) -> (lexer: Lexer)
        ensures
            lexer.well_formed(),
            lexer.source() == input@,
            lexer.position() == 0,
    {
        Lexer { chars: chars_of(input), pos: 0 }
    }

    /// The next token; `Eof` at the end of the input, and from then on.
    pub fn next_token(&mut self) -> (token: Token)
        requires
            old(self).well_formed(),
        ensures
            final(self).well_formed(),
            final(self).source() == old(self).source(),
            (token@, final(self).position()) == next_token(
                old(self).source(),
                old(self).position(),
            ),
    {
        self.skip_whitespace();
        let start = self.pos;
        let c = match self.current_char() {
            Some(c) => c,
            None => {
                return Token::Eof;
            },
        };
        let followed_by_eq = match self.peek_char() {
            Some(next) => next == '=',
            None => false,
        };
        self.advance_char();
        if c == '=' {
            if followed_by_eq {
                self.advance_char();
                Token::Eq
            } else {
                Token::Assign
            }
        } else if c == '!' {
            if followed_by_eq {
                self.advance_char();
                Token::NotEq
            } else {
                Token::Bang
            }
        } else if c == '+' {
            Token::Plus
        } else if c == '-' {
            Token::Minus
        } else if c == '*' {
            Token::Asterisk
        } else if c == '/' {
            Token::Slash
        } else if c == '<' {
            Token::Lt
        } else if c == '>' {
            Token::Gt
        } else if c == ',' {
            Token::Comma
        } else if c == ';' {
            Token::Semicolon
        } else if c == ':' {
            Token::Colon
        } else if c == '(' {
            Token::LParen
        } else if c == ')' {
            Token::RParen
        } else if c == '{' {
            Token::LBrace
        } else if c == '}' {
            Token::RBrace
        } else if c == '[' {
            Token::LBracket
        } else if c == ']' {
            Token::RBracket
        } else if 'a' <= c && c <= 'z' {
            self.parse_identifier(start)
        } else if '0' <= c && c <= '9' {
            self.parse_number(start)
        } else if c == '"' {
            self.parse_string(start)
        } else {
            Token::Illegal
        }
    }

    /// Every token up to the end of the input, closed by `Eof`.
    pub fn get_all_tokens(&mut self) -> (output: Vec<Token>)
        requires
            old(self).well_formed(),
        ensures
            final(self).well_formed(),
            final(self).source() == old(self).source(),
            final(self).remaining() == Seq::<TokenView>::empty(),
            output@.map_values(|t: Token| t@) == old(self).remaining().push(TokenView::Eof),
    {
        let mut output: Vec<Token> = Vec::new();
        loop
            invariant_except_break
                output@.map_values(|t: Token| t@) + self.remaining() == old(self).remaining(),
            invariant
                self.well_formed(),
                self.source() == old(self).source(),
            ensures
                self.well_formed(),
                self.source() == old(self).source(),
                self.remaining() == Seq::<TokenView>::empty(),
                output@.map_values(|t: Token| t@) == old(self).remaining().push(TokenView::Eof),
            decreases self.source().len() - self.position(),
        {
            let ghost before = output@.map_values(|t: Token| t@);
            let ghost pos = self.position();
            proof {
                lemma_next_token_advances(self.source(), pos);
            }
            let token = self.next_token();
            let done = token.is_eof();
            output.push(token);
            assert(output@.map_values(|t: Token| t@) == before.push(token@));
            if done {
                assert(tokens_from(self.source(), pos) == Seq::<TokenView>::empty());
                break;
            }
            assert(before.push(token@) + self.remaining() == before + (seq![token@]
                + self.remaining()));
        }
        output
    }

    /// The character at the current position, if the input has not ended.
    fn current_char(&self) -> (c: Option<char>)
        requires
            self.well_formed(),
        ensures
            c == if self.pos < self.chars.len() {
                Some(self.chars@[self.pos as int])
            } else {
                None
            },
    {
        if self.pos < self.chars.len() {
            Some(self.chars[self.pos])
        } else {
            None
        }
    }

    /// The character after the one at the current position, if there is
    /// one.
    fn peek_char(&self) -> (c: Option<char>)
        requires
            self.well_formed(),
        ensures
            c == if self.pos + 1 < self.chars.len() {
                Some(self.chars@[self.pos + 1])
            } else {
                None
            },
    {
        if self.pos < self.chars.len() && self.pos + 1 < self.chars.len() {
            Some(self.chars[self.pos + 1])
        } else {
            None
        }
    }

    /// Moves one character forward, unless the input has ended.
    fn advance_char(&mut self)
        requires
            old(self).well_formed(),
        ensures
            final(self).well_formed(),
            final(self).chars == old(self).chars,
            final(self).pos == if old(self).pos < old(self).chars.len() {
                old(self).pos + 1
            } else {
                old(self).pos as int
            },
    {
        if self.pos < self.chars.len() {
            self.pos += 1;
        }
    }

    /// Moves past the whitespace at the current position.
    fn skip_whitespace(&mut self)
        requires
            old(self).well_formed(),
        ensures
            final(self).well_formed(),
            final(self).chars == old(self).chars,
            final(self).pos == old(self).pos + run_len(
                old(self).chars@,
                old(self).pos as int,
                |c: char| is_whitespace(c),
            ),
    {
        let ghost from = self.pos as int;
        while self.pos < self.chars.len() && (self.chars[self.pos] == ' ' || self.chars[self.pos]
            == '\t' || self.chars[self.pos] == '\n' || self.chars[self.pos] == '\r')
            invariant
                from <= self.pos <= self.chars.len(),
                self.chars == old(self).chars,
                forall|k: int| from <= k < self.pos ==> is_whitespace(#[trigger] self.chars@[k]),
            decreases self.chars.len() - self.pos,
        {
            self.pos += 1;
        }
        proof {
            lemma_run_len_is(self.chars@, from, self.pos as int, |c: char| is_whitespace(c));
        }
    }

    /// The index at which the run of letters that starts at `from` ends.
    fn letters_end(&self, from: usize) -> (end: usize)
        requires
            from <= self.chars.len(),
        ensures
            end == from + run_len(self.chars@, from as int, |c: char| is_letter(c)),
            end <= self.chars.len(),
    {
        let mut end = from;
        while end < self.chars.len() && (('a' <= self.chars[end] && self.chars[end] <= 'z') || ('A'
            <= self.chars[end] && self.chars[end] <= 'Z'))
            invariant
                from <= end <= self.chars.len(),
                forall|k: int| from <= k < end ==> is_letter(#[trigger] self.chars@[k]),
            decreases self.chars.len() - end,
        {
            end += 1;
        }
        proof {
            lemma_run_len_is(self.chars@, from as int, end as int, |c: char| is_letter(c));
        }
        end
    }

    /// Whether `chars[from..to]` spells `word`.
    fn spells(&self, from: usize, to: usize, word: &Vec<char>) -> (same: bool)
        requires
            from <= to <= self.chars.len(),
        ensures
            same == (self.chars@.subrange(from as int, to as int) == word@),
    {
        if to - from != word.len() {
            return false;
        }
        let mut i: usize = 0;
        while i < word.len()
            invariant
                from <= to <= self.chars.len(),
                to - from == word.len(),
                i <= word.len(),
                forall|k: int| 0 <= k < i ==> self.chars@[from + k] == word@[k],
            decreases word.len() - i,
        {
            if self.chars[from + i] != word[i] {
                assert(self.chars@.subrange(from as int, to as int)[i as int] != word@[i as int]);
                return false;
            }
            i += 1;
        }
        assert(self.chars@.subrange(from as int, to as int) =~= word@);
        true
    }

    /// Reads the identifier or keyword that starts at `start`.
    fn parse_identifier(&mut self, start: usize) -> (token: Token)
        requires
            old(self).well_formed(),
            start < old(self).chars.len(),
            is_lowercase(old(self).chars@[start as int]),
        ensures
            final(self).well_formed(),
            final(self).chars == old(self).chars,
            final(self).pos == start + 1 + run_len(
                old(self).chars@,
                start + 1,
                |c: char| is_letter(c),
            ),
            token@ == word_token(
                old(self).chars@.subrange(start as int, final(self).pos as int),
            ),
    {
        let end = self.letters_end(start + 1);
        self.pos = end;
        if self.spells(start, end, &vec!['f', 'n']) {
            Token::Function
        } else if self.spells(start, end, &vec!['l', 'e', 't']) {
            Token::Let
        } else if self.spells(start, end, &vec!['t', 'r', 'u', 'e']) {
            Token::True
        } else if self.spells(start, end, &vec!['f', 'a', 'l', 's', 'e']) {
            Token::False
        } else if self.spells(start, end, &vec!['i', 'f']) {
            Token::If
        } else if self.spells(start, end, &vec!['e', 'l', 's', 'e']) {
            Token::Else
        } else if self.spells(start, end, &vec!['r', 'e', 't', 'u', 'r', 'n']) {
            Token::Return
        } else {
            Token::Ident(text_of(&self.chars, start, end))
        }
    }

    /// Reads the number that starts at `start`.
    fn parse_number(&mut self, start: usize) -> (token: Token)
        requires
            old(self).well_formed(),
            start < old(self).chars.len(),
            is_digit(old(self).chars@[start as int]),
        ensures
            final(self).well_formed(),
            final(self).chars == old(self).chars,
            final(self).pos == start + 1 + run_len(
                old(self).chars@,
                start + 1,
                |c: char| is_digit(c),
            ),
            token@ == number_token(
                old(self).chars@.subrange(start as int, final(self).pos as int),
            ),
    {
        let mut value: i64 = 0;
        let mut fits = true;
        let mut end = start;
        while end < self.chars.len() && '0' <= self.chars[end] && self.chars[end] <= '9'
            invariant
                start <= end <= self.chars.len(),
                self.chars == old(self).chars,
                forall|k: int| start <= k < end ==> is_digit(#[trigger] self.chars@[k]),
                fits ==> value == decimal_value(self.chars@.subrange(start as int, end as int)),
                !fits ==> decimal_value(self.chars@.subrange(start as int, end as int)) > i64::MAX,
                0 <= value,
            decreases self.chars.len() - end,
        {
            let digit = digit_value(self.chars[end]);
            proof {
                let longer = self.chars@.subrange(start as int, end + 1);
                assert(longer.drop_last() == self.chars@.subrange(start as int, end as int));
                assert(longer.last() == self.chars@[end as int]);
            }
            if fits {
                match value.checked_mul(10) {
                    Some(tenfold) => match tenfold.checked_add(digit) {
                        Some(sum) => {
                            value = sum;
                        },
                        None => {
                            fits = false;
                        },
                    },
                    None => {
                        fits = false;
                    },
                }
            }
            end += 1;
        }
        proof {
            assert(start < end);
            lemma_run_len_is(self.chars@, start + 1, end as int, |c: char| is_digit(c));
        }
        self.pos = end;
        if fits {
            Token::Int(value)
        } else {
            Token::Illegal
        }
    }

    /// Reads the string literal whose opening quote is at `start`.
    fn parse_string(&mut self, start: usize) -> (token: Token)
        requires
            old(self).well_formed(),
            start < old(self).chars.len(),
        ensures
            final(self).well_formed(),
            final(self).chars == old(self).chars,
            ({
                let inside = run_len(old(self).chars@, start + 1, |c: char| is_string_char(c));
                &&& token@ == TokenView::String(
                    old(self).chars@.subrange(start + 1, start + 1 + inside),
                )
                &&& final(self).pos == if start + 1 + inside < old(self).chars.len() {
                    start + inside + 2
                } else {
                    start + inside + 1
                }
            }),
    {
        let mut end = start + 1;
        while end < self.chars.len() && self.chars[end] != '"'
            invariant
                start < end <= self.chars.len(),
                self.chars == old(self).chars,
                forall|k: int| start < k < end ==> is_string_char(#[trigger] self.chars@[k]),
            decreases self.chars.len() - end,
        {
            end += 1;
        }
        proof {
            lemma_run_len_is(self.chars@, start + 1, end as int, |c: char| is_string_char(c));
        }
        let text = text_of(&self.chars, start + 1, end);
        if end < self.chars.len() {
            self.pos = end + 1;
        } else {
            self.pos = end;
        }
        Token::String(text)
    }
}

/// The value of a decimal digit.
fn digit_value(c: char) -> (value: i64)
    requires
        is_digit(c),
    ensures
        value == c as nat - '0' as nat,
        0 <= value <= 9,
{
    if c == '0' {
        0
    } else if c == '1' {
        1
    } else if c == '2' {
        2
    } else if c == '3' {
        3
    } else if c == '4' {
        4
    } else if c == '5' {
        5
    } else if c == '6' {
        6
    } else if c == '7' {
        7
    } else if c == '8' {
        8
    } else {
        9
    }
}

} // verus!
