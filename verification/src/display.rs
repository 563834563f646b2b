//! How values, tokens and errors are written out.

use vstd::prelude::*;
use vstd::string::StringExecFns;
use crate::ast::{InfixOperator, PrefixOperator, names_view};
use crate::eval::builtin::BuiltinFunction;
use crate::eval::error::{Error, ErrorView, EvalError};
use crate::eval::object::{
    HashMapKey, HashMapKeyView, Object, ObjectView, entries_view, objects_view,
};
use crate::lexer::{Token, TokenView};
use crate::parser::{Expectation, ParseError, ParseErrorView};

verus! {

/// The character that stands for a digit.
pub open spec fn digit_char(d: nat) -> char
    recommends
        d < 10,
{
    if d == 0 {
        '0'
    } else if d == 1 {
        '1'
    } else if d == 2 {
        '2'
    } else if d == 3 {
        '3'
    } else if d == 4 {
        '4'
    } else if d == 5 {
        '5'
    } else if d == 6 {
        '6'
    } else if d == 7 {
        '7'
    } else if d == 8 {
        '8'
    } else {
        '9'
    }
}

/// The decimal digits of a natural number, without leading zeros.
pub open spec fn digits(n: nat) -> Seq<char>
    decreases n,
{
    if n < 10 {
        seq![digit_char(n)]
    } else {
        digits(n / 10).push(digit_char(n % 10))
    }
}

/// An integer in decimal, with `-` before it where it is negative.
pub open spec fn decimal(n: int) -> Seq<char> {
    if n < 0 {
        seq!['-'] + digits((-n) as nat)
    } else {
        digits(n as nat)
    }
}

/// The first `count` of `parts`, with `separator` between them.
pub open spec fn joined(parts: Seq<Seq<char>>, separator: Seq<char>, count: nat) -> Seq<char>
    decreases count,
{
    if count == 0 || count > parts.len() {
        Seq::empty()
    } else if count == 1 {
        parts[0]
    } else {
        joined(parts, separator, (count - 1) as nat) + separator + parts[count - 1]
    }
}

/// How a boolean is written.
pub open spec fn bool_text(value: bool) -> Seq<char> {
    if value {
        "true"@
    } else {
        "false"@
    }
}

/// The name of a builtin.
pub open spec fn builtin_text(builtin: BuiltinFunction) -> Seq<char> {
    match builtin {
        BuiltinFunction::Len => "len"@,
        BuiltinFunction::First => "first"@,
        BuiltinFunction::Last => "last"@,
        BuiltinFunction::Rest => "rest"@,
        BuiltinFunction::Push => "push"@,
    }
}

/// How a prefix operator is written.
pub open spec fn prefix_operator_text(operator: PrefixOperator) -> Seq<char> {
    match operator {
        PrefixOperator::Not => "`!`"@,
        PrefixOperator::Neg => "`-`"@,
    }
}

/// How an infix operator is written.
pub open spec fn infix_operator_text(operator: InfixOperator) -> Seq<char> {
    match operator {
        InfixOperator::Add => "`+`"@,
        InfixOperator::Sub => "`-`"@,
        InfixOperator::Mul => "`*`"@,
        InfixOperator::Div => "`/`"@,
        InfixOperator::Eq => "`==`"@,
        InfixOperator::NotEq => "`!=`"@,
        InfixOperator::Gt => "`>`"@,
        InfixOperator::Lt => "`<`"@,
        InfixOperator::Index => "`[...]`"@,
    }
}

/// How the key of a hash is written.
pub open spec fn key_text(key: HashMapKeyView) -> Seq<char> {
    match key {
        HashMapKeyView::Bool(value) => bool_text(value),
        HashMapKeyView::Int(value) => decimal(value as int),
        HashMapKeyView::String(value) => value,
    }
}

/// How a value is written: `null`; integers in decimal; `true` and
/// `false`; a string as it is; an array as `[a, b]`; a hash as
/// `{ k: v, l: w }`; a function as `fn(x, y) {...}`; a builtin as
/// `Builtin function 'name'`.
pub open spec fn object_text(o: ObjectView) -> Seq<char>
    decreases o, 1nat,
{
    match o {
        ObjectView::Null => "null"@,
        ObjectView::Int(value) => decimal(value as int),
        ObjectView::Bool(value) => bool_text(value),
        ObjectView::String(value) => value,
        ObjectView::Return(value) => "Return "@ + object_text(*value),
        ObjectView::Function { parameters, body, environment } => "fn("@ + joined(
            parameters,
            ", "@,
            parameters.len(),
        ) + ") {...}"@,
        ObjectView::Builtin(builtin) => "Builtin function '"@ + builtin_text(builtin) + "'"@,
        ObjectView::Array(items) => "["@ + joined(item_texts(items), ", "@, items.len()) + "]"@,
        ObjectView::Hash(entries) => "{ "@ + joined(entry_texts(entries), ", "@, entries.len())
            + " }"@,
    }
}

/// How a token is written.
pub open spec fn token_text(token: TokenView) -> Seq<char> {
    match token {
        TokenView::Illegal => "ILLEGAL TOKEN"@,
        TokenView::Eof => "EOF"@,
        TokenView::Ident(value) => "<identifier="@ + value + ">"@,
        TokenView::Int(value) => "<int="@ + decimal(value as int) + ">"@,
        TokenView::String(value) => "<str="@ + value + ">"@,
        TokenView::Assign => "`=`"@,
        TokenView::Plus => "`+`"@,
        TokenView::Minus => "`-`"@,
        TokenView::Bang => "`!`"@,
        TokenView::Asterisk => "`*`"@,
        TokenView::Slash => "`/`"@,
        TokenView::Lt => "`<`"@,
        TokenView::Gt => "`>`"@,
        TokenView::Eq => "`==`"@,
        TokenView::NotEq => "`!=`"@,
        TokenView::Comma => "`,`"@,
        TokenView::Semicolon => "`;`"@,
        TokenView::Colon => "`:`"@,
        TokenView::LParen => "`(`"@,
        TokenView::RParen => "`)`"@,
        TokenView::LBrace => "`{`"@,
        TokenView::RBrace => "`}`"@,
        TokenView::LBracket => "`[`"@,
        TokenView::RBracket => "`]`"@,
        TokenView::True => "<bool=true>"@,
        TokenView::False => "<bool=false>"@,
        TokenView::Function => "`fn`"@,
        TokenView::Let => "`let`"@,
        TokenView::If => "`if`"@,
        TokenView::Else => "`else`"@,
        TokenView::Return => "`return`"@,
    }
}

/// What the parser was looking for, in words.
pub open spec fn expectation_text(expected: Expectation) -> Seq<char> {
    match expected {
        Expectation::Expression => "an expression"@,
        Expectation::Identifier => "an identifier"@,
        Expectation::Parameter => "the name of a parameter"@,
        Expectation::Operator => "an operator"@,
        Expectation::Assign => "`=`"@,
        Expectation::Semicolon => "`;`"@,
        Expectation::SemicolonOrEof => "`;` or the end of the input"@,
        Expectation::Colon => "`:`"@,
        Expectation::LParen => "`(`"@,
        Expectation::RParen => "`)`"@,
        Expectation::LBrace => "`{`"@,
        Expectation::RBracket => "`]`"@,
        Expectation::CommaOrRParen => "`,` or `)`"@,
        Expectation::CommaOrRBracket => "`,` or `]`"@,
        Expectation::CommaOrRBrace => "`,` or `}`"@,
        Expectation::ShallowerNesting => "an expression that nests less deep"@,
        Expectation::LowerTree => "a shorter chain of operators"@,
    }
}

/// How a syntax error is written.
pub open spec fn parse_error_text(e: ParseErrorView) -> Seq<char> {
    "Invalid token "@ + token_text(e.found) + ", expected "@ + expectation_text(e.expected)
}

/// How the failure of an evaluation is written.
pub open spec fn eval_error_text(e: EvalError) -> Seq<char> {
    match e {
        EvalError::InvalidOperation(operator) => "Invalid operation "@ + infix_operator_text(
            operator,
        ) + " between these values"@,
        EvalError::NotNegatable => "This value cannot be negated"@,
        EvalError::UnhashableKey => "Invalid object type for a hash key, must be int, str or bool"@,
        EvalError::NotCallable => "This value is not a function"@,
        EvalError::WrongArgumentCount { expected, found } =>
            "Invalid function call argument counts, "@ + decimal(expected as int)
                + " requested, "@ + decimal(found as int) + " provided"@,
        EvalError::BuiltinArity(builtin) => "Wrong number of arguments for builtin function `"@
            + builtin_text(builtin) + "`"@,
        EvalError::BuiltinArgument(builtin) => "Invalid argument for builtin function `"@
            + builtin_text(builtin) + "`"@,
        EvalError::DivisionByZero => "Division by zero"@,
        EvalError::Overflow => "Integer overflow"@,
        EvalError::DepthExceeded => "The evaluation nests too deep"@,
    }
}

/// How an error is written.
pub open spec fn error_text(e: ErrorView) -> Seq<char> {
    match e {
        ErrorView::Parse(e) => parse_error_text(e),
        ErrorView::Eval(e) => eval_error_text(e),
    }
}

/// The character that stands for a digit.
fn digit_to_char(d: u64) -> (c: char)
    requires
        d < 10,
    ensures
        c == digit_char(d as nat),
{
    if d == 0 {
        '0'
    } else if d == 1 {
        '1'
    } else if d == 2 {
        '2'
    } else if d == 3 {
        '3'
    } else if d == 4 {
        '4'
    } else if d == 5 {
        '5'
    } else if d == 6 {
        '6'
    } else if d == 7 {
        '7'
    } else if d == 8 {
        '8'
    } else {
        '9'
    }
}

/// Appends the decimal digits of `n` to `text`.
fn push_digits(text: &mut String, n: u64)
    ensures
        final(text)@ == old(text)@ + digits(n as nat),
{
    // The digits come out last first: collect them, then append them in
    // the opposite order.
    let mut last_first: Vec<char> = Vec::new();
    let mut rest = n;
    last_first.push(digit_to_char(rest % 10));
    rest = rest / 10;
    while rest > 0
        invariant
            last_first.len() > 0,
            rest > 0 ==> digits(n as nat) == digits(rest as nat) + Seq::new(
                last_first.len() as nat,
                |i: int| last_first@[last_first.len() - 1 - i],
            ),
            rest == 0 ==> digits(n as nat) == Seq::new(
                last_first.len() as nat,
                |i: int| last_first@[last_first.len() - 1 - i],
            ),
        decreases rest,
    {
        let ghost before = last_first@;
        let ghost shown = Seq::new(before.len(), |i: int| before[before.len() - 1 - i]);
        let d = digit_to_char(rest % 10);
        last_first.push(d);
        let ghost next = rest / 10;
        proof {
            let now = Seq::new(
                last_first.len() as nat,
                |i: int| last_first@[last_first.len() - 1 - i],
            );
            assert(now =~= seq![d] + shown);
            if next > 0 {
                assert(digits(rest as nat) == digits(next as nat).push(d));
                assert(digits(next as nat).push(d) + shown =~= digits(next as nat) + now);
            } else {
                assert(digits(rest as nat) == seq![d]);
                assert(seq![d] + shown =~= now);
            }
        }
        rest = rest / 10;
    }
    let ghost start = text@;
    let ghost shown = Seq::new(
        last_first.len() as nat,
        |i: int| last_first@[last_first.len() - 1 - i],
    );
    let mut i: usize = last_first.len();
    while i > 0
        invariant
            i <= last_first.len(),
            shown == Seq::new(
                last_first.len() as nat,
                |k: int| last_first@[last_first.len() - 1 - k],
            ),
            text@ == start + shown.subrange(0, last_first.len() - i),
        decreases i,
    {
        i -= 1;
        text.push(last_first[i]);
        assert(text@ =~= start + shown.subrange(0, last_first.len() - i));
    }
    assert(shown.subrange(0, last_first.len() as int) =~= shown);
}

/// Appends an integer in decimal to `text`.
fn push_decimal(text: &mut String, n: i64)
    ensures
        final(text)@ == old(text)@ + decimal(n as int),
{
    if n < 0 {
        text.push('-');
        let magnitude: u64 = ((-(n + 1)) as u64) + 1;
        push_digits(text, magnitude);
        assert(text@ =~= old(text)@ + (seq!['-'] + digits((-n) as nat)));
    } else {
        push_digits(text, n as u64);
    }
}

/// Appends a count in decimal to `text`.
fn push_count(text: &mut String, n: usize)
    ensures
        final(text)@ == old(text)@ + decimal(n as int),
{
    push_digits(text, n as u64);
}

impl BuiltinFunction {
    /// The name of the builtin.
    pub fn to_text(&self) -> (text: String)
        ensures
            text@ == builtin_text(*self),
    {
        match self {
            BuiltinFunction::Len => "len".to_owned(),
            BuiltinFunction::First => "first".to_owned(),
            BuiltinFunction::Last => "last".to_owned(),
            BuiltinFunction::Rest => "rest".to_owned(),
            BuiltinFunction::Push => "push".to_owned(),
        }
    }
}

impl PrefixOperator {
    /// The operator, as it is written.
    pub fn to_text(&self) -> (text: String)
        ensures
            text@ == prefix_operator_text(*self),
    {
        match self {
            PrefixOperator::Not => "`!`".to_owned(),
            PrefixOperator::Neg => "`-`".to_owned(),
        }
    }
}

impl InfixOperator {
    /// The operator, as it is written.
    pub fn to_text(&self) -> (text: String)
        ensures
            text@ == infix_operator_text(*self),
    {
        match self {
            InfixOperator::Add => "`+`".to_owned(),
            InfixOperator::Sub => "`-`".to_owned(),
            InfixOperator::Mul => "`*`".to_owned(),
            InfixOperator::Div => "`/`".to_owned(),
            InfixOperator::Eq => "`==`".to_owned(),
            InfixOperator::NotEq => "`!=`".to_owned(),
            InfixOperator::Gt => "`>`".to_owned(),
            InfixOperator::Lt => "`<`".to_owned(),
            InfixOperator::Index => "`[...]`".to_owned(),
        }
    }
}

/// How a boolean is written.
fn bool_to_text(value: bool) -> (text: String)
    ensures
        text@ == bool_text(value),
{
    if value {
        "true".to_owned()
    } else {
        "false".to_owned()
    }
}

impl HashMapKey {
    /// The key, as it is written.
    pub fn to_text(&self) -> (text: String)
        ensures
            text@ == key_text(self@),
    {
        match self {
            HashMapKey::Bool(value) => bool_to_text(*value),
            HashMapKey::Int(value) => {
                let mut text = String::new();
                push_decimal(&mut text, *value);
                assert(text@ =~= decimal(*value as int));
                text
            },
            HashMapKey::String(value) => value.clone(),
        }
    }
}

impl Object {
    /// The object, as it is written.
    pub fn to_text(&self) -> (text: String)
        ensures
            text@ == object_text(self@),
        decreases self,
    {
        match self {
            Object::Null => "null".to_owned(),
            Object::Int(value) => {
                let mut text = String::new();
                push_decimal(&mut text, *value);
                assert(text@ =~= decimal(*value as int));
                text
            },
            Object::Bool(value) => bool_to_text(*value),
            Object::String(value) => value.clone(),
            Object::Return(value) => {
                let mut text = "Return ".to_owned();
                text.append(value.to_text().as_str());
                text
            },
            Object::Function { parameters, body, environment } => parameters_text(parameters),
            Object::Builtin(value) => {
                let mut text = "Builtin function '".to_owned();
                text.append(value.to_text().as_str());
                text.append("'");
                text
            },
            Object::Array(content) => items_text(content),
            Object::Hash(hash) => {
                proof {
                    hash.lemma_pairs();
                }
                entries_text(&hash.entries)
            },
        }
    }
}

/// The parts of an array, as they are written.
pub open spec fn item_texts(items: Seq<ObjectView>) -> Seq<Seq<char>>
    decreases items, 0nat,
{
    Seq::new(
        items.len(),
        |i: int|
            if 0 <= i < items.len() {
                object_text(items[i])
            } else {
                Seq::empty()
            },
    )
}

/// The parts of a hash, as they are written.
pub open spec fn entry_texts(entries: Seq<(HashMapKeyView, ObjectView)>) -> Seq<Seq<char>>
    decreases entries, 0nat,
{
    Seq::new(
        entries.len(),
        |i: int|
            if 0 <= i < entries.len() {
                key_text(entries[i].0) + ": "@ + object_text(entries[i].1)
            } else {
                Seq::empty()
            },
    )
}

/// A function, as it is written.
fn parameters_text(parameters: &Vec<String>) -> (text: String)
    ensures
        text@ == "fn("@ + joined(names_view(parameters@), ", "@, parameters.len() as nat)
            + ") {...}"@,
{
    let ghost names = names_view(parameters@);
    let mut text = "fn(".to_owned();
    let mut i: usize = 0;
    assert(text@ =~= "fn("@ + joined(names, ", "@, 0));
    while i < parameters.len()
        invariant
            i <= parameters.len(),
            names == names_view(parameters@),
            text@ == "fn("@ + joined(names, ", "@, i as nat),
        decreases parameters.len() - i,
    {
        if i > 0 {
            text.append(", ");
        }
        assert(names[i as int] == parameters[i as int]@);
        text.append(parameters[i].as_str());
        i += 1;
        assert(text@ =~= "fn("@ + joined(names, ", "@, i as nat));
    }
    text.append(") {...}");
    text
}

/// An array, as it is written.
fn items_text(content: &Vec<Object>) -> (text: String)
    ensures
        text@ == "["@ + joined(
            item_texts(objects_view(content@)),
            ", "@,
            content.len() as nat,
        ) + "]"@,
    decreases content,
{
    let ghost items = objects_view(content@);
    let ghost parts = item_texts(items);
    let mut text = "[".to_owned();
    let mut i: usize = 0;
    assert(text@ =~= "["@ + joined(parts, ", "@, 0));
    while i < content.len()
        invariant
            i <= content.len(),
            items == objects_view(content@),
            parts == item_texts(items),
            text@ == "["@ + joined(parts, ", "@, i as nat),
        decreases content.len() - i,
    {
        if i > 0 {
            text.append(", ");
        }
        assert(items[i as int] == content[i as int]@);
        text.append(content[i].to_text().as_str());
        i += 1;
        assert(text@ =~= "["@ + joined(parts, ", "@, i as nat));
    }
    text.append("]");
    text
}

/// A hash, as it is written.
fn entries_text(map: &Vec<(HashMapKey, Object)>) -> (text: String)
    ensures
        text@ == "{ "@ + joined(entry_texts(entries_view(map@)), ", "@, map.len() as nat) + " }"@,
    decreases map,
{
    let ghost entries = entries_view(map@);
    let ghost parts = entry_texts(entries);
    let mut text = "{ ".to_owned();
    let mut i: usize = 0;
    assert(text@ =~= "{ "@ + joined(parts, ", "@, 0));
    while i < map.len()
        invariant
            i <= map.len(),
            entries == entries_view(map@),
            parts == entry_texts(entries),
            text@ == "{ "@ + joined(parts, ", "@, i as nat),
        decreases map.len() - i,
    {
        if i > 0 {
            text.append(", ");
        }
        assert(entries[i as int] == (map[i as int].0@, map[i as int].1@));
        assert(decreases_to!(map => map[i as int]));
        assert(decreases_to!(map[i as int] => map[i as int].1));
        text.append(map[i].0.to_text().as_str());
        text.append(": ");
        text.append(map[i].1.to_text().as_str());
        i += 1;
        assert(text@ =~= "{ "@ + joined(parts, ", "@, i as nat));
    }
    text.append(" }");
    text
}

impl Token {
    /// The token, as it is written.
    pub fn to_text(&self) -> (text: String)
        ensures
            text@ == token_text(self@),
    {
        match self {
            Token::Illegal => "ILLEGAL TOKEN".to_owned(),
            Token::Eof => "EOF".to_owned(),
            Token::Ident(value) => {
                let mut text = "<identifier=".to_owned();
                text.append(value.as_str());
                text.append(">");
                text
            },
            Token::Int(value) => {
                let mut text = "<int=".to_owned();
                push_decimal(&mut text, *value);
                text.append(">");
                text
            },
            Token::String(value) => {
                let mut text = "<str=".to_owned();
                text.append(value.as_str());
                text.append(">");
                text
            },
            Token::Assign => "`=`".to_owned(),
            Token::Plus => "`+`".to_owned(),
            Token::Minus => "`-`".to_owned(),
            Token::Bang => "`!`".to_owned(),
            Token::Asterisk => "`*`".to_owned(),
            Token::Slash => "`/`".to_owned(),
            Token::Lt => "`<`".to_owned(),
            Token::Gt => "`>`".to_owned(),
            Token::Eq => "`==`".to_owned(),
            Token::NotEq => "`!=`".to_owned(),
            Token::Comma => "`,`".to_owned(),
            Token::Semicolon => "`;`".to_owned(),
            Token::Colon => "`:`".to_owned(),
            Token::LParen => "`(`".to_owned(),
            Token::RParen => "`)`".to_owned(),
            Token::LBrace => "`{`".to_owned(),
            Token::RBrace => "`}`".to_owned(),
            Token::LBracket => "`[`".to_owned(),
            Token::RBracket => "`]`".to_owned(),
            Token::True => "<bool=true>".to_owned(),
            Token::False => "<bool=false>".to_owned(),
            Token::Function => "`fn`".to_owned(),
            Token::Let => "`let`".to_owned(),
            Token::If => "`if`".to_owned(),
            Token::Else => "`else`".to_owned(),
            Token::Return => "`return`".to_owned(),
        }
    }
}

impl Expectation {
    /// What the parser was looking for, in words.
    pub fn to_text(&self) -> (text: String)
        ensures
            text@ == expectation_text(*self),
    {
        match self {
            Expectation::Expression => "an expression".to_owned(),
            Expectation::Identifier => "an identifier".to_owned(),
            Expectation::Parameter => "the name of a parameter".to_owned(),
            Expectation::Operator => "an operator".to_owned(),
            Expectation::Assign => "`=`".to_owned(),
            Expectation::Semicolon => "`;`".to_owned(),
            Expectation::SemicolonOrEof => "`;` or the end of the input".to_owned(),
            Expectation::Colon => "`:`".to_owned(),
            Expectation::LParen => "`(`".to_owned(),
            Expectation::RParen => "`)`".to_owned(),
            Expectation::LBrace => "`{`".to_owned(),
            Expectation::RBracket => "`]`".to_owned(),
            Expectation::CommaOrRParen => "`,` or `)`".to_owned(),
            Expectation::CommaOrRBracket => "`,` or `]`".to_owned(),
            Expectation::CommaOrRBrace => "`,` or `}`".to_owned(),
            Expectation::ShallowerNesting => "an expression that nests less deep".to_owned(),
            Expectation::LowerTree => "a shorter chain of operators".to_owned(),
        }
    }
}

impl ParseError {
    /// The error, in words.
    pub fn message(&self) -> (text: String)
        ensures
            text@ == parse_error_text(self@),
    {
        let mut text = "Invalid token ".to_owned();
        text.append(self.found.to_text().as_str());
        text.append(", expected ");
        text.append(self.expected.to_text().as_str());
        text
    }
}

impl EvalError {
    /// The error, in words.
    pub fn message(&self) -> (text: String)
        ensures
            text@ == eval_error_text(*self),
    {
        match self {
            EvalError::InvalidOperation(operator) => {
                let mut text = "Invalid operation ".to_owned();
                text.append(operator.to_text().as_str());
                text.append(" between these values");
                text
            },
            EvalError::NotNegatable => "This value cannot be negated".to_owned(),
            EvalError::UnhashableKey =>
                "Invalid object type for a hash key, must be int, str or bool".to_owned(),
            EvalError::NotCallable => "This value is not a function".to_owned(),
            EvalError::WrongArgumentCount { expected, found } => {
                let mut text = "Invalid function call argument counts, ".to_owned();
                push_count(&mut text, *expected);
                text.append(" requested, ");
                push_count(&mut text, *found);
                text.append(" provided");
                text
            },
            EvalError::BuiltinArity(builtin) => {
                let mut text = "Wrong number of arguments for builtin function `".to_owned();
                text.append(builtin.to_text().as_str());
                text.append("`");
                text
            },
            EvalError::BuiltinArgument(builtin) => {
                let mut text = "Invalid argument for builtin function `".to_owned();
                text.append(builtin.to_text().as_str());
                text.append("`");
                text
            },
            EvalError::DivisionByZero => "Division by zero".to_owned(),
            EvalError::Overflow => "Integer overflow".to_owned(),
            EvalError::DepthExceeded => "The evaluation nests too deep".to_owned(),
        }
    }
}

impl Error {
    /// The error, in words.
    pub fn message(&self) -> (text: String)
        ensures
            text@ == error_text(self@),
    {
        match self {
            Error::Parse(e) => e.message(),
            Error::Eval(e) => e.message(),
        }
    }
}

} // verus!
