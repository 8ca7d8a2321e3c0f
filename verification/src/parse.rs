//! Reading a line: meta-commands and expressions.

use vstd::prelude::*;
use crate::text::{characters, fields, slice_texts, split_fields};
use crate::token::{operator_of, read_operator, Command, Input, Token};

verus! {

/// The command that `text` names: `q` and `quit` quit, `trace` shows the
/// trace. The match is exact and case-sensitive.
pub open spec fn command_of(text: Seq<char>) -> Option<Command> {
    if text == "q"@ || text == "quit"@ {
        Some(Command::Quit)
    } else if text == "trace"@ {
        Some(Command::Trace)
    } else {
        None
    }
}

/// Tells whether two texts hold the same characters.
pub fn same_text(a: &str, b: &str) -> (same: bool)
    ensures
        same == (a@ == b@),
{
    let left = characters(a);
    let right = characters(b);
    if left.len() != right.len() {
        return false;
    }
    let mut i: usize = 0;
    while i < left.len()
        invariant
            left@ == a@,
            right@ == b@,
            left.len() == right.len(),
            i <= left.len(),
            a@.take(i as int) == b@.take(i as int),
        decreases left.len() - i,
    {
        if left[i] != right[i] {
            return false;
        }
        assert(a@.take(i + 1) == a@.take(i as int).push(a@[i as int]));
        assert(b@.take(i + 1) == b@.take(i as int).push(b@[i as int]));
        i += 1;
    }
    assert(a@.take(i as int) == a@);
    assert(b@.take(i as int) == b@);
    true
}

/// Reads the name of a meta-command, the text that follows the `:`.
pub fn parse_command(input: &str) -> (command: Option<Command>)
    ensures
        command == command_of(input@),
{
    if same_text(input, "q") || same_text(input, "quit") {
        Some(Command::Quit)
    } else if same_text(input, "trace") {
        Some(Command::Trace)
    } else {
        None
    }
}

/// `parse` may read `field` as `number`: as a number, or as none.
pub open spec fn reads<T, P: Fn(&str) -> Option<T>>(
    parse: P,
    field: Seq<char>,
    number: Option<T>,
) -> bool {
    exists|text: &str| text@ == field && #[trigger] parse.ensures((text,), number)
}

/// The token of a field, given what the field reads as. A field that reads
/// as a number is that number, whatever it spells; any other field must
/// spell an operator.
pub open spec fn token_for<T>(field: Seq<char>, number: Option<T>) -> Option<Token<T>> {
    match number {
        Some(value) => Some(Token::Number(value)),
        None => match operator_of(field) {
            Some(op) => Some(Token::Operator(op)),
            None => None,
        },
    }
}

/// `field` may come out as `token`; as `None`, it may be refused.
pub open spec fn yields<T, P: Fn(&str) -> Option<T>>(
    parse: P,
    field: Seq<char>,
    token: Option<Token<T>>,
) -> bool {
    exists|number: Option<T>| #[trigger]
        reads(parse, field, number) && token == token_for(field, number)
}

/// What tokenizing `line` may give: a token for each field, in order, or
/// `None` where some field may be refused.
pub open spec fn tokenizes<T, P: Fn(&str) -> Option<T>>(
    parse: P,
    line: Seq<char>,
    tokens: Option<Seq<Token<T>>>,
) -> bool {
    match tokens {
        Some(tokens) => {
            &&& tokens.len() == fields(line).len()
            &&& forall|i: int|
                0 <= i < tokens.len() ==> yields(parse, fields(line)[i], Some(#[trigger] tokens[i]))
        },
        None => exists|i: int|
            0 <= i < fields(line).len() && yields(parse, #[trigger] fields(line)[i], None::<Token<T>>),
    }
}

/// The token of `field`, given what the field read as.
pub fn token_of<T>(field: &str, number: Option<T>) -> (token: Option<Token<T>>)
    ensures
        token == token_for(field@, number),
{
    match number {
        Some(value) => Some(Token::Number(value)),
        None => match read_operator(field) {
            Some(op) => Some(Token::Operator(op)),
            None => None,
        },
    }
}

/// Tokenizes an expression. Every field of the line is handed to `parse`
/// first; a field that does not read as a number must be one of `+ - * /`.
/// One field that is neither fails the whole line.
pub fn parse_expression<T, P: Fn(&str) -> Option<T>>(input: &str, parse: P) -> (tokens: Option<
    Vec<Token<T>>,
>)
    requires
        forall|text: &str| parse.requires((text,)),
    ensures
        tokenizes(
            parse,
            input@,
            match tokens {
                Some(tokens) => Some(tokens@),
                None => None,
            },
        ),
{
    let parts = split_fields(input);
    let mut tokens: Vec<Token<T>> = Vec::new();
    let mut i: usize = 0;
    while i < parts.len()
        invariant
            forall|text: &str| parse.requires((text,)),
            slice_texts(parts@) == fields(input@),
            i <= parts.len(),
            tokens.len() == i,
            forall|j: int|
                0 <= j < i ==> yields(parse, fields(input@)[j], Some(#[trigger] tokens@[j])),
        decreases parts.len() - i,
    {
        let field = parts[i];
        assert(field@ == fields(input@)[i as int]) by {
            assert(slice_texts(parts@)[i as int] == parts@[i as int]@);
        }
        let number = parse(field);
        assert(reads(parse, field@, number));
        match token_of(field, number) {
            Some(token) => {
                tokens.push(token);
            },
            None => {
                assert(yields(parse, fields(input@)[i as int], None::<Token<T>>));
                return None;
            },
        }
        i += 1;
    }
    assert(fields(input@).len() == slice_texts(parts@).len());
    Some(tokens)
}

/// A line is a command line if and only if it starts with `:`.
pub open spec fn is_command_line(line: Seq<char>) -> bool {
    line.len() > 0 && line[0] == ':'
}

/// The tokens of an input, if it is an expression.
pub open spec fn expression_of<T>(input: Option<Input<T>>) -> Option<Seq<Token<T>>> {
    match input {
        Some(Input::Expression(tokens)) => Some(tokens@),
        _ => None,
    }
}

/// What parsing `line` may give. A command line gives the command that its
/// remainder names, or `None`. Any other line, the empty one too, gives an
/// expression, or `None` where it does not tokenize.
pub open spec fn parses<T, P: Fn(&str) -> Option<T>>(
    parse: P,
    line: Seq<char>,
    input: Option<Input<T>>,
) -> bool {
    if is_command_line(line) {
        match command_of(line.skip(1)) {
            Some(command) => input == Some(Input::<T>::Command(command)),
            None => input is None,
        }
    } else {
        &&& !(input matches Some(Input::Command(_)))
        &&& tokenizes(parse, line, expression_of(input))
    }
}

/// Parses one line as a command or as an expression.
pub fn parse_input<T, P: Fn(&str) -> Option<T>>(input: &str, parse: P) -> (parsed: Option<Input<T>>)
    requires
        forall|text: &str| parse.requires((text,)),
    ensures
        parses(parse, input@, parsed),
{
    let len = input.unicode_len();
    if len > 0 && input.get_char(0) == ':' {
        let name = input.substring_char(1, len);
        assert(name@ == input@.skip(1));
        match parse_command(name) {
            Some(command) => Some(Input::Command(command)),
            None => None,
        }
    } else {
        match parse_expression(input, parse) {
            Some(tokens) => Some(Input::Expression(tokens)),
            None => None,
        }
    }
}

} // verus!
