//! Rendering a recorded evaluation as text, one line for each step.

use vstd::prelude::*;
use crate::eval::stack_views;
use crate::token::Token;

verus! {

/// The contents of each string.
pub open spec fn string_views(texts: Seq<String>) -> Seq<Seq<char>> {
    Seq::new(texts.len(), |i: int| texts[i]@)
}

/// The contents of each string of each row.
pub open spec fn row_views(rows: Seq<Vec<String>>) -> Seq<Seq<Seq<char>>> {
    Seq::new(rows.len(), |i: int| string_views(rows[i]@))
}

/// The parts in order, with the separator between each two neighbours.
pub open spec fn joined(parts: Seq<Seq<char>>, separator: Seq<char>) -> Seq<char>
    decreases parts.len(),
{
    if parts.len() == 0 {
        Seq::empty()
    } else if parts.len() == 1 {
        parts[0]
    } else {
        joined(parts.drop_last(), separator) + separator + parts.last()
    }
}

/// The tokens of an expression with the one at `pointer` set in angle
/// brackets. A pointer outside the expression marks nothing.
pub open spec fn pointed(tokens: Seq<Seq<char>>, pointer: int) -> Seq<Seq<char>> {
    Seq::new(
        tokens.len(),
        |j: int|
            if j == pointer {
                "<"@ + tokens[j] + ">"@
            } else {
                tokens[j]
            },
    )
}

/// The line for step `i`: the stack after the step, then the expression
/// with the token that runs next marked.
pub open spec fn trace_line(tokens: Seq<Seq<char>>, stack: Seq<Seq<char>>, i: int) -> Seq<char> {
    "stack:["@ + joined(stack, ", "@) + "]  expr["@ + joined(pointed(tokens, i + 1), " "@) + "]"@
}

/// The whole trace: nothing where no step was recorded, else a heading
/// and one line for each step.
pub open spec fn trace_lines(tokens: Seq<Seq<char>>, stacks: Seq<Seq<Seq<char>>>) -> Seq<Seq<char>> {
    if stacks.len() == 0 {
        Seq::empty()
    } else {
        seq!["ip: <>"@] + Seq::new(stacks.len(), |i: int| trace_line(tokens, stacks[i], i))
    }
}

/// Appends to `line` the parts, separated, with the part at `pointer`, if
/// there is one, in angle brackets.
fn append_joined(line: &mut String, parts: &Vec<String>, separator: &str, pointer: Option<usize>)
    ensures
        final(line)@ == old(line)@ + joined(
            match pointer {
                Some(p) => pointed(string_views(parts@), p as int),
                None => string_views(parts@),
            },
            separator@,
        ),
{
    let ghost start = line@;
    let ghost items = match pointer {
        Some(p) => pointed(string_views(parts@), p as int),
        None => string_views(parts@),
    };
    let mut j: usize = 0;
    assert(items.take(0) == Seq::<Seq<char>>::empty());
    assert(start + joined(items.take(0), separator@) == start);
    while j < parts.len()
        invariant
            j <= parts.len(),
            items.len() == parts.len(),
            items == match pointer {
                Some(p) => pointed(string_views(parts@), p as int),
                None => string_views(parts@),
            },
            line@ == start + joined(items.take(j as int), separator@),
        decreases parts.len() - j,
    {
        let ghost so_far = joined(items.take(j as int), separator@);
        if j > 0 {
            line.append(separator);
        }
        let marked = match pointer {
            Some(p) => p == j,
            None => false,
        };
        if marked {
            line.append("<");
            line.append(parts[j].as_str());
            line.append(">");
        } else {
            line.append(parts[j].as_str());
        }
        proof {
            let next = items.take(j + 1);
            assert(next.drop_last() == items.take(j as int));
            assert(next.last() == items[j as int]);
            assert(string_views(parts@)[j as int] == parts@[j as int]@);
            if j > 0 {
                assert(line@ == start + (so_far + separator@ + items[j as int]));
            } else {
                assert(so_far == Seq::<char>::empty());
                assert(line@ == start + items[j as int]);
            }
        }
        j += 1;
    }
    assert(items.take(j as int) == items);
}

/// Renders a recorded evaluation from the texts of its tokens and of the
/// numbers on each recorded stack.
pub fn render_trace(tokens: &Vec<String>, stacks: &Vec<Vec<String>>) -> (lines: Vec<String>)
    ensures
        string_views(lines@) == trace_lines(string_views(tokens@), row_views(stacks@)),
{
    let mut lines: Vec<String> = Vec::new();
    if stacks.len() == 0 {
        assert(string_views(lines@) == Seq::<Seq<char>>::empty());
        return lines;
    }
    lines.push(String::from_str("ip: <>"));
    let ghost token_texts = string_views(tokens@);
    let ghost stack_texts = row_views(stacks@);
    let mut i: usize = 0;
    assert(string_views(lines@) == seq!["ip: <>"@] + Seq::new(
        0,
        |k: int| trace_line(token_texts, stack_texts[k], k),
    ));
    while i < stacks.len()
        invariant
            i <= stacks.len(),
            token_texts == string_views(tokens@),
            stack_texts == row_views(stacks@),
            string_views(lines@) == seq!["ip: <>"@] + Seq::new(
                i as nat,
                |k: int| trace_line(token_texts, stack_texts[k], k),
            ),
        decreases stacks.len() - i,
    {
        let ghost before = string_views(lines@);
        let mut line = String::from_str("stack:[");
        append_joined(&mut line, &stacks[i], ", ", None);
        line.append("]  expr[");
        append_joined(&mut line, tokens, " ", Some(i + 1));
        line.append("]");
        assert(line@ == trace_line(token_texts, stack_texts[i as int], i as int));
        lines.push(line);
        assert(string_views(lines@) == before.push(line@));
        assert(string_views(lines@) == seq!["ip: <>"@] + Seq::new(
            (i + 1) as nat,
            |k: int| trace_line(token_texts, stack_texts[k], k),
        ));
        i += 1;
    }
    lines
}

/// `show` may write `number` as `text`.
pub open spec fn shows<T, S: Fn(T) -> String>(show: S, number: T, text: Seq<char>) -> bool {
    exists|written: String| written@ == text && #[trigger] show.ensures((number,), written)
}

/// `text` is a text of `token`: of a number what `show` may write for it,
/// of an operator its symbol.
pub open spec fn token_shows<T, S: Fn(T) -> String>(show: S, token: Token<T>, text: Seq<char>) -> bool {
    match token {
        Token::Number(value) => shows(show, value, text),
        Token::Operator(op) => text == op.symbol_text(),
    }
}

/// `texts` holds a text of each token, in order.
pub open spec fn tokens_show<T, S: Fn(T) -> String>(
    show: S,
    tokens: Seq<Token<T>>,
    texts: Seq<Seq<char>>,
) -> bool {
    &&& texts.len() == tokens.len()
    &&& forall|i: int| 0 <= i < tokens.len() ==> token_shows(show, tokens[i], #[trigger] texts[i])
}

/// `texts` holds a text of each number of the stack, in order.
pub open spec fn stack_shows<T, S: Fn(T) -> String>(
    show: S,
    stack: Seq<T>,
    texts: Seq<Seq<char>>,
) -> bool {
    &&& texts.len() == stack.len()
    &&& forall|i: int| 0 <= i < stack.len() ==> shows(show, stack[i], #[trigger] texts[i])
}

/// `rows` holds the texts of each stack, in order.
pub open spec fn stacks_show<T, S: Fn(T) -> String>(
    show: S,
    stacks: Seq<Seq<T>>,
    rows: Seq<Seq<Seq<char>>>,
) -> bool {
    &&& rows.len() == stacks.len()
    &&& forall|i: int| 0 <= i < stacks.len() ==> stack_shows(show, stacks[i], #[trigger] rows[i])
}

/// `lines` is a rendering of the expression and its recorded stacks: the
/// trace of some texts that `show` may write for their numbers.
pub open spec fn renders<T, S: Fn(T) -> String>(
    show: S,
    tokens: Seq<Token<T>>,
    stacks: Seq<Seq<T>>,
    lines: Seq<Seq<char>>,
) -> bool {
    exists|texts: Seq<Seq<char>>, rows: Seq<Seq<Seq<char>>>|
        {
            &&& tokens_show(show, tokens, texts)
            &&& stacks_show(show, stacks, rows)
            &&& lines == #[trigger] trace_lines(texts, rows)
        }
}

/// The text of one token.
pub fn token_text<T: Copy, S: Fn(T) -> String>(token: &Token<T>, show: &S) -> (text: String)
    requires
        forall|number: T| show.requires((number,)),
    ensures
        token_shows(*show, *token, text@),
{
    match token {
        Token::Number(value) => show(*value),
        Token::Operator(op) => String::from_str(op.symbol()),
    }
}

/// The texts of the numbers of one stack.
fn stack_texts<T: Copy, S: Fn(T) -> String>(stack: &Vec<T>, show: &S) -> (texts: Vec<String>)
    requires
        forall|number: T| show.requires((number,)),
    ensures
        stack_shows(*show, stack@, string_views(texts@)),
{
    let mut texts: Vec<String> = Vec::new();
    let mut i: usize = 0;
    while i < stack.len()
        invariant
            forall|number: T| show.requires((number,)),
            i <= stack.len(),
            texts.len() == i,
            forall|j: int| 0 <= j < i ==> shows(*show, stack@[j], #[trigger] texts@[j]@),
        decreases stack.len() - i,
    {
        let text = show(stack[i]);
        texts.push(text);
        i += 1;
    }
    texts
}

/// Renders the evaluation that `history` records of `expr`: nothing for an
/// empty history, else a heading and one line for each recorded stack, with
/// the token that runs next set in angle brackets. Numbers are written by
/// `show`.
pub fn render_stack_trace<T: Copy, S: Fn(T) -> String>(
    expr: &[Token<T>],
    history: &[Vec<T>],
    show: S,
) -> (lines: Vec<String>)
    requires
        forall|number: T| show.requires((number,)),
    ensures
        renders(show, expr@, stack_views(history@), string_views(lines@)),
{
    let mut texts: Vec<String> = Vec::new();
    let mut i: usize = 0;
    while i < expr.len()
        invariant
            forall|number: T| show.requires((number,)),
            i <= expr.len(),
            texts.len() == i,
            forall|j: int| 0 <= j < i ==> token_shows(show, expr@[j], #[trigger] texts@[j]@),
        decreases expr.len() - i,
    {
        let text = token_text(&expr[i], &show);
        texts.push(text);
        i += 1;
    }
    let mut rows: Vec<Vec<String>> = Vec::new();
    let mut k: usize = 0;
    while k < history.len()
        invariant
            forall|number: T| show.requires((number,)),
            k <= history.len(),
            rows.len() == k,
            forall|j: int|
                0 <= j < k ==> stack_shows(show, history@[j]@, string_views(#[trigger] rows@[j]@)),
        decreases history.len() - k,
    {
        let row = stack_texts(&history[k], &show);
        rows.push(row);
        k += 1;
    }
    let lines = render_trace(&texts, &rows);
    proof {
        let stacks = stack_views(history@);
        assert(tokens_show(show, expr@, string_views(texts@)));
        assert(stacks_show(show, stacks, row_views(rows@))) by {
            assert forall|j: int| 0 <= j < stacks.len() implies stack_shows(
                show,
                stacks[j],
                #[trigger] row_views(rows@)[j],
            ) by {
                assert(row_views(rows@)[j] == string_views(rows@[j]@));
            }
        }
    }
    lines
}

/// `show` writes each number in one way only.
pub open spec fn single_valued<T, S: Fn(T) -> String>(show: S) -> bool {
    forall|number: T, first: String, second: String|
        #[trigger] show.ensures((number,), first) && #[trigger] show.ensures((number,), second)
            ==> first@ == second@
}

/// Under a `show` that writes each number in one way only, an expression
/// and its recorded stacks have one rendering.
pub proof fn lemma_rendering_is_unique<T, S: Fn(T) -> String>(
    show: S,
    tokens: Seq<Token<T>>,
    stacks: Seq<Seq<T>>,
    first: Seq<Seq<char>>,
    second: Seq<Seq<char>>,
)
    requires
        single_valued(show),
        renders(show, tokens, stacks, first),
        renders(show, tokens, stacks, second),
    ensures
        first == second,
{
    let (texts1, rows1) = choose|texts: Seq<Seq<char>>, rows: Seq<Seq<Seq<char>>>|
        {
            &&& tokens_show(show, tokens, texts)
            &&& stacks_show(show, stacks, rows)
            &&& first == #[trigger] trace_lines(texts, rows)
        };
    let (texts2, rows2) = choose|texts: Seq<Seq<char>>, rows: Seq<Seq<Seq<char>>>|
        {
            &&& tokens_show(show, tokens, texts)
            &&& stacks_show(show, stacks, rows)
            &&& second == #[trigger] trace_lines(texts, rows)
        };
    assert forall|i: int| 0 <= i < tokens.len() implies texts1[i] == texts2[i] by {
        assert(token_shows(show, tokens[i], texts1[i]));
        assert(token_shows(show, tokens[i], texts2[i]));
    }
    assert(texts1 =~= texts2);
    assert forall|i: int| 0 <= i < stacks.len() implies rows1[i] == rows2[i] by {
        assert(stack_shows(show, stacks[i], rows1[i]));
        assert(stack_shows(show, stacks[i], rows2[i]));
        assert forall|j: int| 0 <= j < stacks[i].len() implies rows1[i][j] == rows2[i][j] by {
            assert(shows(show, stacks[i][j], rows1[i][j]));
            assert(shows(show, stacks[i][j], rows2[i][j]));
        }
        assert(rows1[i] =~= rows2[i]);
    }
    assert(rows1 =~= rows2);
}

} // verus!
