//! The session: what is kept between lines, and the step that one line
//! takes.

use vstd::prelude::*;
use crate::eval::{depth_after, eval, is_trace, stack_views};
use crate::parse::{parse_input, parses};
use crate::text::{trim, trimmed};
use crate::token::{Command, Input, Operator, Token};
use crate::trace::{
    lemma_rendering_is_unique, render_stack_trace, renders, shows, single_valued, string_views,
};

verus! {

/// What the loop around the session does after a line.
#[derive(Debug, PartialEq)]
pub enum Reply {
    /// Stop: read no further line.
    Quit,
    /// Show these lines, then read the next line.
    Print(Vec<String>),
}

impl Reply {
    /// The lines to show.
    pub open spec fn lines(self) -> Seq<Seq<char>> {
        match self {
            Reply::Quit => Seq::empty(),
            Reply::Print(lines) => string_views(lines@),
        }
    }
}

/// The last expression that had a value, with the stack recorded after each
/// of its tokens. Both are empty until an expression has been evaluated.
#[derive(Debug)]
pub struct Session<T> {
    expr: Vec<Token<T>>,
    history: Vec<Vec<T>>,
}

impl<T> Session<T> {
    #[verifier::type_invariant]
    spec fn balanced(&self) -> bool {
        self.history.len() == self.expr.len()
    }
}

impl<T: Copy> Session<T> {
    /// The expression kept.
    pub closed spec fn expression(&self) -> Seq<Token<T>> {
        self.expr@
    }

    /// The stacks recorded for the expression kept.
    pub closed spec fn history(&self) -> Seq<Seq<T>> {
        stack_views(self.history@)
    }

    /// One stack is recorded for each token.
    pub open spec fn well_formed(&self) -> bool {
        self.history().len() == self.expression().len()
    }

    /// The stacks kept record an evaluation of the expression kept.
    pub open spec fn records<A: Fn(Operator, T, T) -> T>(&self, apply: A) -> bool {
        is_trace(apply, self.expression(), self.history())
    }

    /// The session holds what `other` holds.
    pub open spec fn same_as(&self, other: &Self) -> bool {
        &&& self.expression() == other.expression()
        &&& self.history() == other.history()
    }

    /// A session in which nothing has been evaluated yet.
    pub fn new() -> (session: Self)
        ensures
            session.expression() == Seq::<Token<T>>::empty(),
            session.history() == Seq::<Seq<T>>::empty(),
            session.well_formed(),
    {
        Session { expr: Vec::new(), history: Vec::new() }
    }

    /// The expression kept.
    pub fn last_expression(&self) -> (expr: &Vec<Token<T>>)
        ensures
            expr@ == self.expression(),
    {
        &self.expr
    }

    /// The stacks recorded for the expression kept, one for each token.
    pub fn last_history(&self) -> (history: &Vec<Vec<T>>)
        ensures
            stack_views(history@) == self.history(),
            history.len() == self.expression().len(),
    {
        proof {
            use_type_invariant(self);
        }
        &self.history
    }

    /// What handling `input` may do to a session, and what it may reply.
    ///
    /// A line that did not parse, and an expression without a value, are
    /// answered with a message and change nothing. An expression with a
    /// value replaces what the session holds, and its value is shown. `Quit`
    /// stops. `Trace` shows the rendering of what the session holds, and
    /// changes nothing.
    pub open spec fn handled<A: Fn(Operator, T, T) -> T, S: Fn(T) -> String>(
        before: &Self,
        input: Option<Input<T>>,
        apply: A,
        show: S,
        after: &Self,
        reply: Reply,
    ) -> bool {
        match input {
            None => {
                &&& after.same_as(before)
                &&& reply is Print
                &&& reply.lines() == seq!["invalid input"@]
            },
            Some(Input::Command(Command::Quit)) => {
                &&& after.same_as(before)
                &&& reply is Quit
            },
            Some(Input::Command(Command::Trace)) => {
                &&& after.same_as(before)
                &&& reply is Print
                &&& renders(show, before.expression(), before.history(), reply.lines())
            },
            Some(Input::Expression(tokens)) => if tokens@.len() > 0 && depth_after(tokens@) is Some {
                &&& after.expression() == tokens@
                &&& after.records(apply)
                &&& after.history().last().len() > 0
                &&& reply is Print
                &&& reply.lines().len() == 1
                &&& shows(show, after.history().last().last(), reply.lines()[0])
            } else {
                &&& after.same_as(before)
                &&& reply is Print
                &&& reply.lines() == seq!["invalid expression"@]
            },
        }
    }

    /// Handles one parsed line; `None` stands for a line that did not parse.
    pub fn handle<A: Fn(Operator, T, T) -> T, S: Fn(T) -> String>(
        &mut self,
        input: Option<Input<T>>,
        apply: A,
        show: S,
    ) -> (reply: Reply)
        requires
            forall|op: Operator, left: T, right: T| apply.requires((op, left, right)),
            forall|number: T| show.requires((number,)),
        ensures
            Self::handled(old(self), input, apply, show, final(self), reply),
            final(self).well_formed(),
    {
        proof {
            use_type_invariant(&*self);
        }
        match input {
            None => Reply::Print(one_line(String::from_str("invalid input"))),
            Some(Input::Command(Command::Quit)) => Reply::Quit,
            Some(Input::Command(Command::Trace)) => {
                let lines = render_stack_trace(self.expr.as_slice(), self.history.as_slice(), show);
                Reply::Print(lines)
            },
            Some(Input::Expression(tokens)) => {
                match eval(tokens.as_slice(), apply) {
                    Err(_) => Reply::Print(one_line(String::from_str("invalid expression"))),
                    Ok((value, history)) => {
                        let text = show(value);
                        *self = Session { expr: tokens, history };
                        Reply::Print(one_line(text))
                    },
                }
            },
        }
    }

    /// Takes one line, as it was read, or `None` at the end of the input.
    ///
    /// The end of the input stops the loop as `:quit` does. A line is
    /// trimmed, parsed and handled.
    pub fn step<P: Fn(&str) -> Option<T>, A: Fn(Operator, T, T) -> T, S: Fn(T) -> String>(
        &mut self,
        line: Option<&str>,
        parse: P,
        apply: A,
        show: S,
    ) -> (reply: Reply)
        requires
            forall|text: &str| parse.requires((text,)),
            forall|op: Operator, left: T, right: T| apply.requires((op, left, right)),
            forall|number: T| show.requires((number,)),
        ensures
            final(self).well_formed(),
            match line {
                None => final(self).same_as(old(self)) && reply is Quit,
                Some(text) => exists|input: Option<Input<T>>|
                    {
                        &&& #[trigger] parses(parse, trimmed(text@), input)
                        &&& Self::handled(old(self), input, apply, show, final(self), reply)
                    },
            },
    {
        proof {
            use_type_invariant(&*self);
        }
        match line {
            None => Reply::Quit,
            Some(text) => {
                let input = parse_input(trim(text), parse);
                let ghost parsed = input;
                let reply = self.handle(input, apply, show);
                assert(parses(parse, trimmed(text@), parsed));
                reply
            },
        }
    }
}

/// A session that records an evaluation of what it holds still does so
/// after any input, and keeps one stack for each token.
pub proof fn lemma_session_keeps_record<T: Copy, A: Fn(Operator, T, T) -> T, S: Fn(T) -> String>(
    before: Session<T>,
    input: Option<Input<T>>,
    apply: A,
    show: S,
    after: Session<T>,
    reply: Reply,
)
    requires
        Session::handled(&before, input, apply, show, &after, reply),
        before.records(apply),
    ensures
        after.records(apply),
        after.well_formed(),
{
}

/// Asking for the trace twice in a row shows the same lines twice, and
/// leaves the session as it was, where `show` writes each number in one way
/// only.
pub proof fn lemma_trace_repeats<T: Copy, A: Fn(Operator, T, T) -> T, S: Fn(T) -> String>(
    before: Session<T>,
    apply: A,
    show: S,
    between: Session<T>,
    first: Reply,
    after: Session<T>,
    second: Reply,
)
    requires
        single_valued(show),
        Session::handled(
            &before,
            Some(Input::Command(Command::Trace)),
            apply,
            show,
            &between,
            first,
        ),
        Session::handled(
            &between,
            Some(Input::Command(Command::Trace)),
            apply,
            show,
            &after,
            second,
        ),
    ensures
        first.lines() == second.lines(),
        after.same_as(&before),
{
    lemma_rendering_is_unique(
        show,
        before.expression(),
        before.history(),
        first.lines(),
        second.lines(),
    );
}

/// An input that fails, a line that did not parse or an expression without
/// a value, leaves the session as it was: the trace asked for after it is
/// a rendering of what the session held before.
pub proof fn lemma_failure_keeps_trace<T: Copy, A: Fn(Operator, T, T) -> T, S: Fn(T) -> String>(
    before: Session<T>,
    input: Option<Input<T>>,
    apply: A,
    show: S,
    between: Session<T>,
    failure: Reply,
    after: Session<T>,
    trace: Reply,
)
    requires
        match input {
            None => true,
            Some(Input::Expression(tokens)) => tokens@.len() == 0 || depth_after(tokens@) is None,
            Some(Input::Command(_)) => false,
        },
        Session::handled(&before, input, apply, show, &between, failure),
        Session::handled(
            &between,
            Some(Input::Command(Command::Trace)),
            apply,
            show,
            &after,
            trace,
        ),
    ensures
        between.same_as(&before),
        after.same_as(&before),
        renders(show, before.expression(), before.history(), trace.lines()),
{
}

/// A single line of output.
fn one_line(text: String) -> (lines: Vec<String>)
    ensures
        string_views(lines@) == seq![text@],
{
    let mut lines: Vec<String> = Vec::new();
    lines.push(text);
    assert(string_views(lines@) == seq![text@]);
    lines
}

} // verus!
