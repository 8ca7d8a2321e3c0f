//! The stack machine: evaluates a postfix expression and records the stack
//! after each token.

use vstd::prelude::*;
use crate::token::{Operator, Token};

verus! {

/// Why an expression has no value.
#[derive(Clone, Copy, Debug, PartialEq, Eq, Structural)]
pub enum EvalError {
    /// An operator found fewer than two operands on the stack.
    StackUnderflow,
    /// The expression was read to its end and left the stack empty.
    NoResult,
}

/// The contents of each recorded stack.
pub open spec fn stack_views<T>(history: Seq<Vec<T>>) -> Seq<Seq<T>> {
    Seq::new(history.len(), |i: int| history[i]@)
}

/// The number of operands on the stack once `tokens` have been processed, or
/// `None` if an operator among them finds fewer than two operands. It
/// depends on the kinds of the tokens only, not on any number.
pub open spec fn depth_after<T>(tokens: Seq<Token<T>>) -> Option<nat>
    decreases tokens.len(),
{
    if tokens.len() == 0 {
        Some(0)
    } else {
        match depth_after(tokens.drop_last()) {
            None => None,
            Some(depth) => match tokens.last() {
                Token::Number(_) => Some(depth + 1),
                Token::Operator(_) => if depth >= 2 {
                    Some((depth - 1) as nat)
                } else {
                    None
                },
            },
        }
    }
}

/// The stack on which token `i` operates: empty for the first token, else
/// the stack recorded after the token before it.
pub open spec fn stack_before<T>(history: Seq<Seq<T>>, i: int) -> Seq<T> {
    if i <= 0 {
        Seq::empty()
    } else {
        history[i - 1]
    }
}

/// One step of the machine. A number is pushed. An operator takes the two
/// topmost operands off the stack and pushes what `apply` gives for them,
/// the operand that was pushed earlier on the left.
pub open spec fn steps<T, A: Fn(Operator, T, T) -> T>(
    apply: A,
    before: Seq<T>,
    token: Token<T>,
    after: Seq<T>,
) -> bool {
    match token {
        Token::Number(value) => after == before.push(value),
        Token::Operator(op) => {
            &&& before.len() >= 2
            &&& after.len() == before.len() - 1
            &&& after.drop_last() == before.take(before.len() - 2)
            &&& apply.ensures(
                (op, before[before.len() - 2], before[before.len() - 1]),
                after.last(),
            )
        },
    }
}

/// `history` records an evaluation of `tokens`: one stack for each token,
/// each the result of one step from the stack before it.
pub open spec fn is_trace<T, A: Fn(Operator, T, T) -> T>(
    apply: A,
    tokens: Seq<Token<T>>,
    history: Seq<Seq<T>>,
) -> bool {
    &&& history.len() == tokens.len()
    &&& forall|i: int|
        0 <= i < tokens.len() ==> steps(
            apply,
            stack_before(history, i),
            tokens[i],
            #[trigger] history[i],
        )
}

/// An underflow within a prefix is an underflow of the whole expression.
pub proof fn lemma_underflow_stays<T>(tokens: Seq<Token<T>>, k: int)
    requires
        0 <= k <= tokens.len(),
        depth_after(tokens.take(k)) is None,
    ensures
        depth_after(tokens) is None,
    decreases tokens.len() - k,
{
    if k == tokens.len() {
        assert(tokens.take(k) == tokens);
    } else {
        assert(tokens.take(k + 1).drop_last() == tokens.take(k));
        lemma_underflow_stays(tokens, k + 1);
    }
}

/// In a recorded evaluation no operator underflows, and the stack recorded
/// after each token is as deep as the kinds of the tokens up to it say.
pub proof fn lemma_trace_depths<T, A: Fn(Operator, T, T) -> T>(
    apply: A,
    tokens: Seq<Token<T>>,
    history: Seq<Seq<T>>,
    k: int,
)
    requires
        is_trace(apply, tokens, history),
        0 <= k <= tokens.len(),
    ensures
        depth_after(tokens.take(k)) == Some(stack_before(history, k).len()),
    decreases k,
{
    if k > 0 {
        lemma_trace_depths(apply, tokens, history, k - 1);
        assert(tokens.take(k).drop_last() == tokens.take(k - 1));
        assert(steps(apply, stack_before(history, k - 1), tokens[k - 1], history[k - 1]));
    }
}

/// A copy of the stack.
fn snapshot<T: Copy>(stack: &Vec<T>) -> (copy: Vec<T>)
    ensures
        copy@ == stack@,
{
    let mut copy: Vec<T> = Vec::new();
    let mut i: usize = 0;
    while i < stack.len()
        invariant
            i <= stack.len(),
            copy@ == stack@.take(i as int),
        decreases stack.len() - i,
    {
        copy.push(stack[i]);
        assert(stack@.take(i + 1) == stack@.take(i as int).push(stack@[i as int]));
        i += 1;
    }
    assert(stack@.take(stack.len() as int) == stack@);
    copy
}

/// Evaluates a postfix expression.
///
/// Returns the value left on top of the stack together with the stack as it
/// stood after each token. An operator that finds fewer than two operands
/// ends the evaluation with `StackUnderflow`; an expression that leaves the
/// stack empty, which only the empty expression does, gives `NoResult`.
/// Operands left under the result are ignored.
pub fn eval<T: Copy, A: Fn(Operator, T, T) -> T>(tokens: &[Token<T>], apply: A) -> (result: Result<
    (T, Vec<Vec<T>>),
    EvalError,
>)
    requires
        forall|op: Operator, left: T, right: T| apply.requires((op, left, right)),
    ensures
        result is Ok <==> tokens@.len() > 0 && depth_after(tokens@) is Some,
        result == Err::<(T, Vec<Vec<T>>), EvalError>(EvalError::StackUnderflow) <==> depth_after(
            tokens@,
        ) is None,
        result == Err::<(T, Vec<Vec<T>>), EvalError>(EvalError::NoResult) <==> tokens@.len() == 0,
        match result {
            Ok((value, history)) => {
                &&& is_trace(apply, tokens@, stack_views(history@))
                &&& history@.last()@.len() > 0
                &&& value == history@.last()@.last()
            },
            Err(_) => true,
        },
{
    let mut stack: Vec<T> = Vec::new();
    let mut history: Vec<Vec<T>> = Vec::new();
    let mut i: usize = 0;
    assert(tokens@.take(0) == Seq::<Token<T>>::empty());
    while i < tokens.len()
        invariant
            i <= tokens.len(),
            forall|op: Operator, left: T, right: T| apply.requires((op, left, right)),
            is_trace(apply, tokens@.take(i as int), stack_views(history@)),
            stack@ == stack_before(stack_views(history@), i as int),
            depth_after(tokens@.take(i as int)) == Some(stack@.len()),
        decreases tokens.len() - i,
    {
        let ghost before = stack@;
        let ghost recorded = stack_views(history@);
        assert(tokens@.take(i + 1).drop_last() == tokens@.take(i as int));
        match &tokens[i] {
            Token::Number(value) => {
                stack.push(*value);
            },
            Token::Operator(op) => {
                if stack.len() < 2 {
                    proof {
                        lemma_underflow_stays(tokens@, i + 1);
                    }
                    return Err(EvalError::StackUnderflow);
                }
                let lhs = stack.pop().unwrap();
                let rhs = stack.pop().unwrap();
                let value = apply(*op, rhs, lhs);
                stack.push(value);
                assert(stack@.drop_last() == before.take(before.len() - 2));
            },
        }
        assert(steps(apply, before, tokens@[i as int], stack@));
        let copy = snapshot(&stack);
        history.push(copy);
        proof {
            let extended = stack_views(history@);
            assert(extended == recorded.push(stack@));
            assert forall|j: int| 0 <= j < i + 1 implies steps(
                apply,
                stack_before(extended, j),
                tokens@.take(i + 1)[j],
                #[trigger] extended[j],
            ) by {
                if j < i {
                    assert(tokens@.take(i as int)[j] == tokens@.take(i + 1)[j]);
                    assert(extended[j] == recorded[j]);
                    assert(stack_before(extended, j) == stack_before(recorded, j));
                }
            }
        }
        i += 1;
    }
    assert(tokens@.take(i as int) == tokens@);
    match stack.pop() {
        None => Err(EvalError::NoResult),
        Some(value) => Ok((value, history)),
    }
}

} // verus!
