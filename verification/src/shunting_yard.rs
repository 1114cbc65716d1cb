use vstd::prelude::*;
use crate::error::Error;
use crate::lexer::Tokens;
use crate::token::Operator;
use crate::token::OperatorType;
use crate::token::Token;

verus! {

/// The output and the operator stack after a right parenthesis: operators
/// leave the stack for the output until a left parenthesis is met, which
/// is dropped. `None` where the stack holds no left parenthesis.
pub open spec fn closed(output: Seq<Token>, stack: Seq<Operator>) -> Option<
    (Seq<Token>, Seq<Operator>),
>
    decreases stack.len(),
{
    if stack.len() == 0 {
        None
    } else if stack.last().operator_type == OperatorType::LeftParen {
        Some((output, stack.drop_last()))
    } else {
        closed(output.push(Token::Operator(stack.last())), stack.drop_last())
    }
}

/// The output and the operator stack once the operators that bind more
/// tightly than `precedence` have left the top of the stack for the
/// output; a left parenthesis stops them.
pub open spec fn yielded(output: Seq<Token>, stack: Seq<Operator>, precedence: i64) -> (
    Seq<Token>,
    Seq<Operator>,
)
    decreases stack.len(),
{
    if stack.len() > 0 && stack.last().operator_type != OperatorType::LeftParen
        && stack.last().precedence > precedence {
        yielded(output.push(Token::Operator(stack.last())), stack.drop_last(), precedence)
    } else {
        (output, stack)
    }
}

/// The output once the whole stack has left for it, the top first. `None`
/// where the stack holds a left parenthesis.
pub open spec fn flushed(output: Seq<Token>, stack: Seq<Operator>) -> Option<Seq<Token>>
    decreases stack.len(),
{
    if stack.len() == 0 {
        Some(output)
    } else if stack.last().operator_type == OperatorType::LeftParen {
        None
    } else {
        flushed(output.push(Token::Operator(stack.last())), stack.drop_last())
    }
}

/// The output and the operator stack after `token`: a term goes to the
/// output, a left parenthesis onto the stack, a right parenthesis closes
/// up to its left one, and any other operator goes onto the stack once
/// those that bind more tightly have left it.
pub open spec fn placed(output: Seq<Token>, stack: Seq<Operator>, token: Token) -> Option<
    (Seq<Token>, Seq<Operator>),
> {
    match token {
        Token::Term(_) => Some((output.push(token), stack)),
        Token::Operator(operator) => match operator.operator_type {
            OperatorType::LeftParen => Some((output, stack.push(operator))),
            OperatorType::RightParen => closed(output, stack),
            _ => {
                let (output, stack) = yielded(output, stack, operator.precedence);
                Some((output, stack.push(operator)))
            },
        },
    }
}

/// The output and the operator stack after all of `tokens`, from empty
/// ones. `None` where a right parenthesis found no left one.
pub open spec fn yard(tokens: Seq<Token>) -> Option<(Seq<Token>, Seq<Operator>)>
    decreases tokens.len(),
{
    if tokens.len() == 0 {
        Some((Seq::empty(), Seq::empty()))
    } else {
        match yard(tokens.drop_last()) {
            Some((output, stack)) => placed(output, stack, tokens.last()),
            None => None,
        }
    }
}

/// The postfix order of the infix sequence `tokens`.
pub open spec fn postfix_of(tokens: Seq<Token>) -> Result<Seq<Token>, Error> {
    match yard(tokens) {
        Some((output, stack)) => match flushed(output, stack) {
            Some(postfix) => Ok(postfix),
            None => Err(Error::MismatchedParenthesis),
        },
        None => Err(Error::MismatchedParenthesis),
    }
}

/// How many left parentheses of `tokens` are open at its end: the left
/// ones less the right ones.
pub open spec fn depth(tokens: Seq<Token>) -> int
    decreases tokens.len(),
{
    if tokens.len() == 0 {
        0
    } else if tokens.last().operator(OperatorType::LeftParen) {
        depth(tokens.drop_last()) + 1
    } else if tokens.last().operator(OperatorType::RightParen) {
        depth(tokens.drop_last()) - 1
    } else {
        depth(tokens.drop_last())
    }
}

/// Whether every right parenthesis of `tokens` has a left one of its own
/// before it.
pub open spec fn closes_only_open(tokens: Seq<Token>) -> bool {
    forall|count: int| 0 <= count <= tokens.len() ==> depth(#[trigger] tokens.take(count)) >= 0
}

/// Whether the parentheses of `tokens` match: every right one has a left
/// one of its own before it, and every left one is closed.
pub open spec fn balanced(tokens: Seq<Token>) -> bool {
    closes_only_open(tokens) && depth(tokens) == 0
}

/// How many left parentheses the operator stack holds.
pub open spec fn open_count(stack: Seq<Operator>) -> int
    decreases stack.len(),
{
    if stack.len() == 0 {
        0
    } else if stack.last().operator_type == OperatorType::LeftParen {
        open_count(stack.drop_last()) + 1
    } else {
        open_count(stack.drop_last())
    }
}

/// A right parenthesis finds a left one exactly where the stack holds
/// one, and takes one from it.
pub proof fn lemma_closed(output: Seq<Token>, stack: Seq<Operator>)
    ensures
        open_count(stack) >= 0,
        closed(output, stack) is Some <==> open_count(stack) > 0,
        closed(output, stack) matches Some(state) ==> open_count(state.1) == open_count(stack)
            - 1,
    decreases stack.len(),
{
    if stack.len() > 0 {
        lemma_closed(output.push(Token::Operator(stack.last())), stack.drop_last());
        lemma_closed(output, stack.drop_last());
    }
}

/// An operator that makes others yield leaves every left parenthesis on
/// the stack.
pub proof fn lemma_yielded(output: Seq<Token>, stack: Seq<Operator>, precedence: i64)
    ensures
        open_count(yielded(output, stack, precedence).1) == open_count(stack),
    decreases stack.len(),
{
    if stack.len() > 0 && stack.last().operator_type != OperatorType::LeftParen
        && stack.last().precedence > precedence {
        lemma_yielded(output.push(Token::Operator(stack.last())), stack.drop_last(), precedence);
    }
}

/// The stack can be emptied at the end exactly where it holds no left
/// parenthesis.
pub proof fn lemma_flushed(output: Seq<Token>, stack: Seq<Operator>)
    ensures
        flushed(output, stack) is Some <==> open_count(stack) == 0,
    decreases stack.len(),
{
    if stack.len() > 0 {
        lemma_closed(output, stack.drop_last());
        lemma_flushed(output.push(Token::Operator(stack.last())), stack.drop_last());
    }
}

/// The tokens can be placed exactly where every right parenthesis has a
/// left one before it; the stack then holds the left ones that are open.
pub proof fn lemma_yard(tokens: Seq<Token>)
    ensures
        yard(tokens) is Some <==> closes_only_open(tokens),
        yard(tokens) matches Some(state) ==> open_count(state.1) == depth(tokens),
    decreases tokens.len(),
{
    if tokens.len() == 0 {
        assert forall|count: int| 0 <= count <= tokens.len() implies depth(
            #[trigger] tokens.take(count),
        ) >= 0 by {
            assert(tokens.take(count) == tokens);
        }
    } else {
        let before = tokens.drop_last();
        lemma_yard(before);
        assert(tokens.take(tokens.len() as int) == tokens);
        assert forall|count: int| 0 <= count <= before.len() implies #[trigger] tokens.take(count)
            == before.take(count) by {}
        if closes_only_open(tokens) {
            assert forall|count: int| 0 <= count <= before.len() implies depth(
                #[trigger] before.take(count),
            ) >= 0 by {
                assert(tokens.take(count) == before.take(count));
            }
        }
        match yard(before) {
            Some((output, stack)) => {
                lemma_closed(output, stack);
                match tokens.last() {
                    Token::Operator(operator) => {
                        lemma_yielded(output, stack, operator.precedence);
                        let lower = yielded(output, stack, operator.precedence).1;
                        assert(lower.push(operator).drop_last() == lower);
                        assert(stack.push(operator).drop_last() == stack);
                    },
                    _ => {},
                }
                if depth(tokens) >= 0 {
                    assert forall|count: int| 0 <= count <= tokens.len() implies depth(
                        #[trigger] tokens.take(count),
                    ) >= 0 by {
                        if count < tokens.len() {
                            assert(tokens.take(count) == before.take(count));
                        }
                    }
                }
            },
            None => {},
        }
    }
}

/// An infix sequence can be brought into postfix order exactly where its
/// parentheses match.
pub proof fn lemma_postfix_iff_balanced(tokens: Seq<Token>)
    ensures
        postfix_of(tokens) is Ok <==> balanced(tokens),
        postfix_of(tokens) matches Err(error) ==> error == Error::MismatchedParenthesis,
{
    lemma_yard(tokens);
    match yard(tokens) {
        Some((output, stack)) => {
            lemma_flushed(output, stack);
        },
        None => {},
    }
}

/// Whether `tokens` holds no parenthesis.
pub open spec fn paren_free(tokens: Seq<Token>) -> bool {
    forall|k: int|
        0 <= k < tokens.len() ==> !(#[trigger] tokens[k]).operator(OperatorType::LeftParen)
            && !tokens[k].operator(OperatorType::RightParen)
}

/// Whether the operator stack holds no right parenthesis.
pub open spec fn no_right(stack: Seq<Operator>) -> bool {
    forall|k: int|
        0 <= k < stack.len() ==> (#[trigger] stack[k]).operator_type != OperatorType::RightParen
}

/// No parenthesis reaches the output through a right parenthesis.
pub proof fn lemma_closed_paren_free(output: Seq<Token>, stack: Seq<Operator>)
    requires
        paren_free(output),
        no_right(stack),
    ensures
        closed(output, stack) matches Some(state) ==> paren_free(state.0) && no_right(state.1),
    decreases stack.len(),
{
    if stack.len() > 0 && stack.last().operator_type != OperatorType::LeftParen {
        lemma_closed_paren_free(output.push(Token::Operator(stack.last())), stack.drop_last());
    }
}

/// No parenthesis reaches the output through operators that yield.
pub proof fn lemma_yielded_paren_free(output: Seq<Token>, stack: Seq<Operator>, precedence: i64)
    requires
        paren_free(output),
        no_right(stack),
    ensures
        paren_free(yielded(output, stack, precedence).0),
        no_right(yielded(output, stack, precedence).1),
    decreases stack.len(),
{
    if stack.len() > 0 && stack.last().operator_type != OperatorType::LeftParen
        && stack.last().precedence > precedence {
        lemma_yielded_paren_free(
            output.push(Token::Operator(stack.last())),
            stack.drop_last(),
            precedence,
        );
    }
}

/// No parenthesis reaches the output when the stack is emptied.
pub proof fn lemma_flushed_paren_free(output: Seq<Token>, stack: Seq<Operator>)
    requires
        paren_free(output),
        no_right(stack),
    ensures
        flushed(output, stack) matches Some(postfix) ==> paren_free(postfix),
    decreases stack.len(),
{
    if stack.len() > 0 && stack.last().operator_type != OperatorType::LeftParen {
        lemma_flushed_paren_free(output.push(Token::Operator(stack.last())), stack.drop_last());
    }
}

/// While tokens are placed, the output holds no parenthesis and the stack
/// no right one.
pub proof fn lemma_yard_paren_free(tokens: Seq<Token>)
    ensures
        yard(tokens) matches Some(state) ==> paren_free(state.0) && no_right(state.1),
    decreases tokens.len(),
{
    if tokens.len() > 0 {
        lemma_yard_paren_free(tokens.drop_last());
        match yard(tokens.drop_last()) {
            Some((output, stack)) => {
                lemma_closed_paren_free(output, stack);
                match tokens.last() {
                    Token::Operator(operator) => {
                        lemma_yielded_paren_free(output, stack, operator.precedence);
                    },
                    _ => {},
                }
            },
            None => {},
        }
    }
}

/// A postfix sequence holds no parenthesis.
pub proof fn lemma_postfix_paren_free(tokens: Seq<Token>)
    ensures
        postfix_of(tokens) matches Ok(postfix) ==> paren_free(postfix),
{
    lemma_yard_paren_free(tokens);
    match yard(tokens) {
        Some((output, stack)) => {
            lemma_flushed_paren_free(output, stack);
        },
        None => {},
    }
}

/// Brings an infix token sequence into postfix order, with an operator
/// stack: an operator waits on the stack until one that does not bind less
/// tightly, a right parenthesis or the end of the input sends it to the
/// output. `MismatchedParenthesis` where a right parenthesis has no left
/// one before it, or a left one is never closed.
pub fn infix_to_postfix(tokens: &Tokens) -> (r: Result<Tokens, Error>)
    ensures
        match r {
            Ok(postfix) => postfix_of(tokens@) == Ok::<Seq<Token>, Error>(postfix@),
            Err(error) => postfix_of(tokens@) == Err::<Seq<Token>, Error>(error),
        },
        r is Ok <==> balanced(tokens@),
        r matches Ok(postfix) ==> paren_free(postfix@),
        r matches Err(error) ==> error == Error::MismatchedParenthesis,
{
    let mut output: Tokens = Vec::new();
    let mut stack: Vec<Operator> = Vec::new();
    let mut i: usize = 0;
    assert(tokens@.take(0) == Seq::<Token>::empty());
    while i < tokens.len()
        invariant
            i <= tokens.len(),
            yard(tokens@.take(i as int)) == Some((output@, stack@)),
        decreases tokens.len() - i,
    {
        let token = tokens[i];
        let ghost before = (output@, stack@);
        proof {
            assert(tokens@.take(i + 1).drop_last() == tokens@.take(i as int));
            assert(tokens@.take(i + 1).last() == token);
        }
        match token {
            Token::Term(_) => {
                output.push(token);
            },
            Token::Operator(operator) => {
                match operator.operator_type {
                    OperatorType::LeftParen => {
                        stack.push(operator);
                    },
                    OperatorType::RightParen => {
                        let mut found = false;
                        while !found
                            invariant
                                closed(before.0, before.1) == if found {
                                    Some((output@, stack@))
                                } else {
                                    closed(output@, stack@)
                                },
                                yard(tokens@.take(i + 1)) == closed(before.0, before.1),
                                i < tokens.len(),
                            decreases stack.len() + if found { 0int } else { 1int },
                        {
                            match stack.pop() {
                                Some(top) => {
                                    if top.operator_type == OperatorType::LeftParen {
                                        found = true;
                                    } else {
                                        output.push(Token::Operator(top));
                                    }
                                },
                                None => {
                                    proof {
                                        lemma_yard_fails(tokens@, i + 1);
                                        lemma_postfix_iff_balanced(tokens@);
                                    }
                                    return Err(Error::MismatchedParenthesis);
                                },
                            }
                        }
                    },
                    _ => {
                        while stack.len() > 0 && stack[stack.len() - 1].operator_type
                            != OperatorType::LeftParen && stack[stack.len() - 1].precedence
                            > operator.precedence
                            invariant
                                yielded(before.0, before.1, operator.precedence) == yielded(
                                    output@,
                                    stack@,
                                    operator.precedence,
                                ),
                            decreases stack.len(),
                        {
                            let top = stack[stack.len() - 1];
                            stack.pop();
                            output.push(Token::Operator(top));
                        }
                        stack.push(operator);
                    },
                }
            },
        }
        i += 1;
    }
    assert(tokens@.take(tokens@.len() as int) == tokens@);
    let ghost halfway = (output@, stack@);
    while stack.len() > 0
        invariant
            flushed(halfway.0, halfway.1) == flushed(output@, stack@),
            yard(tokens@) == Some(halfway),
        decreases stack.len(),
    {
        let top = stack[stack.len() - 1];
        stack.pop();
        if top.operator_type == OperatorType::LeftParen {
            proof {
                lemma_postfix_iff_balanced(tokens@);
            }
            return Err(Error::MismatchedParenthesis);
        }
        output.push(Token::Operator(top));
    }
    proof {
        lemma_postfix_iff_balanced(tokens@);
        lemma_postfix_paren_free(tokens@);
    }
    Ok(output)
}

/// Once a right parenthesis has found no left one, no later token mends it.
pub proof fn lemma_yard_fails(tokens: Seq<Token>, count: int)
    requires
        0 <= count <= tokens.len(),
        yard(tokens.take(count)) is None,
    ensures
        yard(tokens) is None,
    decreases tokens.len(),
{
    if count < tokens.len() {
        assert(tokens.drop_last().take(count) == tokens.take(count));
        lemma_yard_fails(tokens.drop_last(), count);
    } else {
        assert(tokens.take(count) == tokens);
    }
}

} // verus!
