use vstd::prelude::*;
use crate::error::Error;
use crate::numeric::Numeric;
use crate::numeric::representable;
use crate::token::Operator;
use crate::token::OperatorType;
use crate::token::Term;
use crate::token::Token;

verus! {

pub type Tokens = Vec<Token>;

/// Whether `c` is one of `0` to `9`.
pub open spec fn digit(c: char) -> bool {
    '0' <= c <= '9'
}

/// Whether `c` is one of `a` to `z` or `A` to `Z`.
pub open spec fn letter(c: char) -> bool {
    ('a' <= c <= 'z') || ('A' <= c <= 'Z')
}

/// Whether `c` is white space: a character with the Unicode property
/// `White_Space`.
pub open spec fn space(c: char) -> bool {
    let code = c as u32;
    (0x09 <= code <= 0x0d) || code == 0x20 || code == 0x85 || code == 0xa0 || code == 0x1680 || (
    0x2000 <= code <= 0x200a) || code == 0x2028 || code == 0x2029 || code == 0x202f || code
        == 0x205f || code == 0x3000
}

/// The token that the single character `c` stands for, if it stands for
/// one: a parenthesis, `+`, `*`, `=`, a digit as the number it denotes, a
/// letter as a variable.
pub open spec fn token_of(c: char) -> Option<Token> {
    if c == '(' {
        Some(OperatorType::LeftParen.token())
    } else if c == ')' {
        Some(OperatorType::RightParen.token())
    } else if c == '+' {
        Some(OperatorType::Add.token())
    } else if c == '*' {
        Some(OperatorType::Mul.token())
    } else if c == '=' {
        Some(OperatorType::Assign.token())
    } else if digit(c) {
        Some(Token::integer((c as u32 - '0' as u32) as i64))
    } else if letter(c) {
        Some(Token::Term(Term::Variable(c)))
    } else {
        None
    }
}

/// The tokens of the characters of `text`, in order; a character that
/// stands for no token is passed over.
pub open spec fn raw_tokens(text: Seq<char>) -> Seq<Token>
    decreases text.len(),
{
    if text.len() == 0 {
        Seq::empty()
    } else {
        match token_of(text.last()) {
            Some(token) => raw_tokens(text.drop_last()).push(token),
            None => raw_tokens(text.drop_last()),
        }
    }
}

/// The characters of `text` that are passed over and are not white space.
pub open spec fn ignored(text: Seq<char>) -> Seq<char>
    decreases text.len(),
{
    if text.len() == 0 {
        Seq::empty()
    } else if token_of(text.last()) is None && !space(text.last()) {
        ignored(text.drop_last()).push(text.last())
    } else {
        ignored(text.drop_last())
    }
}

/// The number that a number token holds, and zero for any other token.
pub open spec fn number_of(token: Token) -> int {
    match token {
        Token::Term(Term::Number(number)) => number@,
        _ => 0,
    }
}

/// How many number tokens stand at the start of `raw`.
pub open spec fn run_length(raw: Seq<Token>) -> nat
    decreases raw.len(),
{
    if raw.len() > 0 && raw[0].number() {
        1 + run_length(raw.drop_first())
    } else {
        0
    }
}

/// The number that the digits of `run` write in base ten.
pub open spec fn decimal(run: Seq<Token>) -> int
    decreases run.len(),
{
    if run.len() == 0 {
        0
    } else {
        decimal(run.drop_last()) * 10 + number_of(run.last())
    }
}

/// Whether every number token of `raw` holds a single digit.
pub open spec fn single_digits(raw: Seq<Token>) -> bool {
    forall|k: int| 0 <= k < raw.len() && (#[trigger] raw[k]).number() ==> 0 <= number_of(raw[k]) <= 9
}

/// Whether `raw` starts with a left parenthesis.
pub open spec fn opens(raw: Seq<Token>) -> bool {
    raw.len() > 0 && raw[0].operator(OperatorType::LeftParen)
}

/// The second pass over the tokens of the first. Each run of number
/// tokens becomes one number, the one that its digits write in base ten; a
/// multiplication is put between a term and a left parenthesis that
/// follows it at once. `Overflow` where a run writes a number that does
/// not fit.
pub open spec fn assembled(raw: Seq<Token>) -> Result<Seq<Token>, Error>
    decreases raw.len(),
{
    if raw.len() == 0 {
        Ok(Seq::empty())
    } else {
        let length = if raw[0].number() {
            run_length(raw)
        } else {
            1
        };
        let rest = raw.skip(length as int);
        let joint = if raw[0] is Term && opens(rest) {
            seq![OperatorType::Mul.token()]
        } else {
            Seq::empty()
        };
        if raw[0].number() && !representable(decimal(raw.take(length as int))) {
            Err(Error::Overflow)
        } else {
            let first = if raw[0].number() {
                Token::integer(decimal(raw.take(length as int)) as i64)
            } else {
                raw[0]
            };
            proof {
                lemma_run_length(raw);
            }
            match assembled(rest) {
                Ok(tail) => Ok(seq![first] + joint + tail),
                Err(error) => Err(error),
            }
        }
    }
}

/// The tokens that `text` is read as.
pub open spec fn tokens_of(text: Seq<char>) -> Result<Seq<Token>, Error> {
    assembled(raw_tokens(text))
}

/// A run is made of number tokens, lies within the sequence, and ends
/// before a token that is no number.
pub proof fn lemma_run_length(raw: Seq<Token>)
    ensures
        run_length(raw) <= raw.len(),
        raw.len() > 0 && raw[0].number() ==> run_length(raw) >= 1,
        forall|k: int| 0 <= k < run_length(raw) ==> (#[trigger] raw[k]).number(),
        run_length(raw) < raw.len() ==> !raw[run_length(raw) as int].number(),
    decreases raw.len(),
{
    if raw.len() > 0 && raw[0].number() {
        let rest = raw.drop_first();
        lemma_run_length(rest);
        assert forall|k: int| 0 <= k < run_length(raw) implies (#[trigger] raw[k]).number() by {
            if k > 0 {
                assert(raw[k] == rest[k - 1]);
            }
        }
        if run_length(raw) < raw.len() {
            assert(raw[run_length(raw) as int] == rest[run_length(rest) as int]);
        }
    }
}

/// The run at the start of `raw` has `length` tokens where the first
/// `length` tokens are numbers and the next one, if there is one, is not.
pub proof fn lemma_run_found(raw: Seq<Token>, length: nat)
    requires
        length <= raw.len(),
        forall|k: int| 0 <= k < length ==> (#[trigger] raw[k]).number(),
        length < raw.len() ==> !raw[length as int].number(),
    ensures
        run_length(raw) == length,
    decreases length,
{
    if length > 0 {
        let rest = raw.drop_first();
        assert forall|k: int| 0 <= k < length - 1 implies (#[trigger] rest[k]).number() by {
            assert(rest[k] == raw[k + 1]);
        }
        lemma_run_found(rest, (length - 1) as nat);
    }
}

/// Whether `token` is one that a line can give: a number that is not
/// negative, a variable named by a letter, or an operator with the
/// precedence of its type.
pub open spec fn plain(token: Token) -> bool {
    match token {
        Token::Term(Term::Number(number)) => number@ >= 0,
        Token::Term(Term::Variable(name)) => letter(name),
        Token::Operator(operator) => operator.precedence == operator.operator_type.rank(),
    }
}

/// Whether every token of `tokens` is one that a line can give.
pub open spec fn all_plain(tokens: Seq<Token>) -> bool {
    forall|k: int| 0 <= k < tokens.len() ==> plain(#[trigger] tokens[k])
}

/// The first pass gives plain tokens.
pub proof fn lemma_raw_plain(text: Seq<char>)
    ensures
        all_plain(raw_tokens(text)),
    decreases text.len(),
{
    if text.len() > 0 {
        lemma_raw_plain(text.drop_last());
    }
}

/// The second pass gives plain tokens where it is given plain tokens.
pub proof fn lemma_assembled_plain(raw: Seq<Token>)
    requires
        all_plain(raw),
    ensures
        assembled(raw) matches Ok(tokens) ==> all_plain(tokens),
    decreases raw.len(),
{
    if raw.len() > 0 && assembled(raw) is Ok {
        lemma_run_length(raw);
        let length = if raw[0].number() {
            run_length(raw)
        } else {
            1
        };
        let rest = raw.skip(length as int);
        let joint = if raw[0] is Term && opens(rest) {
            seq![OperatorType::Mul.token()]
        } else {
            Seq::<Token>::empty()
        };
        let tokens = assembled(raw)->Ok_0;
        let tail = assembled(rest)->Ok_0;
        let first = tokens[0];
        assert(tokens == seq![first] + joint + tail);
        assert forall|k: int| 0 <= k < rest.len() implies plain(#[trigger] rest[k]) by {
            assert(rest[k] == raw[length + k]);
        }
        lemma_assembled_plain(rest);
        if raw[0].number() {
            let run = raw.take(length as int);
            assert forall|k: int| 0 <= k < run.len() implies 0 <= number_of(#[trigger] run[k]) by {
                assert(run[k] == raw[k]);
                assert(plain(raw[k]));
            }
            lemma_decimal_grows(run, length);
        }
        assert forall|k: int| 0 <= k < tokens.len() implies plain(#[trigger] tokens[k]) by {
            let shift = 1 + joint.len();
            if k >= shift {
                assert(tokens[k] == tail[k - shift]);
            }
        }
    }
}

/// Whether no number of `tokens` is followed at once by a number, and no
/// term by a left parenthesis.
pub open spec fn well_spaced(tokens: Seq<Token>) -> bool {
    forall|k: int|
        0 <= k && k + 1 < tokens.len() ==> !((#[trigger] tokens[k]).number() && tokens[k
            + 1].number()) && !(tokens[k] is Term && tokens[k + 1].operator(
            OperatorType::LeftParen,
        ))
}

/// The second pass starts with a number where its input does, and else
/// with the token that its input starts with.
pub proof fn lemma_assembled_first(raw: Seq<Token>)
    ensures
        assembled(raw) matches Ok(tokens) ==> {
            &&& raw.len() == 0 ==> tokens.len() == 0
            &&& raw.len() > 0 ==> tokens.len() > 0
            &&& raw.len() > 0 && raw[0].number() ==> tokens[0].number()
            &&& raw.len() > 0 && !raw[0].number() ==> tokens[0] == raw[0]
        },
{
}

/// After the second pass no number is followed at once by a number, and no
/// term by a left parenthesis.
pub proof fn lemma_assembled_well_spaced(raw: Seq<Token>)
    ensures
        assembled(raw) matches Ok(tokens) ==> well_spaced(tokens),
    decreases raw.len(),
{
    if raw.len() > 0 && assembled(raw) is Ok {
        lemma_run_length(raw);
        let length = if raw[0].number() {
            run_length(raw)
        } else {
            1
        };
        let rest = raw.skip(length as int);
        let joint = if raw[0] is Term && opens(rest) {
            seq![OperatorType::Mul.token()]
        } else {
            Seq::<Token>::empty()
        };
        let tokens = assembled(raw)->Ok_0;
        let tail = assembled(rest)->Ok_0;
        let first = tokens[0];
        assert(tokens == seq![first] + joint + tail);
        lemma_assembled_well_spaced(rest);
        lemma_assembled_first(rest);
        if rest.len() > 0 {
            assert(rest[0] == raw[length as int]);
        }
        assert forall|k: int| 0 <= k && k + 1 < tokens.len() implies !((#[trigger] tokens[k]).number()
            && tokens[k + 1].number()) && !(tokens[k] is Term && tokens[k + 1].operator(
            OperatorType::LeftParen,
        )) by {
            let shift = 1 + joint.len();
            if k >= shift {
                assert(tokens[k] == tail[k - shift]);
                assert(tokens[k + 1] == tail[k + 1 - shift]);
            } else if k + 1 >= shift {
                assert(tokens[k + 1] == tail[0]);
            }
        }
    }
}

/// The first pass makes no number but a single digit.
pub proof fn lemma_raw_single_digits(text: Seq<char>)
    ensures
        single_digits(raw_tokens(text)),
    decreases text.len(),
{
    if text.len() > 0 {
        lemma_raw_single_digits(text.drop_last());
    }
}

/// Digits only add to a number: what the first `count` digits write is at
/// most what all of them write.
pub proof fn lemma_decimal_grows(run: Seq<Token>, count: nat)
    requires
        count <= run.len(),
        forall|k: int| 0 <= k < run.len() ==> 0 <= number_of(#[trigger] run[k]),
    ensures
        0 <= decimal(run.take(count as int)) <= decimal(run),
    decreases run.len(),
{
    if count == run.len() {
        assert(run.take(count as int) == run);
        if run.len() > 0 {
            lemma_decimal_grows(run.drop_last(), (count - 1) as nat);
            assert(run.drop_last().take(count - 1) == run.drop_last());
        }
    } else {
        lemma_decimal_grows(run.drop_last(), count);
        assert(run.drop_last().take(count as int) == run.take(count as int));
        lemma_decimal_grows(run.drop_last(), (run.len() - 1) as nat);
        assert(run.drop_last().take(run.len() - 1) == run.drop_last());
    }
}

pub fn is_digit(c: char) -> (b: bool)
    ensures
        b == digit(c),
{
    '0' <= c && c <= '9'
}

pub fn is_letter(c: char) -> (b: bool)
    ensures
        b == letter(c),
{
    ('a' <= c && c <= 'z') || ('A' <= c && c <= 'Z')
}

pub fn is_space(c: char) -> (b: bool)
    ensures
        b == space(c),
{
    let code = c as u32;
    (0x09 <= code && code <= 0x0d) || code == 0x20 || code == 0x85 || code == 0xa0 || code
        == 0x1680 || (0x2000 <= code && code <= 0x200a) || code == 0x2028 || code == 0x2029
        || code == 0x202f || code == 0x205f || code == 0x3000
}

/// The token for one character, if it stands for one.
pub fn token_for(c: char) -> (r: Option<Token>)
    ensures
        r == token_of(c),
{
    if c == '(' {
        Some(Operator::left_parenthesis())
    } else if c == ')' {
        Some(Operator::right_parenthesis())
    } else if c == '+' {
        Some(Operator::add())
    } else if c == '*' {
        Some(Operator::mul())
    } else if c == '=' {
        Some(Operator::assign())
    } else if is_digit(c) {
        Some(Token::new_number(Numeric::from_integer((c as u32 - '0' as u32) as i64)))
    } else if is_letter(c) {
        Some(Token::new_variable(c))
    } else {
        None
    }
}

/// The first pass: one token for each character that stands for one.
pub fn scan(text: &str) -> (raw: Tokens)
    ensures
        raw@ == raw_tokens(text@),
{
    let mut raw: Tokens = Vec::new();
    for c in it: text.chars()
        invariant
            it.seq() == text@,
            raw@ == raw_tokens(text@.take(it.index() as int)),
    {
        assert(text@.take(it.index() + 1).drop_last() == text@.take(it.index() as int));
        match token_for(c) {
            Some(token) => raw.push(token),
            None => {},
        }
    }
    assert(text@.take(text@.len() as int) == text@);
    raw
}

/// The characters of `text` that are passed over and are not white space,
/// in order: what a line held that was not understood.
pub fn ignored_input(text: &str) -> (skipped: Vec<char>)
    ensures
        skipped@ == ignored(text@),
{
    let mut skipped: Vec<char> = Vec::new();
    for c in it: text.chars()
        invariant
            it.seq() == text@,
            skipped@ == ignored(text@.take(it.index() as int)),
    {
        assert(text@.take(it.index() + 1).drop_last() == text@.take(it.index() as int));
        if token_for(c).is_none() && !is_space(c) {
            skipped.push(c);
        }
    }
    assert(text@.take(text@.len() as int) == text@);
    skipped
}

/// The second pass: merges each run of digits into one number and puts a
/// multiplication between a term and a left parenthesis that follows it.
fn assemble(raw: &Tokens) -> (r: Result<Tokens, Error>)
    requires
        single_digits(raw@),
    ensures
        match r {
            Ok(tokens) => assembled(raw@) == Ok::<Seq<Token>, Error>(tokens@),
            Err(error) => assembled(raw@) == Err::<Seq<Token>, Error>(error) && error
                == Error::Overflow,
        },
{
    let mut tokens: Tokens = Vec::new();
    let mut i: usize = 0;
    assert(raw@.skip(0) == raw@);
    while i < raw.len()
        invariant
            i <= raw.len(),
            single_digits(raw@),
            match assembled(raw@.skip(i as int)) {
                Ok(tail) => assembled(raw@) == Ok::<Seq<Token>, Error>(tokens@ + tail),
                Err(error) => assembled(raw@) == Err::<Seq<Token>, Error>(error),
            },
        decreases raw.len() - i,
    {
        let ghost here = raw@.skip(i as int);
        let ghost before = tokens@;
        let first = raw[i];
        let mut next: usize = i + 1;
        let mut value: i64 = 0;
        if first.is_number() {
            next = i;
            assert(raw@.subrange(i as int, i as int) == Seq::<Token>::empty());
            while next < raw.len() && raw[next].is_number()
                invariant
                    i <= next <= raw.len(),
                    single_digits(raw@),
                    here == raw@.skip(i as int),
                    forall|k: int| i <= k < next ==> (#[trigger] raw[k]).number(),
                    value == decimal(raw@.subrange(i as int, next as int)),
                    0 <= value,
                    assembled(here) matches Err(error) ==> assembled(raw@) == Err::<
                        Seq<Token>,
                        Error,
                    >(error),
                    raw@[i as int].number(),
                decreases raw.len() - next,
            {
                let digit = match raw[next] {
                    Token::Term(Term::Number(number)) => number.to_integer(),
                    _ => 0,
                };
                let ghost longer = raw@.subrange(i as int, next + 1);
                assert(longer.drop_last() == raw@.subrange(i as int, next as int));
                assert(longer.last() == raw@[next as int]);
                let grown = match value.checked_mul(10) {
                    Some(tenfold) => tenfold.checked_add(digit),
                    None => None,
                };
                match grown {
                    Some(sum) => {
                        value = sum;
                    },
                    None => {
                        proof {
                            lemma_run_length(here);
                            let length = run_length(here);
                            let run = here.take(length as int);
                            assert(next - i < length) by {
                                if length <= next - i {
                                    assert(here[length as int] == raw@[i + length]);
                                }
                            }
                            assert forall|k: int| 0 <= k < run.len() implies 0 <= number_of(
                                #[trigger] run[k],
                            ) by {
                                assert(run[k] == raw@[i + k]);
                            }
                            lemma_decimal_grows(run, (next + 1 - i) as nat);
                            assert(run.take(next + 1 - i) == longer);
                        }
                        return Err(Error::Overflow);
                    },
                }
                next += 1;
            }
            proof {
                assert forall|k: int| 0 <= k < next - i implies (#[trigger] here[k]).number() by {
                    assert(here[k] == raw@[i + k]);
                }
                lemma_run_found(here, (next - i) as nat);
                assert(here.take(next - i) == raw@.subrange(i as int, next as int));
            }
            tokens.push(Token::new_number(Numeric::from_integer(value)));
        } else {
            tokens.push(first);
        }
        proof {
            lemma_run_length(here);
            assert(here.skip(next - i) == raw@.skip(next as int));
        }
        let term = match first {
            Token::Term(_) => true,
            _ => false,
        };
        if term && next < raw.len() && raw[next].is_operator(OperatorType::LeftParen) {
            tokens.push(Operator::mul());
        }
        proof {
            let rest = raw@.skip(next as int);
            if assembled(rest) is Ok {
                let tail = assembled(rest)->Ok_0;
                let joint = if here[0] is Term && opens(rest) {
                    seq![OperatorType::Mul.token()]
                } else {
                    Seq::<Token>::empty()
                };
                let head = if here[0].number() {
                    Token::integer(decimal(here.take(next - i)) as i64)
                } else {
                    here[0]
                };
                assert(tokens@ + tail == before + (seq![head] + joint + tail));
            }
        }
        i = next;
    }
    assert(raw@.skip(raw@.len() as int) == Seq::<Token>::empty());
    Ok(tokens)
}

/// Reads a line as tokens. Characters are taken one by one: parentheses,
/// `+`, `*` and `=` are operators, a digit is a number, a letter is a
/// variable, anything else is passed over. Then digits that follow one
/// another become one number, and a term right before a left parenthesis
/// gets a multiplication behind it.
pub fn tokenize_string(text: &str) -> (r: Result<Tokens, Error>)
    ensures
        match r {
            Ok(tokens) => tokens_of(text@) == Ok::<Seq<Token>, Error>(tokens@) && well_spaced(
                tokens@,
            ) && all_plain(tokens@),
            Err(error) => tokens_of(text@) == Err::<Seq<Token>, Error>(error) && error
                == Error::Overflow,
        },
{
    let raw = scan(text);
    proof {
        lemma_raw_single_digits(text@);
        lemma_raw_plain(text@);
        lemma_assembled_well_spaced(raw@);
        lemma_assembled_plain(raw@);
    }
    assemble(&raw)
}

} // verus!
