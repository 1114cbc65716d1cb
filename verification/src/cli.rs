use vstd::prelude::*;
use crate::bindings::Bindings;
use crate::error::Error;
use crate::lexer::is_space;
use crate::lexer::space;
use crate::numeric::Numeric;
use crate::symengine::names_of;
use crate::symengine::Engine;

verus! {

/// What a line of input is answered with.
#[derive(Clone, Copy, PartialEq, Eq, Structural, Debug)]
pub enum Reply {
    /// The line was `quit`: the session is over.
    Farewell,
    /// The line was `help`.
    Help,
    /// The line was read and kept, and this is its value.
    Value(Numeric),
    /// The line could not be read or evaluated.
    Failure(Error),
}

/// `text` without the white space at its two ends.
pub open spec fn trimmed(text: Seq<char>) -> Seq<char>
    decreases text.len(),
{
    if text.len() > 0 && space(text[0]) {
        trimmed(text.drop_first())
    } else if text.len() > 0 && space(text.last()) {
        trimmed(text.drop_last())
    } else {
        text
    }
}

/// The tables after the line `input`, and the reply to it. `quit` and
/// `help`, with or without white space around them, leave the tables as
/// they are; any other line is interpreted.
pub open spec fn replied(bindings: Bindings, input: Seq<char>) -> (Bindings, Reply) {
    if trimmed(input) == "quit"@ {
        (bindings, Reply::Farewell)
    } else if trimmed(input) == "help"@ {
        (bindings, Reply::Help)
    } else {
        (
            bindings.processed(input).0,
            match bindings.interpreted(input) {
                Ok(value) => Reply::Value(value),
                Err(error) => Reply::Failure(error),
            },
        )
    }
}

/// The replies to `lines`, one after the other from the tables
/// `bindings`, up to the farewell that answers the first `quit`.
pub open spec fn session(bindings: Bindings, lines: Seq<Seq<char>>) -> Seq<Reply>
    decreases lines.len(),
{
    if lines.len() == 0 {
        Seq::empty()
    } else {
        let (next, reply) = replied(bindings, lines[0]);
        if reply == Reply::Farewell {
            seq![reply]
        } else {
            seq![reply] + session(next, lines.drop_first())
        }
    }
}

/// White space at the front does not count.
proof fn lemma_trimmed_front(text: Seq<char>, start: int)
    requires
        0 <= start <= text.len(),
        forall|k: int| 0 <= k < start ==> space(text[k]),
    ensures
        trimmed(text) == trimmed(text.skip(start)),
    decreases start,
{
    if start == 0 {
        assert(text.skip(0) == text);
    } else {
        let rest = text.drop_first();
        assert forall|k: int| 0 <= k < start - 1 implies space(rest[k]) by {
            assert(rest[k] == text[k + 1]);
        }
        lemma_trimmed_front(rest, start - 1);
        assert(rest.skip(start - 1) == text.skip(start));
    }
}

/// Behind a front that is no white space, white space at the back does
/// not count.
proof fn lemma_trimmed_back(text: Seq<char>, end: int)
    requires
        0 <= end <= text.len(),
        text.len() > 0 ==> !space(text[0]),
        forall|k: int| end <= k < text.len() ==> space(text[k]),
    ensures
        trimmed(text) == trimmed(text.take(end)),
    decreases text.len() - end,
{
    if end == text.len() {
        assert(text.take(end) == text);
    } else {
        let shorter = text.drop_last();
        assert(space(text[text.len() - 1]));
        assert(end < text.len());
        lemma_trimmed_back(shorter, end);
        assert(shorter.take(end) == text.take(end));
    }
}

/// The characters of `text`.
fn characters(text: &str) -> (chars: Vec<char>)
    ensures
        chars@ == text@,
{
    let mut chars: Vec<char> = Vec::new();
    for c in it: text.chars()
        invariant
            it.seq() == text@,
            chars@ == text@.take(it.index() as int),
    {
        chars.push(c);
    }
    assert(text@.take(text@.len() as int) == text@);
    chars
}

/// Where `chars` starts and ends once the white space at its two ends is
/// left out.
fn trim(chars: &Vec<char>) -> (bounds: (usize, usize))
    ensures
        bounds.0 <= bounds.1 <= chars.len(),
        chars@.subrange(bounds.0 as int, bounds.1 as int) == trimmed(chars@),
{
    let mut start: usize = 0;
    while start < chars.len() && is_space(chars[start])
        invariant
            start <= chars.len(),
            forall|k: int| 0 <= k < start ==> space(chars@[k]),
        decreases chars.len() - start,
    {
        start += 1;
    }
    let mut end: usize = chars.len();
    while end > start && is_space(chars[end - 1])
        invariant
            start <= end <= chars.len(),
            forall|k: int| end <= k < chars.len() ==> space(chars@[k]),
        decreases end,
    {
        end -= 1;
    }
    proof {
        let rest = chars@.skip(start as int);
        lemma_trimmed_front(chars@, start as int);
        assert forall|k: int| end - start <= k < rest.len() implies space(rest[k]) by {
            assert(rest[k] == chars@[start + k]);
        }
        lemma_trimmed_back(rest, end - start);
        let kept = rest.take(end - start);
        assert(kept == chars@.subrange(start as int, end as int));
        if kept.len() > 0 {
            assert(kept[0] == chars@[start as int]);
            assert(kept.last() == chars@[end - 1]);
        }
    }
    (start, end)
}

/// Answers one line of input. `quit` ends the session and `help` asks for
/// help, each with or without white space around it; neither touches the
/// engine. Any other line is interpreted.
pub fn step(engine: &mut Engine, input: &str) -> (reply: Reply)
    requires
        old(engine)@.well_formed(),
    ensures
        final(engine)@.well_formed(),
        (final(engine)@, reply) == replied(old(engine)@, input@),
        old(engine)@.kept_by(final(engine)@),
        old(engine)@.closed() ==> final(engine)@.closed() && reply != Reply::Failure(
            Error::UndefinedVariableIndex,
        ),
{
    let chars = characters(input);
    let (start, end) = trim(&chars);
    proof {
        reveal_strlit("quit");
        reveal_strlit("help");
    }
    let ghost word = chars@.subrange(start as int, end as int);
    if end - start == 4 && chars[start] == 'q' && chars[start + 1] == 'u' && chars[start + 2]
        == 'i' && chars[start + 3] == 't' {
        assert(word =~= "quit"@);
        return Reply::Farewell;
    }
    if end - start == 4 && chars[start] == 'h' && chars[start + 1] == 'e' && chars[start + 2]
        == 'l' && chars[start + 3] == 'p' {
        assert(word =~= "help"@);
        assert(word[0] != "quit"@[0]);
        return Reply::Help;
    }
    proof {
        if word.len() == 4 {
            assert(word[0] == chars@[start as int]);
            assert(word[1] == chars@[start + 1]);
            assert(word[2] == chars@[start + 2]);
            assert(word[3] == chars@[start + 3]);
        }
    }
    match engine.interpret(input) {
        Ok(value) => Reply::Value(value),
        Err(error) => Reply::Failure(error),
    }
}

/// Runs a session: answers `lines` one after the other with a new
/// engine, and ends with the farewell that answers the first `quit`, or
/// with the last line.
pub fn run(lines: &Vec<String>) -> (replies: Vec<Reply>)
    ensures
        replies@ == session(Bindings::empty(), names_of(lines@)),
        forall|k: int|
            0 <= k < replies.len() ==> replies[k] != Reply::Failure(Error::UndefinedVariableIndex),
{
    let mut engine = Engine::new();
    let mut replies: Vec<Reply> = Vec::new();
    let ghost all = names_of(lines@);
    let mut i: usize = 0;
    assert(all.skip(0) == all);
    while i < lines.len()
        invariant
            i <= lines.len(),
            all == names_of(lines@),
            engine@.well_formed(),
            engine@.closed(),
            forall|k: int|
                0 <= k < replies.len() ==> replies[k] != Reply::Failure(
                    Error::UndefinedVariableIndex,
                ),
            session(Bindings::empty(), all) == replies@ + session(engine@, all.skip(i as int)),
        decreases lines.len() - i,
    {
        let ghost rest = all.skip(i as int);
        assert(rest[0] == lines@[i as int]@);
        assert(rest.drop_first() == all.skip(i + 1));
        let ghost before = replies@;
        let reply = step(&mut engine, lines[i].as_str());
        replies.push(reply);
        match reply {
            Reply::Farewell => {
                assert(before + seq![reply] == replies@);
                return replies;
            },
            _ => {},
        }
        assert(before + (seq![reply] + session(engine@, all.skip(i + 1))) == replies@ + session(
            engine@,
            all.skip(i + 1),
        ));
        i += 1;
    }
    assert(all.skip(all.len() as int).len() == 0);
    assert(replies@ + Seq::<Reply>::empty() == replies@);
    replies
}

} // verus!
