//! The read–dispatch cycle: what happens after each attempt to read a line.
use vstd::prelude::*;
use crate::completion::{is_space, is_space_char, last_where, lemma_last_where};
use crate::dispatch::{action_of, classify, Action, ActionView};
use crate::text::{chars_of, string_of};
use crate::tokenizer::{parse_command_line, tokens_of};

verus! {

/// `s` without its leading white space.
pub open spec fn trim_start(s: Seq<char>) -> Seq<char>
    decreases s.len(),
{
    if s.len() > 0 && is_space(s[0]) {
        trim_start(s.skip(1))
    } else {
        s
    }
}

/// `s` without leading and trailing white space.
pub open spec fn trimmed(s: Seq<char>) -> Seq<char> {
    trim_start(s.take(last_where(s, false) + 1))
}

/// Removes leading and trailing white space.
pub fn trim_line(line: &str) -> (r: String)
    ensures
        r@ == trimmed(line@),
{
    let v = chars_of(line);
    proof {
        lemma_last_where(line@, false);
    }
    let mut end: usize = v.len();
    assert(v@.take(end as int) =~= v@);
    while end > 0 && is_space_char(v[end - 1])
        invariant
            v@ == line@,
            end <= v@.len(),
            last_where(line@, false) == last_where(v@.take(end as int), false),
        decreases end,
    {
        assert(v@.take(end as int).drop_last() =~= v@.take(end - 1));
        assert(v@.take(end as int).last() == v@[end - 1]);
        end = end - 1;
    }
    proof {
        if end > 0 {
            assert(v@.take(end as int).last() == v@[end - 1]);
        }
        assert(v@.take(end as int) =~= line@.take(last_where(line@, false) + 1));
    }
    let ghost t = v@.take(end as int);
    let mut start: usize = 0;
    assert(t.skip(0) =~= t);
    while start < end && is_space_char(v[start])
        invariant
            v@ == line@,
            end <= v@.len(),
            t == v@.take(end as int),
            start <= end,
            trim_start(t.skip(start as int)) == trim_start(t),
        decreases end - start,
    {
        assert(t.skip(start as int)[0] == v@[start as int]);
        assert(t.skip(start as int).skip(1) =~= t.skip(start + 1));
        start = start + 1;
    }
    let mut out: Vec<char> = Vec::new();
    let mut i: usize = start;
    while i < end
        invariant
            v@ == line@,
            end <= v@.len(),
            t == v@.take(end as int),
            start <= i <= end,
            out@ == v@.subrange(start as int, i as int),
        decreases end - i,
    {
        out.push(v[i]);
        assert(out@ =~= v@.subrange(start as int, i + 1));
        i = i + 1;
    }
    assert(out@ =~= t.skip(start as int));
    proof {
        if start < end {
            assert(t.skip(start as int)[0] == v@[start as int]);
        }
    }
    string_of(&out)
}

/// What a line of input asks for: it is trimmed, tokenized and classified.
pub fn line_action(line: &str) -> (r: Action)
    ensures
        r@ == action_of(tokens_of(trimmed(line@))),
{
    let t = trim_line(line);
    let toks = parse_command_line(t.as_str());
    classify(&toks)
}

/// The outcome of one attempt to read a line.
pub enum ReadEvent {
    Line(String),
    /// The user interrupted the line being typed.
    Interrupted,
    EndOfInput,
    /// The line editor failed.
    Failed,
}

/// What the interpreter does next.
pub enum Step {
    /// Carry out the action, then read again.
    Dispatch(Action),
    /// Drop the line being typed, show an interrupt marker, and read again.
    Interrupted,
    /// Leave the loop.
    Stop,
}

/// Leave the loop on `exit`, at the end of input and when reading fails; an
/// interrupt drops only the current line.
pub fn next_step(event: ReadEvent) -> (r: Step)
    ensures
        match event {
            ReadEvent::Line(l) => {
                let a = action_of(tokens_of(trimmed(l@)));
                match r {
                    Step::Stop => a == ActionView::Exit,
                    Step::Dispatch(x) => a != ActionView::Exit && x@ == a,
                    Step::Interrupted => false,
                }
            },
            ReadEvent::Interrupted => r is Interrupted,
            ReadEvent::EndOfInput => r is Stop,
            ReadEvent::Failed => r is Stop,
        },
{
    match event {
        ReadEvent::Line(l) => {
            let a = line_action(l.as_str());
            match a {
                Action::Exit => Step::Stop,
                _ => Step::Dispatch(a),
            }
        },
        ReadEvent::Interrupted => Step::Interrupted,
        ReadEvent::EndOfInput => Step::Stop,
        ReadEvent::Failed => Step::Stop,
    }
}

} // verus!
