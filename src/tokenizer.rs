//! Splitting an input line into arguments, with shell quoting and escapes.
use vstd::prelude::*;
use crate::text::{chars_of, string_of};

verus! {

/// Which quote, if any, is open at the current point of the scan.
#[derive(Clone, Copy, Debug, PartialEq, Eq, Structural)]
pub enum Quote {
    Plain,
    Double,
    Single,
}

/// The state of the scan: arguments finished so far, the argument being built,
/// and the open quote.
pub ghost struct ScanState {
    pub args: Seq<Seq<char>>,
    pub cur: Seq<char>,
    pub quote: Quote,
}

/// Unquoted characters that end an argument.
pub open spec fn is_blank(c: char) -> bool {
    c == ' ' || c == '\t'
}

/// How many characters one step of the scan consumes: two for a backslash that
/// escapes a following character, one otherwise.
pub open spec fn step_len(rest: Seq<char>, st: ScanState) -> int {
    if rest[0] == '\\' && st.quote != Quote::Single && rest.len() > 1 {
        2
    } else {
        1
    }
}

pub open spec fn with_cur(st: ScanState, cur: Seq<char>) -> ScanState {
    ScanState { cur, ..st }
}

pub open spec fn with_quote(st: ScanState, quote: Quote) -> ScanState {
    ScanState { quote, ..st }
}

/// The state after one step of the scan on the non-empty input `rest`.
pub open spec fn step_state(rest: Seq<char>, st: ScanState) -> ScanState {
    let ch = rest[0];
    if ch == '\\' {
        match st.quote {
            Quote::Plain => if rest.len() > 1 {
                with_cur(st, st.cur.push(rest[1]))
            } else {
                st
            },
            Quote::Double => if rest.len() > 1 {
                if rest[1] == '"' || rest[1] == '\\' {
                    with_cur(st, st.cur.push(rest[1]))
                } else {
                    with_cur(st, st.cur.push(ch).push(rest[1]))
                }
            } else {
                with_cur(st, st.cur.push(ch))
            },
            Quote::Single => with_cur(st, st.cur.push(ch)),
        }
    } else if ch == '"' {
        match st.quote {
            Quote::Plain => with_quote(st, Quote::Double),
            Quote::Double => with_quote(st, Quote::Plain),
            Quote::Single => with_cur(st, st.cur.push(ch)),
        }
    } else if ch == '\'' {
        match st.quote {
            Quote::Plain => with_quote(st, Quote::Single),
            Quote::Single => with_quote(st, Quote::Plain),
            Quote::Double => with_cur(st, st.cur.push(ch)),
        }
    } else if is_blank(ch) {
        if st.quote != Quote::Plain {
            with_cur(st, st.cur.push(ch))
        } else if st.cur.len() > 0 {
            ScanState { args: st.args.push(st.cur), cur: Seq::empty(), quote: Quote::Plain }
        } else {
            st
        }
    } else {
        with_cur(st, st.cur.push(ch))
    }
}

/// The arguments at the end of input: a pending non-empty argument is kept, and
/// an unterminated quote is closed silently.
pub open spec fn finish(st: ScanState) -> Seq<Seq<char>> {
    if st.cur.len() > 0 {
        st.args.push(st.cur)
    } else {
        st.args
    }
}

/// The arguments that scanning `rest` from state `st` produces.
pub open spec fn scan(rest: Seq<char>, st: ScanState) -> Seq<Seq<char>>
    decreases rest.len(),
{
    if rest.len() == 0 {
        finish(st)
    } else {
        scan(rest.skip(step_len(rest, st)), step_state(rest, st))
    }
}

pub open spec fn initial_state() -> ScanState {
    ScanState { args: Seq::empty(), cur: Seq::empty(), quote: Quote::Plain }
}

/// The arguments of an input line.
pub open spec fn tokens_of(line: Seq<char>) -> Seq<Seq<char>> {
    scan(line, initial_state())
}

/// Splits `input` into arguments. Outside quotes a backslash takes the next
/// character literally; inside single quotes nothing but the closing quote is
/// special; inside double quotes a backslash escapes only `"` and `\`. Unquoted
/// spaces and tabs separate arguments, and empty arguments are never produced.
pub fn parse_command_line(input: &str) -> (args: Vec<String>)
    ensures
        args.deep_view() == tokens_of(input@),
{
    let chars = chars_of(input);
    let n = chars.len();
    let mut args: Vec<String> = Vec::new();
    let mut cur: Vec<char> = Vec::new();
    let mut quote = Quote::Plain;
    let mut i: usize = 0;
    proof {
        assert(chars@.skip(0) =~= chars@);
        assert(args.deep_view() =~= Seq::<Seq<char>>::empty());
    }
    while i < n
        invariant
            n == chars@.len(),
            chars@ == input@,
            i <= n,
            scan(chars@.skip(i as int), ScanState { args: args.deep_view(), cur: cur@, quote })
                == tokens_of(input@),
        decreases n - i,
    {
        let ghost rest = chars@.skip(i as int);
        let ghost st = ScanState { args: args.deep_view(), cur: cur@, quote };
        let ch = chars[i];
        let mut k: usize = 1;
        if ch == '\\' {
            match quote {
                Quote::Plain => {
                    if i + 1 < n {
                        cur.push(chars[i + 1]);
                        k = 2;
                    }
                },
                Quote::Double => {
                    if i + 1 < n {
                        let next = chars[i + 1];
                        if next == '"' || next == '\\' {
                            cur.push(next);
                        } else {
                            cur.push(ch);
                            cur.push(next);
                        }
                        k = 2;
                    } else {
                        cur.push(ch);
                    }
                },
                Quote::Single => {
                    cur.push(ch);
                },
            }
        } else if ch == '"' {
            match quote {
                Quote::Plain => {
                    quote = Quote::Double;
                },
                Quote::Double => {
                    quote = Quote::Plain;
                },
                Quote::Single => {
                    cur.push(ch);
                },
            }
        } else if ch == '\'' {
            match quote {
                Quote::Plain => {
                    quote = Quote::Single;
                },
                Quote::Single => {
                    quote = Quote::Plain;
                },
                Quote::Double => {
                    cur.push(ch);
                },
            }
        } else if ch == ' ' || ch == '\t' {
            if quote != Quote::Plain {
                cur.push(ch);
            } else if cur.len() > 0 {
                let word = string_of(&cur);
                let ghost before = args.deep_view();
                args.push(word);
                assert(args.deep_view() =~= before.push(cur@));
                cur = Vec::new();
            }
        } else {
            cur.push(ch);
        }
        proof {
            assert(rest[0] == ch);
            assert(step_len(rest, st) == k);
            assert(rest.skip(k as int) =~= chars@.skip(i + k));
            assert(step_state(rest, st) =~= ScanState { args: args.deep_view(), cur: cur@, quote });
        }
        i = i + k;
    }
    proof {
        assert(chars@.skip(i as int) =~= Seq::<char>::empty());
    }
    if cur.len() > 0 {
        let word = string_of(&cur);
        let ghost before = args.deep_view();
        args.push(word);
        assert(args.deep_view() =~= before.push(cur@));
    }
    args
}

/// A character that no quoting or escaping rule treats specially and that does
/// not separate arguments.
pub open spec fn is_word_char(c: char) -> bool {
    !is_blank(c) && c != '"' && c != '\'' && c != '\\'
}

/// Words without quotes, escapes or blanks, and not empty.
pub open spec fn plain_words(toks: Seq<Seq<char>>) -> bool {
    &&& forall|i: int| 0 <= i < toks.len() ==> (#[trigger] toks[i]).len() > 0
    &&& forall|i: int, j: int|
        0 <= i < toks.len() && 0 <= j < toks[i].len() ==> is_word_char(#[trigger] toks[i][j])
}

/// The words joined by single spaces.
pub open spec fn join_words(toks: Seq<Seq<char>>) -> Seq<char>
    decreases toks.len(),
{
    if toks.len() == 0 {
        Seq::empty()
    } else if toks.len() == 1 {
        toks[0]
    } else {
        toks[0] + seq![' '] + join_words(toks.skip(1))
    }
}

proof fn lemma_scan_word(w: Seq<char>, r: Seq<char>, args: Seq<Seq<char>>, cur: Seq<char>)
    requires
        forall|j: int| 0 <= j < w.len() ==> is_word_char(#[trigger] w[j]),
    ensures
        scan(w + r, ScanState { args, cur, quote: Quote::Plain }) == scan(
            r,
            ScanState { args, cur: cur + w, quote: Quote::Plain },
        ),
    decreases w.len(),
{
    if w.len() == 0 {
        assert(w + r =~= r);
        assert(cur + w =~= cur);
    } else {
        let st = ScanState { args, cur, quote: Quote::Plain };
        assert((w + r)[0] == w[0]);
        assert(is_word_char(w[0]));
        assert((w + r).skip(1) =~= w.skip(1) + r);
        lemma_scan_word(w.skip(1), r, args, cur.push(w[0]));
        assert(cur.push(w[0]) + w.skip(1) =~= cur + w);
    }
}

proof fn lemma_scan_joined(toks: Seq<Seq<char>>, args: Seq<Seq<char>>)
    requires
        toks.len() > 0,
        plain_words(toks),
    ensures
        scan(join_words(toks), ScanState { args, cur: Seq::empty(), quote: Quote::Plain })
            == args + toks,
    decreases toks.len(),
{
    let w = toks[0];
    assert(forall|j: int| 0 <= j < w.len() ==> is_word_char(#[trigger] w[j])) by {
        assert forall|j: int| 0 <= j < w.len() implies is_word_char(#[trigger] w[j]) by {
            assert(is_word_char(toks[0][j]));
        }
    }
    if toks.len() == 1 {
        lemma_scan_word(w, Seq::empty(), args, Seq::empty());
        assert(w + Seq::<char>::empty() =~= w);
        assert(Seq::<char>::empty() + w =~= w);
        assert(args + toks =~= args.push(w));
    } else {
        let rest = toks.skip(1);
        let tail = seq![' '] + join_words(rest);
        assert(join_words(toks) =~= w + tail);
        lemma_scan_word(w, tail, args, Seq::empty());
        assert(Seq::<char>::empty() + w =~= w);
        let st = ScanState { args, cur: w, quote: Quote::Plain };
        assert(tail[0] == ' ');
        assert(tail.skip(1) =~= join_words(rest));
        assert(plain_words(rest)) by {
            assert forall|i: int| 0 <= i < rest.len() implies (#[trigger] rest[i]).len() > 0 by {
                assert(rest[i] == toks[i + 1]);
            }
            assert forall|i: int, j: int|
                0 <= i < rest.len() && 0 <= j < rest[i].len() implies is_word_char(
                #[trigger] rest[i][j],
            ) by {
                assert(rest[i] == toks[i + 1]);
                assert(is_word_char(toks[i + 1][j]));
            }
        }
        lemma_scan_joined(rest, args.push(w));
        assert(args.push(w) + rest =~= args + toks);
    }
}

/// Tokenizing words joined by single spaces gives back the same words, when no
/// word is empty or holds a quote, a backslash, a space or a tab.
pub proof fn lemma_retokenize_joined(toks: Seq<Seq<char>>)
    requires
        plain_words(toks),
    ensures
        tokens_of(join_words(toks)) == toks,
{
    if toks.len() == 0 {
        assert(tokens_of(join_words(toks)) =~= toks);
    } else {
        lemma_scan_joined(toks, Seq::empty());
        assert(Seq::<Seq<char>>::empty() + toks =~= toks);
    }
}

} // verus!
