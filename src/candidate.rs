//! Completion candidates and their order by display text.
use vstd::prelude::*;
use crate::text::chars_of;

verus! {

/// A proposed completion of the word under the cursor: the text shown in the
/// list, the text put into the line, and whether it names a directory.
pub struct Candidate {
    pub display: String,
    pub replacement: String,
    pub is_directory: bool,
}

pub ghost struct CandidateView {
    pub display: Seq<char>,
    pub replacement: Seq<char>,
    pub is_directory: bool,
}

impl View for Candidate {
    type V = CandidateView;

    open spec fn view(&self) -> CandidateView {
        CandidateView {
            display: self.display@,
            replacement: self.replacement@,
            is_directory: self.is_directory,
        }
    }
}

pub open spec fn views(s: Seq<Candidate>) -> Seq<CandidateView> {
    s.map_values(|c: Candidate| c@)
}

/// `a` comes strictly before `b` in lexicographic order of code points (the
/// order of their UTF-8 bytes).
pub open spec fn lex_lt(a: Seq<char>, b: Seq<char>) -> bool
    decreases a.len(),
{
    if a.len() == 0 {
        b.len() > 0
    } else if b.len() == 0 {
        false
    } else if a[0] != b[0] {
        (a[0] as u32) < (b[0] as u32)
    } else {
        lex_lt(a.skip(1), b.skip(1))
    }
}

pub proof fn lemma_lex_lt_transitive(a: Seq<char>, b: Seq<char>, c: Seq<char>)
    requires
        lex_lt(a, b),
        lex_lt(b, c),
    ensures
        lex_lt(a, c),
    decreases a.len(),
{
    if a.len() > 0 && a[0] == b[0] && b[0] == c[0] {
        lemma_lex_lt_transitive(a.skip(1), b.skip(1), c.skip(1));
    }
}

pub proof fn lemma_lex_lt_irreflexive(a: Seq<char>)
    ensures
        !lex_lt(a, a),
    decreases a.len(),
{
    if a.len() > 0 {
        lemma_lex_lt_irreflexive(a.skip(1));
    }
}

/// Candidates in ascending order of display text.
pub open spec fn sorted_by_display(s: Seq<CandidateView>) -> bool {
    forall|i: int, j: int| 0 <= i < j < s.len() ==> !lex_lt(s[j].display, s[i].display)
}

/// Compares two character sequences in lexicographic order.
pub(crate) fn lex_less(a: &Vec<char>, b: &Vec<char>) -> (r: bool)
    ensures
        r == lex_lt(a@, b@),
{
    let mut i: usize = 0;
    assert(a@.skip(0) =~= a@);
    assert(b@.skip(0) =~= b@);
    while i < a.len() && i < b.len()
        invariant
            i <= a@.len(),
            i <= b@.len(),
            lex_lt(a@, b@) == lex_lt(a@.skip(i as int), b@.skip(i as int)),
        decreases a@.len() - i,
    {
        assert(a@.skip(i as int)[0] == a@[i as int]);
        assert(b@.skip(i as int)[0] == b@[i as int]);
        if a[i] != b[i] {
            return (a[i] as u32) < (b[i] as u32);
        }
        assert(a@.skip(i as int).skip(1) =~= a@.skip(i + 1));
        assert(b@.skip(i as int).skip(1) =~= b@.skip(i + 1));
        i = i + 1;
    }
    i < b.len()
}

proof fn lemma_insert_to_multiset<A>(s: Seq<A>, p: int, x: A)
    requires
        0 <= p <= s.len(),
    ensures
        s.insert(p, x).to_multiset() == s.to_multiset().insert(x),
{
    let t = s.insert(p, x);
    s.insert_ensures(p, x);
    assert(t.remove(p) =~= s);
    t.to_multiset_ensures();
    assert(t.contains(x)) by {
        assert(t[p] == x);
    }
    assert(t.to_multiset().count(x) > 0);
    assert(t.to_multiset() =~= t.to_multiset().remove(x).insert(x));
}

/// Sorts candidates by display text, ascending.
pub fn sort_by_display(v: Vec<Candidate>) -> (r: Vec<Candidate>)
    ensures
        sorted_by_display(views(r@)),
        views(r@).to_multiset() == views(v@).to_multiset(),
{
    let mut out: Vec<Candidate> = Vec::new();
    let mut rest = v;
    let ghost orig = views(rest@);
    let mut keys: Vec<Vec<char>> = Vec::new();
    assert(orig.take(0) =~= Seq::<CandidateView>::empty());
    assert(views(out@) =~= Seq::<CandidateView>::empty());
    assert(orig.skip(0) =~= orig);
    while rest.len() > 0
        invariant
            rest@.len() <= orig.len(),
            views(rest@) == orig.skip(orig.len() - rest@.len()),
            keys@.len() == out@.len(),
            forall|k: int| 0 <= k < keys@.len() ==> (#[trigger] keys@[k])@ == out@[k].display@,
            sorted_by_display(views(out@)),
            views(out@).to_multiset() == orig.take(orig.len() - rest@.len()).to_multiset(),
        decreases rest@.len(),
    {
        let ghost done = orig.len() - rest@.len();
        let ghost before = views(rest@);
        let ghost old_rest = rest@;
        assert(before[0] == orig[done]);
        let c = rest.remove(0);
        assert(c@ == orig[done]);
        assert forall|k: int| 0 <= k < views(rest@).len() implies views(rest@)[k] == orig.skip(
            done + 1,
        )[k] by {
            assert(rest@[k] == old_rest[k + 1]);
            assert(before[k + 1] == orig.skip(done)[k + 1]);
        }
        assert(views(rest@) =~= orig.skip(done + 1));
        let key = chars_of(c.display.as_str());
        let mut p: usize = 0;
        while p < out.len() && !lex_less(&key, &keys[p])
            invariant
                p <= out@.len(),
                keys@.len() == out@.len(),
                forall|k: int| 0 <= k < keys@.len() ==> (#[trigger] keys@[k])@ == out@[k].display@,
                forall|k: int| 0 <= k < p ==> !lex_lt(key@, #[trigger] out@[k].display@),
            decreases out@.len() - p,
        {
            p = p + 1;
        }
        let ghost old_out = views(out@);
        let ghost old_keys = keys@;
        assert(forall|k: int| 0 <= k < p ==> !lex_lt(c@.display, #[trigger] old_out[k].display));
        assert(p < old_out.len() ==> lex_lt(c@.display, old_out[p as int].display));
        out.insert(p, c);
        keys.insert(p, key);
        assert(views(out@) =~= old_out.insert(p as int, c@));
        proof {
            old_out.insert_ensures(p as int, c@);
            lemma_insert_to_multiset(old_out, p as int, c@);
            assert(orig.take(done + 1) =~= orig.take(done).push(orig[done]));
            orig.take(done).to_multiset_ensures();
            assert forall|k: int| 0 <= k < keys@.len() implies (#[trigger] keys@[k])@
                == out@[k].display@ by {
                if k < p {
                    assert(keys@[k] == old_keys[k]);
                } else if k > p {
                    assert(keys@[k] == old_keys[k - 1]);
                }
            }
            let s = views(out@);
            assert forall|i: int, j: int| 0 <= i < j < s.len() implies !lex_lt(
                s[j].display,
                s[i].display,
            ) by {
                if j == p {
                    assert(s[i] == old_out[i]);
                } else if i == p {
                    assert(s[j] == old_out[j - 1]);
                    if p < old_out.len() && lex_lt(s[j].display, c@.display) {
                        assert(lex_lt(c@.display, old_out[p as int].display));
                        lemma_lex_lt_transitive(s[j].display, c@.display, old_out[p as int].display);
                        if j - 1 > p {
                            assert(!lex_lt(old_out[j - 1].display, old_out[p as int].display));
                        } else {
                            lemma_lex_lt_irreflexive(old_out[p as int].display);
                        }
                    }
                } else {
                    let oi = if i < p { i } else { i - 1 };
                    let oj = if j < p { j } else { j - 1 };
                    assert(s[i] == old_out[oi]);
                    assert(s[j] == old_out[oj]);
                }
            }
        }
    }
    assert(orig.take(orig.len() as int) =~= orig);
    out
}

} // verus!
