//! Tab completion: where the word under the cursor starts, whether it names a
//! command or an argument, and which candidates are offered for it.
use vstd::prelude::*;
use crate::path_search::mode_is_executable;
use crate::candidate::{sort_by_display, sorted_by_display, views, Candidate, CandidateView};
use crate::text::{
    chars_of, find_last, last_index_of, lemma_last_index_of, push_all, starts_with,
    string_of, is_prefix,
};

verus! {

/// Characters with the Unicode `White_Space` property, as `char::is_whitespace`
/// reports them.
pub open spec fn is_space(c: char) -> bool {
    let u = c as u32;
    (0x9 <= u <= 0xd) || u == 0x20 || u == 0x85 || u == 0xa0 || u == 0x1680 || (0x2000 <= u
        <= 0x200a) || u == 0x2028 || u == 0x2029 || u == 0x202f || u == 0x205f || u == 0x3000
}

/// Whether `c` is white space.
pub fn is_space_char(c: char) -> (r: bool)
    ensures
        r == is_space(c),
{
    let u = c as u32;
    (0x9 <= u && u <= 0xd) || u == 0x20 || u == 0x85 || u == 0xa0 || u == 0x1680 || (0x2000 <= u
        && u <= 0x200a) || u == 0x2028 || u == 0x2029 || u == 0x202f || u == 0x205f || u == 0x3000
}

/// The last index of `s` whose character is (`space`) or is not (`!space`)
/// white space, or -1.
pub open spec fn last_where(s: Seq<char>, space: bool) -> int
    decreases s.len(),
{
    if s.len() == 0 {
        -1
    } else if is_space(s.last()) == space {
        s.len() - 1
    } else {
        last_where(s.drop_last(), space)
    }
}

pub proof fn lemma_last_where(s: Seq<char>, space: bool)
    ensures
        -1 <= last_where(s, space) < s.len(),
        last_where(s, space) >= 0 ==> is_space(s[last_where(s, space)]) == space,
        forall|j: int| last_where(s, space) < j < s.len() ==> is_space(s[j]) != space,
    decreases s.len(),
{
    if s.len() > 0 && is_space(s.last()) != space {
        lemma_last_where(s.drop_last(), space);
        assert forall|j: int| last_where(s, space) < j < s.len() implies is_space(s[j])
            != space by {
            if j < s.len() - 1 {
                assert(s.drop_last()[j] == s[j]);
            }
        }
    }
}

fn find_last_where(s: &Vec<char>, end: usize, space: bool) -> (r: Option<usize>)
    requires
        end <= s@.len(),
    ensures
        match r {
            Some(k) => k as int == last_where(s@.take(end as int), space),
            None => last_where(s@.take(end as int), space) == -1,
        },
{
    let mut i: usize = end;
    while i > 0
        invariant
            i <= end <= s@.len(),
            last_where(s@.take(end as int), space) == last_where(s@.take(i as int), space),
        decreases i,
    {
        assert(s@.take(i as int).drop_last() =~= s@.take(i - 1));
        assert(s@.take(i as int).last() == s@[i - 1]);
        if is_space_char(s[i - 1]) == space {
            return Some(i - 1);
        }
        i = i - 1;
    }
    None
}

/// Where the word that ends at the cursor starts: just after the last white
/// space before the cursor, or at the start of the line.
pub open spec fn word_start_of(before_cursor: Seq<char>) -> int {
    last_where(before_cursor, true) + 1
}

/// Whether the text before a word puts it in command position: that text is
/// blank, or its last character that is not white space is `|` or `;`.
pub open spec fn command_position(before_word: Seq<char>) -> bool {
    let k = last_where(before_word, false);
    k < 0 || before_word[k] == '|' || before_word[k] == ';'
}

/// Where completion replaces text, the word it completes, and in which mode.
pub struct CompletionPlan {
    pub start: usize,
    pub word: String,
    pub command_mode: bool,
}

/// Finds the word under the cursor (`pos` counts characters) and the mode of
/// its completion.
pub fn plan_completion(line: &str, pos: usize) -> (r: CompletionPlan)
    requires
        pos <= line@.len(),
    ensures
        r.start as int == word_start_of(line@.take(pos as int)),
        r.start <= pos,
        r.word@ == line@.subrange(r.start as int, pos as int),
        r.command_mode == command_position(line@.take(r.start as int)),
{
    let v = chars_of(line);
    proof {
        lemma_last_where(line@.take(pos as int), true);
    }
    let start: usize = match find_last_where(&v, pos, true) {
        Some(k) => k + 1,
        None => 0,
    };
    let mut w: Vec<char> = Vec::new();
    let mut i: usize = start;
    while i < pos
        invariant
            v@ == line@,
            start <= i <= pos <= v@.len(),
            w@ == v@.subrange(start as int, i as int),
        decreases pos - i,
    {
        w.push(v[i]);
        assert(w@ =~= v@.subrange(start as int, i + 1));
        i = i + 1;
    }
    let command_mode = match find_last_where(&v, start, false) {
        None => true,
        Some(k) => {
            proof {
                lemma_last_where(line@.take(start as int), false);
            }
            v[k] == '|' || v[k] == ';'
        },
    };
    CompletionPlan { start, word: string_of(&w), command_mode }
}

/// An entry of a directory listing: its name, its file mode where it could be
/// read, and whether it is a directory.
pub struct DirEntry {
    pub name: String,
    pub mode: Option<u32>,
    pub is_dir: bool,
}

pub ghost struct EntryView {
    pub name: Seq<char>,
    pub mode: Option<u32>,
    pub is_dir: bool,
}

impl View for DirEntry {
    type V = EntryView;

    open spec fn view(&self) -> EntryView {
        EntryView { name: self.name@, mode: self.mode, is_dir: self.is_dir }
    }
}

pub open spec fn entry_views(es: Seq<DirEntry>) -> Seq<EntryView> {
    es.map_values(|e: DirEntry| e@)
}

pub open spec fn entry_is_executable(e: EntryView) -> bool {
    match e.mode {
        Some(m) => mode_is_executable(m),
        None => false,
    }
}

/// The names of the builtins, in the order they are offered.
pub open spec fn builtin_names() -> Seq<Seq<char>> {
    seq!["echo"@, "exit"@, "type"@, "pwd"@, "cd"@]
}

/// What command position draws from: each builtin, then each entry of the
/// search-path directories in search-path order, with whether it may be run.
pub open spec fn command_sources(es: Seq<EntryView>) -> Seq<(Seq<char>, bool)> {
    builtin_names().map_values(|b: Seq<char>| (b, true)) + es.map_values(
        |e: EntryView| (e.name, entry_is_executable(e)),
    )
}

/// The command names offered for `word` from the first `n` sources: those that
/// may be run and start with `word`, each name once, at its first occurrence.
pub open spec fn command_names_upto(word: Seq<char>, src: Seq<(Seq<char>, bool)>, n: int) -> Seq<
    Seq<char>,
>
    decreases n,
{
    if n <= 0 {
        Seq::empty()
    } else {
        let prev = command_names_upto(word, src, n - 1);
        let item = src[n - 1];
        if item.1 && is_prefix(word, item.0) && !prev.contains(item.0) {
            prev.push(item.0)
        } else {
            prev
        }
    }
}

pub open spec fn command_names(word: Seq<char>, es: Seq<EntryView>) -> Seq<Seq<char>> {
    command_names_upto(word, command_sources(es), command_sources(es).len() as int)
}

/// The candidate for a command name: shown as is, put in with a space after.
pub open spec fn command_candidate(name: Seq<char>) -> CandidateView {
    CandidateView { display: name, replacement: name.push(' '), is_directory: false }
}

fn contains_string(v: &Vec<String>, s: &String) -> (r: bool)
    ensures
        r == v.deep_view().contains(s@),
{
    let mut i: usize = 0;
    while i < v.len()
        invariant
            i <= v@.len(),
            forall|j: int| 0 <= j < i ==> v.deep_view()[j] != s@,
        decreases v@.len() - i,
    {
        if v[i] == *s {
            assert(v.deep_view()[i as int] == s@);
            return true;
        }
        i = i + 1;
    }
    false
}

/// One step of gathering command names: `name` is added where it may be run,
/// starts with the word and is not there yet.
fn offer_name(names: &mut Vec<String>, w: &Vec<char>, name: &String, ok: bool)
    ensures
        final(names).deep_view() == (if ok && is_prefix(w@, name@) && !old(names).deep_view().contains(
            name@,
        ) {
            old(names).deep_view().push(name@)
        } else {
            old(names).deep_view()
        }),
{
    let nv = chars_of(name.as_str());
    if ok && starts_with(&nv, w) && !contains_string(names, name) {
        let ghost before = names.deep_view();
        names.push(name.clone());
        assert(names.deep_view() =~= before.push(name@));
    }
}

/// The candidates in command position: builtins and executable files of the
/// search-path directories (`entries`, in search-path order) whose names start
/// with `word`, each name once, sorted by name.
pub fn command_candidates(word: &str, entries: &Vec<DirEntry>) -> (r: Vec<Candidate>)
    ensures
        sorted_by_display(views(r@)),
        views(r@).to_multiset() == command_names(word@, entry_views(entries@)).map_values(
            |n: Seq<char>| command_candidate(n),
        ).to_multiset(),
{
    let w = chars_of(word);
    let ghost src = command_sources(entry_views(entries@));
    let builtins: Vec<String> = vec![
        "echo".to_owned(),
        "exit".to_owned(),
        "type".to_owned(),
        "pwd".to_owned(),
        "cd".to_owned(),
    ];
    assert(builtins.deep_view() =~= builtin_names());
    let mut names: Vec<String> = Vec::new();
    let mut i: usize = 0;
    assert(names.deep_view() =~= command_names_upto(word@, src, 0));
    while i < builtins.len()
        invariant
            w@ == word@,
            builtins.deep_view() == builtin_names(),
            src == command_sources(entry_views(entries@)),
            i <= builtins@.len(),
            names.deep_view() == command_names_upto(word@, src, i as int),
        decreases builtins@.len() - i,
    {
        assert(builtins.deep_view()[i as int] == builtins@[i as int]@);
        assert(src[i as int] == (builtins@[i as int]@, true));
        offer_name(&mut names, &w, &builtins[i], true);
        i = i + 1;
    }
    let mut k: usize = 0;
    while k < entries.len()
        invariant
            w@ == word@,
            src == command_sources(entry_views(entries@)),
            src.len() == 5 + entries@.len(),
            k <= entries@.len(),
            names.deep_view() == command_names_upto(word@, src, 5 + k),
        decreases entries@.len() - k,
    {
        let e = &entries[k];
        let ok = match e.mode {
            Some(m) => crate::path_search::is_executable_mode(m),
            None => false,
        };
        assert(entry_views(entries@)[k as int] == e@);
        assert(src[5 + k] == (e.name@, ok));
        offer_name(&mut names, &w, &e.name, ok);
        k = k + 1;
    }
    let ghost all = command_names(word@, entry_views(entries@));
    let mut cands: Vec<Candidate> = Vec::new();
    let mut j: usize = 0;
    while j < names.len()
        invariant
            names.deep_view() == all,
            j <= names@.len(),
            views(cands@) == all.take(j as int).map_values(|n: Seq<char>| command_candidate(n)),
        decreases names@.len() - j,
    {
        let mut rep = chars_of(names[j].as_str());
        rep.push(' ');
        let c = Candidate { display: names[j].clone(), replacement: string_of(&rep), is_directory: false };
        assert(all[j as int] == names@[j as int]@);
        let ghost before = views(cands@);
        cands.push(c);
        assert(views(cands@) =~= before.push(c@));
        assert(all.take(j + 1).map_values(|n: Seq<char>| command_candidate(n)) =~= all.take(
            j as int,
        ).map_values(|n: Seq<char>| command_candidate(n)).push(command_candidate(all[j as int])));
        j = j + 1;
    }
    assert(all.take(j as int) =~= all);
    sort_by_display(cands)
}

/// The part of an argument word up to and including its last `/` (empty where
/// it has none): the directory that is listed, as typed.
pub open spec fn word_lead(word: Seq<char>) -> Seq<char> {
    word.take(last_index_of(word, '/') + 1)
}

/// The part of an argument word after its last `/`: what entry names must
/// start with.
pub open spec fn word_prefix(word: Seq<char>) -> Seq<char> {
    word.skip(last_index_of(word, '/') + 1)
}

/// The directory listed for an argument word: the current one where the word
/// holds no `/`.
pub open spec fn listing_dir_of(word: Seq<char>) -> Seq<char> {
    if word_lead(word).len() == 0 {
        "./"@
    } else {
        word_lead(word)
    }
}

/// Splits an argument word at its last `/` into lead and prefix.
pub fn split_word(word: &str) -> (r: (String, String))
    ensures
        r.0@ == word_lead(word@),
        r.1@ == word_prefix(word@),
{
    let v = chars_of(word);
    proof {
        lemma_last_index_of(word@, '/');
    }
    let cut: usize = match find_last(&v, '/') {
        Some(k) => {
            assert(k < v@.len());
            k + 1
        },
        None => 0,
    };
    let mut lead: Vec<char> = Vec::new();
    let mut rest: Vec<char> = Vec::new();
    let mut i: usize = 0;
    while i < v.len()
        invariant
            v@ == word@,
            cut <= v@.len(),
            i <= v@.len(),
            i <= cut ==> lead@ == v@.take(i as int) && rest@.len() == 0,
            i > cut ==> lead@ == v@.take(cut as int) && rest@ == v@.subrange(cut as int, i as int),
        decreases v@.len() - i,
    {
        if i < cut {
            lead.push(v[i]);
            assert(lead@ =~= v@.take(i + 1));
        } else {
            rest.push(v[i]);
            assert(rest@ =~= v@.subrange(cut as int, i + 1));
        }
        i = i + 1;
    }
    assert(v@.take(i as int) =~= v@);
    assert(v@.subrange(cut as int, v@.len() as int) =~= v@.skip(cut as int));
    assert(rest@ =~= v@.skip(cut as int));
    (string_of(&lead), string_of(&rest))
}

/// The directory to list for completing an argument word.
pub fn listing_dir(word: &str) -> (r: String)
    ensures
        r@ == listing_dir_of(word@),
{
    let (lead, _) = split_word(word);
    if lead.as_str().is_empty() {
        proof {
            lemma_last_index_of(word@, '/');
        }
        "./".to_owned()
    } else {
        lead
    }
}

/// An entry is offered for a prefix when its name starts with the prefix and
/// it is not hidden (its name does not start with `.`).
pub open spec fn entry_offered(prefix: Seq<char>, e: EntryView) -> bool {
    is_prefix(prefix, e.name) && !(e.name.len() > 0 && e.name[0] == '.')
}

/// The candidate for a directory entry: directories are shown with a `/` and
/// put in with a `/` after, so that completion can go on inside them; files are
/// put in with a space after. The text put in keeps the lead of the word.
pub open spec fn argument_candidate(lead: Seq<char>, e: EntryView) -> CandidateView {
    if e.is_dir {
        CandidateView {
            display: e.name.push('/'),
            replacement: (lead + e.name).push('/'),
            is_directory: true,
        }
    } else {
        CandidateView {
            display: e.name,
            replacement: (lead + e.name).push(' '),
            is_directory: false,
        }
    }
}

/// The candidates for an argument word from the first `n` entries, in order.
pub open spec fn argument_list_upto(word: Seq<char>, es: Seq<EntryView>, n: int) -> Seq<
    CandidateView,
>
    decreases n,
{
    if n <= 0 {
        Seq::empty()
    } else {
        let prev = argument_list_upto(word, es, n - 1);
        if entry_offered(word_prefix(word), es[n - 1]) {
            prev.push(argument_candidate(word_lead(word), es[n - 1]))
        } else {
            prev
        }
    }
}

pub open spec fn argument_list(word: Seq<char>, es: Seq<EntryView>) -> Seq<CandidateView> {
    argument_list_upto(word, es, es.len() as int)
}

/// The candidates in argument position, given the entries of the listed
/// directory: the entries that are offered, sorted by display text.
pub fn argument_candidates(word: &str, entries: &Vec<DirEntry>) -> (r: Vec<Candidate>)
    ensures
        sorted_by_display(views(r@)),
        views(r@).to_multiset() == argument_list(word@, entry_views(entries@)).to_multiset(),
{
    let (lead, prefix) = split_word(word);
    let lead_chars = chars_of(lead.as_str());
    let prefix_chars = chars_of(prefix.as_str());
    let ghost es = entry_views(entries@);
    let mut cands: Vec<Candidate> = Vec::new();
    let mut i: usize = 0;
    while i < entries.len()
        invariant
            es == entry_views(entries@),
            lead_chars@ == word_lead(word@),
            prefix_chars@ == word_prefix(word@),
            i <= entries@.len(),
            views(cands@) == argument_list_upto(word@, es, i as int),
        decreases entries@.len() - i,
    {
        let e = &entries[i];
        assert(es[i as int] == e@);
        let name = chars_of(e.name.as_str());
        let hidden = name.len() > 0 && name[0] == '.';
        if starts_with(&name, &prefix_chars) && !hidden {
            let mut display = chars_of(e.name.as_str());
            let mut rep: Vec<char> = Vec::new();
            push_all(&mut rep, &lead_chars);
            push_all(&mut rep, &name);
            if e.is_dir {
                display.push('/');
                rep.push('/');
            } else {
                rep.push(' ');
            }
            let c = Candidate {
                display: string_of(&display),
                replacement: string_of(&rep),
                is_directory: e.is_dir,
            };
            assert(c@ == argument_candidate(word_lead(word@), e@));
            let ghost before = views(cands@);
            cands.push(c);
            assert(views(cands@) =~= before.push(c@));
        }
        i = i + 1;
    }
    sort_by_display(cands)
}

/// The candidates unsorted, in the order their sources are met.
pub open spec fn candidate_list(word: Seq<char>, command_mode: bool, es: Seq<EntryView>) -> Seq<
    CandidateView,
> {
    if command_mode {
        command_names(word, es).map_values(|n: Seq<char>| command_candidate(n))
    } else {
        argument_list(word, es)
    }
}

/// The candidates for a completion, given the entries read for it: those of the
/// search-path directories in command mode, those of the listed directory
/// otherwise. Sorted by display text.
pub fn complete_with(plan: &CompletionPlan, entries: &Vec<DirEntry>) -> (r: Vec<Candidate>)
    ensures
        sorted_by_display(views(r@)),
        views(r@).to_multiset() == candidate_list(plan.word@, plan.command_mode, entry_views(
            entries@,
        )).to_multiset(),
{
    if plan.command_mode {
        command_candidates(plan.word.as_str(), entries)
    } else {
        argument_candidates(plan.word.as_str(), entries)
    }
}

} // verus!
