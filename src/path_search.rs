//! Looking a program up on the executable search path.
use vstd::prelude::*;
use crate::text::{chars_of, push_all, string_of};

verus! {

/// The pieces of `rest` between colons, the first one continuing `cur`.
pub open spec fn split_scan(rest: Seq<char>, cur: Seq<char>) -> Seq<Seq<char>>
    decreases rest.len(),
{
    if rest.len() == 0 {
        seq![cur]
    } else if rest[0] == ':' {
        seq![cur] + split_scan(rest.skip(1), Seq::empty())
    } else {
        split_scan(rest.skip(1), cur.push(rest[0]))
    }
}

/// The directories of a search path: the pieces between colons, empty ones
/// included. An empty search path holds one empty directory.
pub open spec fn path_dirs(path_var: Seq<char>) -> Seq<Seq<char>> {
    split_scan(path_var, Seq::empty())
}

/// `name` under `dir`: an absolute name stands for itself, an empty directory
/// adds nothing, and one separator is put between the two where `dir` does not
/// end with one.
pub open spec fn joined(dir: Seq<char>, name: Seq<char>) -> Seq<char> {
    if name.len() > 0 && name[0] == '/' {
        name
    } else if dir.len() == 0 {
        name
    } else if dir.last() == '/' {
        dir + name
    } else {
        dir + seq!['/'] + name
    }
}

/// Splits a search path at its colons.
pub fn split_path_list(path_var: &str) -> (dirs: Vec<String>)
    ensures
        dirs.deep_view() == path_dirs(path_var@),
{
    let chars = chars_of(path_var);
    let n = chars.len();
    let mut dirs: Vec<String> = Vec::new();
    let mut cur: Vec<char> = Vec::new();
    let mut i: usize = 0;
    proof {
        assert(chars@.skip(0) =~= chars@);
        assert(dirs.deep_view() + path_dirs(path_var@) =~= path_dirs(path_var@));
    }
    while i < n
        invariant
            n == chars@.len(),
            chars@ == path_var@,
            i <= n,
            dirs.deep_view() + split_scan(chars@.skip(i as int), cur@) == path_dirs(path_var@),
        decreases n - i,
    {
        let ghost rest = chars@.skip(i as int);
        let ghost before = dirs.deep_view();
        assert(rest[0] == chars@[i as int]);
        assert(rest.skip(1) =~= chars@.skip(i + 1));
        if chars[i] == ':' {
            let piece = string_of(&cur);
            dirs.push(piece);
            assert(dirs.deep_view() =~= before.push(cur@));
            assert(before + (seq![cur@] + split_scan(rest.skip(1), Seq::empty())) =~= dirs.deep_view()
                + split_scan(rest.skip(1), Seq::empty()));
            cur = Vec::new();
        } else {
            cur.push(chars[i]);
        }
        i = i + 1;
    }
    proof {
        assert(chars@.skip(i as int) =~= Seq::<char>::empty());
    }
    let piece = string_of(&cur);
    let ghost before = dirs.deep_view();
    dirs.push(piece);
    assert(dirs.deep_view() =~= before + seq![cur@]);
    dirs
}

/// The path of `name` under the directory `dir`.
pub fn join_path(dir: &str, name: &str) -> (r: String)
    ensures
        r@ == joined(dir@, name@),
{
    let d = chars_of(dir);
    let nm = chars_of(name);
    if (nm.len() > 0 && nm[0] == '/') || d.len() == 0 {
        return string_of(&nm);
    }
    let mut out: Vec<char> = Vec::new();
    push_all(&mut out, &d);
    if d[d.len() - 1] != '/' {
        out.push('/');
    }
    push_all(&mut out, &nm);
    assert(out@ =~= joined(dir@, name@));
    string_of(&out)
}

/// The places where `name` may be found, one for each directory of the search
/// path, in the order of the search path.
pub fn search_candidates(path_var: &str, name: &str) -> (r: Vec<String>)
    ensures
        r@.len() == path_dirs(path_var@).len(),
        forall|i: int|
            0 <= i < r@.len() ==> (#[trigger] r@[i])@ == joined(path_dirs(path_var@)[i], name@),
{
    let dirs = split_path_list(path_var);
    let mut r: Vec<String> = Vec::new();
    let mut i: usize = 0;
    while i < dirs.len()
        invariant
            dirs.deep_view() == path_dirs(path_var@),
            i <= dirs@.len(),
            r@.len() == i,
            forall|j: int|
                0 <= j < i ==> (#[trigger] r@[j])@ == joined(path_dirs(path_var@)[j], name@),
        decreases dirs@.len() - i,
    {
        assert(dirs@[i as int]@ == dirs.deep_view()[i as int]);
        r.push(join_path(dirs[i].as_str(), name));
        i = i + 1;
    }
    r
}

/// A file mode with at least one execute permission bit set.
pub open spec fn mode_is_executable(mode: u32) -> bool {
    mode & 0o111u32 != 0
}

/// The file at `i` exists with some execute permission bit (a missing file has
/// no mode).
pub open spec fn executable_at(modes: Seq<Option<u32>>, i: int) -> bool {
    match modes[i] {
        Some(m) => mode_is_executable(m),
        None => false,
    }
}

/// `i` is the first executable place of the list.
pub open spec fn is_first_executable(modes: Seq<Option<u32>>, i: int) -> bool {
    &&& 0 <= i < modes.len()
    &&& executable_at(modes, i)
    &&& forall|j: int| 0 <= j < i ==> !executable_at(modes, j)
}

/// Whether a file mode grants execute permission to anyone.
pub fn is_executable_mode(mode: u32) -> (r: bool)
    ensures
        r == mode_is_executable(mode),
{
    mode & 0o111u32 != 0
}

/// The first place, in search-path order, that holds an executable file, given
/// the mode of the file at each place (`None` where there is none).
pub fn first_executable(modes: &Vec<Option<u32>>) -> (r: Option<usize>)
    ensures
        match r {
            Some(i) => is_first_executable(modes@, i as int),
            None => forall|j: int| 0 <= j < modes@.len() ==> !executable_at(modes@, j),
        },
{
    let mut i: usize = 0;
    while i < modes.len()
        invariant
            i <= modes@.len(),
            forall|j: int| 0 <= j < i ==> !executable_at(modes@, j),
        decreases modes@.len() - i,
    {
        match modes[i] {
            Some(m) => {
                if is_executable_mode(m) {
                    return Some(i);
                }
            },
            None => {},
        }
        i = i + 1;
    }
    None
}

/// The program found on the search path: the first candidate whose file is
/// executable, or nothing.
pub fn resolve_in(candidates: &Vec<String>, modes: &Vec<Option<u32>>) -> (r: Option<String>)
    requires
        candidates@.len() == modes@.len(),
    ensures
        match r {
            Some(p) => exists|i: int| is_first_executable(modes@, i) && p@ == candidates@[i]@,
            None => forall|j: int| 0 <= j < modes@.len() ==> !executable_at(modes@, j),
        },
{
    match first_executable(modes) {
        Some(i) => Some(candidates[i].clone()),
        None => None,
    }
}

/// Where exactly one place of the search path holds an executable file, that
/// place is the one found; where none does, nothing is found.
pub proof fn lemma_single_executable_found(modes: Seq<Option<u32>>, k: int)
    requires
        0 <= k < modes.len(),
        executable_at(modes, k),
        forall|j: int| 0 <= j < modes.len() && j != k ==> !executable_at(modes, j),
    ensures
        is_first_executable(modes, k),
        forall|i: int| is_first_executable(modes, i) ==> i == k,
{
}

/// The place found comes before every other executable place: on names found
/// in several directories, the search path is taken left to right.
pub proof fn lemma_first_executable_precedes(modes: Seq<Option<u32>>, i: int, j: int)
    requires
        is_first_executable(modes, i),
        0 <= j < modes.len(),
        executable_at(modes, j),
    ensures
        i <= j,
{
}

} // verus!
