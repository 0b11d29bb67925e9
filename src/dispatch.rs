//! What the dispatcher does with a tokenized command line: builtins, the
//! redirection clause, `cd` targets and the reports shown to the user.
use vstd::prelude::*;
use crate::text::{chars_of, concat, find_last, is_word, last_index_of, lemma_last_index_of, string_of};

verus! {

/// The commands the interpreter carries out itself.
#[derive(Clone, Copy, Debug, PartialEq, Eq, Structural)]
pub enum Builtin {
    Echo,
    Exit,
    Type,
    Pwd,
    Cd,
}

/// The builtin of this name, if any.
pub open spec fn builtin_named(name: Seq<char>) -> Option<Builtin> {
    if name == "echo"@ {
        Some(Builtin::Echo)
    } else if name == "exit"@ {
        Some(Builtin::Exit)
    } else if name == "type"@ {
        Some(Builtin::Type)
    } else if name == "pwd"@ {
        Some(Builtin::Pwd)
    } else if name == "cd"@ {
        Some(Builtin::Cd)
    } else {
        None
    }
}

/// Looks a name up among the builtins.
pub fn builtin_of(name: &str) -> (r: Option<Builtin>)
    ensures
        r == builtin_named(name@),
{
    let v = chars_of(name);
    if is_word(&v, "echo") {
        Some(Builtin::Echo)
    } else if is_word(&v, "exit") {
        Some(Builtin::Exit)
    } else if is_word(&v, "type") {
        Some(Builtin::Type)
    } else if is_word(&v, "pwd") {
        Some(Builtin::Pwd)
    } else if is_word(&v, "cd") {
        Some(Builtin::Cd)
    } else {
        None
    }
}

/// The stream that a redirection reroutes.
#[derive(Clone, Copy, Debug, PartialEq, Eq, Structural)]
pub enum Stream {
    Stdout,
    Stderr,
}

/// Whether the target file is emptied first or written at its end.
#[derive(Clone, Copy, Debug, PartialEq, Eq, Structural)]
pub enum WriteMode {
    Truncate,
    Append,
}

/// The stream and mode of a redirection operator, if the token is one.
pub open spec fn operator_kind(tok: Seq<char>) -> Option<(Stream, WriteMode)> {
    if tok == ">"@ || tok == "1>"@ {
        Some((Stream::Stdout, WriteMode::Truncate))
    } else if tok == ">>"@ || tok == "1>>"@ {
        Some((Stream::Stdout, WriteMode::Append))
    } else if tok == "2>"@ {
        Some((Stream::Stderr, WriteMode::Truncate))
    } else if tok == "2>>"@ {
        Some((Stream::Stderr, WriteMode::Append))
    } else {
        None
    }
}

/// Reads a token as a redirection operator.
pub fn redirect_operator(tok: &str) -> (r: Option<(Stream, WriteMode)>)
    ensures
        r == operator_kind(tok@),
{
    let v = chars_of(tok);
    if is_word(&v, ">") || is_word(&v, "1>") {
        Some((Stream::Stdout, WriteMode::Truncate))
    } else if is_word(&v, ">>") || is_word(&v, "1>>") {
        Some((Stream::Stdout, WriteMode::Append))
    } else if is_word(&v, "2>") {
        Some((Stream::Stderr, WriteMode::Truncate))
    } else if is_word(&v, "2>>") {
        Some((Stream::Stderr, WriteMode::Append))
    } else {
        None
    }
}

/// A redirection clause starts at `i`: an operator followed by a file name.
pub open spec fn redirect_at(args: Seq<Seq<char>>, i: int) -> bool {
    0 <= i && i + 1 < args.len() && operator_kind(args[i]) is Some
}

pub open spec fn is_first_redirect(args: Seq<Seq<char>>, i: int) -> bool {
    redirect_at(args, i) && forall|j: int| 0 <= j < i ==> !redirect_at(args, j)
}

/// Where the first redirection clause of the arguments starts, if any.
pub open spec fn first_redirect(args: Seq<Seq<char>>) -> Option<int> {
    if exists|i: int| is_first_redirect(args, i) {
        Some(choose|i: int| is_first_redirect(args, i))
    } else {
        None
    }
}

proof fn lemma_first_redirect_unique(args: Seq<Seq<char>>, i: int)
    requires
        is_first_redirect(args, i),
    ensures
        first_redirect(args) == Some(i),
{
    let k = choose|k: int| is_first_redirect(args, k);
    assert(k == i) by {
        if k < i {
            assert(!redirect_at(args, k));
        } else if i < k {
            assert(!redirect_at(args, i));
        }
    }
}

/// The arguments without the first redirection clause.
pub open spec fn args_without_redirect(args: Seq<Seq<char>>) -> Seq<Seq<char>> {
    match first_redirect(args) {
        Some(i) => args.take(i) + args.skip(i + 2),
        None => args,
    }
}

/// A redirection clause: the stream, the mode and the file.
pub struct Redirection {
    pub stream: Stream,
    pub mode: WriteMode,
    pub target: String,
}

pub ghost struct RedirectionView {
    pub stream: Stream,
    pub mode: WriteMode,
    pub target: Seq<char>,
}

impl View for Redirection {
    type V = RedirectionView;

    open spec fn view(&self) -> RedirectionView {
        RedirectionView { stream: self.stream, mode: self.mode, target: self.target@ }
    }
}

/// The first redirection clause of the arguments, if any.
pub open spec fn redirect_of(args: Seq<Seq<char>>) -> Option<RedirectionView> {
    match first_redirect(args) {
        Some(i) => {
            let kind = operator_kind(args[i])->0;
            Some(RedirectionView { stream: kind.0, mode: kind.1, target: args[i + 1] })
        },
        None => None,
    }
}

/// Finds the first operator token that is followed by a file name.
pub fn find_redirect(args: &Vec<String>) -> (r: Option<usize>)
    ensures
        match r {
            Some(i) => first_redirect(args.deep_view()) == Some(i as int),
            None => first_redirect(args.deep_view()) is None,
        },
{
    let ghost a = args.deep_view();
    let mut i: usize = 0;
    while i < args.len()
        invariant
            a == args.deep_view(),
            i <= args@.len(),
            forall|j: int| 0 <= j < i ==> !redirect_at(a, j),
        decreases args@.len() - i,
    {
        assert(a[i as int] == args@[i as int]@);
        if i + 1 < args.len() && redirect_operator(args[i].as_str()).is_some() {
            proof {
                lemma_first_redirect_unique(a, i as int);
            }
            return Some(i);
        }
        i = i + 1;
    }
    assert(!exists|k: int| is_first_redirect(a, k));
    None
}

/// A command to launch: the name typed, its arguments, and where its output goes.
pub struct CommandLine {
    pub name: String,
    pub args: Vec<String>,
    pub redirect: Option<Redirection>,
}

/// Splits the arguments of an external command into those handed to it and its
/// redirection clause, which is taken out of the list (operator and file name).
pub fn split_redirect(args: &Vec<String>) -> (r: (Vec<String>, Option<Redirection>))
    ensures
        r.0.deep_view() == args_without_redirect(args.deep_view()),
        match r.1 {
            Some(red) => redirect_of(args.deep_view()) == Some(red@),
            None => redirect_of(args.deep_view()) is None,
        },
{
    let ghost a = args.deep_view();
    match find_redirect(args) {
        None => {
            let mut kept: Vec<String> = Vec::new();
            let mut j: usize = 0;
            while j < args.len()
                invariant
                    a == args.deep_view(),
                    j <= args@.len(),
                    kept.deep_view() == a.take(j as int),
                decreases args@.len() - j,
            {
                let ghost before = kept.deep_view();
                kept.push(args[j].clone());
                assert(kept.deep_view() =~= before.push(a[j as int]));
                assert(a.take(j as int).push(a[j as int]) =~= a.take(j + 1));
                j = j + 1;
            }
            assert(a.take(j as int) =~= a);
            (kept, None)
        },
        Some(i) => {
            let mut kept: Vec<String> = Vec::new();
            let mut j: usize = 0;
            while j < args.len()
                invariant
                    a == args.deep_view(),
                    i + 1 < args@.len(),
                    j <= args@.len(),
                    j <= i ==> kept.deep_view() == a.take(j as int),
                    j >= i + 2 ==> kept.deep_view() == a.take(i as int) + a.subrange(
                        i + 2,
                        j as int,
                    ),
                    j != i + 1,
                decreases args@.len() - j,
            {
                if j == i {
                    assert(a.take(i as int) + a.subrange(i + 2, i + 2) =~= a.take(i as int));
                    j = i + 2;
                } else {
                    let ghost before = kept.deep_view();
                    kept.push(args[j].clone());
                    assert(kept.deep_view() =~= before.push(a[j as int]));
                    if j < i {
                        assert(a.take(j as int).push(a[j as int]) =~= a.take(j + 1));
                    } else {
                        assert((a.take(i as int) + a.subrange(i + 2, j as int)).push(a[j as int])
                            =~= a.take(i as int) + a.subrange(i + 2, j + 1));
                    }
                    j = j + 1;
                }
            }
            assert(a.subrange(i + 2, a.len() as int) =~= a.skip(i + 2));
            let (stream, mode) = match redirect_operator(args[i].as_str()) {
                Some(k) => k,
                None => { (Stream::Stdout, WriteMode::Truncate) },
            };
            assert(a[i as int] == args@[i as int]@);
            assert(a[i + 1] == args@[i + 1]@);
            let red = Redirection { stream, mode, target: args[i + 1].clone() };
            (kept, Some(red))
        },
    }
}

pub ghost struct CommandLineView {
    pub name: Seq<char>,
    pub args: Seq<Seq<char>>,
    pub redirect: Option<RedirectionView>,
}

impl View for CommandLine {
    type V = CommandLineView;

    open spec fn view(&self) -> CommandLineView {
        CommandLineView {
            name: self.name@,
            args: self.args.deep_view(),
            redirect: match self.redirect {
                Some(r) => Some(r@),
                None => None,
            },
        }
    }
}

/// What one command line asks of the interpreter.
pub enum Action {
    /// Nothing to do: an empty line, or `type` or `cd` without an argument.
    Nothing,
    Exit,
    Pwd,
    /// `type` on the name of a builtin.
    TypeBuiltin(String),
    /// `type` on another name, to be looked up on the search path.
    TypeLookup(String),
    /// `cd ..`: to the parent of the working directory.
    CdParent,
    /// `cd ~`: to the home directory.
    CdHome,
    /// `cd` to another path, relative to the working directory unless absolute.
    CdPath(String),
    /// An external command.
    Run(CommandLine),
}

pub ghost enum ActionView {
    Nothing,
    Exit,
    Pwd,
    TypeBuiltin(Seq<char>),
    TypeLookup(Seq<char>),
    CdParent,
    CdHome,
    CdPath(Seq<char>),
    Run(CommandLineView),
}

impl View for Action {
    type V = ActionView;

    open spec fn view(&self) -> ActionView {
        match self {
            Action::Nothing => ActionView::Nothing,
            Action::Exit => ActionView::Exit,
            Action::Pwd => ActionView::Pwd,
            Action::TypeBuiltin(n) => ActionView::TypeBuiltin(n@),
            Action::TypeLookup(n) => ActionView::TypeLookup(n@),
            Action::CdParent => ActionView::CdParent,
            Action::CdHome => ActionView::CdHome,
            Action::CdPath(p) => ActionView::CdPath(p@),
            Action::Run(c) => ActionView::Run(c@),
        }
    }
}

/// What the tokens of a command line ask for. `echo` has no handler of its own
/// and runs as an external command.
pub open spec fn action_of(toks: Seq<Seq<char>>) -> ActionView {
    if toks.len() == 0 {
        ActionView::Nothing
    } else {
        let name = toks[0];
        let rest = toks.skip(1);
        if name == "exit"@ {
            ActionView::Exit
        } else if name == "pwd"@ {
            ActionView::Pwd
        } else if name == "type"@ {
            if rest.len() == 0 {
                ActionView::Nothing
            } else if builtin_named(rest[0]) is Some {
                ActionView::TypeBuiltin(rest[0])
            } else {
                ActionView::TypeLookup(rest[0])
            }
        } else if name == "cd"@ {
            if rest.len() == 0 {
                ActionView::Nothing
            } else if rest[0] == ".."@ {
                ActionView::CdParent
            } else if rest[0] == "~"@ {
                ActionView::CdHome
            } else {
                ActionView::CdPath(rest[0])
            }
        } else {
            ActionView::Run(
                CommandLineView {
                    name,
                    args: args_without_redirect(rest),
                    redirect: redirect_of(rest),
                },
            )
        }
    }
}

/// Decides what a tokenized command line asks for.
pub fn classify(tokens: &Vec<String>) -> (r: Action)
    ensures
        r@ == action_of(tokens.deep_view()),
{
    let ghost t = tokens.deep_view();
    if tokens.len() == 0 {
        return Action::Nothing;
    }
    assert(t[0] == tokens@[0]@);
    let name = chars_of(tokens[0].as_str());
    let mut rest: Vec<String> = Vec::new();
    let mut j: usize = 1;
    while j < tokens.len()
        invariant
            t == tokens.deep_view(),
            1 <= j <= tokens@.len(),
            rest.deep_view() == t.subrange(1, j as int),
        decreases tokens@.len() - j,
    {
        let ghost before = rest.deep_view();
        rest.push(tokens[j].clone());
        assert(rest.deep_view() =~= before.push(t[j as int]));
        assert(t.subrange(1, j as int).push(t[j as int]) =~= t.subrange(1, j + 1));
        j = j + 1;
    }
    assert(t.subrange(1, t.len() as int) =~= t.skip(1));
    if rest.len() > 0 {
        assert(t.skip(1)[0] == rest@[0]@);
    }
    if is_word(&name, "exit") {
        Action::Exit
    } else if is_word(&name, "pwd") {
        Action::Pwd
    } else if is_word(&name, "type") {
        if rest.len() == 0 {
            Action::Nothing
        } else if builtin_of(rest[0].as_str()).is_some() {
            Action::TypeBuiltin(rest[0].clone())
        } else {
            Action::TypeLookup(rest[0].clone())
        }
    } else if is_word(&name, "cd") {
        if rest.len() == 0 {
            Action::Nothing
        } else {
            let target = chars_of(rest[0].as_str());
            if is_word(&target, "..") {
                Action::CdParent
            } else if is_word(&target, "~") {
                Action::CdHome
            } else {
                Action::CdPath(rest[0].clone())
            }
        }
    } else {
        let (args, redirect) = split_redirect(&rest);
        Action::Run(CommandLine { name: tokens[0].clone(), args, redirect })
    }
}

/// The parent of a directory path as the working directory reports it (absolute,
/// no trailing separator): everything before the last separator, the root for a
/// path right under it, and the root itself for the root.
pub open spec fn parent_of(dir: Seq<char>) -> Seq<char> {
    let k = last_index_of(dir, '/');
    if k < 0 {
        Seq::empty()
    } else if k == 0 {
        seq!['/']
    } else {
        dir.take(k)
    }
}

/// The directory that `cd ..` moves to.
pub fn parent_dir(cwd: &str) -> (r: String)
    ensures
        r@ == parent_of(cwd@),
{
    let v = chars_of(cwd);
    match find_last(&v, '/') {
        None => String::new(),
        Some(0) => {
            let root: Vec<char> = vec!['/'];
            assert(root@ =~= seq!['/']);
            string_of(&root)
        },
        Some(k) => {
            let mut out: Vec<char> = Vec::new();
            let mut i: usize = 0;
            proof {
                lemma_last_index_of(cwd@, '/');
            }
            while i < k
                invariant
                    v@ == cwd@,
                    k < v@.len(),
                    i <= k,
                    out@ == v@.take(i as int),
                decreases k - i,
            {
                out.push(v[i]);
                assert(out@ =~= v@.take(i + 1));
                i = i + 1;
            }
            string_of(&out)
        },
    }
}

/// `cd ..` at the root stays at the root.
pub proof fn lemma_parent_of_root()
    ensures
        parent_of(seq!['/']) == seq!['/'],
{
    let s = seq!['/'];
    assert(s.last() == '/');
}

/// `type` reports every builtin as a builtin, and looks any other name up on
/// the search path.
pub proof fn lemma_type_of_name(name: Seq<char>)
    ensures
        builtin_named(name) is Some ==> action_of(seq!["type"@, name]) == ActionView::TypeBuiltin(
            name,
        ),
        builtin_named(name) is None ==> action_of(seq!["type"@, name]) == ActionView::TypeLookup(
            name,
        ),
{
    reveal_strlit("type");
    reveal_strlit("exit");
    reveal_strlit("pwd");
    let t = seq!["type"@, name];
    assert(t[0] == "type"@);
    assert(t.skip(1) =~= seq![name]);
    assert("type"@ != "exit"@) by {
        assert("type"@[0] != "exit"@[0]);
    }
    assert("type"@ != "pwd"@) by {
        assert("type"@.len() != "pwd"@.len());
    }
}

/// The builtins are exactly `echo`, `exit`, `type`, `pwd` and `cd`.
pub proof fn lemma_builtin_names()
    ensures
        builtin_named("echo"@) == Some(Builtin::Echo),
        builtin_named("exit"@) == Some(Builtin::Exit),
        builtin_named("type"@) == Some(Builtin::Type),
        builtin_named("pwd"@) == Some(Builtin::Pwd),
        builtin_named("cd"@) == Some(Builtin::Cd),
{
    reveal_strlit("echo");
    reveal_strlit("exit");
    reveal_strlit("type");
    reveal_strlit("pwd");
    reveal_strlit("cd");
    assert("exit"@ != "echo"@) by {
        assert("exit"@[1] != "echo"@[1]);
    }
    assert("type"@ != "echo"@) by {
        assert("type"@[0] != "echo"@[0]);
    }
    assert("type"@ != "exit"@) by {
        assert("type"@[0] != "exit"@[0]);
    }
    assert("pwd"@ != "echo"@) by {
        assert("pwd"@.len() != "echo"@.len());
    }
    assert("pwd"@ != "exit"@) by {
        assert("pwd"@.len() != "exit"@.len());
    }
    assert("pwd"@ != "type"@) by {
        assert("pwd"@.len() != "type"@.len());
    }
    assert("cd"@ != "echo"@) by {
        assert("cd"@.len() != "echo"@.len());
    }
    assert("cd"@ != "exit"@) by {
        assert("cd"@.len() != "exit"@.len());
    }
    assert("cd"@ != "type"@) by {
        assert("cd"@.len() != "type"@.len());
    }
    assert("cd"@ != "pwd"@) by {
        assert("cd"@.len() != "pwd"@.len());
    }
}

/// The report of `type` on a builtin: `<name> is a shell builtin`.
pub fn builtin_report(name: &str) -> (r: String)
    ensures
        r@ == name@ + " is a shell builtin"@,
{
    concat(name, " is a shell builtin")
}

/// The report of `type` on another name: `<name> is <path>` for the program
/// found, `<name>: not found` otherwise.
pub fn lookup_report(name: &str, resolved: &Option<String>) -> (r: String)
    ensures
        match resolved {
            Some(p) => r@ == name@ + " is "@ + p@,
            None => r@ == name@ + ": not found"@,
        },
{
    match resolved {
        Some(p) => {
            let head = concat(name, " is ");
            concat(head.as_str(), p.as_str())
        },
        None => concat(name, ": not found"),
    }
}

/// The report for an external command that is not on the search path.
pub fn command_not_found_report(name: &str) -> (r: String)
    ensures
        r@ == name@ + ": command not found"@,
{
    concat(name, ": command not found")
}

/// The report for a `cd` target that is not a directory.
pub fn cd_error_report(target: &str) -> (r: String)
    ensures
        r@ == "cd: "@ + target@ + ": No such file or directory"@,
{
    let head = concat("cd: ", target);
    concat(head.as_str(), ": No such file or directory")
}

} // verus!
