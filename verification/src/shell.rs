//! Executing a classified command against an explicit model of the
//! session.
//!
//! The working directory is state owned by [`Shell`]; the environment
//! variables a command reads and the filesystem answers it depends on are
//! handed in as plain values, and everything the command would print or do
//! to the process comes back as an [`Outcome`].  The surrounding program
//! probes the filesystem, prints the lines, spawns external commands and
//! exits; the decisions are all made, and proved, here.

use crate::command::{is_builtin, is_builtin_name, Command, PathType};
use crate::paths::{
    candidates, first_found, first_existing, lemma_render_resolve, lemma_resolve_wf,
    path_candidates, render_abs, render_path, resolve_comps, resolve_target, wf_comps,
};
use crate::text::{contains_str, join_strs, join_with};
use vstd::prelude::*;

verus! {

/// The environment variables the interpreter reads: `HOME` for `cd ~`,
/// `PATH` for `type` lookups.  `None` stands for an unset variable.
pub struct Env {
    pub home: Option<String>,
    pub path: Option<String>,
}

/// What the filesystem answered about the paths a command consults:
/// `files` are the probed paths that name existing regular files, `dirs`
/// the probed paths that name existing directories.
pub struct Fs {
    pub files: Vec<String>,
    pub dirs: Vec<String>,
}

/// A request to run an external program, with the diagnostic to report if
/// it cannot be started.
pub struct Spawn {
    pub name: String,
    pub args: Vec<String>,
    pub not_found: String,
}

/// Everything a command asks of the outside world: lines for standard
/// output and standard error in order, a process exit status, and an
/// external program to run.
pub struct Outcome {
    pub out: Vec<String>,
    pub err: Vec<String>,
    pub exit: Option<i32>,
    pub spawn: Option<Spawn>,
}

/// The interpreter's own state: the working directory, kept as its
/// normalized components.
pub struct Shell {
    comps: Vec<String>,
}

impl View for Shell {
    type V = Seq<Seq<char>>;

    closed spec fn view(&self) -> Seq<Seq<char>> {
        self.comps.deep_view()
    }
}

impl Shell {
    /// A well-formed working directory: every component is a proper name.
    pub open spec fn wf(&self) -> bool {
        wf_comps(self@)
    }

    /// Starts a session in the directory named by `path`, normalized.
    pub fn from_path(path: &str) -> (r: Shell)
        ensures
            r@ == resolve_comps(Seq::empty(), path@),
            r.wf(),
    {
        let empty: Vec<String> = Vec::new();
        proof {
            assert(empty.deep_view() =~~= Seq::<Seq<char>>::empty());
            assert(wf_comps(Seq::<Seq<char>>::empty()));
            lemma_resolve_wf(Seq::empty(), path@);
        }
        Shell { comps: resolve_target(&empty, path) }
    }

    /// The absolute name of the working directory, as `pwd` prints it.
    pub fn cwd_string(&self) -> (r: String)
        ensures
            r@ == render_abs(self@),
    {
        render_path(&self.comps)
    }
}

/// The view of an optional environment value.
pub open spec fn opt_str_view(o: Option<String>) -> Option<Seq<char>> {
    match o {
        Some(s) => Some(s@),
        None => None,
    }
}

/// What a `cd` target resolves the written token to: `~` stands for the
/// value of `HOME`.
pub open spec fn cd_target(pt: PathType, env: Env) -> Seq<char> {
    match pt {
        PathType::HomeDir => match env.home {
            Some(h) => h@,
            None => Seq::empty(),
        },
        PathType::OtherPath(p) => p@,
    }
}

/// The diagnostic for a `cd` whose target is no directory.
pub open spec fn cd_error(target: Seq<char>) -> Seq<char> {
    "cd: "@ + target + ": No such file or directory"@
}

/// Where a `type` lookup finds `name`: the first candidate along `PATH`
/// that is an existing file, and nothing when `PATH` is unset.
pub open spec fn lookup(name: Seq<char>, path_var: Option<Seq<char>>, files: Seq<Seq<char>>) -> Option<
    Seq<char>,
> {
    match path_var {
        Some(p) => first_found(candidates(p, name), files),
        None => None,
    }
}

/// Whether `type` has something to report on standard output for `name`.
pub open spec fn type_ok(name: Seq<char>, path_var: Option<Seq<char>>, files: Seq<Seq<char>>) -> bool {
    is_builtin(name) || lookup(name, path_var, files) is Some
}

pub open spec fn builtin_report(name: Seq<char>) -> Seq<char> {
    name + " is a shell builtin"@
}

pub open spec fn located_report(name: Seq<char>, p: Seq<char>) -> Seq<char> {
    name + " is "@ + p
}

pub open spec fn missing_report(name: Seq<char>) -> Seq<char> {
    name + ": not found"@
}

/// The line `type` reports for one name.
pub open spec fn type_report(name: Seq<char>, path_var: Option<Seq<char>>, files: Seq<Seq<char>>) -> Seq<
    char,
> {
    if is_builtin(name) {
        builtin_report(name)
    } else {
        match lookup(name, path_var, files) {
            Some(p) => located_report(name, p),
            None => missing_report(name),
        }
    }
}

/// The standard-output lines of a `type` command, one per argument that is
/// a builtin or was found, in argument order.
pub open spec fn type_stdout(
    args: Seq<Seq<char>>,
    path_var: Option<Seq<char>>,
    files: Seq<Seq<char>>,
) -> Seq<Seq<char>>
    decreases args.len(),
{
    if args.len() == 0 {
        Seq::empty()
    } else {
        let prev = type_stdout(args.drop_last(), path_var, files);
        if type_ok(args.last(), path_var, files) {
            prev.push(type_report(args.last(), path_var, files))
        } else {
            prev
        }
    }
}

/// The standard-error lines of a `type` command, one per argument that is
/// neither a builtin nor found, in argument order.
pub open spec fn type_stderr(
    args: Seq<Seq<char>>,
    path_var: Option<Seq<char>>,
    files: Seq<Seq<char>>,
) -> Seq<Seq<char>>
    decreases args.len(),
{
    if args.len() == 0 {
        Seq::empty()
    } else {
        let prev = type_stderr(args.drop_last(), path_var, files);
        if type_ok(args.last(), path_var, files) {
            prev
        } else {
            prev.push(missing_report(args.last()))
        }
    }
}

/// All candidate paths of all `type` arguments, in order: exactly the
/// file paths whose existence `execute` consults.
pub open spec fn all_candidates(args: Seq<Seq<char>>, path_env: Seq<char>) -> Seq<Seq<char>>
    decreases args.len(),
{
    if args.len() == 0 {
        Seq::empty()
    } else {
        all_candidates(args.drop_last(), path_env) + candidates(path_env, args.last())
    }
}

/// The probe list is complete: every candidate path that a `type` lookup
/// consults for any of its arguments stands in the probe list of the
/// whole command.
pub proof fn lemma_all_candidates_cover(args: Seq<Seq<char>>, path_env: Seq<char>, i: int)
    requires
        0 <= i < args.len(),
    ensures
        forall|c: Seq<char>|
            candidates(path_env, args[i]).contains(c) ==> #[trigger] all_candidates(
                args,
                path_env,
            ).contains(c),
    decreases args.len(),
{
    let rest = args.drop_last();
    let whole = all_candidates(args, path_env);
    if i == args.len() - 1 {
        assert forall|c: Seq<char>|
            candidates(path_env, args[i]).contains(c) implies #[trigger] whole.contains(c) by {
            let j = choose|j: int|
                0 <= j < candidates(path_env, args[i]).len() && candidates(path_env, args[i])[j]
                    == c;
            assert(whole[all_candidates(rest, path_env).len() + j] == c);
        }
    } else {
        lemma_all_candidates_cover(rest, path_env, i);
        assert(rest[i] == args[i]);
        assert forall|c: Seq<char>|
            candidates(path_env, args[i]).contains(c) implies #[trigger] whole.contains(c) by {
            assert(all_candidates(rest, path_env).contains(c));
            let j = choose|j: int|
                0 <= j < all_candidates(rest, path_env).len() && all_candidates(rest, path_env)[j]
                    == c;
            assert(whole[j] == c);
        }
    }
}

fn builtin_line(name: &str) -> (r: String)
    ensures
        r@ == builtin_report(name@),
{
    String::from_str(name).concat(" is a shell builtin")
}

fn located_line(name: &str, p: &str) -> (r: String)
    ensures
        r@ == located_report(name@, p@),
{
    String::from_str(name).concat(" is ").concat(p)
}

fn missing_line(name: &str) -> (r: String)
    ensures
        r@ == missing_report(name@),
{
    String::from_str(name).concat(": not found")
}

fn cd_error_line(target: &str) -> (r: String)
    ensures
        r@ == cd_error(target@),
{
    String::from_str("cd: ").concat(target).concat(": No such file or directory")
}

impl Command {
    /// The file paths whose existence execution will consult: every
    /// candidate of every `type` argument.  The caller probes these and
    /// lists the existing ones in [`Fs::files`].
    pub fn file_probes(&self, env: &Env) -> (r: Vec<String>)
        ensures
            self matches Command::Type(args) ==> match env.path {
                Some(p) => r.deep_view() == all_candidates(args.deep_view(), p@),
                None => r@.len() == 0,
            },
            !(self is Type) ==> r@.len() == 0,
    {
        match self {
            Command::Type(args) => match &env.path {
                Some(p) => {
                    let n = args.len();
                    let mut r: Vec<String> = Vec::new();
                    let mut i: usize = 0;
                    proof {
                        assert(r.deep_view() =~~= all_candidates(args.deep_view().take(0), p@));
                    }
                    while i < n
                        invariant
                            i <= n,
                            n == args@.len(),
                            r.deep_view() == all_candidates(args.deep_view().take(i as int), p@),
                        decreases n - i,
                    {
                        let ghost before = r.deep_view();
                        let mut cands = path_candidates(p.as_str(), args[i].as_str());
                        let ghost cv = cands.deep_view();
                        r.append(&mut cands);
                        proof {
                            assert(r.deep_view() =~~= before + cv);
                            assert(args.deep_view().take(i + 1).drop_last() =~~= args.deep_view()
                                .take(i as int));
                            assert(args.deep_view().take(i + 1).last() == args.deep_view()[
                                i as int
                            ]);
                        }
                        i += 1;
                    }
                    proof {
                        assert(args.deep_view().take(n as int) =~~= args.deep_view());
                    }
                    r
                },
                None => Vec::new(),
            },
            _ => Vec::new(),
        }
    }

    /// The directory path whose existence a `cd` will consult: the
    /// target's normalized absolute name.  The caller probes it and lists
    /// it in [`Fs::dirs`] when it is a directory.
    pub fn dir_probe(&self, sh: &Shell, env: &Env) -> (r: Option<String>)
        requires
            self matches Command::Cd(pt) ==> (pt is HomeDir ==> env.home is Some),
        ensures
            self matches Command::Cd(pt) ==> r matches Some(p) && p@ == render_abs(
                resolve_comps(sh@, cd_target(*pt, *env)),
            ),
            !(self is Cd) ==> r is None,
    {
        match self {
            Command::Cd(pt) => {
                let target: String = match pt {
                    PathType::HomeDir => match &env.home {
                        Some(h) => h.clone(),
                        None => {
                            proof {
                                assert(false);
                            }
                            String::new()
                        },
                    },
                    PathType::OtherPath(p) => p.clone(),
                };
                let dest = resolve_target(&sh.comps, target.as_str());
                Some(render_path(&dest))
            },
            _ => None,
        }
    }

    /// Executes the command.
    ///
    /// `Exit` asks for a process exit and nothing else.  `Echo` prints its
    /// arguments joined by single spaces.  `Type` reports each argument in
    /// order.  `Pwd` prints the working directory.  `Cd` moves the working
    /// directory to the resolved target when that names a directory, and
    /// otherwise reports the failure and leaves the directory unchanged.
    /// Anything else asks the caller to run the named external program.
    pub fn execute(self, sh: &mut Shell, env: &Env, fs: &Fs) -> (r: Outcome)
        requires
            old(sh).wf(),
            self matches Command::Cd(pt) ==> (pt is HomeDir ==> env.home is Some),
        ensures
            final(sh).wf(),
            self matches Command::Exit(code) ==> final(sh)@ == old(sh)@ && r.out@.len() == 0
                && r.err@.len() == 0 && r.exit == Some(code) && r.spawn is None,
            self matches Command::Echo(args) ==> final(sh)@ == old(sh)@ && r.out.deep_view()
                == seq![join_with(args.deep_view(), ' ')] && r.err@.len() == 0 && r.exit is None
                && r.spawn is None,
            self matches Command::Type(args) ==> final(sh)@ == old(sh)@ && r.out.deep_view()
                == type_stdout(args.deep_view(), opt_str_view(env.path), fs.files.deep_view())
                && r.err.deep_view() == type_stderr(
                args.deep_view(),
                opt_str_view(env.path),
                fs.files.deep_view(),
            ) && r.exit is None && r.spawn is None,
            self is Pwd ==> final(sh)@ == old(sh)@ && r.out.deep_view() == seq![
                render_abs(old(sh)@),
            ] && r.err@.len() == 0 && r.exit is None && r.spawn is None,
            self matches Command::Cd(pt) ==> r.out@.len() == 0 && r.exit is None && r.spawn is None
                && ({
                let dest = resolve_comps(old(sh)@, cd_target(pt, *env));
                if fs.dirs.deep_view().contains(render_abs(dest)) {
                    final(sh)@ == dest && r.err@.len() == 0
                } else {
                    final(sh)@ == old(sh)@ && r.err.deep_view() == seq![
                        cd_error(cd_target(pt, *env)),
                    ]
                }
            }),
            self matches Command::Other { command, args } ==> final(sh)@ == old(sh)@ && r.out@.len()
                == 0 && r.err@.len() == 0 && r.exit is None && (r.spawn matches Some(sp)
                && sp.name@ == command@ && sp.args.deep_view() == args.deep_view()
                && sp.not_found@ == command@ + ": command not found"@),
    {
        match self {
            Command::Exit(code) => Outcome {
                out: Vec::new(),
                err: Vec::new(),
                exit: Some(code),
                spawn: None,
            },
            Command::Echo(args) => {
                proof {
                    reveal_strlit(" ");
                    assert(" "@ =~= seq![' ']);
                }
                let line = join_strs(&args, " ");
                let mut out: Vec<String> = Vec::new();
                out.push(line);
                proof {
                    assert(out.deep_view() =~~= seq![join_with(args.deep_view(), ' ')]);
                }
                Outcome { out, err: Vec::new(), exit: None, spawn: None }
            },
            Command::Type(args) => {
                let ghost pv = opt_str_view(env.path);
                let ghost fls = fs.files.deep_view();
                let mut out: Vec<String> = Vec::new();
                let mut err: Vec<String> = Vec::new();
                let n = args.len();
                let mut i: usize = 0;
                proof {
                    assert(out.deep_view() =~~= type_stdout(args.deep_view().take(0), pv, fls));
                    assert(err.deep_view() =~~= type_stderr(args.deep_view().take(0), pv, fls));
                }
                while i < n
                    invariant
                        i <= n,
                        n == args@.len(),
                        pv == opt_str_view(env.path),
                        fls == fs.files.deep_view(),
                        out.deep_view() == type_stdout(args.deep_view().take(i as int), pv, fls),
                        err.deep_view() == type_stderr(args.deep_view().take(i as int), pv, fls),
                    decreases n - i,
                {
                    let ghost name_v = args.deep_view()[i as int];
                    proof {
                        assert(args.deep_view().take(i + 1).drop_last() =~~= args.deep_view().take(
                            i as int,
                        ));
                        assert(args.deep_view().take(i + 1).last() == name_v);
                        assert(name_v == args@[i as int]@);
                    }
                    let ghost out_before = out.deep_view();
                    let ghost err_before = err.deep_view();
                    let name = args[i].as_str();
                    if is_builtin_name(name) {
                        out.push(builtin_line(name));
                        proof {
                            assert(type_ok(name_v, pv, fls));
                            assert(type_report(name_v, pv, fls) == builtin_report(name_v));
                            assert(out.deep_view() =~~= out_before.push(builtin_report(name_v)));
                        }
                    } else {
                        match &env.path {
                            None => {
                                err.push(missing_line(name));
                                proof {
                                    assert(lookup(name_v, pv, fls) is None);
                                    assert(!type_ok(name_v, pv, fls));
                                    assert(err.deep_view() =~~= err_before.push(
                                        missing_report(name_v),
                                    ));
                                }
                            },
                            Some(p) => {
                                let cands = path_candidates(p.as_str(), name);
                                match first_existing(&cands, &fs.files) {
                                    Some(found) => {
                                        out.push(located_line(name, found.as_str()));
                                        proof {
                                            assert(lookup(name_v, pv, fls) == Some(found@));
                                            assert(type_ok(name_v, pv, fls));
                                            assert(type_report(name_v, pv, fls) == located_report(
                                                name_v,
                                                found@,
                                            ));
                                            assert(out.deep_view() =~~= out_before.push(
                                                located_report(name_v, found@),
                                            ));
                                        }
                                    },
                                    None => {
                                        err.push(missing_line(name));
                                        proof {
                                            assert(lookup(name_v, pv, fls) is None);
                                            assert(!type_ok(name_v, pv, fls));
                                            assert(err.deep_view() =~~= err_before.push(
                                                missing_report(name_v),
                                            ));
                                        }
                                    },
                                }
                            },
                        }
                    }
                    i += 1;
                }
                proof {
                    assert(args.deep_view().take(n as int) =~~= args.deep_view());
                }
                Outcome { out, err, exit: None, spawn: None }
            },
            Command::Pwd => {
                let mut out: Vec<String> = Vec::new();
                out.push(render_path(&sh.comps));
                proof {
                    assert(out.deep_view() =~~= seq![render_abs(old(sh)@)]);
                }
                Outcome { out, err: Vec::new(), exit: None, spawn: None }
            },
            Command::Cd(pt) => {
                let ghost pt0 = pt;
                let target: String = match pt {
                    PathType::HomeDir => match &env.home {
                        Some(h) => h.clone(),
                        None => {
                            proof {
                                assert(false);
                            }
                            String::new()
                        },
                    },
                    PathType::OtherPath(p) => p,
                };
                proof {
                    assert(target@ == cd_target(pt0, *env));
                }
                let dest = resolve_target(&sh.comps, target.as_str());
                let rendered = render_path(&dest);
                if contains_str(&fs.dirs, rendered.as_str()) {
                    proof {
                        lemma_resolve_wf(old(sh)@, target@);
                    }
                    sh.comps = dest;
                    Outcome { out: Vec::new(), err: Vec::new(), exit: None, spawn: None }
                } else {
                    let mut err: Vec<String> = Vec::new();
                    err.push(cd_error_line(target.as_str()));
                    proof {
                        assert(err.deep_view() =~~= seq![cd_error(cd_target(pt0, *env))]);
                    }
                    Outcome { out: Vec::new(), err, exit: None, spawn: None }
                }
            },
            Command::Other { command, args } => {
                let not_found = String::from_str(command.as_str()).concat(": command not found");
                Outcome {
                    out: Vec::new(),
                    err: Vec::new(),
                    exit: None,
                    spawn: Some(Spawn { name: command, args, not_found }),
                }
            },
        }
    }
}

/// Round trip: after any `cd`, the directory that `pwd` prints is the
/// target resolved and normalized against the prior working directory,
/// and a later `cd` to that printed name, from anywhere, returns to
/// exactly the same directory.
pub proof fn lemma_pwd_round_trip(cwd: Seq<Seq<char>>, target: Seq<char>, base: Seq<Seq<char>>)
    requires
        wf_comps(cwd),
    ensures
        ({
            let dest = resolve_comps(cwd, target);
            wf_comps(dest) && resolve_comps(base, render_abs(dest)) == dest
        }),
{
    lemma_resolve_wf(cwd, target);
    lemma_render_resolve(resolve_comps(cwd, target), base);
}

} // verus!
