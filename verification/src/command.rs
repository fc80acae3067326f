//! Classifying a token sequence into the closed set of command variants.
//!
//! The first token decides: the exact shapes of the builtins are tried in
//! order, and a line that fits none of them is an attempt to invoke an
//! external command of that name.

use crate::numbers::{i32_value, is_i32_string, parse_i32};
use crate::text::str_eq;
use vstd::prelude::*;

verus! {

/// The names the interpreter itself answers to.  Membership here is what
/// `type` reports as a shell builtin, whether or not a program of the same
/// name also exists on `PATH`.
pub open spec fn is_builtin(name: Seq<char>) -> bool {
    name == "exit"@ || name == "echo"@ || name == "type"@ || name == "pwd"@ || name == "cd"@
}

/// Whether `name` is one of the builtin command names.
pub fn is_builtin_name(name: &str) -> (r: bool)
    ensures
        r == is_builtin(name@),
{
    str_eq(name, "exit") || str_eq(name, "echo") || str_eq(name, "type") || str_eq(name, "pwd")
        || str_eq(name, "cd")
}

/// A `cd` target: the home-directory shorthand `~`, or a path written out.
#[derive(Debug)]
pub enum PathType {
    HomeDir,
    OtherPath(String),
}

/// One input line, classified.  Built once per line and consumed exactly
/// once by execution.
#[derive(Debug)]
pub enum Command {
    Exit(i32),
    Echo(Vec<String>),
    Type(Vec<String>),
    Pwd,
    Cd(PathType),
    Other { command: String, args: Vec<String> },
}

/// How a `cd` token reads as a target.
pub open spec fn path_type_of(tok: Seq<char>, pt: PathType) -> bool {
    if tok == "~"@ {
        pt is HomeDir
    } else {
        pt matches PathType::OtherPath(p) && p@ == tok
    }
}

/// How a non-empty token sequence reads as a command.  `exit` and `cd`
/// take exactly one argument and `pwd` none; a builtin name with any
/// other arity falls through to an external invocation, as does any
/// unknown name.
pub open spec fn classifies(ts: Seq<Seq<char>>, c: Command) -> bool
    recommends
        ts.len() >= 1,
{
    if ts[0] == "exit"@ && ts.len() == 2 {
        c matches Command::Exit(code) && code == i32_value(ts[1])
    } else if ts[0] == "echo"@ {
        c matches Command::Echo(args) && args.deep_view() == ts.drop_first()
    } else if ts[0] == "type"@ {
        c matches Command::Type(args) && args.deep_view() == ts.drop_first()
    } else if ts[0] == "pwd"@ && ts.len() == 1 {
        c is Pwd
    } else if ts[0] == "cd"@ && ts.len() == 2 {
        c matches Command::Cd(pt) && path_type_of(ts[1], pt)
    } else {
        c matches Command::Other { command, args } && command@ == ts[0] && args.deep_view()
            == ts.drop_first()
    }
}

/// Any line whose first token is not a builtin name is classified as an
/// external invocation carrying that name and the remaining tokens as its
/// arguments, in their order.
pub proof fn lemma_non_builtin_is_other(ts: Seq<Seq<char>>, c: Command)
    requires
        ts.len() >= 1,
        !is_builtin(ts[0]),
        classifies(ts, c),
    ensures
        c matches Command::Other { command, args } && command@ == ts[0] && args.deep_view()
            == ts.drop_first(),
{
}

/// The tokens after the first, cloned in order.
fn tail(tokens: &Vec<String>) -> (r: Vec<String>)
    requires
        tokens@.len() >= 1,
    ensures
        r.deep_view() == tokens.deep_view().drop_first(),
{
    let n = tokens.len();
    let mut r: Vec<String> = Vec::new();
    let mut i: usize = 1;
    while i < n
        invariant
            1 <= i <= n,
            n == tokens@.len(),
            r@.len() == i - 1,
            forall|j: int| 0 <= j < i - 1 ==> r.deep_view()[j] == tokens.deep_view()[j + 1],
        decreases n - i,
    {
        let ghost before = r.deep_view();
        r.push(tokens[i].clone());
        proof {
            assert(r.deep_view() =~~= before.push(tokens.deep_view()[i as int]));
        }
        i += 1;
    }
    proof {
        assert(r.deep_view() =~~= tokens.deep_view().drop_first());
    }
    r
}

impl PathType {
    /// Reads a `cd` token: `~` means the home directory, anything else is
    /// the path as written.
    pub fn parse(path: &str) -> (r: Self)
        ensures
            path_type_of(path@, r),
    {
        if str_eq(path, "~") {
            PathType::HomeDir
        } else {
            PathType::OtherPath(String::from_str(path))
        }
    }
}

impl Command {
    /// Classifies a non-empty token sequence.  An `exit` line must carry a
    /// well-formed 32-bit exit code; the caller guards that before asking.
    pub fn parse(tokens: Vec<String>) -> (r: Self)
        requires
            tokens@.len() >= 1,
            tokens.deep_view()[0] == "exit"@ && tokens@.len() == 2 ==> is_i32_string(
                tokens.deep_view()[1],
            ),
        ensures
            classifies(tokens.deep_view(), r),
    {
        proof {
            assert(tokens.deep_view()[0] == tokens@[0]@);
        }
        let head = tokens[0].as_str();
        if str_eq(head, "exit") && tokens.len() == 2 {
            proof {
                assert(tokens.deep_view()[1] == tokens@[1]@);
            }
            match parse_i32(tokens[1].as_str()) {
                Some(code) => Command::Exit(code),
                None => {
                    proof {
                        assert(false);
                    }
                    Command::Pwd
                },
            }
        } else if str_eq(head, "echo") {
            Command::Echo(tail(&tokens))
        } else if str_eq(head, "type") {
            Command::Type(tail(&tokens))
        } else if str_eq(head, "pwd") && tokens.len() == 1 {
            Command::Pwd
        } else if str_eq(head, "cd") && tokens.len() == 2 {
            proof {
                assert(tokens.deep_view()[1] == tokens@[1]@);
            }
            Command::Cd(PathType::parse(tokens[1].as_str()))
        } else {
            Command::Other { command: tokens[0].clone(), args: tail(&tokens) }
        }
    }
}

} // verus!
