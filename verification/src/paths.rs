//! Paths: candidate executables along a `PATH`-style directory list, and
//! the working directory as a stack of components with the normalization
//! that resolving a `cd` target performs.

use crate::text::{
    contains_str, join_strs, join_with, lemma_split_join, lemma_split_sep_free,
    lemma_split_sep_word, split_char, split_sep, str_eq,
};
use vstd::prelude::*;

verus! {

/// The path of `name` inside `dir`, as the operating system would join
/// them: an absolute `name` stands alone, and exactly one slash separates
/// a non-empty directory from the name.
pub open spec fn join_path(dir: Seq<char>, name: Seq<char>) -> Seq<char> {
    if name.len() > 0 && name[0] == '/' {
        name
    } else if dir.len() == 0 {
        name
    } else if dir.last() == '/' {
        dir + name
    } else {
        dir + seq!['/'] + name
    }
}

/// The places a command of this name could live, one per directory of the
/// colon-separated `path_env`, in the listed order.
pub open spec fn candidates(path_env: Seq<char>, name: Seq<char>) -> Seq<Seq<char>> {
    split_sep(path_env, ':').map_values(|d: Seq<char>| join_path(d, name))
}

/// The first of `cands`, in order, that names an existing file of `files`.
pub open spec fn first_found(cands: Seq<Seq<char>>, files: Seq<Seq<char>>) -> Option<Seq<char>>
    decreases cands.len(),
{
    if cands.len() == 0 {
        None
    } else if files.contains(cands[0]) {
        Some(cands[0])
    } else {
        first_found(cands.drop_first(), files)
    }
}

/// What being first means: a found candidate exists, every candidate
/// before it does not, and nothing is found only when no candidate
/// exists.
pub proof fn lemma_first_found_is_first(cands: Seq<Seq<char>>, files: Seq<Seq<char>>)
    ensures
        first_found(cands, files) matches Some(p) ==> exists|i: int|
            0 <= i < cands.len() && cands[i] == p && files.contains(p) && (forall|j: int|
                0 <= j < i ==> !files.contains(#[trigger] cands[j])),
        first_found(cands, files) is None ==> forall|i: int|
            0 <= i < cands.len() ==> !files.contains(#[trigger] cands[i]),
    decreases cands.len(),
{
    if cands.len() > 0 && !files.contains(cands[0]) {
        lemma_first_found_is_first(cands.drop_first(), files);
        let rest = cands.drop_first();
        assert(forall|k: int| 1 <= k < cands.len() ==> #[trigger] cands[k] == rest[k - 1]);
        match first_found(rest, files) {
            Some(p) => {
                let i = choose|i: int|
                    0 <= i < rest.len() && rest[i] == p && files.contains(p) && (forall|j: int|
                        0 <= j < i ==> !files.contains(#[trigger] rest[j]));
                assert(cands[i + 1] == p);
                assert(forall|j: int| 0 <= j < i + 1 ==> !files.contains(#[trigger] cands[j]));
            },
            None => {
                assert(forall|i: int|
                    1 <= i < cands.len() ==> !files.contains(#[trigger] cands[i]));
            },
        }
    }
}

/// Joins a directory and a file name as [`join_path`] describes.
pub fn join_dir_name(dir: &str, name: &str) -> (r: String)
    ensures
        r@ == join_path(dir@, name@),
{
    proof {
        reveal_strlit("/");
        assert("/"@ =~= seq!['/']);
    }
    let dn = dir.unicode_len();
    if name.unicode_len() > 0 && name.get_char(0) == '/' {
        String::from_str(name)
    } else if dn == 0 {
        String::from_str(name)
    } else if dir.get_char(dn - 1) == '/' {
        String::from_str(dir).concat(name)
    } else {
        String::from_str(dir).concat("/").concat(name)
    }
}

/// The candidate paths for `name` along the directories of `path_env`.
pub fn path_candidates(path_env: &str, name: &str) -> (r: Vec<String>)
    ensures
        r.deep_view() == candidates(path_env@, name@),
{
    let dirs = split_char(path_env, ':');
    let n = dirs.len();
    let mut r: Vec<String> = Vec::new();
    let mut i: usize = 0;
    while i < n
        invariant
            i <= n,
            n == dirs@.len(),
            dirs.deep_view() == split_sep(path_env@, ':'),
            r@.len() == i,
            forall|j: int|
                0 <= j < i ==> r.deep_view()[j] == join_path(dirs.deep_view()[j], name@),
        decreases n - i,
    {
        let ghost before = r.deep_view();
        r.push(join_dir_name(dirs[i].as_str(), name));
        proof {
            assert(dirs.deep_view()[i as int] == dirs@[i as int]@);
            assert(r.deep_view() =~~= before.push(join_path(dirs.deep_view()[i as int], name@)));
        }
        i += 1;
    }
    proof {
        assert(r.deep_view() =~~= candidates(path_env@, name@));
    }
    r
}

/// The first candidate that is an existing file, where `files` lists the
/// candidate paths that exist.
pub fn first_existing(cands: &Vec<String>, files: &Vec<String>) -> (r: Option<String>)
    ensures
        r matches Some(p) ==> first_found(cands.deep_view(), files.deep_view()) == Some(p@),
        r is None ==> first_found(cands.deep_view(), files.deep_view()) is None,
{
    let n = cands.len();
    let mut i: usize = 0;
    proof {
        assert(cands.deep_view().skip(0) =~~= cands.deep_view());
    }
    while i < n
        invariant
            i <= n,
            n == cands@.len(),
            first_found(cands.deep_view().skip(i as int), files.deep_view()) == first_found(
                cands.deep_view(),
                files.deep_view(),
            ),
        decreases n - i,
    {
        if contains_str(files, cands[i].as_str()) {
            proof {
                assert(cands.deep_view().skip(i as int)[0] == cands.deep_view()[i as int]);
            }
            return Some(cands[i].clone());
        }
        proof {
            assert(cands.deep_view().skip(i as int).drop_first() =~~= cands.deep_view().skip(
                i + 1,
            ));
        }
        i += 1;
    }
    proof {
        assert(cands.deep_view().skip(n as int).len() == 0);
    }
    None
}

/// A well-formed component of a working directory: a proper name, not one
/// of the forms that normalization removes, with no separator inside.
pub open spec fn valid_comp(c: Seq<char>) -> bool {
    c.len() > 0 && c != "."@ && c != ".."@ && !c.contains('/')
}

pub open spec fn wf_comps(cs: Seq<Seq<char>>) -> bool {
    forall|i: int| 0 <= i < cs.len() ==> valid_comp(#[trigger] cs[i])
}

/// One step of normalization: empty and `.` components vanish, `..` leaves
/// the last component (at the root it is ignored), anything else is
/// entered.
pub open spec fn norm_step(stack: Seq<Seq<char>>, c: Seq<char>) -> Seq<Seq<char>> {
    if c.len() == 0 || c == "."@ {
        stack
    } else if c == ".."@ {
        if stack.len() == 0 {
            stack
        } else {
            stack.drop_last()
        }
    } else {
        stack.push(c)
    }
}

/// The components reached after walking `comps` from `stack`.
pub open spec fn norm_from(stack: Seq<Seq<char>>, comps: Seq<Seq<char>>) -> Seq<Seq<char>>
    decreases comps.len(),
{
    if comps.len() == 0 {
        stack
    } else {
        norm_from(norm_step(stack, comps[0]), comps.drop_first())
    }
}

/// Where `cd` goes: an absolute target is normalized on its own, a
/// relative one on top of the current components.
pub open spec fn resolve_comps(cwd: Seq<Seq<char>>, target: Seq<char>) -> Seq<Seq<char>> {
    if target.len() > 0 && target[0] == '/' {
        norm_from(Seq::empty(), split_sep(target, '/'))
    } else {
        norm_from(cwd, split_sep(target, '/'))
    }
}

/// The absolute name of the directory with these components: a leading
/// slash, then the components separated by slashes.
pub open spec fn render_abs(comps: Seq<Seq<char>>) -> Seq<char> {
    seq!['/'] + join_with(comps, '/')
}

proof fn lemma_norm_from_wf_aux(stack: Seq<Seq<char>>, comps: Seq<Seq<char>>)
    requires
        wf_comps(stack),
        forall|i: int| 0 <= i < comps.len() ==> !(#[trigger] comps[i]).contains('/'),
    ensures
        wf_comps(norm_from(stack, comps)),
    decreases comps.len(),
{
    if comps.len() > 0 {
        let next = norm_step(stack, comps[0]);
        assert(wf_comps(next)) by {
            if comps[0].len() != 0 && comps[0] != "."@ && comps[0] != ".."@ {
                assert(valid_comp(comps[0]));
                assert(forall|i: int| 0 <= i < stack.len() ==> valid_comp(#[trigger] stack[i]));
            }
        }
        assert(forall|i: int|
            0 <= i < comps.drop_first().len() ==> !(#[trigger] comps.drop_first()[i]).contains(
                '/',
            ));
        lemma_norm_from_wf_aux(next, comps.drop_first());
    }
}

/// Resolving any target against a well-formed directory leaves the
/// directory well formed: no component is empty, `.`, `..`, or holds a
/// slash.
pub proof fn lemma_resolve_wf(cwd: Seq<Seq<char>>, target: Seq<char>)
    requires
        wf_comps(cwd),
    ensures
        wf_comps(resolve_comps(cwd, target)),
{
    lemma_split_sep_free(target, '/');
    if target.len() > 0 && target[0] == '/' {
        assert(wf_comps(Seq::<Seq<char>>::empty()));
        lemma_norm_from_wf_aux(Seq::empty(), split_sep(target, '/'));
    } else {
        lemma_norm_from_wf_aux(cwd, split_sep(target, '/'));
    }
}

proof fn lemma_norm_append(stack: Seq<Seq<char>>, comps: Seq<Seq<char>>)
    requires
        forall|i: int| 0 <= i < comps.len() ==> valid_comp(#[trigger] comps[i]),
    ensures
        norm_from(stack, comps) == stack + comps,
    decreases comps.len(),
{
    if comps.len() == 0 {
        assert(stack + comps =~~= stack);
    } else {
        assert(valid_comp(comps[0]));
        assert(norm_step(stack, comps[0]) == stack.push(comps[0]));
        lemma_norm_append(stack.push(comps[0]), comps.drop_first());
        assert(stack.push(comps[0]) + comps.drop_first() =~~= stack + comps);
    }
}

/// Round trip: changing to the directory that the shell would print leads
/// back to exactly the same working directory, whatever directory the
/// change starts from.
pub proof fn lemma_render_resolve(cwd: Seq<Seq<char>>, base: Seq<Seq<char>>)
    requires
        wf_comps(cwd),
    ensures
        resolve_comps(base, render_abs(cwd)) == cwd,
{
    let s = render_abs(cwd);
    assert(s[0] == '/');
    assert(s.len() > 0);
    lemma_split_sep_word(s, '/', 0);
    assert(split_sep(s, '/') == seq![s.take(0)] + split_sep(s.skip(1), '/'));
    assert(s.take(0) =~= Seq::<char>::empty());
    assert(s.skip(1) =~= join_with(cwd, '/'));
    if cwd.len() == 0 {
        assert(join_with(cwd, '/') =~= Seq::<char>::empty());
        assert(split_sep(Seq::<char>::empty(), '/') == seq![Seq::<char>::empty()]);
        let pieces = split_sep(s, '/');
        assert(pieces =~~= seq![Seq::<char>::empty(), Seq::<char>::empty()]);
        let e = Seq::<Seq<char>>::empty();
        assert(norm_from(e, pieces) == norm_from(norm_step(e, pieces[0]), pieces.drop_first()));
        assert(norm_step(e, pieces[0]) =~~= e);
        let one = pieces.drop_first();
        assert(one =~~= seq![Seq::<char>::empty()]);
        assert(norm_from(e, one) == norm_from(norm_step(e, one[0]), one.drop_first()));
        assert(norm_step(e, one[0]) =~~= e);
        assert(one.drop_first() =~~= e);
        assert(norm_from(e, e) == e);
        assert(norm_from(Seq::empty(), pieces) =~~= cwd);
    } else {
        assert(forall|i: int| 0 <= i < cwd.len() ==> !(#[trigger] cwd[i]).contains('/'));
        lemma_split_join(cwd, '/');
        let pieces = split_sep(s, '/');
        assert(pieces =~~= seq![Seq::<char>::empty()] + cwd);
        assert(norm_from(Seq::empty(), pieces) == norm_from(
            norm_step(Seq::empty(), pieces[0]),
            pieces.drop_first(),
        ));
        assert(norm_step(Seq::<Seq<char>>::empty(), pieces[0]) =~~= Seq::<Seq<char>>::empty());
        assert(pieces.drop_first() =~~= cwd);
        lemma_norm_append(Seq::empty(), cwd);
        assert(Seq::<Seq<char>>::empty() + cwd =~~= cwd);
    }
}

/// The components of the directory that a `cd` target leads to from `cwd`.
pub fn resolve_target(cwd: &Vec<String>, target: &str) -> (r: Vec<String>)
    ensures
        r.deep_view() == resolve_comps(cwd.deep_view(), target@),
{
    let mut stack: Vec<String>;
    if target.unicode_len() > 0 && target.get_char(0) == '/' {
        stack = Vec::new();
        proof {
            assert(stack.deep_view() =~~= Seq::<Seq<char>>::empty());
        }
    } else {
        stack = cwd.clone();
        proof {
            assert(stack.deep_view() =~~= cwd.deep_view());
        }
    }
    let ghost start = stack.deep_view();
    let pieces = split_char(target, '/');
    let ghost all = pieces.deep_view();
    let n = pieces.len();
    let mut i: usize = 0;
    proof {
        assert(all.skip(0) =~~= all);
    }
    while i < n
        invariant
            i <= n,
            n == pieces@.len(),
            all == pieces.deep_view(),
            norm_from(stack.deep_view(), all.skip(i as int)) == norm_from(start, all),
        decreases n - i,
    {
        let ghost before = stack.deep_view();
        let p = &pieces[i];
        if p.as_str().unicode_len() == 0 {
            // an empty component: skipped
        } else if str_eq(p.as_str(), ".") {
            // the current directory: skipped
        } else if str_eq(p.as_str(), "..") {
            if stack.len() > 0 {
                stack.pop();
            }
        } else {
            stack.push(p.clone());
        }
        proof {
            assert(stack.deep_view() =~~= norm_step(before, all[i as int]));
            assert(all.skip(i as int).drop_first() =~~= all.skip(i + 1));
            assert(norm_from(before, all.skip(i as int)) == norm_from(
                norm_step(before, all[i as int]),
                all.skip(i + 1),
            ));
        }
        i += 1;
    }
    proof {
        assert(all.skip(n as int).len() == 0);
        assert(norm_from(stack.deep_view(), all.skip(n as int)) == stack.deep_view());
        assert(stack.deep_view() == resolve_comps(cwd.deep_view(), target@));
    }
    stack
}

/// The absolute name of the directory with these components.
pub fn render_path(comps: &Vec<String>) -> (r: String)
    ensures
        r@ == render_abs(comps.deep_view()),
{
    proof {
        reveal_strlit("/");
        assert("/"@ =~= seq!['/']);
    }
    let joined = join_strs(comps, "/");
    String::from_str("/").concat(joined.as_str())
}

} // verus!
