//! Normalizing Unix path strings.

use vstd::prelude::*;
use typed_path::{Utf8UnixComponent, Utf8UnixPathBuf};
use crate::text::copy_str;
use crate::vfs::path::{component_texts, is_named_part, slash_parts};

verus! {

/// The suffix for log files.
pub const LOG_SUFFIX: &'static str = "log";

/// The filename for the supervisor's log file.
pub const SUPERVISOR_LOG_FILENAME: &'static str = "supervisor.log";

/// An error of the path utilities.
#[derive(Debug)]
pub enum MonoutilsError {
    /// A path failed validation; the message says why.
    PathValidation(String),
}

/// The result of a path utility.
pub type MonoutilsResult<T> = Result<T, MonoutilsError>;

/// The type of a supported path.
#[derive(Debug, Clone, Copy, PartialEq, Eq, Structural)]
pub enum SupportedPathType {
    /// Any path type.
    Any,
    /// An absolute path.
    Absolute,
    /// A relative path.
    Relative,
}

/// A component of a Unix path.
#[derive(Debug)]
pub enum UnixComponent {
    /// The root `/`.
    RootDir,
    /// A leading `.`.
    CurDir,
    /// A `..`.
    ParentDir,
    /// A name.
    Normal(String),
}

/// The abstract content of a Unix path component.
pub enum UnixComp {
    /// The root `/`.
    RootDir,
    /// A leading `.`.
    CurDir,
    /// A `..`.
    ParentDir,
    /// A name.
    Normal(Seq<char>),
}

impl View for UnixComponent {
    type V = UnixComp;

    open spec fn view(&self) -> UnixComp {
        match self {
            UnixComponent::RootDir => UnixComp::RootDir,
            UnixComponent::CurDir => UnixComp::CurDir,
            UnixComponent::ParentDir => UnixComp::ParentDir,
            UnixComponent::Normal(s) => UnixComp::Normal(s@),
        }
    }
}

/// The component that a component's text stands for: `/` the root, `.` the current
/// directory, `..` the parent, and any other text a name.
pub open spec fn unix_comp_of(t: Seq<char>) -> UnixComp {
    if t == seq!['/'] {
        UnixComp::RootDir
    } else if t == seq!['.'] {
        UnixComp::CurDir
    } else if t == seq!['.', '.'] {
        UnixComp::ParentDir
    } else {
        UnixComp::Normal(t)
    }
}

/// The components that `typed_path` yields for a Unix path (`Utf8UnixPath::components`): its
/// parser ignores repeated and trailing separators and drops `.` parts except at the start of
/// a relative path, so they are the components of `component_texts`.
pub open spec fn typed_path_unix_components(path: Seq<char>) -> Seq<UnixComp> {
    component_texts(path).map_values(|t: Seq<char>| unix_comp_of(t))
}

/// Splits a Unix path into its components (`Utf8UnixPathBuf::components`), each converted to
/// a `UnixComponent`. The result is `typed_path_unix_components` of the path.
#[verifier::external_body]
fn unix_components(path: &str) -> (r: Vec<UnixComponent>)
    ensures
        r@.map_values(|c: UnixComponent| c@) == typed_path_unix_components(path@),
{
    Utf8UnixPathBuf::from(path).components().map(|c| match c {
        Utf8UnixComponent::RootDir => UnixComponent::RootDir,
        Utf8UnixComponent::CurDir => UnixComponent::CurDir,
        Utf8UnixComponent::ParentDir => UnixComponent::ParentDir,
        Utf8UnixComponent::Normal(s) => UnixComponent::Normal(s.to_string()),
    }).collect()
}

/// The state of normalizing: the components kept (the root first, as `/`, for an absolute
/// path), whether the path is absolute, and how many names can still be backed out of; or
/// the message of the error that stopped it.
pub enum Norm {
    /// Normalizing goes on.
    Going(Seq<Seq<char>>, bool, nat),
    /// Normalizing failed with this message.
    Failed(Seq<char>),
}

/// One step of normalizing: the root may only come first, `..` backs out of the last name
/// and may not go above the start, `.` and empty names are dropped, and names are kept.
pub open spec fn norm_step(st: Norm, c: UnixComp) -> Norm {
    match st {
        Norm::Failed(m) => Norm::Failed(m),
        Norm::Going(kept, abs, depth) => match c {
            UnixComp::RootDir => if kept.len() == 0 {
                Norm::Going(seq![seq!['/']], true, depth)
            } else {
                Norm::Failed("Invalid path: root component '/' found in middle of path"@)
            },
            UnixComp::ParentDir => if depth > 0 {
                Norm::Going(kept.drop_last(), abs, (depth - 1) as nat)
            } else {
                Norm::Failed("Invalid path: cannot traverse above root directory"@)
            },
            UnixComp::CurDir => Norm::Going(kept, abs, depth),
            UnixComp::Normal(n) => if n.len() > 0 {
                Norm::Going(kept.push(n), abs, depth + 1)
            } else {
                Norm::Going(kept, abs, depth)
            },
        },
    }
}

/// Normalizing the components in order, from nothing kept.
pub open spec fn norm_all(comps: Seq<UnixComp>) -> Norm
    decreases comps.len(),
{
    if comps.len() == 0 {
        Norm::Going(Seq::empty(), false, 0)
    } else {
        norm_step(norm_all(comps.drop_last()), comps.last())
    }
}

/// The names joined with `/`.
pub open spec fn join_names(names: Seq<Seq<char>>) -> Seq<char>
    decreases names.len(),
{
    if names.len() == 0 {
        Seq::empty()
    } else if names.len() == 1 {
        names[0]
    } else {
        join_names(names.drop_last()) + seq!['/'] + names.last()
    }
}

/// The outcome of normalizing a path, given its components: the empty path fails; the
/// components are normalized; the path type is checked; the kept names are joined with `/`,
/// after a `/` for an absolute path.
pub open spec fn normalized(path: Seq<char>, comps: Seq<UnixComp>, t: SupportedPathType) -> Result<Seq<char>, Seq<char>> {
    if path.len() == 0 {
        Err("Path cannot be empty"@)
    } else {
        match norm_all(comps) {
            Norm::Failed(m) => Err(m),
            Norm::Going(kept, abs, _) => if t == SupportedPathType::Absolute && !abs {
                Err("Path must be absolute (start with '/')"@)
            } else if t == SupportedPathType::Relative && abs {
                Err("Path must be relative (must not start with '/')"@)
            } else if abs {
                Ok(if kept.len() == 1 {
                    seq!['/']
                } else {
                    seq!['/'] + join_names(kept.skip(1))
                })
            } else {
                Ok(join_names(kept))
            },
        }
    }
}

/// Whether the result of normalizing is the abstract outcome `o`.
pub open spec fn norm_matches(r: MonoutilsResult<String>, o: Result<Seq<char>, Seq<char>>) -> bool {
    match o {
        Ok(s) => r matches Ok(x) && x@ == s,
        Err(m) => r matches Err(MonoutilsError::PathValidation(x)) && x@ == m,
    }
}

/// Once normalizing fails, it stays failed with the same message.
proof fn lemma_norm_failed_stays(cv: Seq<UnixComp>, k: int, j: int)
    requires
        0 <= k <= j <= cv.len(),
        norm_all(cv.take(k)) is Failed,
    ensures
        norm_all(cv.take(j)) == norm_all(cv.take(k)),
    decreases j - k,
{
    if j > k {
        lemma_norm_failed_stays(cv, k, j - 1);
        assert(cv.take(j).drop_last() =~= cv.take(j - 1));
    }
}

/// The components of a path in normal form: the root for an absolute path, then each kept
/// name.
pub open spec fn components_of_kept(kept: Seq<Seq<char>>, abs: bool) -> Seq<UnixComp> {
    if abs {
        seq![UnixComp::RootDir] + kept.skip(1).map_values(|n: Seq<char>| UnixComp::Normal(n))
    } else {
        kept.map_values(|n: Seq<char>| UnixComp::Normal(n))
    }
}

/// What normalizing keeps: the root first for an absolute path, then one non-empty name for
/// each level it can still back out of.
spec fn kept_wf(kept: Seq<Seq<char>>, abs: bool, depth: nat) -> bool {
    &&& kept.len() == depth + (if abs { 1int } else { 0int })
    &&& abs ==> kept[0] == seq!['/']
    &&& forall|i: int| (if abs { 1int } else { 0int }) <= i < kept.len() ==> (#[trigger] kept[i]).len() > 0
}

proof fn lemma_norm_all_wf(comps: Seq<UnixComp>)
    ensures
        norm_all(comps) matches Norm::Going(kept, abs, depth) ==> kept_wf(kept, abs, depth),
    decreases comps.len(),
{
    if comps.len() > 0 {
        lemma_norm_all_wf(comps.drop_last());
        if let Norm::Going(kept, abs, depth) = norm_all(comps.drop_last()) {
            match comps.last() {
                UnixComp::ParentDir => {
                    if depth > 0 {
                        let k2 = kept.drop_last();
                        assert forall|i: int| (if abs { 1int } else { 0int }) <= i < k2.len() implies (#[trigger] k2[i]).len() > 0 by {
                            assert(k2[i] == kept[i]);
                        }
                    }
                },
                UnixComp::Normal(n) => {
                    if n.len() > 0 {
                        let k2 = kept.push(n);
                        assert forall|i: int| (if abs { 1int } else { 0int }) <= i < k2.len() implies (#[trigger] k2[i]).len() > 0 by {
                            if i < kept.len() {
                                assert(k2[i] == kept[i]);
                            }
                        }
                    }
                },
                _ => {},
            }
        }
    }
}

/// Normalizing non-empty names after a state keeps each of them.
proof fn lemma_norm_names(pre: Seq<UnixComp>, names: Seq<Seq<char>>)
    requires
        norm_all(pre) is Going,
        forall|i: int| 0 <= i < names.len() ==> (#[trigger] names[i]).len() > 0,
    ensures
        norm_all(pre) matches Norm::Going(kept, abs, depth) ==> norm_all(
            pre + names.map_values(|n: Seq<char>| UnixComp::Normal(n)),
        ) == Norm::Going(kept + names, abs, depth + names.len()),
    decreases names.len(),
{
    let f = |n: Seq<char>| UnixComp::Normal(n);
    if names.len() == 0 {
        assert(pre + names.map_values(f) =~= pre);
        if let Norm::Going(kept, abs, depth) = norm_all(pre) {
            assert(kept + names =~= kept);
        }
    } else {
        let init = names.drop_last();
        lemma_norm_names(pre, init);
        let all = pre + names.map_values(f);
        assert(all.drop_last() =~= pre + init.map_values(f));
        assert(all.last() == UnixComp::Normal(names.last()));
        if let Norm::Going(kept, abs, depth) = norm_all(pre) {
            assert((kept + init).push(names.last()) =~= kept + names);
        }
    }
}

/// Normalizing the components of a normalized path (the root for an absolute one, then its
/// names) gives the same path again, unless the normalized path is empty (as it is for `a/..`).
pub proof fn law_normalizing_twice_changes_nothing(path: Seq<char>, comps: Seq<UnixComp>, t: SupportedPathType)
    requires
        normalized(path, comps, t) is Ok,
        normalized(path, comps, t)->Ok_0.len() > 0,
    ensures
        norm_all(comps) matches Norm::Going(kept, abs, _) ==> normalized(
            normalized(path, comps, t)->Ok_0,
            components_of_kept(kept, abs),
            t,
        ) == normalized(path, comps, t),
{
    lemma_norm_all_wf(comps);
    if let Norm::Going(kept, abs, depth) = norm_all(comps) {
        if abs {
            let pre = seq![UnixComp::RootDir];
            assert(pre.drop_last() =~= Seq::<UnixComp>::empty());
            assert(pre.last() == UnixComp::RootDir);
            assert(norm_all(Seq::<UnixComp>::empty()) == Norm::Going(Seq::<Seq<char>>::empty(), false, 0));
            assert(norm_all(pre) == Norm::Going(seq![seq!['/']], true, 0));
            let names = kept.skip(1);
            assert forall|i: int| 0 <= i < names.len() implies (#[trigger] names[i]).len() > 0 by {
                assert(names[i] == kept[i + 1]);
            }
            lemma_norm_names(pre, names);
            assert(seq![seq!['/']] + names =~= kept);
        } else {
            let pre = Seq::<UnixComp>::empty();
            assert forall|i: int| 0 <= i < kept.len() implies (#[trigger] kept[i]).len() > 0 by {}
            lemma_norm_names(pre, kept);
            assert(pre + kept.map_values(|n: Seq<char>| UnixComp::Normal(n)) =~= kept.map_values(|n: Seq<char>| UnixComp::Normal(n)));
            assert(Seq::<Seq<char>>::empty() + kept =~= kept);
        }
    }
}

/// Joins the names from position `start` on with `/`.
fn join_from(names: &Vec<String>, start: usize) -> (r: String)
    requires
        start <= names@.len(),
    ensures
        r@ == join_names(names@.map_values(|s: String| s@).skip(start as int)),
{
    let ghost nv = names@.map_values(|s: String| s@);
    let mut r = String::new();
    let mut j = start;
    proof {
        reveal_strlit("/");
        assert(nv.subrange(start as int, start as int) =~= Seq::<Seq<char>>::empty());
    }
    while j < names.len()
        invariant
            start <= j <= names@.len(),
            nv == names@.map_values(|s: String| s@),
            r@ == join_names(nv.subrange(start as int, j as int)),
        decreases names.len() - j,
    {
        proof {
            reveal_strlit("/");
            assert(nv.subrange(start as int, j + 1).drop_last() =~= nv.subrange(start as int, j as int));
            assert(nv.subrange(start as int, j + 1).last() == names@[j as int]@);
        }
        if j > start {
            r.append("/");
        }
        r.append(names[j].as_str());
        j = j + 1;
        proof {
            if j - 1 == start {
                assert(nv.subrange(start as int, j as int) =~= seq![names@[start as int]@]);
            }
        }
    }
    assert(nv.subrange(start as int, j as int) =~= nv.skip(start as int));
    r
}

/// Normalizes a path given its components, as `normalize_path` does after splitting it.
pub fn normalize_components(path: &str, comps: &Vec<UnixComponent>, path_type: SupportedPathType) -> (r: MonoutilsResult<String>)
    ensures
        norm_matches(r, normalized(path@, comps@.map_values(|c: UnixComponent| c@), path_type)),
{
    proof {
        reveal_strlit("Path cannot be empty");
        reveal_strlit("Invalid path: root component '/' found in middle of path");
        reveal_strlit("Invalid path: cannot traverse above root directory");
        reveal_strlit("Path must be absolute (start with '/')");
        reveal_strlit("Path must be relative (must not start with '/')");
        reveal_strlit("/");
    }
    if path.is_empty() {
        return Err(MonoutilsError::PathValidation(String::from_str("Path cannot be empty")));
    }
    let ghost cv = comps@.map_values(|c: UnixComponent| c@);
    let mut kept: Vec<String> = Vec::new();
    let mut abs = false;
    let mut depth: usize = 0;
    let mut i: usize = 0;
    assert(cv.take(0) =~= Seq::<UnixComp>::empty());
    assert(kept@.map_values(|s: String| s@) =~= Seq::<Seq<char>>::empty());
    while i < comps.len()
        invariant
            i <= comps@.len(),
            cv == comps@.map_values(|c: UnixComponent| c@),
            depth <= i,
            kept@.len() == depth + (if abs { 1int } else { 0int }),
            path@.len() > 0,
            norm_all(cv.take(i as int)) == Norm::Going(kept@.map_values(|s: String| s@), abs, depth as nat),
        decreases comps.len() - i,
    {
        let ghost kv = kept@.map_values(|s: String| s@);
        proof {
            reveal_strlit("Invalid path: root component '/' found in middle of path");
            reveal_strlit("Invalid path: cannot traverse above root directory");
            reveal_strlit("/");
            assert("/"@ =~= seq!['/']);
        }
        assert(cv.take(i + 1).drop_last() =~= cv.take(i as int));
        assert(cv.take(i + 1).last() == comps@[i as int]@);
        match &comps[i] {
            UnixComponent::RootDir => {
                if kept.len() == 0 {
                    abs = true;
                    kept.push(String::from_str("/"));
                    assert(kept@.map_values(|s: String| s@) =~= seq![seq!['/']]);
                } else {
                    proof {
                        lemma_norm_failed_stays(cv, i + 1, cv.len() as int);
                        assert(cv.take(cv.len() as int) =~= cv);
                    }
                    return Err(MonoutilsError::PathValidation(
                        String::from_str("Invalid path: root component '/' found in middle of path"),
                    ));
                }
            },
            UnixComponent::ParentDir => {
                if depth > 0 {
                    kept.pop();
                    depth = depth - 1;
                    assert(kept@.map_values(|s: String| s@) =~= kv.drop_last());
                } else {
                    proof {
                        lemma_norm_failed_stays(cv, i + 1, cv.len() as int);
                        assert(cv.take(cv.len() as int) =~= cv);
                    }
                    return Err(MonoutilsError::PathValidation(
                        String::from_str("Invalid path: cannot traverse above root directory"),
                    ));
                }
            },
            UnixComponent::CurDir => {},
            UnixComponent::Normal(c) => {
                if !c.as_str().is_empty() {
                    kept.push(copy_str(c.as_str()));
                    depth = depth + 1;
                    assert(kept@.map_values(|s: String| s@) =~= kv.push(c@));
                }
            },
        }
        i = i + 1;
    }
    assert(cv.take(i as int) =~= cv);
    assert("/"@ =~= seq!['/']);
    if path_type == SupportedPathType::Absolute && !abs {
        return Err(MonoutilsError::PathValidation(String::from_str("Path must be absolute (start with '/')")));
    }
    if path_type == SupportedPathType::Relative && abs {
        return Err(MonoutilsError::PathValidation(String::from_str("Path must be relative (must not start with '/')")));
    }
    if abs {
        if kept.len() == 1 {
            Ok(String::from_str("/"))
        } else {
            let mut out = String::from_str("/");
            let rest = join_from(&kept, 1);
            out.append(rest.as_str());
            Ok(out)
        }
    } else {
        let out = join_from(&kept, 0);
        assert(kept@.map_values(|s: String| s@).skip(0) =~= kept@.map_values(|s: String| s@));
        Ok(out)
    }
}

/// Normalizes a path string: resolves `.` and `..` where possible, refuses to go above the
/// start, drops redundant and trailing separators, and checks that the path is absolute or
/// relative as required.
pub fn normalize_path(path: &str, path_type: SupportedPathType) -> (r: MonoutilsResult<String>)
    ensures
        norm_matches(r, normalized(path@, typed_path_unix_components(path@), path_type)),
{
    if path.is_empty() {
        proof {
            reveal_strlit("Path cannot be empty");
        }
        return Err(MonoutilsError::PathValidation(String::from_str("Path cannot be empty")));
    }
    let comps = unix_components(path);
    normalize_components(path, &comps, path_type)
}

/// A name as a normalized path keeps it: not empty, with no `/`, and neither `.` nor `..`.
pub open spec fn plain_name(n: Seq<char>) -> bool {
    n.len() > 0 && !n.contains('/') && n != seq!['.'] && n != seq!['.', '.']
}

/// A path has at least one part.
proof fn lemma_slash_parts_len(s: Seq<char>)
    ensures
        slash_parts(s).len() >= 1,
    decreases s.len(),
{
    if s.len() > 0 {
        lemma_slash_parts_len(s.drop_last());
    }
}

/// No part holds a `/`.
proof fn lemma_slash_parts_no_slash(s: Seq<char>)
    ensures
        forall|i: int| 0 <= i < slash_parts(s).len() ==> !(#[trigger] slash_parts(s)[i]).contains('/'),
    decreases s.len(),
{
    if s.len() > 0 {
        let p = slash_parts(s.drop_last());
        lemma_slash_parts_no_slash(s.drop_last());
        lemma_slash_parts_len(s.drop_last());
        if s.last() != '/' {
            let q = p.update(p.len() - 1, p.last().push(s.last()));
            assert forall|i: int| 0 <= i < q.len() implies !(#[trigger] q[i]).contains('/') by {
                if i == p.len() - 1 {
                    assert forall|k: int| 0 <= k < q[i].len() implies q[i][k] != '/' by {
                        if k < p.last().len() {
                            assert(q[i][k] == p.last()[k]);
                            assert(!p[p.len() - 1].contains('/'));
                        }
                    }
                } else {
                    assert(q[i] == p[i]);
                }
            }
        } else {
            let q = p.push(Seq::<char>::empty());
            assert forall|i: int| 0 <= i < q.len() implies !(#[trigger] q[i]).contains('/') by {
                if i < p.len() {
                    assert(q[i] == p[i]);
                }
            }
        }
    }
}

/// A name with no `/` is a single part.
proof fn lemma_slash_parts_of_name(n: Seq<char>)
    requires
        !n.contains('/'),
    ensures
        slash_parts(n) == seq![n],
    decreases n.len(),
{
    if n.len() == 0 {
        assert(n =~= Seq::<char>::empty());
    } else {
        let m = n.drop_last();
        assert(!m.contains('/')) by {
            if m.contains('/') {
                let k = choose|k: int| 0 <= k < m.len() && m[k] == '/';
                assert(n[k] == '/');
            }
        }
        lemma_slash_parts_of_name(m);
        assert(n.last() != '/') by {
            assert(n[n.len() - 1] == n.last());
        }
        assert(m.push(n.last()) =~= n);
        let p = slash_parts(m);
        assert(p == seq![m]);
        assert(slash_parts(n) == p.update(p.len() - 1, p.last().push(n.last())));
        assert(p.update(p.len() - 1, p.last().push(n.last())) =~= seq![n]);
    }
}

/// The parts of two paths joined with a `/` are those of the first, then those of the second.
proof fn lemma_slash_parts_concat(x: Seq<char>, y: Seq<char>)
    ensures
        slash_parts(x + seq!['/'] + y) == slash_parts(x) + slash_parts(y),
    decreases y.len(),
{
    let xs = x + seq!['/'];
    if y.len() == 0 {
        assert(xs + y =~= xs);
        assert(xs.drop_last() =~= x);
    } else {
        lemma_slash_parts_concat(x, y.drop_last());
        assert((xs + y).drop_last() =~= xs + y.drop_last());
        assert((xs + y).last() == y.last());
        lemma_slash_parts_len(y.drop_last());
        let p = slash_parts(y.drop_last());
        let a = slash_parts(x);
        if y.last() == '/' {
            assert((a + p).push(Seq::<char>::empty()) =~= a + p.push(Seq::<char>::empty()));
        } else {
            assert((a + p).update((a + p).len() - 1, (a + p).last().push(y.last())) =~= a + p.update(
                p.len() - 1,
                p.last().push(y.last()),
            ));
        }
    }
}

/// The parts of names joined with `/` are the names, when no name holds a `/`.
proof fn lemma_slash_parts_join(names: Seq<Seq<char>>)
    requires
        names.len() >= 1,
        forall|i: int| 0 <= i < names.len() ==> !(#[trigger] names[i]).contains('/'),
    ensures
        slash_parts(join_names(names)) == names,
    decreases names.len(),
{
    if names.len() == 1 {
        lemma_slash_parts_of_name(names[0]);
        assert(seq![names[0]] =~= names);
    } else {
        let init = names.drop_last();
        lemma_slash_parts_join(init);
        lemma_slash_parts_of_name(names.last());
        lemma_slash_parts_concat(join_names(init), names.last());
        assert(init + seq![names.last()] =~= names);
    }
}

/// Keeping the elements that all pass keeps them all.
proof fn lemma_filter_keeps_all(v: Seq<Seq<char>>)
    requires
        forall|i: int| 0 <= i < v.len() ==> is_named_part(#[trigger] v[i]),
    ensures
        v.filter(|p: Seq<char>| is_named_part(p)) == v,
    decreases v.len(),
{
    let f = |p: Seq<char>| is_named_part(p);
    if v.len() > 0 {
        lemma_filter_keeps_all(v.drop_last());
        v.drop_last().lemma_filter_push(v.last(), f);
        assert(v.drop_last().push(v.last()) =~= v);
    } else {
        reveal(Seq::filter);
    }
}

/// A path that starts with `/` has an empty first part and at least two parts.
proof fn lemma_slash_parts_rooted(s: Seq<char>)
    requires
        s.len() > 0,
        s[0] == '/',
    ensures
        slash_parts(s).len() >= 2,
        slash_parts(s)[0] == Seq::<char>::empty(),
    decreases s.len(),
{
    if s.len() == 1 {
        assert(s.drop_last() =~= Seq::<char>::empty());
        assert(s.last() == '/');
    } else {
        lemma_slash_parts_rooted(s.drop_last());
    }
}

/// The path text of a normalized path: `/` and the names for an absolute one, the names
/// joined with `/` for a relative one.
pub open spec fn normal_text(kept: Seq<Seq<char>>, abs: bool) -> Seq<char> {
    if abs {
        if kept.len() == 1 {
            seq!['/']
        } else {
            seq!['/'] + join_names(kept.skip(1))
        }
    } else {
        join_names(kept)
    }
}

/// Splitting the text of a normalized path gives back its components: the root for an
/// absolute path, then its names.
proof fn lemma_components_of_normal_text(kept: Seq<Seq<char>>, abs: bool)
    requires
        abs ==> kept.len() >= 1 && kept[0] == seq!['/'],
        !abs ==> kept.len() >= 1,
        forall|i: int| (if abs { 1int } else { 0int }) <= i < kept.len() ==> plain_name(#[trigger] kept[i]),
    ensures
        typed_path_unix_components(normal_text(kept, abs)) == components_of_kept(kept, abs),
{
    reveal(component_texts);
    let f = |p: Seq<char>| is_named_part(p);
    let g = |t: Seq<char>| unix_comp_of(t);
    let h = |n: Seq<char>| UnixComp::Normal(n);
    let text = normal_text(kept, abs);
    let names = if abs { kept.skip(1) } else { kept };
    assert forall|i: int| 0 <= i < names.len() implies plain_name(#[trigger] names[i]) by {
        if abs {
            assert(names[i] == kept[i + 1]);
        }
    }
    assert forall|i: int| 0 <= i < names.len() implies is_named_part(#[trigger] names[i]) by {
        assert(plain_name(names[i]));
    }
    assert forall|i: int| 0 <= i < names.len() implies !(#[trigger] names[i]).contains('/') by {
        assert(plain_name(names[i]));
    }
    let e = Seq::<char>::empty();
    if abs {
        if kept.len() == 1 {
            assert(text == seq!['/']);
            assert(text.drop_last() =~= e);
            assert(text.last() == '/');
            assert(slash_parts(text.drop_last()) == seq![e]);
            assert(slash_parts(text) == seq![e].push(e));
            assert(seq![e].push(e) =~= seq![e, e]);
            seq![e].lemma_filter_push(e, f);
            Seq::<Seq<char>>::empty().lemma_filter_push(e, f);
            reveal(Seq::filter);
            assert(seq![e] =~= Seq::<Seq<char>>::empty().push(e));
            assert(seq![e, e] =~= seq![e].push(e));
            assert(seq![e, e].filter(f) =~= Seq::<Seq<char>>::empty());
            assert(component_texts(text) =~= seq![seq!['/']]);
            assert(names =~= Seq::<Seq<char>>::empty());
            assert(typed_path_unix_components(text) =~= components_of_kept(kept, abs));
        } else {
            lemma_slash_parts_join(names);
            lemma_slash_parts_concat(e, join_names(names));
            assert(e + seq!['/'] + join_names(names) =~= text);
            lemma_filter_keeps_all(names);
            Seq::<Seq<char>>::filter_distributes_over_add(seq![e], names, f);
            Seq::<Seq<char>>::empty().lemma_filter_push(e, f);
            reveal(Seq::filter);
            assert(seq![e] =~= Seq::<Seq<char>>::empty().push(e));
            assert(seq![e].filter(f) =~= Seq::<Seq<char>>::empty());
            assert(component_texts(text) =~= seq![seq!['/']] + names);
            assert forall|i: int| 0 <= i < names.len() implies unix_comp_of(#[trigger] names[i]) == UnixComp::Normal(names[i]) by {
                assert(plain_name(names[i]));
                assert(names[i] != seq!['/']) by {
                    assert(seq!['/'].contains('/')) by {
                        assert(seq!['/'][0] == '/');
                    }
                }
            }
            assert(typed_path_unix_components(text) =~= components_of_kept(kept, abs));
        }
    } else {
        lemma_slash_parts_join(names);
        lemma_filter_keeps_all(names);
        assert(!(text.len() > 0 && text[0] == '/')) by {
            if text.len() > 0 && text[0] == '/' {
                lemma_slash_parts_rooted(text);
                assert(names[0].len() > 0);
            }
        }
        assert(slash_parts(text)[0] != seq!['.']) by {
            assert(plain_name(names[0]));
        }
        assert(component_texts(text) == names);
        assert forall|i: int| 0 <= i < names.len() implies unix_comp_of(#[trigger] names[i]) == UnixComp::Normal(names[i]) by {
            assert(plain_name(names[i]));
            assert(names[i] != seq!['/']) by {
                assert(seq!['/'].contains('/')) by {
                    assert(seq!['/'][0] == '/');
                }
            }
        }
        assert(typed_path_unix_components(text) =~= components_of_kept(kept, abs));
    }
}

/// Every name among the components of a path is a plain name.
proof fn lemma_component_names_plain(path: Seq<char>)
    ensures
        forall|i: int| 0 <= i < typed_path_unix_components(path).len() ==> (#[trigger] typed_path_unix_components(path)[i] matches UnixComp::Normal(n) ==> plain_name(n)),
{
    reveal(component_texts);
    let f = |p: Seq<char>| is_named_part(p);
    let parts = slash_parts(path);
    let named = parts.filter(f);
    let ct = component_texts(path);
    lemma_slash_parts_no_slash(path);
    assert forall|i: int| 0 <= i < typed_path_unix_components(path).len() implies (#[trigger] typed_path_unix_components(path)[i] matches UnixComp::Normal(n) ==> plain_name(n)) by {
        let t = ct[i];
        assert(typed_path_unix_components(path)[i] == unix_comp_of(t));
        if unix_comp_of(t) is Normal {
            let j = if path.len() > 0 && path[0] == '/' { i - 1 } else if parts[0] == seq!['.'] { i - 1 } else { i };
            if j < 0 {
                assert(t == seq!['/'] || t == seq!['.']);
            } else {
                assert(t == named[j]);
                parts.lemma_filter_pred(f, j);
                assert(named.contains(named[j]));
                parts.lemma_filter_contains_rev(f, named[j]);
                let k = choose|k: int| 0 <= k < parts.len() && parts[k] == t;
                assert(!parts[k].contains('/'));
            }
        }
    }
}

/// Normalizing components whose names are plain keeps only plain names.
proof fn lemma_norm_all_plain(comps: Seq<UnixComp>)
    requires
        forall|i: int| 0 <= i < comps.len() ==> (#[trigger] comps[i] matches UnixComp::Normal(n) ==> n.len() == 0 || plain_name(n)),
    ensures
        norm_all(comps) matches Norm::Going(kept, abs, _) ==> forall|i: int|
            (if abs { 1int } else { 0int }) <= i < kept.len() ==> plain_name(#[trigger] kept[i]),
    decreases comps.len(),
{
    if comps.len() > 0 {
        let init = comps.drop_last();
        assert forall|i: int| 0 <= i < init.len() implies (#[trigger] init[i] matches UnixComp::Normal(n) ==> n.len() == 0 || plain_name(n)) by {
            assert(init[i] == comps[i]);
        }
        lemma_norm_all_plain(init);
        lemma_norm_all_wf(init);
        assert(comps.last() == comps[comps.len() - 1]);
        if let Norm::Going(kept, abs, depth) = norm_all(init) {
            match comps.last() {
                UnixComp::ParentDir => {
                    if depth > 0 {
                        let k2 = kept.drop_last();
                        assert forall|i: int| (if abs { 1int } else { 0int }) <= i < k2.len() implies plain_name(#[trigger] k2[i]) by {
                            assert(k2[i] == kept[i]);
                        }
                    }
                },
                UnixComp::Normal(n) => {
                    if n.len() > 0 {
                        let k2 = kept.push(n);
                        assert forall|i: int| (if abs { 1int } else { 0int }) <= i < k2.len() implies plain_name(#[trigger] k2[i]) by {
                            if i < kept.len() {
                                assert(k2[i] == kept[i]);
                            }
                        }
                    }
                },
                _ => {},
            }
        }
    }
}

/// Normalizing the text that normalizing a path gave gives that text again, unless the text
/// is empty (as it is for `a/..`): `normalize_path` changes nothing of a normalized path.
pub proof fn law_normalize_path_twice(path: Seq<char>, t: SupportedPathType)
    requires
        normalized(path, typed_path_unix_components(path), t) matches Ok(s) && s.len() > 0,
    ensures
        ({
            let s = normalized(path, typed_path_unix_components(path), t)->Ok_0;
            normalized(s, typed_path_unix_components(s), t) == Result::<Seq<char>, Seq<char>>::Ok(s)
        }),
{
    let comps = typed_path_unix_components(path);
    lemma_component_names_plain(path);
    assert forall|i: int| 0 <= i < comps.len() implies (#[trigger] comps[i] matches UnixComp::Normal(n) ==> n.len() == 0 || plain_name(n)) by {}
    lemma_norm_all_plain(comps);
    lemma_norm_all_wf(comps);
    if let Norm::Going(kept, abs, depth) = norm_all(comps) {
        let s = normalized(path, comps, t)->Ok_0;
        assert(s == normal_text(kept, abs));
        if !abs && kept.len() == 0 {
            assert(join_names(kept) == Seq::<char>::empty());
        }
        lemma_components_of_normal_text(kept, abs);
        law_normalizing_twice_changes_nothing(path, comps, t);
    }
}

/// Normalizing components that begin with `..`, after the root or a `.` if any, fails: there
/// is no name to back out of, for a relative path as for an absolute one.
pub proof fn law_parent_first_fails(rest: Seq<UnixComp>, lead: Seq<UnixComp>)
    requires
        lead == Seq::<UnixComp>::empty() || lead == seq![UnixComp::RootDir] || lead == seq![UnixComp::CurDir],
    ensures
        norm_all(lead + seq![UnixComp::ParentDir] + rest) == Norm::Failed(
            "Invalid path: cannot traverse above root directory"@,
        ),
{
    let comps = lead + seq![UnixComp::ParentDir] + rest;
    let k = lead.len() + 1int;
    assert(comps.take(k).drop_last() =~= lead);
    assert(comps.take(k).last() == UnixComp::ParentDir);
    assert(norm_all(Seq::<UnixComp>::empty()) == Norm::Going(Seq::<Seq<char>>::empty(), false, 0));
    if lead.len() == 1 {
        assert(lead.drop_last() =~= Seq::<UnixComp>::empty());
        assert(lead.last() == lead[0]);
    }
    assert(norm_all(lead) matches Norm::Going(_, _, depth) && depth == 0);
    assert(norm_all(comps.take(k)) == norm_step(norm_all(lead), UnixComp::ParentDir));
    assert(norm_all(comps.take(k)) is Failed);
    lemma_norm_failed_stays(comps, k, comps.len() as int);
    assert(comps.take(comps.len() as int) =~= comps);
}

/// A path whose first part is `..` leads above where it starts, and normalizing it fails
/// with "cannot traverse above root directory", whatever follows and whatever type of path
/// is asked for.
pub proof fn law_leading_parent_fails(path: Seq<char>, t: SupportedPathType)
    requires
        slash_parts(path)[0] == seq!['.', '.'],
    ensures
        normalized(path, typed_path_unix_components(path), t) == Result::<Seq<char>, Seq<char>>::Err(
            "Invalid path: cannot traverse above root directory"@,
        ),
{
    reveal(component_texts);
    let f = |p: Seq<char>| is_named_part(p);
    let parts = slash_parts(path);
    lemma_slash_parts_len(path);
    if path.len() == 0 {
        assert(parts == seq![Seq::<char>::empty()]);
        assert(false);
    }
    if path[0] == '/' {
        lemma_slash_parts_rooted(path);
    }
    let dd = seq!['.', '.'];
    assert(dd != seq!['.']) by {
        assert(dd.len() != seq!['.'].len());
    }
    assert(is_named_part(dd));
    assert(parts =~= seq![parts[0]] + parts.drop_first());
    parts.drop_first().lemma_filter_prepend(dd, f);
    let named = parts.filter(f);
    assert(named == seq![dd] + parts.drop_first().filter(f));
    let ct = component_texts(path);
    assert(ct == named);
    let comps = typed_path_unix_components(path);
    assert(comps =~= seq![UnixComp::ParentDir] + comps.drop_first()) by {
        assert(comps[0] == unix_comp_of(dd));
    }
    law_parent_first_fails(comps.drop_first(), Seq::empty());
    assert(Seq::<UnixComp>::empty() + seq![UnixComp::ParentDir] + comps.drop_first() =~= comps);
}

/// A name followed by `..` changes nothing: normalizing `comps`, then a non-empty name, then
/// `..` gives what normalizing `comps` gave; a `.` changes nothing either; and a root that
/// comes after anything was kept fails.
pub proof fn law_name_then_parent_cancel(comps: Seq<UnixComp>, n: Seq<char>)
    requires
        n.len() > 0,
    ensures
        norm_all(comps) is Going ==> norm_all(comps + seq![UnixComp::Normal(n), UnixComp::ParentDir]) == norm_all(comps),
        norm_all(comps + seq![UnixComp::CurDir]) == norm_all(comps),
        norm_all(comps) matches Norm::Going(kept, _, _) && kept.len() > 0 ==> norm_all(comps + seq![UnixComp::RootDir])
            == Norm::Failed("Invalid path: root component '/' found in middle of path"@),
{
    let a = comps + seq![UnixComp::Normal(n), UnixComp::ParentDir];
    let b = comps + seq![UnixComp::Normal(n)];
    assert(a.drop_last() =~= b);
    assert(a.last() == UnixComp::ParentDir);
    assert(b.drop_last() =~= comps);
    assert(b.last() == UnixComp::Normal(n));
    assert(norm_all(b) == norm_step(norm_all(comps), UnixComp::Normal(n)));
    assert(norm_all(a) == norm_step(norm_all(b), UnixComp::ParentDir));
    if let Norm::Going(kept, abs, depth) = norm_all(comps) {
        assert(norm_all(b) == Norm::Going(kept.push(n), abs, depth + 1));
        assert(kept.push(n).drop_last() =~= kept);
    }
    let c = comps + seq![UnixComp::CurDir];
    assert(c.drop_last() =~= comps);
    assert(c.last() == UnixComp::CurDir);
    let r = comps + seq![UnixComp::RootDir];
    assert(r.drop_last() =~= comps);
    assert(r.last() == UnixComp::RootDir);
}

} // verus!
