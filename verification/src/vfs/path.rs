use vstd::prelude::*;

verus! {

/// The `/`-separated parts of a path, empty ones included: one part for a path with no `/`,
/// and one more for each `/`.
pub open spec fn slash_parts(s: Seq<char>) -> Seq<Seq<char>>
    decreases s.len(),
{
    if s.len() == 0 {
        seq![Seq::<char>::empty()]
    } else {
        let p = slash_parts(s.drop_last());
        if s.last() == '/' {
            p.push(Seq::empty())
        } else {
            p.update(p.len() - 1, p.last().push(s.last()))
        }
    }
}

/// Whether a part of a path names something: it is neither empty nor `.`.
pub open spec fn is_named_part(p: Seq<char>) -> bool {
    p.len() > 0 && p != seq!['.']
}

/// The components of a Unix path, each written as its text, as the documentation of
/// `std::path::Path::components` and of typed-path's Unix parser describe them: repeated
/// separators and a trailing one are ignored, and `.` parts are dropped except at the start
/// of a relative path. So the root `/` comes first for a path that starts with `/`, `.` first
/// for a relative path whose first part is `.`, and then every part that is neither empty nor
/// `.` (a `..` part is the parent component).
#[verifier::opaque]
pub open spec fn component_texts(path: Seq<char>) -> Seq<Seq<char>> {
    let named = slash_parts(path).filter(|p: Seq<char>| is_named_part(p));
    if path.len() > 0 && path[0] == '/' {
        seq![seq!['/']] + named
    } else if slash_parts(path)[0] == seq!['.'] {
        seq![seq!['.']] + named
    } else {
        named
    }
}

/// The components that `std::path::Path::components` yields for a path, each written as its
/// text: `/` for the root, `.` for a leading current-directory component, `..` for a parent
/// component, and the name itself for a normal component.
pub open spec fn std_path_components(path: Seq<char>) -> Seq<Seq<char>> {
    component_texts(path)
}

/// Splits a path into its components (`std::path::Path::components`), each returned as the
/// text of the component: the result is `std_path_components` of the path, as the
/// documentation of `Path::components` describes the components.
#[verifier::external_body]
pub(crate) fn path_components(path: &str) -> (r: Vec<String>)
    ensures
        r.deep_view() == std_path_components(path@),
{
    std::path::Path::new(path)
        .components()
        .map(|c| c.as_os_str().to_string_lossy().into_owned())
        .collect()
}

/// The text of `comps` joined by `/`.
pub open spec fn join_components(comps: Seq<Seq<char>>) -> Seq<char>
    decreases comps.len(),
{
    if comps.len() == 0 {
        Seq::empty()
    } else if comps.len() == 1 {
        comps[0]
    } else {
        join_components(comps.drop_last()) + seq!['/'] + comps.last()
    }
}

/// Joins the first `n` components with `/`.
pub fn join_prefix(comps: &Vec<String>, n: usize) -> (r: String)
    requires
        n <= comps.len(),
    ensures
        r@ == join_components(comps.deep_view().take(n as int)),
{
    let mut r = String::new();
    let mut i: usize = 0;
    while i < n
        invariant
            i <= n,
            n <= comps.len(),
            r@ == join_components(comps.deep_view().take(i as int)),
        decreases n - i,
    {
        proof {
            reveal_strlit("/");
            assert(comps.deep_view().take(i + 1).drop_last() =~= comps.deep_view().take(i as int));
        }
        if i > 0 {
            r.append("/");
        }
        r.append(comps[i].as_str());
        i = i + 1;
    }
    r
}

} // verus!
