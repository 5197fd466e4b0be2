//! An overlay file system: a writable top layer over read-only lower layers, with OCI
//! whiteouts (`.wh.` names) hiding lower entries and opaque markers (`.wh..wh..opq`) hiding
//! whole lower directories.

use vstd::prelude::*;
use crate::text::{chars_of, copy_str, string_of};
use crate::vfs::error::{invalid_input_error, VfsError, VfsResult};
use crate::vfs::memoryfs::{
    create_rel, fault_matches, law_created_entry_is_found, split_components, law_read_after_write, law_stored_entry_is_found, write_content, written_file, fresh_dir, fresh_file, fresh_link, is_special_component, lookup, names_of, node_metadata,
    prefix_copy, read_range, remove_rel, rename_matches, set_meta_rel, write_rel, FindFault, Lookup, MemoryFileSystem, Node,
};
use crate::vfs::path::{join_components, path_components, std_path_components};
use crate::vfs::metadata::{type_of, Metadata, ModeType};
use crate::vfs::segment::PathSegment;

verus! {

/// The prefix of whiteout names.
pub const WHITEOUT_PREFIX: &'static str = ".wh.";

/// The name of the opaque marker.
pub const OPAQUE_MARKER: &'static str = ".wh..wh..opq";

/// The whiteout prefix as characters.
pub open spec fn wh_prefix() -> Seq<char> {
    seq!['.', 'w', 'h', '.']
}

/// The opaque marker as characters.
pub open spec fn opaque_name() -> Seq<char> {
    wh_prefix() + wh_prefix() + seq!['.', 'o', 'p', 'q']
}

/// Whether `s` starts with `p`.
pub open spec fn starts_with(s: Seq<char>, p: Seq<char>) -> bool {
    s.len() >= p.len() && s.subrange(0, p.len() as int) == p
}

/// Whether the path has a parent (`Path::parent` is `Some`): every path but the empty path
/// and the root.
pub open spec fn has_parent(comps: Seq<Seq<char>>) -> bool {
    !(comps.len() == 0 || (comps.len() == 1 && comps[0] == seq!['/']))
}

/// The last name of the path (`Path::file_name`), if it ends in a name.
pub open spec fn file_name_of(comps: Seq<Seq<char>>) -> Option<Seq<char>> {
    if comps.len() == 0 || is_special_component(comps.last()) {
        None
    } else {
        Some(comps.last())
    }
}

/// Whether the path names a whiteout: its last name starts with `.wh.`.
pub open spec fn is_whiteout_path(comps: Seq<Seq<char>>) -> bool {
    file_name_of(comps) matches Some(n) && starts_with(n, wh_prefix())
}

/// The components of the whiteout for a path: `.wh.` and its last name, in its parent; for
/// the empty path and the root, the single name `.wh.`. A path with a parent but no last name
/// has none.
pub open spec fn whiteout_of(comps: Seq<Seq<char>>) -> Option<Seq<Seq<char>>> {
    if !has_parent(comps) {
        Some(seq![wh_prefix()])
    } else {
        match file_name_of(comps) {
            Some(n) => Some(comps.drop_last().push(wh_prefix() + n)),
            None => None,
        }
    }
}

/// The components of the opaque marker in the path's parent.
pub open spec fn opaque_of(comps: Seq<Seq<char>>) -> Seq<Seq<char>> {
    comps.drop_last().push(opaque_name())
}

/// What asking a layer whether it holds a path gives.
pub open spec fn probe(m: Map<Seq<char>, Node>, comps: Seq<Seq<char>>) -> Result<bool, FindFault> {
    match lookup(m, comps) {
        Lookup::Found(_) => Ok(true),
        Lookup::Absent => Ok(false),
        Lookup::Fails(f) => Err(f),
    }
}

/// The highest of the first `k` lower layers that holds the path, asking from the highest
/// down; a failing question stops the search.
pub open spec fn lower_probe(lowers: Seq<Map<Seq<char>, Node>>, comps: Seq<Seq<char>>, k: nat) -> Result<Option<int>, FindFault>
    decreases k,
{
    if k == 0 {
        Ok(None)
    } else {
        match probe(lowers[k - 1], comps) {
            Err(f) => Err(f),
            Ok(true) => Ok(Some(k - 1)),
            Ok(false) => lower_probe(lowers, comps, (k - 1) as nat),
        }
    }
}

/// A layer that the search finds is one of those searched.
proof fn lemma_lower_probe_range(lowers: Seq<Map<Seq<char>, Node>>, comps: Seq<Seq<char>>, k: nat)
    ensures
        lower_probe(lowers, comps, k) matches Ok(Some(i)) ==> 0 <= i < k,
    decreases k,
{
    if k > 0 {
        lemma_lower_probe_range(lowers, comps, (k - 1) as nat);
    }
}

/// Where the overlay finds a path.
pub enum Source {
    /// In the top layer.
    Top,
    /// In the lower layer with this index.
    Lower(int),
    /// Hidden by a whiteout or an opaque parent.
    Hidden,
    /// Nowhere.
    Nowhere,
}

/// Why the overlay could not find where a path is.
pub enum OvFault {
    /// A layer could not look the path up.
    Find(FindFault),
    /// The path has a parent but no last name, so it has no whiteout.
    NoName,
}

/// Where the overlay finds a path: the top layer first; then a whiteout or an opaque parent
/// in the top layer hides it; then the lower layers from the highest down.
pub open spec fn resolve(top: Map<Seq<char>, Node>, lowers: Seq<Map<Seq<char>, Node>>, comps: Seq<Seq<char>>) -> Result<Source, OvFault> {
    match probe(top, comps) {
        Err(f) => Err(OvFault::Find(f)),
        Ok(true) => Ok(Source::Top),
        Ok(false) => match whiteout_of(comps) {
            None => Err(OvFault::NoName),
            Some(w) => match probe(top, w) {
                Err(f) => Err(OvFault::Find(f)),
                Ok(true) => Ok(Source::Hidden),
                Ok(false) => match (if has_parent(comps) { probe(top, opaque_of(comps)) } else { Ok(false) }) {
                    Err(f) => Err(OvFault::Find(f)),
                    Ok(true) => Ok(Source::Hidden),
                    Ok(false) => match lower_probe(lowers, comps, lowers.len()) {
                        Err(f) => Err(OvFault::Find(f)),
                        Ok(Some(i)) => Ok(Source::Lower(i)),
                        Ok(None) => Ok(Source::Nowhere),
                    },
                },
            },
        },
    }
}

/// The outcome of asking whether the overlay holds a path: whiteout names are never held;
/// a path with a parent but no last name is an error.
pub open spec fn overlay_exists(top: Map<Seq<char>, Node>, lowers: Seq<Map<Seq<char>, Node>>, comps: Seq<Seq<char>>) -> Result<bool, OvFault> {
    if is_whiteout_path(comps) {
        Ok(false)
    } else {
        match resolve(top, lowers, comps) {
            Err(f) => Err(f),
            Ok(Source::Top) => Ok(true),
            Ok(Source::Lower(_)) => Ok(true),
            Ok(_) => Ok(false),
        }
    }
}

/// Whether `e` reports the fault `f`.
pub open spec fn ov_fault_matches(e: VfsError, f: OvFault) -> bool {
    match f {
        OvFault::Find(ff) => fault_matches(e, ff),
        OvFault::NoName => e matches VfsError::InvalidPathComponent(s) && s@ == "Path must have a file name"@,
    }
}

/// A layer that the search finds holds the path.
proof fn lemma_lower_probe_found(lowers: Seq<Map<Seq<char>, Node>>, comps: Seq<Seq<char>>, k: nat)
    requires
        k <= lowers.len(),
    ensures
        lower_probe(lowers, comps, k) matches Ok(Some(i)) ==> (0 <= i < k && lookup(lowers[i], comps) is Found),
    decreases k,
{
    if k > 0 {
        lemma_lower_probe_found(lowers, comps, (k - 1) as nat);
    }
}

/// The node that the overlay finds at a path, from the layer that holds it.
pub open spec fn source_node(top: Map<Seq<char>, Node>, lowers: Seq<Map<Seq<char>, Node>>, comps: Seq<Seq<char>>, s: Source) -> Node {
    match s {
        Source::Top => lookup(top, comps)->Found_0,
        Source::Lower(i) => lookup(lowers[i], comps)->Found_0,
        _ => arbitrary(),
    }
}

/// Whether the overlay's answer `r` for a path is the abstract one: whiteout paths (when
/// `check_whiteout`) and paths found nowhere or hidden give `NotFound` with the path; a node
/// found gives what `answer` says of it.
pub open spec fn read_matches<T>(
    top: Map<Seq<char>, Node>,
    lowers: Seq<Map<Seq<char>, Node>>,
    comps: Seq<Seq<char>>,
    path: Seq<char>,
    check_whiteout: bool,
    r: VfsResult<T>,
    answer: spec_fn(Node, VfsResult<T>) -> bool,
) -> bool {
    if check_whiteout && is_whiteout_path(comps) {
        r matches Err(VfsError::NotFound(p)) && p@ == path
    } else {
        match resolve(top, lowers, comps) {
            Err(f) => r matches Err(e) && ov_fault_matches(e, f),
            Ok(Source::Top) => answer(source_node(top, lowers, comps, Source::Top), r),
            Ok(Source::Lower(i)) => answer(source_node(top, lowers, comps, Source::Lower(i)), r),
            Ok(_) => r matches Err(VfsError::NotFound(p)) && p@ == path,
        }
    }
}

/// What reading `length` bytes at `offset` of a node gives: the bytes of a file, and
/// `NotAFile` for anything else.
pub open spec fn file_answer(offset: u64, length: u64) -> spec_fn(Node, VfsResult<Vec<u8>>) -> bool {
    |n: Node, r: VfsResult<Vec<u8>>| match n {
        Node::File(_, c) => r matches Ok(v) && v@ == read_range(c, offset as int, length as int),
        _ => r matches Err(VfsError::NotAFile(p)) && p@.len() == 0,
    }
}

/// What reading a node as a symbolic link gives: the target of a link, and `NotASymlink` for
/// anything else.
pub open spec fn symlink_answer() -> spec_fn(Node, VfsResult<String>) -> bool {
    |n: Node, r: VfsResult<String>| match n {
        Node::Symlink(_, t) => r matches Ok(s) && s@ == t,
        _ => r matches Err(VfsError::NotASymlink(p)) && p@.len() == 0,
    }
}

/// What reading a node's metadata gives: its metadata.
pub open spec fn metadata_answer() -> spec_fn(Node, VfsResult<Metadata>) -> bool {
    |n: Node, r: VfsResult<Metadata>| r matches Ok(md) && md == node_metadata(n)
}

/// Removes every leading `.wh.` from a name (`str::trim_start_matches`).
pub open spec fn strip_wh(n: Seq<char>) -> Seq<char>
    decreases n.len(),
{
    if n.len() >= 4 && starts_with(n, wh_prefix()) {
        strip_wh(n.skip(4))
    } else {
        n
    }
}

/// Why listing a directory of the overlay failed.
pub enum DirFault {
    /// A layer could not look the path up, or the path has no whiteout.
    Path(OvFault),
    /// A layer holds something other than a directory at the path.
    NotDir,
}

/// Whether `e` reports the listing fault `f`.
pub open spec fn dir_fault_matches(e: VfsError, f: DirFault) -> bool {
    match f {
        DirFault::Path(o) => ov_fault_matches(e, o),
        DirFault::NotDir => e matches VfsError::NotADirectory(p) && p@.len() == 0,
    }
}

/// The names in the directory at the path of the first `k` lower layers, taken together.
pub open spec fn lower_names(lowers: Seq<Map<Seq<char>, Node>>, comps: Seq<Seq<char>>, k: nat) -> Result<Set<Seq<char>>, DirFault>
    decreases k,
{
    if k == 0 {
        Ok(Set::empty())
    } else {
        match lower_names(lowers, comps, (k - 1) as nat) {
            Err(f) => Err(f),
            Ok(s) => match lookup(lowers[k - 1], comps) {
                Lookup::Fails(f) => Err(DirFault::Path(OvFault::Find(f))),
                Lookup::Absent => Ok(s),
                Lookup::Found(Node::Dir(_, m)) => Ok(s + m.dom()),
                Lookup::Found(_) => Err(DirFault::NotDir),
            },
        }
    }
}

/// The names of the top directory that are not whiteouts.
pub open spec fn plain_names(tm: Map<Seq<char>, Node>) -> Set<Seq<char>> {
    tm.dom().filter(|n: Seq<char>| !starts_with(n, wh_prefix()))
}

/// The names that the whiteouts of the top directory hide.
pub open spec fn hidden_names(tm: Map<Seq<char>, Node>) -> Set<Seq<char>> {
    Set::new(|n: Seq<char>| exists|w: Seq<char>| tm.dom().contains(w) && starts_with(w, wh_prefix()) && strip_wh(w) == n)
}

/// Whether the names `v` are a merged listing: no name twice, and as a set between what the
/// whiteouts of the top directory `tm` leave of the plain top names and the `base` names,
/// and those names themselves; a name both hidden and plain in the top directory may go
/// either way.
pub open spec fn merged_listing(v: Seq<PathSegment>, tm: Map<Seq<char>, Node>, base: Set<Seq<char>>) -> bool {
    let got = Set::new(|n: Seq<char>| exists|i: int| 0 <= i < v.len() && v[i]@ == n);
    &&& forall|i: int, j: int| 0 <= i < v.len() && 0 <= j < v.len() && i != j ==> v[i]@ != v[j]@
    &&& got.subset_of(plain_names(tm) + base)
    &&& (plain_names(tm) + base).difference(hidden_names(tm)).subset_of(got)
    &&& got.intersect(hidden_names(tm)).subset_of(plain_names(tm))
}

/// Whether the names `v` are exactly the set `s`, none twice.
pub open spec fn listing_is(v: Seq<PathSegment>, s: Set<Seq<char>>) -> bool {
    &&& forall|i: int, j: int| 0 <= i < v.len() && 0 <= j < v.len() && i != j ==> v[i]@ != v[j]@
    &&& forall|i: int| 0 <= i < v.len() ==> s.contains(#[trigger] v[i]@)
    &&& forall|n: Seq<char>| s.contains(n) ==> exists|i: int| 0 <= i < v.len() && v[i]@ == n
}

/// Whether `r` is the overlay's listing of the directory at the path: a whiteout for the
/// directory hides it; under an opaque parent only the top layer counts; otherwise the names
/// of the lower layers are merged with those of the top layer, whose whiteouts hide names and
/// whose opaque marker hides all lower names.
pub open spec fn listing_matches(
    top: Map<Seq<char>, Node>,
    lowers: Seq<Map<Seq<char>, Node>>,
    comps: Seq<Seq<char>>,
    path: Seq<char>,
    r: VfsResult<Vec<PathSegment>>,
) -> bool {
    match whiteout_of(comps) {
        None => r matches Err(e) && ov_fault_matches(e, OvFault::NoName),
        Some(w) => match probe(top, w) {
            Err(f) => r matches Err(e) && fault_matches(e, f),
            Ok(true) => r matches Err(VfsError::NotFound(p)) && p@ == path,
            Ok(false) => match (if has_parent(comps) { probe(top, opaque_of(comps)) } else { Ok(false) }) {
                Err(f) => r matches Err(e) && fault_matches(e, f),
                Ok(true) => match lookup(top, comps) {
                    Lookup::Fails(f) => r matches Err(e) && fault_matches(e, f),
                    Lookup::Absent => r matches Err(VfsError::NotFound(p)) && p@ == path,
                    Lookup::Found(Node::Dir(_, tm)) => r matches Ok(v) && names_of(v@, tm),
                    Lookup::Found(_) => r matches Err(VfsError::NotADirectory(p)) && p@.len() == 0,
                },
                Ok(false) => match lower_names(lowers, comps, lowers.len()) {
                    Err(f) => r matches Err(e) && dir_fault_matches(e, f),
                    Ok(base) => match lookup(top, comps) {
                        Lookup::Fails(f) => r matches Err(e) && fault_matches(e, f),
                        Lookup::Absent => r matches Ok(v) && listing_is(v@, base),
                        Lookup::Found(Node::Dir(_, tm)) => r matches Ok(v) && merged_listing(
                            v@,
                            tm,
                            if tm.dom().contains(opaque_name()) { Set::empty() } else { base },
                        ),
                        Lookup::Found(_) => r matches Err(VfsError::NotADirectory(p)) && p@.len() == 0,
                    },
                },
            },
        },
    }
}

/// An overlay of a writable top layer over read-only lower layers, ordered from the bottom up.
#[derive(Debug)]
pub struct OverlayFileSystem {
    top_layer: MemoryFileSystem,
    lower_layers: Vec<MemoryFileSystem>,
}

/// Where the overlay found a path.
pub enum Found {
    /// In the top layer.
    Top,
    /// In the lower layer with this index.
    Lower(usize),
    /// Hidden by a whiteout or an opaque parent.
    Hidden,
    /// Nowhere.
    Nowhere,
}

/// Whether the exec source is the abstract one.
pub open spec fn found_matches(f: Found, s: Source) -> bool {
    match s {
        Source::Top => f is Top,
        Source::Lower(i) => f matches Found::Lower(j) && j == i,
        Source::Hidden => f is Hidden,
        Source::Nowhere => f is Nowhere,
    }
}

/// Whether the exec result of a probe is the abstract one.
pub open spec fn probe_matches(r: VfsResult<bool>, p: Result<bool, FindFault>) -> bool {
    match p {
        Ok(b) => r == VfsResult::<bool>::Ok(b),
        Err(f) => r matches Err(e) && fault_matches(e, f),
    }
}

/// Asks a layer whether it holds the path with the given components.
fn probe_layer(fs: &MemoryFileSystem, comps: &Vec<String>) -> (r: VfsResult<bool>)
    requires
        fs.wf(),
    ensures
        probe_matches(r, probe(fs@, comps.deep_view())),
{
    fs.path_exists_at("", comps)
}

/// Whether the last name starts with the whiteout prefix.
fn name_is_whiteout(name: &str) -> (r: bool)
    ensures
        r == starts_with(name@, wh_prefix()),
{
    let cs = chars_of(name);
    if cs.len() < 4 {
        return false;
    }
    let r = cs[0] == '.' && cs[1] == 'w' && cs[2] == 'h' && cs[3] == '.';
    assert(r == (cs@.subrange(0, 4) =~= wh_prefix()));
    r
}

/// Whether the component is the root, `.` or `..`.
fn component_is_special(c: &str) -> (r: bool)
    ensures
        r == is_special_component(c@),
{
    let cs = chars_of(c);
    let r = (cs.len() == 1 && (cs[0] == '/' || cs[0] == '.')) || (cs.len() == 2 && cs[0] == '.' && cs[1] == '.');
    assert(r == (cs@ =~= seq!['/'] || cs@ =~= seq!['.'] || cs@ =~= seq!['.', '.']));
    r
}

/// Whether the path with these components names a whiteout.
fn path_is_whiteout(comps: &Vec<String>) -> (r: bool)
    ensures
        r == is_whiteout_path(comps.deep_view()),
{
    let n = comps.len();
    if n == 0 {
        return false;
    }
    assert(comps.deep_view().last() == comps@[n - 1]@);
    !component_is_special(comps[n - 1].as_str()) && name_is_whiteout(comps[n - 1].as_str())
}

/// Copies the components but the last.
fn parent_copy(comps: &Vec<String>) -> (r: Vec<String>)
    requires
        comps@.len() > 0,
    ensures
        r.deep_view() == comps.deep_view().drop_last(),
{
    let r = prefix_copy(comps, comps.len() - 1);
    assert(comps.deep_view().take(comps@.len() - 1) =~= comps.deep_view().drop_last());
    r
}

/// The components with a name appended.
fn push_name(comps: Vec<String>, name: String) -> (r: Vec<String>)
    ensures
        r.deep_view() == comps.deep_view().push(name@),
{
    let mut r = comps;
    let ghost before = r.deep_view();
    let ghost before_v = r@;
    let ghost nv = name@;
    r.push(name);
    proof {
        assert forall|j: int| 0 <= j < before.len() implies r.deep_view()[j] == before[j] by {
            assert(r@[j] == before_v[j]);
        }
    }
    assert(r.deep_view() =~= before.push(nv));
    r
}

/// Whether the path has a parent.
fn path_has_parent(comps: &Vec<String>) -> (r: bool)
    ensures
        r == has_parent(comps.deep_view()),
{
    let n = comps.len();
    if n == 0 {
        return false;
    }
    if n == 1 {
        let cs = chars_of(comps[0].as_str());
        let is_root = cs.len() == 1 && cs[0] == '/';
        assert(is_root == (cs@ =~= seq!['/']));
        assert(comps.deep_view()[0] == comps@[0]@);
        return !is_root;
    }
    true
}

/// The components of the whiteout for the path, if it has one.
fn whiteout_comps(comps: &Vec<String>) -> (r: Option<Vec<String>>)
    ensures
        match whiteout_of(comps.deep_view()) {
            Some(w) => r matches Some(v) && v.deep_view() == w,
            None => r is None,
        },
{
    proof {
        reveal_strlit(".wh.");
        assert(".wh."@ =~= wh_prefix());
    }
    if !path_has_parent(comps) {
        let v = push_name(Vec::new(), String::from_str(".wh."));
        assert(v.deep_view() =~= seq![wh_prefix()]);
        return Some(v);
    }
    let n = comps.len();
    assert(comps.deep_view().last() == comps@[n - 1]@);
    if component_is_special(comps[n - 1].as_str()) {
        return None;
    }
    let mut name = String::from_str(".wh.");
    name.append(comps[n - 1].as_str());
    let parent = parent_copy(comps);
    Some(push_name(parent, name))
}

/// The components of the opaque marker in the path's parent.
fn opaque_comps(comps: &Vec<String>) -> (r: Vec<String>)
    requires
        comps@.len() > 0,
    ensures
        r.deep_view() == opaque_of(comps.deep_view()),
{
    proof {
        reveal_strlit(".wh..wh..opq");
        assert(".wh..wh..opq"@ =~= opaque_name());
    }
    let parent = parent_copy(comps);
    push_name(parent, String::from_str(".wh..wh..opq"))
}

impl OverlayFileSystem {
    /// The contents of the top layer.
    pub closed spec fn top(&self) -> Map<Seq<char>, Node> {
        self.top_layer@
    }

    /// The metadata of the top layer's root directory, which the empty path names.
    pub closed spec fn spec_top_root_metadata(&self) -> Metadata {
        self.top_layer.spec_root_metadata()
    }

    /// The contents of the lower layers, from the bottom up.
    pub closed spec fn lowers(&self) -> Seq<Map<Seq<char>, Node>> {
        self.lower_layers@.map_values(|l: MemoryFileSystem| l@)
    }

    /// Whether every layer is well formed.
    pub closed spec fn wf(&self) -> bool {
        &&& self.top_layer.wf()
        &&& forall|i: int| 0 <= i < self.lower_layers@.len() ==> (#[trigger] self.lower_layers@[i]).wf()
    }

    /// Creates an overlay from layers ordered from the bottom up: the last becomes the
    /// writable top layer. No layers give `OverlayFileSystemRequiresAtLeastOneLayer`.
    pub fn new(layers: Vec<MemoryFileSystem>) -> (r: VfsResult<Self>)
        requires
            forall|i: int| 0 <= i < layers@.len() ==> (#[trigger] layers@[i]).wf(),
        ensures
            layers@.len() == 0 ==> r matches Err(VfsError::OverlayFileSystemRequiresAtLeastOneLayer),
            layers@.len() > 0 ==> (r matches Ok(o) && o.wf() && o.top() == layers@.last()@ && o.lowers()
                == layers@.drop_last().map_values(|l: MemoryFileSystem| l@)
                && o.spec_top_root_metadata() == layers@.last().spec_root_metadata()),
    {
        let mut layers = layers;
        let ghost all = layers@;
        match layers.pop() {
            None => Err(VfsError::OverlayFileSystemRequiresAtLeastOneLayer),
            Some(top_layer) => {
                let o = OverlayFileSystem { top_layer, lower_layers: layers };
                assert(o.lower_layers@ =~= all.drop_last());
                Ok(o)
            },
        }
    }

    /// Returns the top layer.
    pub fn get_top_layer(&self) -> (t: &MemoryFileSystem)
        ensures
            t@ == self.top(),
    {
        &self.top_layer
    }

    /// Returns the lower layers, from the bottom up.
    pub fn get_lower_layers(&self) -> (l: &Vec<MemoryFileSystem>)
        ensures
            l@.map_values(|x: MemoryFileSystem| x@) == self.lowers(),
    {
        &self.lower_layers
    }

    /// Finds the highest lower layer that holds the path.
    fn find_lower(&self, comps: &Vec<String>) -> (r: VfsResult<Option<usize>>)
        requires
            self.wf(),
        ensures
            match lower_probe(self.lowers(), comps.deep_view(), self.lowers().len()) {
                Ok(Some(i)) => 0 <= i < self.lowers().len() && (r matches Ok(Some(j)) && j == i),
                Ok(None) => r == VfsResult::<Option<usize>>::Ok(None),
                Err(f) => r matches Err(e) && fault_matches(e, f),
            },
    {
        let ghost lv = self.lowers();
        proof {
            lemma_lower_probe_range(lv, comps.deep_view(), lv.len());
        }
        let mut k = self.lower_layers.len();
        while k > 0
            invariant
                self.wf(),
                lv == self.lowers(),
                k <= lv.len(),
                lower_probe(lv, comps.deep_view(), lv.len()) == lower_probe(lv, comps.deep_view(), k as nat),
            decreases k,
        {
            let found = probe_layer(&self.lower_layers[k - 1], comps)?;
            if found {
                return Ok(Some(k - 1));
            }
            k = k - 1;
        }
        Ok(None)
    }

    /// Finds where the overlay holds the path.
    fn resolve_path(&self, comps: &Vec<String>) -> (r: VfsResult<Found>)
        requires
            self.wf(),
        ensures
            match resolve(self.top(), self.lowers(), comps.deep_view()) {
                Ok(s) => r matches Ok(f) && found_matches(f, s),
                Err(f) => r matches Err(e) && ov_fault_matches(e, f),
            },
    {
        if probe_layer(&self.top_layer, comps)? {
            return Ok(Found::Top);
        }
        let w = match whiteout_comps(comps) {
            Some(w) => w,
            None => {
                proof {
                    reveal_strlit("Path must have a file name");
                }
                return Err(VfsError::InvalidPathComponent(String::from_str("Path must have a file name")));
            },
        };
        if probe_layer(&self.top_layer, &w)? {
            return Ok(Found::Hidden);
        }
        if path_has_parent(comps) {
            let o = opaque_comps(comps);
            if probe_layer(&self.top_layer, &o)? {
                return Ok(Found::Hidden);
            }
        }
        match self.find_lower(comps)? {
            Some(i) => Ok(Found::Lower(i)),
            None => Ok(Found::Nowhere),
        }
    }

    /// Whether the overlay holds the path with the given components.
    pub fn path_exists_at(&self, comps: &Vec<String>) -> (r: VfsResult<bool>)
        requires
            self.wf(),
        ensures
            match overlay_exists(self.top(), self.lowers(), comps.deep_view()) {
                Ok(b) => r == VfsResult::<bool>::Ok(b),
                Err(f) => r matches Err(e) && ov_fault_matches(e, f),
            },
    {
        if path_is_whiteout(comps) {
            return Ok(false);
        }
        match self.resolve_path(comps)? {
            Found::Top => Ok(true),
            Found::Lower(_) => Ok(true),
            _ => Ok(false),
        }
    }

    /// Whether the overlay holds the path.
    pub fn path_exists(&self, path: &str) -> (r: VfsResult<bool>)
        requires
            self.wf(),
        ensures
            path@.len() == 0 ==> r == VfsResult::<bool>::Ok(true),
            path@.len() > 0 ==> match overlay_exists(self.top(), self.lowers(), std_path_components(path@)) {
                Ok(b) => r == VfsResult::<bool>::Ok(b),
                Err(f) => r matches Err(e) && ov_fault_matches(e, f),
            },
    {
        if path.is_empty() {
            return Ok(true);
        }
        let comps = path_components(path);
        self.path_exists_at(&comps)
    }
}

impl OverlayFileSystem {
    /// Whether looking the path up reaches its whiteout while the path has no last name, the
    /// case in which the read operations cannot go on.
    pub fn lookup_lacks_name(&self, path: &str) -> (r: bool)
        requires
            self.wf(),
        ensures
            r == (resolve(self.top(), self.lowers(), std_path_components(path@)) matches Err(OvFault::NoName)),
    {
        let comps = path_components(path);
        self.lacks_name_at(&comps)
    }

    /// `lookup_lacks_name` for a path given by its components.
    fn lacks_name_at(&self, comps: &Vec<String>) -> (r: bool)
        requires
            self.wf(),
        ensures
            r == (resolve(self.top(), self.lowers(), comps.deep_view()) matches Err(OvFault::NoName)),
    {
        match probe_layer(&self.top_layer, comps) {
            Ok(false) => whiteout_comps(comps).is_none(),
            _ => false,
        }
    }

    /// Finds the node that the overlay holds at a path, giving the layer that holds it.
    fn source_layer(&self, f: &Found) -> (l: &MemoryFileSystem)
        requires
            self.wf(),
            f matches Found::Lower(i) ==> i < self.lowers().len(),
        ensures
            l.wf(),
            f is Lower ==> l@ == self.lowers()[f->Lower_0 as int],
            !(f is Lower) ==> l@ == self.top(),
    {
        match f {
            Found::Lower(i) => &self.lower_layers[*i],
            _ => &self.top_layer,
        }
    }

    /// Reads up to `length` bytes at `offset` of the file at the path (given with its
    /// components), from the layer that the overlay finds it in.
    pub fn read_file_at(&self, path: &str, comps: &Vec<String>, offset: u64, length: u64) -> (r: VfsResult<Vec<u8>>)
        requires
            self.wf(),
            !(resolve(self.top(), self.lowers(), comps.deep_view()) matches Err(OvFault::NoName)),
        ensures
            read_matches(self.top(), self.lowers(), comps.deep_view(), path@, true, r, file_answer(offset, length)),
    {
        if path_is_whiteout(comps) {
            return Err(VfsError::NotFound(copy_str(path)));
        }
        let f = self.resolve_path(comps)?;
        proof {
            lemma_lower_probe_found(self.lowers(), comps.deep_view(), self.lowers().len());
        }
        match f {
            Found::Top | Found::Lower(_) => self.source_layer(&f).read_file_at(path, comps, offset, length),
            _ => Err(VfsError::NotFound(copy_str(path))),
        }
    }

    /// Reads up to `length` bytes at `offset` of the file at the path.
    pub fn read_file(&self, path: &str, offset: u64, length: u64) -> (r: VfsResult<Vec<u8>>)
        requires
            self.wf(),
            !(resolve(self.top(), self.lowers(), std_path_components(path@)) matches Err(OvFault::NoName)),
        ensures
            read_matches(self.top(), self.lowers(), std_path_components(path@), path@, true, r, file_answer(offset, length)),
    {
        let comps = path_components(path);
        self.read_file_at(path, &comps, offset, length)
    }

    /// Reads the target of the symbolic link at the path (given with its components), from
    /// the layer that the overlay finds it in.
    pub fn read_symlink_at(&self, path: &str, comps: &Vec<String>) -> (r: VfsResult<String>)
        requires
            self.wf(),
            !(resolve(self.top(), self.lowers(), comps.deep_view()) matches Err(OvFault::NoName)),
        ensures
            read_matches(self.top(), self.lowers(), comps.deep_view(), path@, false, r, symlink_answer()),
    {
        let f = self.resolve_path(comps)?;
        proof {
            lemma_lower_probe_found(self.lowers(), comps.deep_view(), self.lowers().len());
        }
        match f {
            Found::Top | Found::Lower(_) => self.source_layer(&f).read_symlink_at(path, comps),
            _ => Err(VfsError::NotFound(copy_str(path))),
        }
    }

    /// Reads the target of the symbolic link at the path.
    pub fn read_symlink(&self, path: &str) -> (r: VfsResult<String>)
        requires
            self.wf(),
            !(resolve(self.top(), self.lowers(), std_path_components(path@)) matches Err(OvFault::NoName)),
        ensures
            read_matches(self.top(), self.lowers(), std_path_components(path@), path@, false, r, symlink_answer()),
    {
        let comps = path_components(path);
        self.read_symlink_at(path, &comps)
    }

    /// Returns the metadata of the entity at the path (given with its components), from the
    /// layer that the overlay finds it in.
    pub fn get_metadata_at(&self, path: &str, comps: &Vec<String>) -> (r: VfsResult<Metadata>)
        requires
            self.wf(),
            !(resolve(self.top(), self.lowers(), comps.deep_view()) matches Err(OvFault::NoName)),
        ensures
            read_matches(self.top(), self.lowers(), comps.deep_view(), path@, false, r, metadata_answer()),
    {
        let f = self.resolve_path(comps)?;
        proof {
            lemma_lower_probe_found(self.lowers(), comps.deep_view(), self.lowers().len());
        }
        match f {
            Found::Top | Found::Lower(_) => self.source_layer(&f).get_metadata_at(path, comps),
            _ => Err(VfsError::NotFound(copy_str(path))),
        }
    }

    /// Returns the metadata of the entity at the path.
    pub fn get_metadata(&self, path: &str) -> (r: VfsResult<Metadata>)
        requires
            self.wf(),
            path@.len() > 0 ==> !(resolve(self.top(), self.lowers(), std_path_components(path@)) matches Err(
                OvFault::NoName,
            )),
        ensures
            path@.len() == 0 ==> r == VfsResult::<Metadata>::Ok(self.spec_top_root_metadata()),
            path@.len() > 0 ==> read_matches(
                self.top(),
                self.lowers(),
                std_path_components(path@),
                path@,
                false,
                r,
                metadata_answer(),
            ),
    {
        if path.is_empty() {
            return self.top_layer.get_metadata(path);
        }
        let comps = path_components(path);
        self.get_metadata_at(path, &comps)
    }
}

/// The names of the segments.
pub open spec fn seg_set(v: Seq<PathSegment>) -> Set<Seq<char>> {
    Set::new(|n: Seq<char>| exists|i: int| 0 <= i < v.len() && v[i]@ == n)
}

/// Whether no name occurs twice among the segments.
pub open spec fn seg_distinct(v: Seq<PathSegment>) -> bool {
    forall|i: int, j: int| 0 <= i < v.len() && 0 <= j < v.len() && i != j ==> v[i]@ != v[j]@
}

/// Adds a segment to a list of distinct names, unless its name is there already.
fn union_insert(u: &mut Vec<PathSegment>, seg: PathSegment)
    requires
        seg_distinct(old(u)@),
    ensures
        seg_distinct(final(u)@),
        seg_set(final(u)@) == seg_set(old(u)@).insert(seg@),
{
    let mut i: usize = 0;
    while i < u.len()
        invariant
            i <= u@.len(),
            u@ == old(u)@,
            seg_distinct(u@),
            forall|j: int| 0 <= j < i ==> u@[j]@ != seg@,
        decreases u.len() - i,
    {
        if crate::text::str_eq(u[i].as_str(), seg.as_str()) {
            assert(seg_set(u@).insert(seg@) =~= seg_set(u@));
            return;
        }
        i = i + 1;
    }
    let ghost before = u@;
    let ghost sv = seg@;
    u.push(seg);
    proof {
        assert forall|n: Seq<char>| seg_set(u@).contains(n) == seg_set(before).insert(sv).contains(n) by {
            if seg_set(before).contains(n) {
                let k = choose|k: int| 0 <= k < before.len() && before[k]@ == n;
                assert(u@[k] == before[k]);
            }
            if n == sv {
                assert(u@[before.len() as int]@ == sv);
            }
            if seg_set(u@).contains(n) {
                let k = choose|k: int| 0 <= k < u@.len() && u@[k]@ == n;
                if k < before.len() {
                    assert(u@[k] == before[k]);
                }
            }
        }
        assert(seg_set(u@) =~= seg_set(before).insert(sv));
        assert forall|a: int, b: int| 0 <= a < u@.len() && 0 <= b < u@.len() && a != b implies u@[a]@ != u@[b]@ by {
            if a < before.len() {
                assert(u@[a] == before[a]);
            }
            if b < before.len() {
                assert(u@[b] == before[b]);
            }
        }
    }
}

/// Removes the segment with the given name from a list of distinct names, if it is there.
fn union_remove(u: &mut Vec<PathSegment>, name: &str)
    requires
        seg_distinct(old(u)@),
    ensures
        seg_distinct(final(u)@),
        seg_set(final(u)@) == seg_set(old(u)@).remove(name@),
{
    let mut i: usize = 0;
    while i < u.len()
        invariant
            i <= u@.len(),
            u@ == old(u)@,
            seg_distinct(u@),
            forall|j: int| 0 <= j < i ==> u@[j]@ != name@,
        decreases u.len() - i,
    {
        if crate::text::str_eq(u[i].as_str(), name) {
            let ghost before = u@;
            u.remove(i);
            proof {
                assert forall|n: Seq<char>| seg_set(u@).contains(n) == seg_set(before).remove(name@).contains(n) by {
                    if seg_set(u@).contains(n) {
                        let k = choose|k: int| 0 <= k < u@.len() && u@[k]@ == n;
                        if k < i {
                            assert(u@[k] == before[k]);
                        } else {
                            assert(u@[k] == before[k + 1]);
                        }
                    }
                    if seg_set(before).remove(name@).contains(n) {
                        let k = choose|k: int| 0 <= k < before.len() && before[k]@ == n;
                        if k < i {
                            assert(u@[k] == before[k]);
                        } else if k > i {
                            assert(u@[k - 1] == before[k]);
                        }
                    }
                }
                assert(seg_set(u@) =~= seg_set(before).remove(name@));
                assert forall|a: int, b: int| 0 <= a < u@.len() && 0 <= b < u@.len() && a != b implies u@[a]@ != u@[b]@ by {
                    let a0 = if a < i { a } else { a + 1 };
                    let b0 = if b < i { b } else { b + 1 };
                    assert(u@[a] == before[a0]);
                    assert(u@[b] == before[b0]);
                }
            }
            return;
        }
        i = i + 1;
    }
    assert(seg_set(u@).remove(name@) =~= seg_set(u@));
}

/// Strips every leading `.wh.` from a name.
fn strip_whiteout(name: &str) -> (r: String)
    ensures
        r@ == strip_wh(name@),
{
    let cs = chars_of(name);
    let mut i: usize = 0;
    assert(cs@.skip(0) =~= cs@);
    while cs.len() - i >= 4 && cs[i] == '.' && cs[i + 1] == 'w' && cs[i + 2] == 'h' && cs[i + 3] == '.'
        invariant
            i <= cs@.len(),
            cs@ == name@,
            strip_wh(name@) == strip_wh(cs@.skip(i as int)),
        decreases cs.len() - i,
    {
        proof {
            let t = cs@.skip(i as int);
            assert(t.subrange(0, 4) =~= wh_prefix());
            assert(t.skip(4) =~= cs@.skip(i + 4));
        }
        i = i + 4;
    }
    proof {
        let t = cs@.skip(i as int);
        if t.len() >= 4 && starts_with(t, wh_prefix()) {
            assert(t[0] == t.subrange(0, 4)[0] && t[1] == t.subrange(0, 4)[1] && t[2] == t.subrange(0, 4)[2] && t[3]
                == t.subrange(0, 4)[3]);
        }
    }
    string_of(&cs.as_slice()[i..cs.len()])
}

impl OverlayFileSystem {
    /// Lists the directory at the path (given with its components), merging the layers.
    pub fn read_directory_at(&self, path: &str, comps: &Vec<String>) -> (r: VfsResult<Vec<PathSegment>>)
        requires
            self.wf(),
        ensures
            listing_matches(self.top(), self.lowers(), comps.deep_view(), path@, r),
    {
        let ghost cv = comps.deep_view();
        let ghost lv = self.lowers();
        let w = match whiteout_comps(comps) {
            Some(w) => w,
            None => {
                proof {
                    reveal_strlit("Path must have a file name");
                }
                return Err(VfsError::InvalidPathComponent(String::from_str("Path must have a file name")));
            },
        };
        if probe_layer(&self.top_layer, &w)? {
            return Err(VfsError::NotFound(copy_str(path)));
        }
        if path_has_parent(comps) {
            let o = opaque_comps(comps);
            if probe_layer(&self.top_layer, &o)? {
                if probe_layer(&self.top_layer, comps)? {
                    return self.top_layer.read_directory_at(path, comps);
                } else {
                    return Err(VfsError::NotFound(copy_str(path)));
                }
            }
        }
        let mut union: Vec<PathSegment> = Vec::new();
        let mut k: usize = 0;
        assert(seg_set(union@) =~= Set::<Seq<char>>::empty());
        while k < self.lower_layers.len()
            invariant
                self.wf(),
                lv == self.lowers(),
                cv == comps.deep_view(),
                k <= lv.len(),
                seg_distinct(union@),
                lower_names(lv, cv, k as nat) == Result::<Set<Seq<char>>, DirFault>::Ok(seg_set(union@)),
                whiteout_of(cv) is Some,
                probe(self.top(), whiteout_of(cv)->Some_0) == Result::<bool, FindFault>::Ok(false),
                has_parent(cv) ==> probe(self.top(), opaque_of(cv)) == Result::<bool, FindFault>::Ok(false),
            decreases self.lower_layers.len() - k,
        {
            let layer = &self.lower_layers[k];
            assert(layer@ == lv[k as int]);
            proof {
                lemma_lower_names_err_stays(lv, cv, (k + 1) as nat, lv.len());
            }
            if probe_layer(layer, comps)? {
                let entries = layer.read_directory_at(path, comps)?;
                let ghost m = match lookup(lv[k as int], cv) {
                    Lookup::Found(Node::Dir(_, m)) => m,
                    _ => arbitrary(),
                };
                let ghost start = seg_set(union@);
                let mut j: usize = 0;
                while j < entries.len()
                    invariant
                        j <= entries@.len(),
                        names_of(entries@, m),
                        seg_distinct(union@),
                        seg_set(union@) == start + seg_set(entries@.take(j as int)),
                    decreases entries.len() - j,
                {
                    let seg = entries[j].duplicate();
                    union_insert(&mut union, seg);
                    proof {
                        assert(seg_set(entries@.take(j + 1)) =~= seg_set(entries@.take(j as int)).insert(entries@[j as int]@))
                            by {
                            assert forall|n: Seq<char>| seg_set(entries@.take(j + 1)).contains(n) implies seg_set(
                                entries@.take(j as int),
                            ).insert(entries@[j as int]@).contains(n) by {
                                let a = choose|a: int| 0 <= a < j + 1&& #[trigger] entries@.take(j + 1)[a]@ == n;
                                if a < j {
                                    assert(entries@.take(j as int)[a] == entries@[a]);
                                }
                            }
                            assert forall|n: Seq<char>| seg_set(entries@.take(j as int)).insert(entries@[j as int]@).contains(n)
                                implies seg_set(entries@.take(j + 1)).contains(n) by {
                                if n == entries@[j as int]@ {
                                    assert(entries@.take(j + 1)[j as int] == entries@[j as int]);
                                } else {
                                    let a = choose|a: int| 0 <= a < j&& #[trigger] entries@.take(j as int)[a]@ == n;
                                    assert(entries@.take(j + 1)[a] == entries@[a]);
                                }
                            }
                        }
                        assert(seg_set(union@) =~= start + seg_set(entries@.take(j + 1)));
                    }
                    j = j + 1;
                }
                proof {
                    assert(entries@.take(j as int) =~= entries@);
                    assert(seg_set(entries@) =~= m.dom()) by {
                        assert forall|n: Seq<char>| seg_set(entries@).contains(n) implies m.dom().contains(n) by {
                            let a = choose|a: int| 0 <= a < entries@.len() && entries@[a]@ == n;
                        }
                    }
                }
            }
            k = k + 1;
        }
        let ghost base = seg_set(union@);
        if probe_layer(&self.top_layer, comps)? {
            let entries = self.top_layer.read_directory_at(path, comps)?;
            let ghost tm = match lookup(self.top(), cv) {
                Lookup::Found(Node::Dir(_, m)) => m,
                _ => arbitrary(),
            };
            let mut has_opaque = false;
            let mut j: usize = 0;
            while j < entries.len()
                invariant
                    j <= entries@.len(),
                    has_opaque == exists|a: int| 0 <= a < j && entries@[a]@ == opaque_name(),
                decreases entries.len() - j,
            {
                proof {
                    reveal_strlit(".wh..wh..opq");
                    assert(".wh..wh..opq"@ =~= opaque_name());
                }
                if crate::text::str_eq(entries[j].as_str(), ".wh..wh..opq") {
                    has_opaque = true;
                }
                j = j + 1;
            }
            proof {
                if tm.dom().contains(opaque_name()) {
                    let a = choose|a: int| 0 <= a < entries@.len() && entries@[a]@ == opaque_name();
                }
            }
            if has_opaque {
                union = Vec::new();
                assert(seg_set(union@) =~= Set::<Seq<char>>::empty());
            }
            let ghost b = seg_set(union@);
            assert(b == if tm.dom().contains(opaque_name()) { Set::<Seq<char>>::empty() } else { base });
            let mut j: usize = 0;
            assert(seg_set(entries@.take(0)) =~= Set::<Seq<char>>::empty());
            while j < entries.len()
                invariant
                    j <= entries@.len(),
                    names_of(entries@, tm),
                    seg_distinct(union@),
                    ({
                        let pm = seg_map(entries@.take(j as int));
                        let got = seg_set(union@);
                        &&& got.subset_of(plain_names(pm) + b)
                        &&& (plain_names(pm) + b).difference(hidden_names(pm)).subset_of(got)
                        &&& got.intersect(hidden_names(pm)).subset_of(plain_names(pm))
                    }),
                decreases entries.len() - j,
            {
                let ghost pm0 = seg_map(entries@.take(j as int));
                let ghost pm1 = seg_map(entries@.take(j + 1));
                let ghost e = entries@[j as int]@;
                proof {
                    lemma_seg_map_push(entries@, j as int);
                }
                if name_is_whiteout(entries[j].as_str()) {
                    let stripped = strip_whiteout(entries[j].as_str());
                    proof {
                        lemma_hidden_push_wh(pm0, e);
                        lemma_plain_push_wh(pm0, e);
                    }
                    union_remove(&mut union, stripped.as_str());
                } else {
                    proof {
                        lemma_hidden_push_plain(pm0, e);
                        lemma_plain_push_plain(pm0, e);
                    }
                    let seg = entries[j].duplicate();
                    union_insert(&mut union, seg);
                }
                j = j + 1;
            }
            proof {
                assert(entries@.take(j as int) =~= entries@);
                lemma_seg_map_dom(entries@, tm);
                assert(plain_names(seg_map(entries@)) =~= plain_names(tm));
                assert(hidden_names(seg_map(entries@)) =~= hidden_names(tm));
            }
            Ok(union)
        } else {
            proof {
                assert forall|n: Seq<char>| base.contains(n) implies exists|i: int| 0 <= i < union@.len() && union@[i]@ == n by {}
            }
            Ok(union)
        }
    }

    /// Lists the directory at the path, merging the layers.
    pub fn read_directory(&self, path: &str) -> (r: VfsResult<Vec<PathSegment>>)
        requires
            self.wf(),
        ensures
            listing_matches(self.top(), self.lowers(), std_path_components(path@), path@, r),
    {
        let comps = path_components(path);
        self.read_directory_at(path, &comps)
    }
}

/// Once merging the lower layers fails, it stays failed.
proof fn lemma_lower_names_err_stays(lowers: Seq<Map<Seq<char>, Node>>, comps: Seq<Seq<char>>, k: nat, n: nat)
    requires
        k <= n,
    ensures
        lower_names(lowers, comps, k) is Err ==> lower_names(lowers, comps, n) == lower_names(lowers, comps, k),
    decreases n - k,
{
    if k < n {
        lemma_lower_names_err_stays(lowers, comps, k, (n - 1) as nat);
    }
}

/// A map with the names of the segments as its keys.
pub open spec fn seg_map(v: Seq<PathSegment>) -> Map<Seq<char>, Node> {
    Map::new(|n: Seq<char>| seg_set(v).contains(n), |n: Seq<char>| arbitrary())
}

proof fn lemma_seg_map_push(v: Seq<PathSegment>, j: int)
    requires
        0 <= j < v.len(),
    ensures
        seg_map(v.take(j + 1)).dom() == seg_map(v.take(j)).dom().insert(v[j]@),
{
    assert forall|n: Seq<char>| seg_set(v.take(j + 1)).contains(n) == seg_set(v.take(j)).insert(v[j]@).contains(n) by {
        if seg_set(v.take(j + 1)).contains(n) {
            let a = choose|a: int| 0 <= a < j + 1&& #[trigger] v.take(j + 1)[a]@ == n;
            if a < j {
                assert(v.take(j)[a] == v[a]);
            }
        }
        if seg_set(v.take(j)).insert(v[j]@).contains(n) {
            if n == v[j]@ {
                assert(v.take(j + 1)[j] == v[j]);
            } else {
                let a = choose|a: int| 0 <= a < j&& #[trigger] v.take(j)[a]@ == n;
                assert(v.take(j + 1)[a] == v[a]);
            }
        }
    }
    assert(seg_map(v.take(j + 1)).dom() =~= seg_set(v.take(j + 1)));
    assert(seg_map(v.take(j)).dom() =~= seg_set(v.take(j)));
    assert(seg_map(v.take(j + 1)).dom() =~= seg_map(v.take(j)).dom().insert(v[j]@));
}

proof fn lemma_seg_map_dom(v: Seq<PathSegment>, m: Map<Seq<char>, Node>)
    requires
        names_of(v, m),
    ensures
        seg_map(v).dom() == m.dom(),
{
    assert forall|n: Seq<char>| seg_set(v).contains(n) == m.dom().contains(n) by {
        if seg_set(v).contains(n) {
            let a = choose|a: int| 0 <= a < v.len() && v[a]@ == n;
        }
    }
    assert(seg_map(v).dom() =~= seg_set(v));
    assert(seg_map(v).dom() =~= m.dom());
}

proof fn lemma_hidden_push_wh(pm: Map<Seq<char>, Node>, e: Seq<char>)
    ensures
        starts_with(e, wh_prefix()) ==> hidden_names(pm.insert(e, arbitrary())) == hidden_names(pm).insert(strip_wh(e)),
{
    if starts_with(e, wh_prefix()) {
        assert(hidden_names(pm.insert(e, arbitrary())) =~= hidden_names(pm).insert(strip_wh(e)));
    }
}

proof fn lemma_plain_push_wh(pm: Map<Seq<char>, Node>, e: Seq<char>)
    ensures
        starts_with(e, wh_prefix()) ==> plain_names(pm.insert(e, arbitrary())) == plain_names(pm),
{
    if starts_with(e, wh_prefix()) {
        assert(plain_names(pm.insert(e, arbitrary())) =~= plain_names(pm));
    }
}

proof fn lemma_hidden_push_plain(pm: Map<Seq<char>, Node>, e: Seq<char>)
    ensures
        !starts_with(e, wh_prefix()) ==> hidden_names(pm.insert(e, arbitrary())) == hidden_names(pm),
{
    if !starts_with(e, wh_prefix()) {
        assert(hidden_names(pm.insert(e, arbitrary())) =~= hidden_names(pm));
    }
}

proof fn lemma_plain_push_plain(pm: Map<Seq<char>, Node>, e: Seq<char>)
    ensures
        !starts_with(e, wh_prefix()) ==> plain_names(pm.insert(e, arbitrary())) == plain_names(pm).insert(e),
{
    if !starts_with(e, wh_prefix()) {
        assert(plain_names(pm.insert(e, arbitrary())) =~= plain_names(pm).insert(e));
    }
}

/// The text of a path with the given components: the names joined by `/`, after a `/` for
/// a path from the root.
pub open spec fn comps_text(c: Seq<Seq<char>>) -> Seq<char> {
    if c.len() > 0 && c[0] == seq!['/'] {
        seq!['/'] + join_components(c.drop_first())
    } else {
        join_components(c)
    }
}

/// Builds the text of a path from its components.
fn text_of(comps: &Vec<String>) -> (r: String)
    ensures
        r@ == comps_text(comps.deep_view()),
{
    let n = comps.len();
    let ghost cv = comps.deep_view();
    let mut r = String::new();
    let mut start: usize = 0;
    proof {
        reveal_strlit("/");
        assert("/"@ =~= seq!['/']);
    }
    if n > 0 && crate::text::str_eq(comps[0].as_str(), "/") {
        r.append("/");
        start = 1;
    }
    assert(cv.len() > 0 && cv[0] == seq!['/'] <==> start == 1) by {
        if n > 0 {
            assert(cv[0] == comps@[0]@);
        }
    }
    let mut i = start;
    let ghost prefix = r@;
    let ghost rest = cv.skip(start as int);
    assert(rest.take(0) =~= Seq::<Seq<char>>::empty());
    while i < n
        invariant
            start <= i <= n,
            n == comps@.len(),
            cv == comps.deep_view(),
            rest == cv.skip(start as int),
            r@ == prefix + join_components(rest.take(i - start)),
        decreases n - i,
    {
        proof {
            reveal_strlit("/");
            assert(rest.take(i + 1 - start).drop_last() =~= rest.take(i - start));
            assert(rest.take(i + 1 - start).last() == comps@[i as int]@);
        }
        if i > start {
            r.append("/");
        }
        r.append(comps[i].as_str());
        i = i + 1;
        proof {
            if i - 1 == start {
                assert(rest.take(i - start) =~= seq![comps@[start as int]@]);
            }
            assert(r@ =~= prefix + join_components(rest.take(i - start)));
        }
    }
    assert(rest.take(n - start) =~= rest);
    if start == 1 {
        assert(rest =~= cv.drop_first());
    } else {
        assert(rest =~= cv);
        assert(prefix =~= Seq::<char>::empty());
    }
    r
}

/// Whether some of the first `k` lower layers holds the path, asking from the lowest up;
/// a failing question stops the search.
pub open spec fn lower_any(lowers: Seq<Map<Seq<char>, Node>>, comps: Seq<Seq<char>>, k: nat) -> Result<bool, FindFault>
    decreases k,
{
    if k == 0 {
        Ok(false)
    } else {
        match lower_any(lowers, comps, (k - 1) as nat) {
            Err(f) => Err(f),
            Ok(true) => Ok(true),
            Ok(false) => probe(lowers[k - 1], comps),
        }
    }
}

/// What copying a parent directory up into the top layer does once the parents above it are
/// there (`r1`, leaving the top layer `t1`): the directory is created, and given the metadata
/// of the highest lower layer that holds it.
pub open spec fn copy_up_rest(
    t1: Map<Seq<char>, Node>,
    top1: Map<Seq<char>, Node>,
    lowers: Seq<Map<Seq<char>, Node>>,
    p: Seq<Seq<char>>,
    r1: VfsResult<()>,
    r: VfsResult<()>,
) -> bool {
    if r1 is Err {
        r == r1 && top1 == t1
    } else {
        exists|t2: Map<Seq<char>, Node>, r2: VfsResult<()>| #[trigger] create_rel(t1, t2, p, comps_text(p), false, fresh_dir(), r2)
            && (if r2 is Err {
            r == r2 && top1 == t2
        } else {
            match lower_probe(lowers, p, lowers.len()) {
                Err(f) => r matches Err(e) && fault_matches(e, f) && top1 == t2,
                Ok(None) => r is Ok && top1 == t2,
                Ok(Some(i)) => set_meta_rel(t2, top1, p, comps_text(p), node_metadata(lookup(lowers[i], p)->Found_0), r),
            }
        })
    }
}

/// Whether `r` and the top layer `top1` are the outcome of making sure that the parent of the
/// path is a directory of the top layer `top0`: a parent that a whiteout in its own parent
/// hides, or that no layer holds, is not found; a parent missing from the top layer is copied
/// up from the lower layers, its own parents first.
pub open spec fn ensure_parent_rel(
    top0: Map<Seq<char>, Node>,
    top1: Map<Seq<char>, Node>,
    lowers: Seq<Map<Seq<char>, Node>>,
    comps: Seq<Seq<char>>,
    r: VfsResult<()>,
) -> bool
    decreases comps.len(),
{
    if !has_parent(comps) || comps.len() <= 1 {
        r is Ok && top1 == top0
    } else {
        let p = comps.drop_last();
        let wcheck: Result<bool, FindFault> = if has_parent(p) && file_name_of(p) is Some {
            probe(top0, whiteout_of(p)->Some_0)
        } else {
            Ok(false)
        };
        match wcheck {
            Err(f) => r matches Err(e) && fault_matches(e, f) && top1 == top0,
            Ok(true) => r matches Err(VfsError::ParentDirectoryNotFound(t)) && t@ == comps_text(p) && top1 == top0,
            Ok(false) => match probe(top0, p) {
                Err(f) => r matches Err(e) && fault_matches(e, f) && top1 == top0,
                Ok(true) => r is Ok && top1 == top0,
                Ok(false) => match lower_any(lowers, p, lowers.len()) {
                    Err(f) => r matches Err(e) && fault_matches(e, f) && top1 == top0,
                    Ok(false) => r matches Err(VfsError::ParentDirectoryNotFound(t)) && t@ == comps_text(p) && top1 == top0,
                    Ok(true) => exists|t1: Map<Seq<char>, Node>, r1: VfsResult<()>| ensure_parent_rel(
                        top0,
                        t1,
                        lowers,
                        p,
                        r1,
                    ) && #[trigger] copy_up_rest(t1, top1, lowers, p, r1, r),
                },
            },
        }
    }
}

/// Once the search from the lowest layer up stops, it stays stopped.
proof fn lemma_lower_any_stays(lowers: Seq<Map<Seq<char>, Node>>, comps: Seq<Seq<char>>, k: nat, n: nat)
    requires
        k <= n,
    ensures
        !(lower_any(lowers, comps, k) == Result::<bool, FindFault>::Ok(false)) ==> lower_any(lowers, comps, n) == lower_any(
            lowers,
            comps,
            k,
        ),
    decreases n - k,
{
    if k < n {
        lemma_lower_any_stays(lowers, comps, k, (n - 1) as nat);
    }
}

impl OverlayFileSystem {
    /// Whether some lower layer holds the path, asking from the lowest up.
    fn lower_any_at(&self, comps: &Vec<String>) -> (r: VfsResult<bool>)
        requires
            self.wf(),
        ensures
            match lower_any(self.lowers(), comps.deep_view(), self.lowers().len()) {
                Ok(b) => r == VfsResult::<bool>::Ok(b),
                Err(f) => r matches Err(e) && fault_matches(e, f),
            },
    {
        let ghost lv = self.lowers();
        let ghost cv = comps.deep_view();
        let n = self.lower_layers.len();
        let mut k: usize = 0;
        while k < n
            invariant
                self.wf(),
                lv == self.lowers(),
                cv == comps.deep_view(),
                n == lv.len(),
                k <= n,
                lower_any(lv, cv, k as nat) == Result::<bool, FindFault>::Ok(false),
            decreases n - k,
        {
            proof {
                lemma_lower_any_stays(lv, cv, (k + 1) as nat, n as nat);
            }
            let found = probe_layer(&self.lower_layers[k], comps)?;
            if found {
                return Ok(true);
            }
            k = k + 1;
        }
        Ok(false)
    }

    /// Makes sure that the parent of the path (given by its components) is a directory of the
    /// top layer, copying it and its own parents up from the lower layers where needed.
    fn ensure_parent_in_top(&mut self, comps: &Vec<String>) -> (r: VfsResult<()>)
        requires
            old(self).wf(),
        ensures
            final(self).wf(),
            final(self).lowers() == old(self).lowers(),
            ensure_parent_rel(old(self).top(), final(self).top(), old(self).lowers(), comps.deep_view(), r),
        decreases comps@.len(),
    {
        let n = comps.len();
        if !path_has_parent(comps) || n <= 1 {
            return Ok(());
        }
        let p = parent_copy(comps);
        let ghost pv = p.deep_view();
        if path_has_parent(&p) {
            let pn = p.len();
            assert(pv.last() == p@[pn - 1]@);
            if !component_is_special(p[pn - 1].as_str()) {
                let pw = match whiteout_comps(&p) {
                    Some(w) => w,
                    None => return Ok(()),
                };
                if probe_layer(&self.top_layer, &pw)? {
                    return Err(VfsError::ParentDirectoryNotFound(text_of(&p)));
                }
            }
        }
        if probe_layer(&self.top_layer, &p)? {
            return Ok(());
        }
        if !self.lower_any_at(&p)? {
            return Err(VfsError::ParentDirectoryNotFound(text_of(&p)));
        }
        let ghost t0 = self.top();
        let ghost lv = self.lowers();
        let ghost cv = comps.deep_view();
        assert(pv == cv.drop_last());
        assert(probe(t0, pv) == Result::<bool, FindFault>::Ok(false));
        assert(lower_any(lv, pv, lv.len()) == Result::<bool, FindFault>::Ok(true));
        let ghost wcheck: Result<bool, FindFault> = if has_parent(pv) && file_name_of(pv) is Some {
            probe(t0, whiteout_of(pv)->Some_0)
        } else {
            Ok(false)
        };
        assert(wcheck == Result::<bool, FindFault>::Ok(false));
        let r1 = self.ensure_parent_in_top(&p);
        let ghost t1 = self.top();
        assert(ensure_parent_rel(t0, t1, lv, pv, r1));
        if r1.is_err() {
            proof {
                assert(has_parent(cv) && cv.len() > 1);
                assert(copy_up_rest(t1, t1, lv, pv, r1, r1));
                assert(exists|a: Map<Seq<char>, Node>, b: VfsResult<()>| #[trigger] ensure_parent_rel(t0, a, lv, pv, b)
                    && copy_up_rest(a, t1, lv, pv, b, r1));
                assert(ensure_parent_rel(t0, t1, lv, cv, r1));
            }
            return r1;
        }
        let text = text_of(&p);
        let r2 = self.top_layer.create_directory_at(text.as_str(), &p);
        let ghost t2 = self.top();
        assert(create_rel(t1, t2, pv, comps_text(pv), false, fresh_dir(), r2));
        let r = if r2.is_err() {
            r2
        } else {
            match self.find_lower(&p) {
                Err(e) => Err(e),
                Ok(None) => Ok(()),
                Ok(Some(i)) => {
                    proof {
                        lemma_lower_probe_found(lv, pv, lv.len());
                    }
                    match self.lower_layers[i].get_metadata_at(text.as_str(), &p) {
                        Ok(md) => self.top_layer.set_metadata_at(text.as_str(), &p, md),
                        Err(e) => Err(e),
                    }
                },
            }
        };
        proof {
            let t3 = self.top();
            assert(copy_up_rest(t1, t3, lv, pv, r1, r));
            assert(ensure_parent_rel(t0, t3, lv, cv, r));
        }
        r
    }
}

/// A path that a layer holds ends in a name, so it has a whiteout.
proof fn lemma_found_has_name(m: Map<Seq<char>, Node>, comps: Seq<Seq<char>>)
    requires
        lookup(m, comps) is Found,
    ensures
        file_name_of(comps) == Some(comps.last()),
        whiteout_of(comps) is Some,
{
    assert(seq!['/'].contains('/')) by {
        assert(seq!['/'][0] == '/');
    }
}

/// A path that the overlay can answer for (not a whiteout name) has a whiteout.
proof fn lemma_answerable_has_whiteout(top: Map<Seq<char>, Node>, lowers: Seq<Map<Seq<char>, Node>>, comps: Seq<Seq<char>>)
    requires
        overlay_exists(top, lowers, comps) is Ok,
    ensures
        whiteout_of(comps) is Some,
{
    if probe(top, comps) == Result::<bool, FindFault>::Ok(true) {
        lemma_found_has_name(top, comps);
    } else if is_whiteout_path(comps) {
    }
}

/// What making an entry where a whiteout may stand does to the top layer `t1`: a whiteout at
/// `w` is removed first, then `make` relates the layer to the outcome.
pub open spec fn clear_whiteout_then(
    t1: Map<Seq<char>, Node>,
    top1: Map<Seq<char>, Node>,
    w: Seq<Seq<char>>,
    make: spec_fn(Map<Seq<char>, Node>, Map<Seq<char>, Node>, VfsResult<()>) -> bool,
    r: VfsResult<()>,
) -> bool {
    match probe(t1, w) {
        Err(f) => r matches Err(e) && fault_matches(e, f) && top1 == t1,
        Ok(false) => make(t1, top1, r),
        Ok(true) => exists|t2: Map<Seq<char>, Node>, r2: VfsResult<()>| #[trigger] remove_rel(t1, t2, w, comps_text(w), false, r2)
            && (if r2 is Err {
            r == r2 && top1 == t2
        } else {
            make(t2, top1, r)
        }),
    }
}

/// What creating an entry does once its parent is made sure of (`r1`, leaving `t1`): whiteout
/// names cannot be created; a whiteout of the path is cleared, then `make` makes the entry.
pub open spec fn create_rest(
    t1: Map<Seq<char>, Node>,
    top1: Map<Seq<char>, Node>,
    cv: Seq<Seq<char>>,
    make: spec_fn(Map<Seq<char>, Node>, Map<Seq<char>, Node>, VfsResult<()>) -> bool,
    r1: VfsResult<()>,
    r: VfsResult<()>,
) -> bool {
    if r1 is Err {
        r == r1 && top1 == t1
    } else if is_whiteout_path(cv) {
        r matches Err(VfsError::Io(_)) && top1 == t1
    } else {
        clear_whiteout_then(t1, top1, whiteout_of(cv)->Some_0, make, r)
    }
}

/// Whether `r` and the top layer `top1` are the outcome of creating a file at the path in
/// the overlay: an existing path is an error unless `exists_ok`; the parent is copied up;
/// whiteout names are refused; a whiteout of the path is removed; the file is made in the top
/// layer.
pub open spec fn create_file_rel(
    top0: Map<Seq<char>, Node>,
    top1: Map<Seq<char>, Node>,
    lowers: Seq<Map<Seq<char>, Node>>,
    cv: Seq<Seq<char>>,
    path: Seq<char>,
    exists_ok: bool,
    r: VfsResult<()>,
) -> bool {
    match overlay_exists(top0, lowers, cv) {
        Err(f) => r matches Err(e) && ov_fault_matches(e, f) && top1 == top0,
        Ok(ex) => if ex && !exists_ok {
            r matches Err(VfsError::AlreadyExists(p)) && p@ == path && top1 == top0
        } else {
            exists|t1: Map<Seq<char>, Node>, r1: VfsResult<()>| #[trigger] ensure_parent_rel(top0, t1, lowers, cv, r1)
                && create_rest(
                t1,
                top1,
                cv,
                |a: Map<Seq<char>, Node>, b: Map<Seq<char>, Node>, rr: VfsResult<()>| create_rel(a, b, cv, path, exists_ok, fresh_file(), rr),
                r1,
                r,
            )
        },
    }
}

/// Whether creating a directory at the path would reach the point where it needs the path's
/// last name while the path has a parent but ends in no name: the top layer does not hold it
/// and its parent can be made sure of.
pub open spec fn create_directory_lacks_name(top0: Map<Seq<char>, Node>, lowers: Seq<Map<Seq<char>, Node>>, cv: Seq<Seq<char>>) -> bool {
    &&& probe(top0, cv) == Result::<bool, FindFault>::Ok(false)
    &&& whiteout_of(cv) is None
    &&& exists|t1: Map<Seq<char>, Node>| #[trigger] ensure_parent_rel(top0, t1, lowers, cv, Ok(()))
}

/// Whether `r` and the top layer `top1` are the outcome of creating a directory at the path:
/// a path that the top layer holds is an error; the parent is copied up; whiteout names are
/// refused; a whiteout of the path is removed; the directory is made in the top layer.
pub open spec fn create_directory_rel(
    top0: Map<Seq<char>, Node>,
    top1: Map<Seq<char>, Node>,
    lowers: Seq<Map<Seq<char>, Node>>,
    cv: Seq<Seq<char>>,
    path: Seq<char>,
    r: VfsResult<()>,
) -> bool {
    match probe(top0, cv) {
        Err(f) => r matches Err(e) && fault_matches(e, f) && top1 == top0,
        Ok(true) => r matches Err(VfsError::AlreadyExists(p)) && p@ == path && top1 == top0,
        Ok(false) => exists|t1: Map<Seq<char>, Node>, r1: VfsResult<()>| #[trigger] ensure_parent_rel(top0, t1, lowers, cv, r1)
            && create_rest(
            t1,
            top1,
            cv,
            |a: Map<Seq<char>, Node>, b: Map<Seq<char>, Node>, rr: VfsResult<()>| create_rel(a, b, cv, path, false, fresh_dir(), rr),
            r1,
            r,
        ),
    }
}

/// What creating a symbolic link to `target` does to the top layer `t1`: an empty target is
/// refused, any other is made with `create_rel`.
pub open spec fn link_rel(
    t1: Map<Seq<char>, Node>,
    top1: Map<Seq<char>, Node>,
    cv: Seq<Seq<char>>,
    path: Seq<char>,
    target: Seq<char>,
    r: VfsResult<()>,
) -> bool {
    if target.len() == 0 {
        r matches Err(VfsError::InvalidSymlinkTarget(t)) && t@ == target && top1 == t1
    } else {
        create_rel(t1, top1, cv, path, false, fresh_link(target), r)
    }
}

/// Whether `r` and the top layer `top1` are the outcome of creating a symbolic link at the
/// path: an existing path is an error; the parent is copied up; whiteout names are refused;
/// the link is made in the top layer.
pub open spec fn create_symlink_rel(
    top0: Map<Seq<char>, Node>,
    top1: Map<Seq<char>, Node>,
    lowers: Seq<Map<Seq<char>, Node>>,
    cv: Seq<Seq<char>>,
    path: Seq<char>,
    target: Seq<char>,
    r: VfsResult<()>,
) -> bool {
    match overlay_exists(top0, lowers, cv) {
        Err(f) => r matches Err(e) && ov_fault_matches(e, f) && top1 == top0,
        Ok(true) => r matches Err(VfsError::AlreadyExists(p)) && p@ == path && top1 == top0,
        Ok(false) => exists|t1: Map<Seq<char>, Node>, r1: VfsResult<()>| #[trigger] ensure_parent_rel(top0, t1, lowers, cv, r1)
            && (if r1 is Err {
            r == r1 && top1 == t1
        } else if is_whiteout_path(cv) {
            r matches Err(VfsError::Io(_)) && top1 == t1
        } else {
            link_rel(t1, top1, cv, path, target, r)
        }),
    }
}

impl OverlayFileSystem {
    /// Removes the whiteout with components `w` from the top layer, if it holds one.
    fn clear_whiteout(&mut self, w: &Vec<String>) -> (r: VfsResult<()>)
        requires
            old(self).wf(),
        ensures
            final(self).wf(),
            final(self).lowers() == old(self).lowers(),
            match probe(old(self).top(), w.deep_view()) {
                Err(f) => r matches Err(e) && fault_matches(e, f) && final(self).top() == old(self).top(),
                Ok(false) => r is Ok && final(self).top() == old(self).top(),
                Ok(true) => remove_rel(old(self).top(), final(self).top(), w.deep_view(), comps_text(w.deep_view()), false, r),
            },
    {
        if probe_layer(&self.top_layer, w)? {
            let text = text_of(w);
            self.top_layer.remove_at(text.as_str(), w)
        } else {
            Ok(())
        }
    }

    /// `create_file` for a path given together with its components.
    pub fn create_file_at(&mut self, path: &str, comps: &Vec<String>, exists_ok: bool) -> (r: VfsResult<()>)
        requires
            old(self).wf(),
        ensures
            final(self).wf(),
            final(self).lowers() == old(self).lowers(),
            create_file_rel(old(self).top(), final(self).top(), old(self).lowers(), comps.deep_view(), path@, exists_ok, r),
    {
        let ghost t0 = self.top();
        let ghost lv = self.lowers();
        let ghost cv = comps.deep_view();
        let ghost make = |a: Map<Seq<char>, Node>, b: Map<Seq<char>, Node>, rr: VfsResult<()>| create_rel(a, b, cv, path@, exists_ok, fresh_file(), rr);
        let ex = self.path_exists_at(comps)?;
        if ex && !exists_ok {
            return Err(VfsError::AlreadyExists(copy_str(path)));
        }
        proof {
            lemma_answerable_has_whiteout(t0, lv, cv);
        }
        let r1 = self.ensure_parent_in_top(comps);
        let ghost t1 = self.top();
        let r = if r1.is_err() {
            r1
        } else if path_is_whiteout(comps) {
            Err(VfsError::Io(invalid_input_error("Cannot create whiteout files directly")))
        } else {
            let w = match whiteout_comps(comps) {
                Some(w) => w,
                None => {
                    assert(false);
                    return Ok(());
                },
            };
            let rc = self.clear_whiteout(&w);
            let ghost t2 = self.top();
            if rc.is_err() {
                rc
            } else {
                let r = self.top_layer.create_file_at(path, comps, exists_ok);
                assert(make(t2, self.top(), r));
                r
            }
        };
        proof {
            assert(create_rest(t1, self.top(), cv, make, r1, r));
        }
        r
    }

    /// Creates a file at the path in the top layer, copying its parent up first; an existing
    /// path gives `AlreadyExists` unless `exists_ok`.
    pub fn create_file(&mut self, path: &str, exists_ok: bool) -> (r: VfsResult<()>)
        requires
            old(self).wf(),
        ensures
            final(self).wf(),
            final(self).lowers() == old(self).lowers(),
            create_file_rel(old(self).top(), final(self).top(), old(self).lowers(), std_path_components(path@), path@, exists_ok, r),
    {
        let comps = path_components(path);
        self.create_file_at(path, &comps, exists_ok)
    }
}

impl OverlayFileSystem {
    /// `create_directory` for a path given together with its components.
    pub fn create_directory_at(&mut self, path: &str, comps: &Vec<String>) -> (r: VfsResult<()>)
        requires
            old(self).wf(),
            !create_directory_lacks_name(old(self).top(), old(self).lowers(), comps.deep_view()),
        ensures
            final(self).wf(),
            final(self).lowers() == old(self).lowers(),
            create_directory_rel(old(self).top(), final(self).top(), old(self).lowers(), comps.deep_view(), path@, r),
    {
        let ghost t0 = self.top();
        let ghost lv = self.lowers();
        let ghost cv = comps.deep_view();
        let ghost make = |a: Map<Seq<char>, Node>, b: Map<Seq<char>, Node>, rr: VfsResult<()>| create_rel(a, b, cv, path@, false, fresh_dir(), rr);
        if probe_layer(&self.top_layer, comps)? {
            return Err(VfsError::AlreadyExists(copy_str(path)));
        }
        let r1 = self.ensure_parent_in_top(comps);
        let ghost t1 = self.top();
        let r = if r1.is_err() {
            r1
        } else if path_is_whiteout(comps) {
            Err(VfsError::Io(invalid_input_error("Cannot create whiteout files directly")))
        } else {
            let w = match whiteout_comps(comps) {
                Some(w) => w,
                None => {
                    proof {
                        assert(r1 matches Ok(u) && u == ());
                        assert(r1 == VfsResult::<()>::Ok(()));
                        assert(ensure_parent_rel(t0, t1, lv, cv, Ok(())));
                        assert(create_directory_lacks_name(t0, lv, cv));
                    }
                    return Ok(());
                },
            };
            let rc = self.clear_whiteout(&w);
            let ghost t2 = self.top();
            if rc.is_err() {
                rc
            } else {
                let r = self.top_layer.create_directory_at(path, comps);
                assert(make(t2, self.top(), r));
                r
            }
        };
        proof {
            assert(create_rest(t1, self.top(), cv, make, r1, r));
        }
        r
    }

    /// Creates a directory at the path in the top layer, copying its parent up first; a path
    /// that the top layer holds gives `AlreadyExists`.
    pub fn create_directory(&mut self, path: &str) -> (r: VfsResult<()>)
        requires
            old(self).wf(),
            !create_directory_lacks_name(old(self).top(), old(self).lowers(), std_path_components(path@)),
        ensures
            final(self).wf(),
            final(self).lowers() == old(self).lowers(),
            create_directory_rel(old(self).top(), final(self).top(), old(self).lowers(), std_path_components(path@), path@, r),
    {
        let comps = path_components(path);
        self.create_directory_at(path, &comps)
    }

    /// `create_symlink` for a path given together with its components.
    pub fn create_symlink_at(&mut self, path: &str, comps: &Vec<String>, target: &str) -> (r: VfsResult<()>)
        requires
            old(self).wf(),
        ensures
            final(self).wf(),
            final(self).lowers() == old(self).lowers(),
            create_symlink_rel(old(self).top(), final(self).top(), old(self).lowers(), comps.deep_view(), path@, target@, r),
    {
        if self.path_exists_at(comps)? {
            return Err(VfsError::AlreadyExists(copy_str(path)));
        }
        self.ensure_parent_in_top(comps)?;
        if path_is_whiteout(comps) {
            return Err(VfsError::Io(invalid_input_error("Cannot create whiteout files directly")));
        }
        self.top_layer.create_symlink_at(path, comps, target)
    }

    /// Creates a symbolic link to `target` at the path in the top layer, copying its parent up
    /// first; an existing path gives `AlreadyExists`.
    pub fn create_symlink(&mut self, path: &str, target: &str) -> (r: VfsResult<()>)
        requires
            old(self).wf(),
        ensures
            final(self).wf(),
            final(self).lowers() == old(self).lowers(),
            create_symlink_rel(old(self).top(), final(self).top(), old(self).lowers(), std_path_components(path@), path@, target@, r),
    {
        let comps = path_components(path);
        self.create_symlink_at(path, &comps, target)
    }
}

/// What removing a path held only by lower layers does once its parent is made sure of
/// (`r1`, leaving `t1`): a whiteout of the path is cleared and made again, as an empty file.
pub open spec fn whiteout_rest(
    t1: Map<Seq<char>, Node>,
    top1: Map<Seq<char>, Node>,
    cv: Seq<Seq<char>>,
    r1: VfsResult<()>,
    r: VfsResult<()>,
) -> bool {
    if r1 is Err {
        r == r1 && top1 == t1
    } else {
        let w = whiteout_of(cv)->Some_0;
        clear_whiteout_then(
            t1,
            top1,
            w,
            |a: Map<Seq<char>, Node>, b: Map<Seq<char>, Node>, rr: VfsResult<()>| create_rel(a, b, w, comps_text(w), false, fresh_file(), rr),
            r,
        )
    }
}

/// Whether `r` and the top layer `top1` are the outcome of removing the path from the
/// overlay: whiteout names are not found; an entry of the top layer is removed there; an
/// entry held only by lower layers is hidden by a whiteout made in the top layer.
pub open spec fn remove_ov_rel(
    top0: Map<Seq<char>, Node>,
    top1: Map<Seq<char>, Node>,
    lowers: Seq<Map<Seq<char>, Node>>,
    cv: Seq<Seq<char>>,
    path: Seq<char>,
    r: VfsResult<()>,
) -> bool {
    if is_whiteout_path(cv) {
        r matches Err(VfsError::NotFound(p)) && p@ == path && top1 == top0
    } else {
        match probe(top0, cv) {
            Err(f) => r matches Err(e) && fault_matches(e, f) && top1 == top0,
            Ok(true) => remove_rel(top0, top1, cv, path, false, r),
            Ok(false) => match lower_probe(lowers, cv, lowers.len()) {
                Err(f) => r matches Err(e) && fault_matches(e, f) && top1 == top0,
                Ok(None) => r matches Err(VfsError::NotFound(p)) && p@ == path && top1 == top0,
                Ok(Some(_)) => exists|t1: Map<Seq<char>, Node>, r1: VfsResult<()>| #[trigger] ensure_parent_rel(top0, t1, lowers, cv, r1)
                    && whiteout_rest(t1, top1, cv, r1, r),
            },
        }
    }
}

/// What a write to a file that the top layer lacks does once its parent is made sure of
/// (`r1`, leaving `t1`): an empty file is made; the content of the highest lower file at the
/// path, if any layer holds it, is copied into it; then the data is written.
pub open spec fn write_rest(
    t1: Map<Seq<char>, Node>,
    top1: Map<Seq<char>, Node>,
    lowers: Seq<Map<Seq<char>, Node>>,
    cv: Seq<Seq<char>>,
    path: Seq<char>,
    offset: u64,
    data: Seq<u8>,
    r1: VfsResult<()>,
    r: VfsResult<()>,
) -> bool {
    if r1 is Err {
        r == r1 && top1 == t1
    } else {
        exists|t2: Map<Seq<char>, Node>, r2: VfsResult<()>| #[trigger] create_rel(t1, t2, cv, path, false, fresh_file(), r2)
            && (if r2 is Err {
            r == r2 && top1 == t2
        } else {
            match lower_probe(lowers, cv, lowers.len()) {
                Ok(Some(i)) => match lookup(lowers[i], cv)->Found_0 {
                    Node::File(_, c) => exists|t3: Map<Seq<char>, Node>, r3: VfsResult<()>| #[trigger] write_rel(
                        t2,
                        t3,
                        cv,
                        path,
                        0,
                        read_range(c, 0, u64::MAX as int),
                        r3,
                    ) && (if r3 is Err {
                        r == r3 && top1 == t3
                    } else {
                        write_rel(t3, top1, cv, path, offset, data, r)
                    }),
                    _ => r matches Err(VfsError::NotAFile(p)) && p@.len() == 0 && top1 == t2,
                },
                _ => write_rel(t2, top1, cv, path, offset, data, r),
            }
        })
    }
}

/// Whether `r` and the top layer `top1` are the outcome of writing `data` at `offset` to the
/// file at the path: whiteout names are not found; a file of the top layer is written there;
/// any other is first copied up (or made empty) in the top layer.
pub open spec fn write_ov_rel(
    top0: Map<Seq<char>, Node>,
    top1: Map<Seq<char>, Node>,
    lowers: Seq<Map<Seq<char>, Node>>,
    cv: Seq<Seq<char>>,
    path: Seq<char>,
    offset: u64,
    data: Seq<u8>,
    r: VfsResult<()>,
) -> bool {
    if is_whiteout_path(cv) {
        r matches Err(VfsError::NotFound(p)) && p@ == path && top1 == top0
    } else {
        match probe(top0, cv) {
            Err(f) => r matches Err(e) && fault_matches(e, f) && top1 == top0,
            Ok(true) => write_rel(top0, top1, cv, path, offset, data, r),
            Ok(false) => match lower_probe(lowers, cv, lowers.len()) {
                Err(f) => r matches Err(e) && fault_matches(e, f) && top1 == top0,
                Ok(_) => exists|t1: Map<Seq<char>, Node>, r1: VfsResult<()>| #[trigger] ensure_parent_rel(top0, t1, lowers, cv, r1)
                    && write_rest(t1, top1, lowers, cv, path, offset, data, r1, r),
            },
        }
    }
}

impl OverlayFileSystem {
    /// `remove` for a path given together with its components.
    pub fn remove_at(&mut self, path: &str, comps: &Vec<String>) -> (r: VfsResult<()>)
        requires
            old(self).wf(),
        ensures
            final(self).wf(),
            final(self).lowers() == old(self).lowers(),
            remove_ov_rel(old(self).top(), final(self).top(), old(self).lowers(), comps.deep_view(), path@, r),
    {
        let ghost t0 = self.top();
        let ghost lv = self.lowers();
        let ghost cv = comps.deep_view();
        if path_is_whiteout(comps) {
            return Err(VfsError::NotFound(copy_str(path)));
        }
        if probe_layer(&self.top_layer, comps)? {
            return self.top_layer.remove_at(path, comps);
        }
        let found = self.find_lower(comps)?;
        if found.is_none() {
            return Err(VfsError::NotFound(copy_str(path)));
        }
        proof {
            lemma_lower_probe_found(lv, cv, lv.len());
            lemma_found_has_name(lv[found->Some_0 as int], cv);
        }
        let r1 = self.ensure_parent_in_top(comps);
        let ghost t1 = self.top();
        let r = if r1.is_err() {
            r1
        } else {
            let w = match whiteout_comps(comps) {
                Some(w) => w,
                None => {
                    assert(false);
                    return Ok(());
                },
            };
            let ghost wv = w.deep_view();
            let ghost make = |a: Map<Seq<char>, Node>, b: Map<Seq<char>, Node>, rr: VfsResult<()>| create_rel(a, b, wv, comps_text(wv), false, fresh_file(), rr);
            let rc = self.clear_whiteout(&w);
            let ghost t2 = self.top();
            if rc.is_err() {
                rc
            } else {
                let text = text_of(&w);
                let r = self.top_layer.create_file_at(text.as_str(), &w, false);
                assert(make(t2, self.top(), r));
                r
            }
        };
        proof {
            assert(whiteout_rest(t1, self.top(), cv, r1, r));
        }
        r
    }

    /// Removes the path: an entry of the top layer is removed there, one held only by lower
    /// layers is hidden by a whiteout.
    pub fn remove(&mut self, path: &str) -> (r: VfsResult<()>)
        requires
            old(self).wf(),
        ensures
            final(self).wf(),
            final(self).lowers() == old(self).lowers(),
            remove_ov_rel(old(self).top(), final(self).top(), old(self).lowers(), std_path_components(path@), path@, r),
    {
        let comps = path_components(path);
        self.remove_at(path, &comps)
    }

    /// `write_file` for a path given together with its components.
    pub fn write_file_at(&mut self, path: &str, comps: &Vec<String>, offset: u64, data: Vec<u8>) -> (r: VfsResult<()>)
        requires
            old(self).wf(),
            offset <= usize::MAX ==> offset + data@.len() <= usize::MAX,
        ensures
            final(self).wf(),
            final(self).lowers() == old(self).lowers(),
            write_ov_rel(old(self).top(), final(self).top(), old(self).lowers(), comps.deep_view(), path@, offset, data@, r),
    {
        let ghost t0 = self.top();
        let ghost lv = self.lowers();
        let ghost cv = comps.deep_view();
        let ghost dv = data@;
        if path_is_whiteout(comps) {
            return Err(VfsError::NotFound(copy_str(path)));
        }
        if probe_layer(&self.top_layer, comps)? {
            return self.top_layer.write_file_at(path, comps, offset, data);
        }
        let found = self.find_lower(comps)?;
        let r1 = self.ensure_parent_in_top(comps);
        let ghost t1 = self.top();
        if r1.is_err() {
            return r1;
        }
        let r2 = self.top_layer.create_file_at(path, comps, false);
        let ghost t2 = self.top();
        if r2.is_err() {
            proof {
                assert(write_rest(t1, t2, lv, cv, path@, offset, dv, r1, r2));
            }
            return r2;
        }
        let r = match found {
            None => self.top_layer.write_file_at(path, comps, offset, data),
            Some(i) => {
                proof {
                    lemma_lower_probe_found(lv, cv, lv.len());
                }
                match self.lower_layers[i].read_file_at(path, comps, 0, u64::MAX) {
                    Err(e) => Err(e),
                    Ok(content) => {
                        let cl = content.len();
                        assert(content@.len() == cl);
                        let r3 = self.top_layer.write_file_at(path, comps, 0, content);
                        let ghost t3 = self.top();
                        if r3.is_err() {
                            r3
                        } else {
                            let r = self.top_layer.write_file_at(path, comps, offset, data);
                            assert(write_rel(t3, self.top(), cv, path@, offset, dv, r));
                            r
                        }
                    },
                }
            },
        };
        proof {
            assert(write_rest(t1, self.top(), lv, cv, path@, offset, dv, r1, r));
        }
        r
    }

    /// Writes `data` at `offset` into the file at the path, copying it up into the top layer
    /// first when only a lower layer holds it (or making it empty when none does).
    pub fn write_file(&mut self, path: &str, offset: u64, data: Vec<u8>) -> (r: VfsResult<()>)
        requires
            old(self).wf(),
            offset <= usize::MAX ==> offset + data@.len() <= usize::MAX,
        ensures
            final(self).wf(),
            final(self).lowers() == old(self).lowers(),
            write_ov_rel(old(self).top(), final(self).top(), old(self).lowers(), std_path_components(path@), path@, offset, data@, r),
    {
        let comps = path_components(path);
        self.write_file_at(path, &comps, offset, data)
    }
}

/// What copying the lower entry `n` up to the path does to the top layer `t2`, by the type
/// that its metadata gives: a directory is made empty; a symbolic link is made with the
/// lower link's target; anything else is made a file with the lower file's content.
pub open spec fn copy_entry_rel(
    t2: Map<Seq<char>, Node>,
    t3: Map<Seq<char>, Node>,
    cv: Seq<Seq<char>>,
    path: Seq<char>,
    n: Node,
    r: VfsResult<()>,
) -> bool {
    let kind = type_of(node_metadata(n).spec_mode().0);
    if kind == Some(ModeType::Directory) {
        create_rel(t2, t3, cv, path, false, fresh_dir(), r)
    } else if kind == Some(ModeType::Symlink) {
        match n {
            Node::Symlink(_, target) => link_rel(t2, t3, cv, path, target, r),
            _ => r matches Err(VfsError::NotASymlink(p)) && p@.len() == 0 && t3 == t2,
        }
    } else {
        exists|ta: Map<Seq<char>, Node>, ra: VfsResult<()>| #[trigger] create_rel(t2, ta, cv, path, false, fresh_file(), ra)
            && (if ra is Err {
            r == ra && t3 == ta
        } else {
            match n {
                Node::File(_, c) => write_rel(ta, t3, cv, path, 0, read_range(c, 0, u64::MAX as int), r),
                _ => r matches Err(VfsError::NotAFile(p)) && p@.len() == 0 && t3 == ta,
            }
        })
    }
}

/// What a rename does once the old path's parent is made sure of (`r2`, leaving `t2`) when
/// only lower layers hold the old path: the entry is copied up, renamed in the top layer, and
/// its old path hidden by a whiteout.
pub open spec fn rename_copied(
    t2: Map<Seq<char>, Node>,
    top1: Map<Seq<char>, Node>,
    lowers: Seq<Map<Seq<char>, Node>>,
    ov: Seq<Seq<char>>,
    nv: Seq<Seq<char>>,
    ot: Seq<char>,
    nt: Seq<char>,
    r2: VfsResult<()>,
    r: VfsResult<()>,
) -> bool {
    if r2 is Err {
        r == r2 && top1 == t2
    } else {
        match lower_probe(lowers, ov, lowers.len()) {
            Err(f) => r matches Err(e) && fault_matches(e, f) && top1 == t2,
            Ok(None) => r matches Err(VfsError::NotFound(p)) && p@ == ot && top1 == t2,
            Ok(Some(i)) => exists|t3: Map<Seq<char>, Node>, r3: VfsResult<()>| #[trigger] copy_entry_rel(
                t2,
                t3,
                ov,
                ot,
                lookup(lowers[i], ov)->Found_0,
                r3,
            ) && (if r3 is Err {
                r == r3 && top1 == t3
            } else {
                exists|t4: Map<Seq<char>, Node>, r4: VfsResult<()>| #[trigger] rename_matches(t3, t4, ov, nv, ot, nt, r4) && (if r4 is Err {
                    r == r4 && top1 == t4
                } else {
                    create_rel(t4, top1, whiteout_of(ov)->Some_0, comps_text(whiteout_of(ov)->Some_0), false, fresh_file(), r)
                })
            }),
        }
    }
}

/// What a rename does once the new path's parent is made sure of (`r1`, leaving `t1`): an
/// old path that the top layer holds is renamed there; any other is copied up first.
pub open spec fn rename_rest(
    t1: Map<Seq<char>, Node>,
    top1: Map<Seq<char>, Node>,
    lowers: Seq<Map<Seq<char>, Node>>,
    ov: Seq<Seq<char>>,
    nv: Seq<Seq<char>>,
    ot: Seq<char>,
    nt: Seq<char>,
    r1: VfsResult<()>,
    r: VfsResult<()>,
) -> bool {
    if r1 is Err {
        r == r1 && top1 == t1
    } else {
        match probe(t1, ov) {
            Err(f) => r matches Err(e) && fault_matches(e, f) && top1 == t1,
            Ok(true) => rename_matches(t1, top1, ov, nv, ot, nt, r),
            Ok(false) => exists|t2: Map<Seq<char>, Node>, r2: VfsResult<()>| #[trigger] ensure_parent_rel(t1, t2, lowers, ov, r2)
                && rename_copied(t2, top1, lowers, ov, nv, ot, nt, r2, r),
        }
    }
}

/// Whether `r` and the top layer `top1` are the outcome of renaming `ov` (text `ot`) to `nv`
/// (text `nt`) in the overlay: an existing new path is an error; the new path's parent is
/// copied up; the entry is moved in the top layer, copied up first when only a lower layer
/// holds it, in which case a whiteout hides the old path.
pub open spec fn rename_ov_rel(
    top0: Map<Seq<char>, Node>,
    top1: Map<Seq<char>, Node>,
    lowers: Seq<Map<Seq<char>, Node>>,
    ov: Seq<Seq<char>>,
    nv: Seq<Seq<char>>,
    ot: Seq<char>,
    nt: Seq<char>,
    r: VfsResult<()>,
) -> bool {
    match overlay_exists(top0, lowers, nv) {
        Err(f) => r matches Err(e) && ov_fault_matches(e, f) && top1 == top0,
        Ok(true) => r matches Err(VfsError::AlreadyExists(p)) && p@ == nt && top1 == top0,
        Ok(false) => exists|t1: Map<Seq<char>, Node>, r1: VfsResult<()>| #[trigger] ensure_parent_rel(top0, t1, lowers, nv, r1)
            && rename_rest(t1, top1, lowers, ov, nv, ot, nt, r1, r),
    }
}

/// What replacing the metadata of an entry that only a lower layer holds does once the
/// entry's parent is made sure of in the top layer (`r1`, leaving `t1`): the entry `n` is
/// copied up into the top layer, and its metadata is replaced there.
pub open spec fn set_meta_rest(
    t1: Map<Seq<char>, Node>,
    top1: Map<Seq<char>, Node>,
    cv: Seq<Seq<char>>,
    path: Seq<char>,
    n: Node,
    md: Metadata,
    r1: VfsResult<()>,
    r: VfsResult<()>,
) -> bool {
    if r1 is Err {
        r == r1 && top1 == t1
    } else {
        exists|t2: Map<Seq<char>, Node>, r2: VfsResult<()>| #[trigger] copy_entry_rel(t1, t2, cv, path, n, r2) && (if r2 is Err {
            r == r2 && top1 == t2
        } else {
            set_meta_rel(t2, top1, cv, path, md, r)
        })
    }
}

/// Whether `r` and the top layer `top1` are the outcome of replacing the metadata of the entry
/// at the path with `md`: in the top layer if it holds the path; otherwise the entry of the
/// highest lower layer that holds it is copied up into the top layer first. The lower layers
/// are never changed.
pub open spec fn set_meta_ov_rel(
    top0: Map<Seq<char>, Node>,
    top1: Map<Seq<char>, Node>,
    lowers: Seq<Map<Seq<char>, Node>>,
    cv: Seq<Seq<char>>,
    path: Seq<char>,
    md: Metadata,
    r: VfsResult<()>,
) -> bool {
    match probe(top0, cv) {
        Err(f) => r matches Err(e) && fault_matches(e, f) && top1 == top0,
        Ok(true) => set_meta_rel(top0, top1, cv, path, md, r),
        Ok(false) => match lower_probe(lowers, cv, lowers.len()) {
            Err(f) => r matches Err(e) && fault_matches(e, f) && top1 == top0,
            Ok(None) => r matches Err(VfsError::NotFound(p)) && p@ == path && top1 == top0,
            Ok(Some(i)) => exists|t1: Map<Seq<char>, Node>, r1: VfsResult<()>| #[trigger] ensure_parent_rel(top0, t1, lowers, cv, r1)
                && set_meta_rest(t1, top1, cv, path, lookup(lowers[i], cv)->Found_0, md, r1, r),
        },
    }
}

impl OverlayFileSystem {
    /// Copies the entry that lower layer `i` holds at the path up into the top layer.
    fn copy_up_entry(&mut self, i: usize, path: &str, comps: &Vec<String>) -> (r: VfsResult<()>)
        requires
            old(self).wf(),
            i < old(self).lowers().len(),
            lookup(old(self).lowers()[i as int], comps.deep_view()) is Found,
        ensures
            final(self).wf(),
            final(self).lowers() == old(self).lowers(),
            copy_entry_rel(
                old(self).top(),
                final(self).top(),
                comps.deep_view(),
                path@,
                lookup(old(self).lowers()[i as int], comps.deep_view())->Found_0,
                r,
            ),
    {
        let ghost cv = comps.deep_view();
        let ghost t2 = self.top();
        let md = match self.lower_layers[i].get_metadata_at(path, comps) {
            Ok(md) => md,
            Err(e) => return Err(e),
        };
        match md.get_type() {
            Some(ModeType::Directory) => self.top_layer.create_directory_at(path, comps),
            Some(ModeType::Symlink) => {
                let target = match self.lower_layers[i].read_symlink_at(path, comps) {
                    Ok(t) => t,
                    Err(e) => return Err(e),
                };
                self.top_layer.create_symlink_at(path, comps, target.as_str())
            },
            _ => {
                let ra = self.top_layer.create_file_at(path, comps, false);
                let ghost ta = self.top();
                if ra.is_err() {
                    return ra;
                }
                let content = match self.lower_layers[i].read_file_at(path, comps, 0, u64::MAX) {
                    Ok(c) => c,
                    Err(e) => return Err(e),
                };
                let cl = content.len();
                assert(content@.len() == cl);
                let r = self.top_layer.write_file_at(path, comps, 0, content);
                assert(create_rel(t2, ta, cv, path@, false, fresh_file(), ra));
                r
            },
        }
    }

    /// `rename` for paths given together with their components.
    pub fn rename_at(&mut self, old_path: &str, oc: &Vec<String>, new_path: &str, nc: &Vec<String>) -> (r: VfsResult<()>)
        requires
            old(self).wf(),
        ensures
            final(self).wf(),
            final(self).lowers() == old(self).lowers(),
            rename_ov_rel(old(self).top(), final(self).top(), old(self).lowers(), oc.deep_view(), nc.deep_view(), old_path@, new_path@, r),
    {
        let ghost t0 = self.top();
        let ghost lv = self.lowers();
        let ghost ov = oc.deep_view();
        let ghost nv = nc.deep_view();
        if self.path_exists_at(nc)? {
            return Err(VfsError::AlreadyExists(copy_str(new_path)));
        }
        let r1 = self.ensure_parent_in_top(nc);
        let ghost t1 = self.top();
        if r1.is_err() {
            return r1;
        }
        let in_top = match probe_layer(&self.top_layer, oc) {
            Ok(b) => b,
            Err(e) => return Err(e),
        };
        if in_top {
            return self.top_layer.rename_at(old_path, oc, new_path, nc);
        }
        let r2 = self.ensure_parent_in_top(oc);
        let ghost t2 = self.top();
        let r = if r2.is_err() {
            r2
        } else {
            match self.find_lower(oc) {
                Err(e) => Err(e),
                Ok(None) => Err(VfsError::NotFound(copy_str(old_path))),
                Ok(Some(i)) => {
                    proof {
                        lemma_lower_probe_found(lv, ov, lv.len());
                        lemma_found_has_name(lv[i as int], ov);
                    }
                    let r3 = self.copy_up_entry(i, old_path, oc);
                    let ghost t3 = self.top();
                    if r3.is_err() {
                        r3
                    } else {
                        let r4 = self.top_layer.rename_at(old_path, oc, new_path, nc);
                        let ghost t4 = self.top();
                        if r4.is_err() {
                            r4
                        } else {
                            let w = match whiteout_comps(oc) {
                                Some(w) => w,
                                None => {
                                    assert(false);
                                    return Ok(());
                                },
                            };
                            let text = text_of(&w);
                            self.top_layer.create_file_at(text.as_str(), &w, false)
                        }
                    }
                },
            }
        };
        proof {
            assert(rename_copied(t2, self.top(), lv, ov, nv, old_path@, new_path@, r2, r));
            assert(rename_rest(t1, self.top(), lv, ov, nv, old_path@, new_path@, r1, r));
        }
        r
    }

    /// Moves the entity at `old_path` to `new_path`, copying it up into the top layer first
    /// when only a lower layer holds it; a whiteout then hides the old path.
    pub fn rename(&mut self, old_path: &str, new_path: &str) -> (r: VfsResult<()>)
        requires
            old(self).wf(),
        ensures
            final(self).wf(),
            final(self).lowers() == old(self).lowers(),
            rename_ov_rel(
                old(self).top(),
                final(self).top(),
                old(self).lowers(),
                std_path_components(old_path@),
                std_path_components(new_path@),
                old_path@,
                new_path@,
                r,
            ),
    {
        let oc = path_components(old_path);
        let nc = path_components(new_path);
        self.rename_at(old_path, &oc, new_path, &nc)
    }

    /// `set_metadata` for a path given together with its components.
    pub fn set_metadata_at(&mut self, path: &str, comps: &Vec<String>, metadata: Metadata) -> (r: VfsResult<()>)
        requires
            old(self).wf(),
        ensures
            final(self).wf(),
            final(self).lowers() == old(self).lowers(),
            set_meta_ov_rel(old(self).top(), final(self).top(), old(self).lowers(), comps.deep_view(), path@, metadata, r),
    {
        let ghost lv = self.lowers();
        let ghost cv = comps.deep_view();
        if probe_layer(&self.top_layer, comps)? {
            return self.top_layer.set_metadata_at(path, comps, metadata);
        }
        let i = match self.find_lower(comps)? {
            None => return Err(VfsError::NotFound(copy_str(path))),
            Some(i) => i,
        };
        proof {
            lemma_lower_probe_found(lv, cv, lv.len());
        }
        let ghost n = lookup(lv[i as int], cv)->Found_0;
        let r1 = self.ensure_parent_in_top(comps);
        let ghost t1 = self.top();
        if r1.is_err() {
            proof {
                assert(set_meta_rest(t1, self.top(), cv, path@, n, metadata, r1, r1));
            }
            return r1;
        }
        let r2 = self.copy_up_entry(i, path, comps);
        let ghost t2 = self.top();
        if r2.is_err() {
            proof {
                assert(set_meta_rest(t1, self.top(), cv, path@, n, metadata, r1, r2));
            }
            return r2;
        }
        let r = self.top_layer.set_metadata_at(path, comps, metadata);
        proof {
            assert(set_meta_rest(t1, self.top(), cv, path@, n, metadata, r1, r));
        }
        r
    }

    /// Replaces the metadata at the path: in the top layer if it holds the path; otherwise
    /// the entry of the highest lower layer that holds it is copied up first. The lower layers
    /// are never changed.
    pub fn set_metadata(&mut self, path: &str, metadata: Metadata) -> (r: VfsResult<()>)
        requires
            old(self).wf(),
        ensures
            final(self).wf(),
            final(self).lowers() == old(self).lowers(),
            set_meta_ov_rel(old(self).top(), final(self).top(), old(self).lowers(), std_path_components(path@), path@, metadata, r),
    {
        let comps = path_components(path);
        self.set_metadata_at(path, &comps, metadata)
    }
}

/// The search from the highest lower layer down passes over the layers above the one it
/// finds.
proof fn lemma_lower_probe_skips(lowers: Seq<Map<Seq<char>, Node>>, comps: Seq<Seq<char>>, k: nat, i: int, j: int)
    requires
        lower_probe(lowers, comps, k) == Result::<Option<int>, FindFault>::Ok(Some(i)),
        i < j < k,
    ensures
        probe(lowers[j], comps) == Result::<bool, FindFault>::Ok(false),
    decreases k,
{
    if j < k - 1 {
        lemma_lower_probe_skips(lowers, comps, (k - 1) as nat, i, j);
    }
}

/// When the top layer holds a path, the overlay finds it there, whatever the lower layers
/// hold.
pub proof fn law_top_layer_takes_precedence(top: Map<Seq<char>, Node>, lowers: Seq<Map<Seq<char>, Node>>, comps: Seq<Seq<char>>)
    requires
        probe(top, comps) == Result::<bool, FindFault>::Ok(true),
    ensures
        resolve(top, lowers, comps) == Result::<Source, OvFault>::Ok(Source::Top),
        !is_whiteout_path(comps) ==> overlay_exists(top, lowers, comps) == Result::<bool, OvFault>::Ok(true),
{
}

/// A whiteout in the top layer hides the path from every lower layer.
pub proof fn law_whiteout_hides_lower(top: Map<Seq<char>, Node>, lowers: Seq<Map<Seq<char>, Node>>, comps: Seq<Seq<char>>)
    requires
        probe(top, comps) == Result::<bool, FindFault>::Ok(false),
        whiteout_of(comps) matches Some(w) && probe(top, w) == Result::<bool, FindFault>::Ok(true),
    ensures
        resolve(top, lowers, comps) == Result::<Source, OvFault>::Ok(Source::Hidden),
        overlay_exists(top, lowers, comps) == Result::<bool, OvFault>::Ok(false),
{
}

/// An opaque marker in the parent directory of the top layer hides the lower layers' entries
/// of that directory.
pub proof fn law_opaque_parent_hides_lower(top: Map<Seq<char>, Node>, lowers: Seq<Map<Seq<char>, Node>>, comps: Seq<Seq<char>>)
    requires
        probe(top, comps) == Result::<bool, FindFault>::Ok(false),
        whiteout_of(comps) matches Some(w) && probe(top, w) == Result::<bool, FindFault>::Ok(false),
        has_parent(comps),
        probe(top, opaque_of(comps)) == Result::<bool, FindFault>::Ok(true),
    ensures
        resolve(top, lowers, comps) == Result::<Source, OvFault>::Ok(Source::Hidden),
        overlay_exists(top, lowers, comps) == Result::<bool, OvFault>::Ok(false),
{
}

/// Whiteout names are never found in the overlay.
pub proof fn law_whiteout_names_are_hidden(top: Map<Seq<char>, Node>, lowers: Seq<Map<Seq<char>, Node>>, comps: Seq<Seq<char>>)
    requires
        is_whiteout_path(comps),
    ensures
        overlay_exists(top, lowers, comps) == Result::<bool, OvFault>::Ok(false),
{
}

/// Metadata set through the overlay is read back: once a change of metadata succeeds, the top
/// layer holds the path with the new metadata and answers for it, so reading the metadata
/// gives the new metadata. The lower layers are the same before and after.
pub proof fn law_set_metadata_reads_back(
    top0: Map<Seq<char>, Node>,
    top1: Map<Seq<char>, Node>,
    lowers: Seq<Map<Seq<char>, Node>>,
    cv: Seq<Seq<char>>,
    path: Seq<char>,
    md: Metadata,
    r: VfsResult<()>,
)
    requires
        set_meta_ov_rel(top0, top1, lowers, cv, path, md, r),
        r is Ok,
        split_components(cv) is Parts,
    ensures
        lookup(top1, cv) matches Lookup::Found(n) && node_metadata(n) == md,
        resolve(top1, lowers, cv) == Result::<Source, OvFault>::Ok(Source::Top),
        read_matches(top1, lowers, cv, path, false, VfsResult::<Metadata>::Ok(md), metadata_answer()),
{
    let m0 = if probe(top0, cv) == Result::<bool, FindFault>::Ok(true) {
        top0
    } else {
        let i = lower_probe(lowers, cv, lowers.len())->Ok_0->Some_0;
        let (t1, r1) = choose|t1: Map<Seq<char>, Node>, r1: VfsResult<()>| #[trigger] ensure_parent_rel(top0, t1, lowers, cv, r1)
            && set_meta_rest(t1, top1, cv, path, lookup(lowers[i], cv)->Found_0, md, r1, r);
        let n = lookup(lowers[i], cv)->Found_0;
        let (t2, r2) = choose|t2: Map<Seq<char>, Node>, r2: VfsResult<()>| #[trigger] copy_entry_rel(t1, t2, cv, path, n, r2)
            && (if r2 is Err {
            r == r2 && top1 == t2
        } else {
            set_meta_rel(t2, top1, cv, path, md, r)
        });
        t2
    };
    assert(set_meta_rel(m0, top1, cv, path, md, r));
    let n = lookup(m0, cv)->Found_0;
    law_stored_entry_is_found(m0, cv, crate::vfs::memoryfs::with_metadata(n, md));
}

/// A merged listing names nothing twice and shows no whiteout of the top directory; a name
/// that a whiteout hides shows only where the top directory holds it itself.
pub proof fn law_merged_listing_hides_whiteouts(v: Seq<PathSegment>, tm: Map<Seq<char>, Node>, base: Set<Seq<char>>)
    requires
        merged_listing(v, tm, base),
        forall|n: Seq<char>| #[trigger] base.contains(n) ==> !starts_with(n, wh_prefix()),
    ensures
        forall|i: int, j: int| 0 <= i < j < v.len() ==> v[i]@ != v[j]@,
        forall|i: int| 0 <= i < v.len() ==> !starts_with(#[trigger] v[i]@, wh_prefix()),
        forall|i: int| 0 <= i < v.len() && hidden_names(tm).contains(#[trigger] v[i]@) ==> tm.dom().contains(v[i]@),
{
    let got = Set::new(|n: Seq<char>| exists|i: int| 0 <= i < v.len() && v[i]@ == n);
    assert forall|i: int| 0 <= i < v.len() implies !starts_with(#[trigger] v[i]@, wh_prefix()) by {
        assert(got.contains(v[i]@));
    }
    assert forall|i: int| 0 <= i < v.len() && hidden_names(tm).contains(#[trigger] v[i]@) implies tm.dom().contains(v[i]@) by {
        assert(got.contains(v[i]@));
        assert(got.intersect(hidden_names(tm)).contains(v[i]@));
    }
}

/// Where nothing in the top layer holds or masks a path, the highest lower layer that holds it
/// answers: every layer above it lacks the path.
pub proof fn law_highest_lower_answers(top: Map<Seq<char>, Node>, lowers: Seq<Map<Seq<char>, Node>>, comps: Seq<Seq<char>>, i: int)
    requires
        probe(top, comps) == Result::<bool, FindFault>::Ok(false),
        whiteout_of(comps) matches Some(w) && probe(top, w) == Result::<bool, FindFault>::Ok(false),
        has_parent(comps) ==> probe(top, opaque_of(comps)) == Result::<bool, FindFault>::Ok(false),
        lower_probe(lowers, comps, lowers.len()) == Result::<Option<int>, FindFault>::Ok(Some(i)),
    ensures
        resolve(top, lowers, comps) == Result::<Source, OvFault>::Ok(Source::Lower(i)),
        0 <= i < lowers.len(),
        lookup(lowers[i], comps) is Found,
        forall|j: int| i < j < lowers.len() ==> probe(#[trigger] lowers[j], comps) == Result::<bool, FindFault>::Ok(false),
{
    lemma_lower_probe_found(lowers, comps, lowers.len());
    assert forall|j: int| i < j < lowers.len() implies probe(#[trigger] lowers[j], comps) == Result::<bool, FindFault>::Ok(false) by {
        lemma_lower_probe_skips(lowers, comps, lowers.len(), i, j);
    }
}

/// A write to a file of the top layer that succeeds is read back through the overlay: the top
/// layer still answers for the path, and the written range holds the data.
pub proof fn law_overlay_read_after_write(
    top0: Map<Seq<char>, Node>,
    top1: Map<Seq<char>, Node>,
    lowers: Seq<Map<Seq<char>, Node>>,
    comps: Seq<Seq<char>>,
    path: Seq<char>,
    offset: u64,
    data: Seq<u8>,
    r: VfsResult<()>,
)
    requires
        lookup(top0, comps) matches Lookup::Found(Node::File(..)),
        !is_whiteout_path(comps),
        write_ov_rel(top0, top1, lowers, comps, path, offset, data, r),
        r is Ok,
    ensures
        resolve(top1, lowers, comps) == Result::<Source, OvFault>::Ok(Source::Top),
        lookup(top1, comps) matches Lookup::Found(Node::File(_, c)) && read_range(c, offset as int, data.len() as int) == data,
{
    lemma_found_has_name(top0, comps);
    let (md, c) = match lookup(top0, comps) {
        Lookup::Found(Node::File(md, c)) => (md, c),
        _ => arbitrary(),
    };
    assert(split_components(comps) is Parts);
    law_stored_entry_is_found(top0, comps, written_file(md, c, offset as int, data));
    law_read_after_write(c, offset as int, data);
}

/// A file creation that succeeds leaves the path in the overlay, answered by the top layer.
pub proof fn law_created_file_is_found(
    top0: Map<Seq<char>, Node>,
    top1: Map<Seq<char>, Node>,
    lowers: Seq<Map<Seq<char>, Node>>,
    comps: Seq<Seq<char>>,
    path: Seq<char>,
    exists_ok: bool,
    r: VfsResult<()>,
)
    requires
        create_file_rel(top0, top1, lowers, comps, path, exists_ok, r),
        r is Ok,
    ensures
        probe(top1, comps) == Result::<bool, FindFault>::Ok(true),
        overlay_exists(top1, lowers, comps) == Result::<bool, OvFault>::Ok(true),
{
    let (t1, r1) = choose|t1: Map<Seq<char>, Node>, r1: VfsResult<()>| #[trigger] ensure_parent_rel(top0, t1, lowers, comps, r1)
        && create_rest(
        t1,
        top1,
        comps,
        |a: Map<Seq<char>, Node>, b: Map<Seq<char>, Node>, rr: VfsResult<()>| create_rel(a, b, comps, path, exists_ok, fresh_file(), rr),
        r1,
        r,
    );
    let w = whiteout_of(comps)->Some_0;
    let t2 = if probe(t1, w) == Result::<bool, FindFault>::Ok(true) {
        let (t2, r2) = choose|t2: Map<Seq<char>, Node>, r2: VfsResult<()>| #[trigger] remove_rel(t1, t2, w, comps_text(w), false, r2)
            && (if r2 is Err {
            r == r2 && top1 == t2
        } else {
            create_rel(t2, top1, comps, path, exists_ok, fresh_file(), r)
        });
        t2
    } else {
        t1
    };
    law_created_entry_is_found(t2, top1, comps, path, exists_ok, fresh_file(), r);
    law_top_layer_takes_precedence(top1, lowers, comps);
}

impl OverlayFileSystem {
    /// `read_file`, for any path: `None` when looking the path up reaches its whiteout while
    /// it has no last name, where the read cannot go on.
    pub fn read_file_checked(&self, path: &str, offset: u64, length: u64) -> (r: Option<VfsResult<Vec<u8>>>)
        requires
            self.wf(),
        ensures
            r is None <==> (resolve(self.top(), self.lowers(), std_path_components(path@)) matches Err(OvFault::NoName)),
            r matches Some(x) ==> read_matches(
                self.top(),
                self.lowers(),
                std_path_components(path@),
                path@,
                true,
                x,
                file_answer(offset, length),
            ),
    {
        if self.lookup_lacks_name(path) {
            None
        } else {
            Some(self.read_file(path, offset, length))
        }
    }

    /// `read_symlink`, for any path: `None` when looking the path up reaches its whiteout
    /// while it has no last name.
    pub fn read_symlink_checked(&self, path: &str) -> (r: Option<VfsResult<String>>)
        requires
            self.wf(),
        ensures
            r is None <==> (resolve(self.top(), self.lowers(), std_path_components(path@)) matches Err(OvFault::NoName)),
            r matches Some(x) ==> read_matches(self.top(), self.lowers(), std_path_components(path@), path@, false, x, symlink_answer()),
    {
        if self.lookup_lacks_name(path) {
            None
        } else {
            Some(self.read_symlink(path))
        }
    }

    /// `get_metadata`, for any path: `None` when looking the path up reaches its whiteout
    /// while it has no last name.
    pub fn get_metadata_checked(&self, path: &str) -> (r: Option<VfsResult<Metadata>>)
        requires
            self.wf(),
        ensures
            r is None <==> path@.len() > 0 && (resolve(self.top(), self.lowers(), std_path_components(path@)) matches Err(
                OvFault::NoName,
            )),
            path@.len() == 0 ==> r == Some(VfsResult::<Metadata>::Ok(self.spec_top_root_metadata())),
            path@.len() > 0 ==> (r matches Some(x) ==> read_matches(
                self.top(),
                self.lowers(),
                std_path_components(path@),
                path@,
                false,
                x,
                metadata_answer(),
            )),
    {
        if path.is_empty() {
            return Some(self.get_metadata(path));
        }
        if self.lookup_lacks_name(path) {
            None
        } else {
            Some(self.get_metadata(path))
        }
    }

    /// `create_directory`, for any path: `None`, and nothing done, for a path that has a
    /// parent but ends in no name (such as `a/..`), the paths on which creating a directory
    /// can reach the point where it needs the last name.
    pub fn create_directory_checked(&mut self, path: &str) -> (r: Option<VfsResult<()>>)
        requires
            old(self).wf(),
        ensures
            final(self).wf(),
            final(self).lowers() == old(self).lowers(),
            r is None <==> whiteout_of(std_path_components(path@)) is None,
            r is None ==> final(self).top() == old(self).top(),
            r matches Some(x) ==> create_directory_rel(
                old(self).top(),
                final(self).top(),
                old(self).lowers(),
                std_path_components(path@),
                path@,
                x,
            ),
    {
        let comps = path_components(path);
        if whiteout_comps(&comps).is_none() {
            return None;
        }
        Some(self.create_directory(path))
    }
}

} // verus!
