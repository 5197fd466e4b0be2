use vstd::prelude::*;
use crate::text::{chars_eq, copy_str};
use crate::vfs::error::{VfsError, VfsResult};
use crate::vfs::metadata::{Metadata, ModeType};
use crate::vfs::segment::{is_valid_segment, PathSegment};
use crate::vfs::path::{join_components, join_prefix, path_components, std_path_components};
use crate::vfs::metadata::{perms_of, type_of, Mode};

verus! {

/// The abstract content of an entity of the memory file system.
pub enum Node {
    /// A directory: its metadata and its entries by name.
    Dir(Metadata, Map<Seq<char>, Node>),
    /// A file: its metadata and its content.
    File(Metadata, Seq<u8>),
    /// A symbolic link: its metadata and its target.
    Symlink(Metadata, Seq<char>),
}

/// A file of the memory file system: metadata and content.
#[derive(Debug)]
pub struct File {
    metadata: Metadata,
    content: Vec<u8>,
}

/// A symbolic link of the memory file system: metadata and target path.
#[derive(Debug)]
pub struct Symlink {
    metadata: Metadata,
    target: String,
}

/// A directory of the memory file system: metadata and its entries, each under a distinct name.
#[derive(Debug)]
pub struct Dir {
    metadata: Metadata,
    entries: Vec<(PathSegment, Entity)>,
}

/// An entity of the memory file system: a directory, a file or a symbolic link.
#[derive(Debug)]
pub enum Entity {
    /// A directory containing other entities
    Dir(Dir),
    /// A file containing data
    File(File),
    /// A symbolic link pointing to another path
    Symlink(Symlink),
}

/// The entries of a directory as a map from name to node.
pub closed spec fn entries_view(es: Seq<(PathSegment, Entity)>) -> Map<Seq<char>, Node>
    decreases es,
{
    if es.len() == 0 {
        Map::empty()
    } else {
        entries_view(es.drop_last()).insert(es.last().0@, entity_view(es.last().1))
    }
}

/// The abstract content of an entity.
pub closed spec fn entity_view(e: Entity) -> Node
    decreases e,
{
    match e {
        Entity::Dir(d) => Node::Dir(d.metadata, entries_view(d.entries@)),
        Entity::File(f) => Node::File(f.metadata, f.content@),
        Entity::Symlink(s) => Node::Symlink(s.metadata, s.target@),
    }
}

/// Whether the names of the entries are pairwise distinct.
pub closed spec fn names_distinct(es: Seq<(PathSegment, Entity)>) -> bool {
    forall|i: int, j: int| 0 <= i < es.len() && 0 <= j < es.len() && i != j ==> es[i].0@ != es[j].0@
}

/// Whether every directory in the entity has entries with distinct names.
pub closed spec fn entity_wf(e: Entity) -> bool
    decreases e,
{
    match e {
        Entity::Dir(d) => entries_wf(d.entries@),
        _ => true,
    }
}

/// Whether the entries have distinct names and every entry is well formed.
pub closed spec fn entries_wf(es: Seq<(PathSegment, Entity)>) -> bool
    decreases es,
{
    &&& names_distinct(es)
    &&& if es.len() == 0 {
        true
    } else {
        entries_wf(es.drop_last()) && entity_wf(es.last().1)
    }
}

impl View for Entity {
    type V = Node;

    closed spec fn view(&self) -> Node {
        entity_view(*self)
    }
}

impl View for Dir {
    type V = Map<Seq<char>, Node>;

    closed spec fn view(&self) -> Map<Seq<char>, Node> {
        entries_view(self.entries@)
    }
}

impl Entity {
    /// Whether every directory within the entity holds entries with distinct names.
    pub closed spec fn wf(&self) -> bool {
        entity_wf(*self)
    }

    /// The view of an entity: a directory's metadata and entries, a file's metadata and
    /// content, and a symbolic link's metadata and target.
    pub proof fn lemma_view(&self)
        ensures
            self matches Entity::Dir(d) ==> self@ == Node::Dir(d.spec_metadata(), d@),
            self matches Entity::File(f) ==> self@ == Node::File(f.spec_metadata(), f.spec_content()),
            self matches Entity::Symlink(l) ==> self@ == Node::Symlink(l.spec_metadata(), l.spec_target()),
    {
        reveal(entity_view);
    }
}

impl Dir {
    /// Whether the entries of the directory, and of every directory within it, have distinct
    /// names.
    pub closed spec fn wf(&self) -> bool {
        entries_wf(self.entries@)
    }

    /// The metadata of the directory.
    pub closed spec fn spec_metadata(&self) -> Metadata {
        self.metadata
    }
}

/// The names of well-formed entries are the keys of their map, and each key maps to the view
/// of the entry under it.
proof fn lemma_entries_view(es: Seq<(PathSegment, Entity)>)
    requires
        names_distinct(es),
    ensures
        forall|n: Seq<char>| entries_view(es).contains_key(n) <==> exists|i: int| 0 <= i < es.len() && es[i].0@ == n,
        forall|i: int| 0 <= i < es.len() ==> entries_view(es).contains_key(#[trigger] es[i].0@)
            && entries_view(es)[es[i].0@] == entity_view(es[i].1),
    decreases es.len(),
{
    if es.len() > 0 {
        let init = es.drop_last();
        assert(names_distinct(init)) by {
            assert forall|i: int, j: int| 0 <= i < init.len() && 0 <= j < init.len() && i != j implies init[i].0@ != init[j].0@ by {
                assert(init[i] == es[i] && init[j] == es[j]);
            }
        }
        lemma_entries_view(init);
        assert forall|n: Seq<char>| entries_view(es).contains_key(n) <==> exists|i: int| 0 <= i < es.len() && es[i].0@ == n by {
            if entries_view(es).contains_key(n) {
                if n == es.last().0@ {
                    assert(es[es.len() - 1].0@ == n);
                } else {
                    let i = choose|i: int| 0 <= i < init.len() && init[i].0@ == n;
                    assert(es[i] == init[i]);
                }
            }
            if exists|i: int| 0 <= i < es.len() && es[i].0@ == n {
                let i = choose|i: int| 0 <= i < es.len() && es[i].0@ == n;
                if i < es.len() - 1 {
                    assert(init[i] == es[i]);
                }
            }
        }
        assert forall|i: int| 0 <= i < es.len() implies entries_view(es).contains_key(#[trigger] es[i].0@)
            && entries_view(es)[es[i].0@] == entity_view(es[i].1) by {
            if i < es.len() - 1 {
                assert(init[i] == es[i]);
                assert(es[i].0@ != es[es.len() - 1].0@);
            }
        }
    }
}

/// Entries are well formed when their names are distinct and each entry is well formed.
proof fn lemma_entries_wf(es: Seq<(PathSegment, Entity)>)
    ensures
        entries_wf(es) <==> (names_distinct(es) && forall|i: int| 0 <= i < es.len() ==> entity_wf(#[trigger] es[i].1)),
    decreases es.len(),
{
    if es.len() > 0 {
        let init = es.drop_last();
        lemma_entries_wf(init);
        if names_distinct(es) {
            assert(names_distinct(init)) by {
                assert forall|i: int, j: int| 0 <= i < init.len() && 0 <= j < init.len() && i != j implies init[i].0@ != init[j].0@ by {
                    assert(init[i] == es[i] && init[j] == es[j]);
                }
            }
        }
        if names_distinct(es) && forall|i: int| 0 <= i < es.len() ==> entity_wf(#[trigger] es[i].1) {
            assert forall|i: int| 0 <= i < init.len() implies entity_wf(#[trigger] init[i].1) by {
                assert(init[i] == es[i]);
            }
            assert(entity_wf(es[es.len() - 1].1));
        }
        if entries_wf(es) {
            assert forall|i: int| 0 <= i < es.len() implies entity_wf(#[trigger] es[i].1) by {
                if i < es.len() - 1 {
                    assert(init[i] == es[i]);
                }
            }
        }
    }
}

/// Replacing the entity under an existing name changes only that name's node.
proof fn lemma_entries_update(es: Seq<(PathSegment, Entity)>, k: int, e: Entity)
    requires
        names_distinct(es),
        0 <= k < es.len(),
    ensures
        names_distinct(es.update(k, (es[k].0, e))),
        entries_view(es.update(k, (es[k].0, e))) == entries_view(es).insert(es[k].0@, entity_view(e)),
        entries_wf(es) && entity_wf(e) ==> entries_wf(es.update(k, (es[k].0, e))),
{
    let es2 = es.update(k, (es[k].0, e));
    assert(names_distinct(es2)) by {
        assert forall|i: int, j: int| 0 <= i < es2.len() && 0 <= j < es2.len() && i != j implies es2[i].0@ != es2[j].0@ by {
            assert(es2[i].0 == es[i].0 && es2[j].0 == es[j].0);
        }
    }
    lemma_entries_view(es);
    lemma_entries_view(es2);
    assert forall|n: Seq<char>| entries_view(es2).contains_key(n) <==> entries_view(es).insert(es[k].0@, entity_view(e)).contains_key(n) by {
        if entries_view(es2).contains_key(n) {
            let i = choose|i: int| 0 <= i < es2.len() && es2[i].0@ == n;
            assert(es2[i].0 == es[i].0);
        }
        if entries_view(es).contains_key(n) {
            let i = choose|i: int| 0 <= i < es.len() && es[i].0@ == n;
            assert(es2[i].0 == es[i].0);
        }
    }
    assert forall|n: Seq<char>| entries_view(es2).contains_key(n) implies entries_view(es2)[n] == entries_view(es).insert(es[k].0@, entity_view(e))[n] by {
        let i = choose|i: int| 0 <= i < es2.len() && es2[i].0@ == n;
        assert(es2[i].0 == es[i].0);
    }
    assert(entries_view(es2) =~= entries_view(es).insert(es[k].0@, entity_view(e)));
    lemma_entries_wf(es);
    lemma_entries_wf(es2);
}

/// Removing the entry at an index removes its name from the map.
proof fn lemma_entries_remove(es: Seq<(PathSegment, Entity)>, k: int)
    requires
        names_distinct(es),
        0 <= k < es.len(),
    ensures
        names_distinct(es.remove(k)),
        entries_view(es.remove(k)) == entries_view(es).remove(es[k].0@),
        entries_wf(es) ==> entries_wf(es.remove(k)),
{
    let es2 = es.remove(k);
    assert(names_distinct(es2)) by {
        assert forall|i: int, j: int| 0 <= i < es2.len() && 0 <= j < es2.len() && i != j implies es2[i].0@ != es2[j].0@ by {
            let ii = if i < k { i } else { i + 1 };
            let jj = if j < k { j } else { j + 1 };
            assert(es2[i] == es[ii] && es2[j] == es[jj]);
        }
    }
    lemma_entries_view(es);
    lemma_entries_view(es2);
    assert forall|n: Seq<char>| entries_view(es2).contains_key(n) <==> entries_view(es).remove(es[k].0@).contains_key(n) by {
        if entries_view(es2).contains_key(n) {
            let i = choose|i: int| 0 <= i < es2.len() && es2[i].0@ == n;
            let ii = if i < k { i } else { i + 1 };
            assert(es2[i] == es[ii]);
        }
        if entries_view(es).remove(es[k].0@).contains_key(n) {
            let i = choose|i: int| 0 <= i < es.len() && es[i].0@ == n;
            assert(i != k);
            let i2 = if i < k { i } else { i - 1 };
            assert(es2[i2] == es[i]);
        }
    }
    assert forall|n: Seq<char>| entries_view(es2).contains_key(n) implies entries_view(es2)[n] == entries_view(es).remove(es[k].0@)[n] by {
        let i = choose|i: int| 0 <= i < es2.len() && es2[i].0@ == n;
        let ii = if i < k { i } else { i + 1 };
        assert(es2[i] == es[ii]);
    }
    assert(entries_view(es2) =~= entries_view(es).remove(es[k].0@));
    lemma_entries_wf(es);
    lemma_entries_wf(es2);
    if entries_wf(es) {
        assert forall|i: int| 0 <= i < es2.len() implies entity_wf(#[trigger] es2[i].1) by {
            let ii = if i < k { i } else { i + 1 };
            assert(es2[i] == es[ii]);
        }
    }
}

/// Appending an entry under a new name adds that name to the map.
proof fn lemma_entries_push(es: Seq<(PathSegment, Entity)>, x: (PathSegment, Entity))
    requires
        names_distinct(es),
        !entries_view(es).contains_key(x.0@),
    ensures
        names_distinct(es.push(x)),
        entries_view(es.push(x)) == entries_view(es).insert(x.0@, entity_view(x.1)),
        entries_wf(es) && entity_wf(x.1) ==> entries_wf(es.push(x)),
{
    let es2 = es.push(x);
    lemma_entries_view(es);
    assert(es2.drop_last() =~= es);
    assert(names_distinct(es2)) by {
        assert forall|i: int, j: int| 0 <= i < es2.len() && 0 <= j < es2.len() && i != j implies es2[i].0@ != es2[j].0@ by {
            if i < es.len() && j < es.len() {
                assert(es2[i] == es[i] && es2[j] == es[j]);
            } else if i < es.len() {
                assert(es2[i] == es[i]);
            } else {
                assert(es2[j] == es[j]);
            }
        }
    }
    lemma_entries_wf(es);
    lemma_entries_wf(es2);
    if entries_wf(es) && entity_wf(x.1) {
        assert forall|i: int| 0 <= i < es2.len() implies entity_wf(#[trigger] es2[i].1) by {
            if i < es.len() {
                assert(es2[i] == es[i]);
            }
        }
    }
}

impl File {
    /// Creates a new empty file with fresh metadata.
    pub fn new() -> (f: File)
        ensures
            f.spec_content() == Seq::<u8>::empty(),
            is_fresh_metadata(f.spec_metadata(), ModeType::File),
    {
        File { metadata: Metadata::new(ModeType::File), content: Vec::new() }
    }

    /// Creates a new file with the given content and fresh metadata.
    pub fn with_content(content: Vec<u8>) -> (f: File)
        ensures
            f.spec_content() == content@,
            is_fresh_metadata(f.spec_metadata(), ModeType::File),
    {
        File { metadata: Metadata::new(ModeType::File), content }
    }

    /// The content of the file.
    pub closed spec fn spec_content(&self) -> Seq<u8> {
        self.content@
    }

    /// The metadata of the file.
    pub closed spec fn spec_metadata(&self) -> Metadata {
        self.metadata
    }

    /// Returns the content of the file.
    pub fn get_content(&self) -> (c: &Vec<u8>)
        ensures
            c@ == self.spec_content(),
    {
        &self.content
    }

    /// Returns the metadata of the file.
    pub fn get_metadata(&self) -> (m: &Metadata)
        ensures
            *m == self.spec_metadata(),
    {
        &self.metadata
    }
}

impl Symlink {
    /// Creates a new symbolic link pointing to the given target, with fresh metadata.
    pub fn new(target: String) -> (s: Symlink)
        ensures
            s.spec_target() == target@,
            is_fresh_metadata(s.spec_metadata(), ModeType::Symlink),
    {
        Symlink { metadata: Metadata::new(ModeType::Symlink), target }
    }

    /// The target of the link.
    pub closed spec fn spec_target(&self) -> Seq<char> {
        self.target@
    }

    /// The metadata of the link.
    pub closed spec fn spec_metadata(&self) -> Metadata {
        self.metadata
    }

    /// Returns the target of the link.
    pub fn get_target(&self) -> (t: &String)
        ensures
            t@ == self.spec_target(),
    {
        &self.target
    }

    /// Returns the metadata of the link.
    pub fn get_metadata(&self) -> (m: &Metadata)
        ensures
            *m == self.spec_metadata(),
    {
        &self.metadata
    }
}

impl Entity {
    /// Gets the entity as a directory, or `NotADirectory` with an empty path.
    pub fn as_dir(&self) -> (r: VfsResult<&Dir>)
        ensures
            self is Dir ==> (r matches Ok(d) && *d == self->Dir_0),
            !(self is Dir) ==> (r matches Err(VfsError::NotADirectory(p)) && p@.len() == 0),
    {
        match self {
            Entity::Dir(dir) => Ok(dir),
            _ => Err(VfsError::NotADirectory(String::new())),
        }
    }

    /// Gets the entity as a file, or `NotAFile` with an empty path.
    pub fn as_file(&self) -> (r: VfsResult<&File>)
        ensures
            self is File ==> (r matches Ok(f) && *f == self->File_0),
            !(self is File) ==> (r matches Err(VfsError::NotAFile(p)) && p@.len() == 0),
    {
        match self {
            Entity::File(file) => Ok(file),
            _ => Err(VfsError::NotAFile(String::new())),
        }
    }

    /// Gets the entity as a symbolic link, or `NotASymlink` with an empty path.
    pub fn as_symlink(&self) -> (r: VfsResult<&Symlink>)
        ensures
            self is Symlink ==> (r matches Ok(s) && *s == self->Symlink_0),
            !(self is Symlink) ==> (r matches Err(VfsError::NotASymlink(p)) && p@.len() == 0),
    {
        match self {
            Entity::Symlink(symlink) => Ok(symlink),
            _ => Err(VfsError::NotASymlink(String::new())),
        }
    }

    /// Returns the metadata of the entity, whatever its kind.
    pub fn metadata(&self) -> (m: &Metadata)
        ensures
            *m == node_metadata(self@),
    {
        proof {
            reveal(entity_view);
        }
        match self {
            Entity::Dir(d) => &d.metadata,
            Entity::File(f) => &f.metadata,
            Entity::Symlink(s) => &s.metadata,
        }
    }
}

/// The metadata of a node.
pub open spec fn node_metadata(n: Node) -> Metadata {
    match n {
        Node::Dir(m, _) => m,
        Node::File(m, _) => m,
        Node::Symlink(m, _) => m,
    }
}

impl Dir {
    /// Creates a new empty directory with fresh metadata.
    pub fn new() -> (d: Dir)
        ensures
            d.wf(),
            d@ == Map::<Seq<char>, Node>::empty(),
            is_fresh_metadata(d.spec_metadata(), ModeType::Directory),
    {
        let d = Dir { metadata: Metadata::new(ModeType::Directory), entries: Vec::new() };
        proof {
            reveal(entries_view);
            reveal(entries_wf);
            reveal(names_distinct);
        }
        d
    }

    /// Returns the metadata of the directory.
    pub fn get_metadata(&self) -> (m: &Metadata)
        ensures
            *m == self.spec_metadata(),
    {
        &self.metadata
    }

    /// Returns the number of entries.
    pub fn len(&self) -> (n: usize)
        requires
            self.wf(),
        ensures
            n == self@.len(),
    {
        proof {
            self.lemma_len();
        }
        self.entries.len()
    }

    /// The number of names of a well-formed directory is the number of its entries.
    proof fn lemma_len(&self)
        requires
            self.wf(),
        ensures
            self.entries@.len() == self@.len(),
            self@.dom().finite(),
    {
        let es = self.entries@;
        lemma_entries_wf(es);
        lemma_entries_view(es);
        self.lemma_len_rec(es);
    }

    proof fn lemma_len_rec(&self, es: Seq<(PathSegment, Entity)>)
        requires
            names_distinct(es),
        ensures
            es.len() == entries_view(es).len(),
            entries_view(es).dom().finite(),
        decreases es.len(),
    {
        if es.len() > 0 {
            let init = es.drop_last();
            assert(names_distinct(init)) by {
                assert forall|i: int, j: int| 0 <= i < init.len() && 0 <= j < init.len() && i != j implies init[i].0@ != init[j].0@ by {
                    assert(init[i] == es[i] && init[j] == es[j]);
                }
            }
            self.lemma_len_rec(init);
            lemma_entries_view(init);
            if entries_view(init).contains_key(es.last().0@) {
                let i = choose|i: int| 0 <= i < init.len() && init[i].0@ == es.last().0@;
                assert(es[i] == init[i]);
                assert(es[es.len() - 1].0@ == es[i].0@);
            }
        }
    }

    /// Finds the index of the entry with the given name.
    fn index_of(&self, name: &str) -> (r: Option<usize>)
        requires
            self.wf(),
        ensures
            r matches Some(k) ==> k < self.entries@.len() && self.entries@[k as int].0@ == name@,
            r is None ==> !self@.contains_key(name@),
            r is Some <==> self@.contains_key(name@),
    {
        proof {
            lemma_entries_wf(self.entries@);
            lemma_entries_view(self.entries@);
        }
        let target = crate::text::chars_of(name);
        let mut k: usize = 0;
        while k < self.entries.len()
            invariant
                self.wf(),
                names_distinct(self.entries@),
                target@ == name@,
                k <= self.entries@.len(),
                forall|j: int| 0 <= j < k ==> self.entries@[j].0@ != name@,
            decreases self.entries.len() - k,
        {
            let cs = crate::text::chars_of(self.entries[k].0.as_str());
            if chars_eq(cs.as_slice(), target.as_slice()) {
                proof {
                    lemma_entries_view(self.entries@);
                    assert(entries_view(self.entries@).contains_key(self.entries@[k as int].0@));
                }
                return Some(k);
            }
            k = k + 1;
        }
        None
    }

    /// Retrieves the entity stored under the given name, if any.
    pub fn get(&self, path: &PathSegment) -> (r: Option<&Entity>)
        requires
            self.wf(),
        ensures
            r matches Some(e) ==> self@.contains_key(path@) && e@ == self@[path@] && e.wf(),
            r is None ==> !self@.contains_key(path@),
    {
        proof {
            lemma_entries_wf(self.entries@);
            lemma_entries_view(self.entries@);
        }
        match self.index_of(path.as_str()) {
            Some(k) => Some(&self.entries[k].1),
            None => None,
        }
    }

    /// Adds an entity under a name that the directory does not hold yet; an existing name
    /// gives `AlreadyExists` with that name, and the directory is left unchanged.
    pub fn put(&mut self, path: PathSegment, entity: Entity) -> (r: VfsResult<()>)
        requires
            old(self).wf(),
            entity.wf(),
        ensures
            final(self).wf(),
            final(self).spec_metadata() == old(self).spec_metadata(),
            old(self)@.contains_key(path@) ==> (r matches Err(VfsError::AlreadyExists(p)) && p@ == path@
                && final(self)@ == old(self)@),
            !old(self)@.contains_key(path@) ==> (r is Ok && final(self)@ == old(self)@.insert(path@, entity@)),
    {
        if self.index_of(path.as_str()).is_some() {
            return Err(VfsError::AlreadyExists(path.to_string()));
        }
        proof {
            lemma_entries_wf(self.entries@);
            lemma_entries_push(self.entries@, (path, entity));
        }
        self.entries.push((path, entity));
        Ok(())
    }

    /// Returns the names of the entries.
    pub fn names(&self) -> (r: Vec<PathSegment>)
        requires
            self.wf(),
        ensures
            r@.len() == self@.len(),
            forall|i: int| 0 <= i < r@.len() ==> self@.contains_key(#[trigger] r@[i]@),
            forall|n: Seq<char>| self@.contains_key(n) ==> exists|i: int| 0 <= i < r@.len() && r@[i]@ == n,
            forall|i: int, j: int| 0 <= i < r@.len() && 0 <= j < r@.len() && i != j ==> r@[i]@ != r@[j]@,
    {
        proof {
            lemma_entries_wf(self.entries@);
            lemma_entries_view(self.entries@);
            self.lemma_len();
        }
        let mut r: Vec<PathSegment> = Vec::new();
        let mut k: usize = 0;
        while k < self.entries.len()
            invariant
                self.wf(),
                names_distinct(self.entries@),
                k <= self.entries@.len(),
                r@.len() == k,
                forall|i: int| 0 <= i < k ==> #[trigger] r@[i]@ == self.entries@[i].0@,
            decreases self.entries.len() - k,
        {
            r.push(self.entries[k].0.duplicate());
            k = k + 1;
        }
        proof {
            assert forall|n: Seq<char>| self@.contains_key(n) implies exists|i: int| 0 <= i < r@.len() && r@[i]@ == n by {
                let i = choose|i: int| 0 <= i < self.entries@.len() && self.entries@[i].0@ == n;
                assert(r@[i]@ == n);
            }
        }
        r
    }
}

/// Where a walk through directories along some path components ends.
pub enum Walk {
    /// Every component named a directory; this is the map of the last one.
    Reached(Map<Seq<char>, Node>),
    /// Some component names nothing.
    Missing,
    /// Some component names an entity that is not a directory.
    NotDir,
    /// Some component is not a valid path segment.
    Bad(Seq<char>),
}

/// Walks from the directory map `m` through the directories named by `comps`, in order.
pub open spec fn walk(m: Map<Seq<char>, Node>, comps: Seq<Seq<char>>) -> Walk
    decreases comps.len(),
{
    if comps.len() == 0 {
        Walk::Reached(m)
    } else if !is_valid_segment(comps[0]) {
        Walk::Bad(comps[0])
    } else if !m.contains_key(comps[0]) {
        Walk::Missing
    } else {
        match m[comps[0]] {
            Node::Dir(_, sub) => walk(sub, comps.drop_first()),
            _ => Walk::NotDir,
        }
    }
}

/// The directory map `m` with the map of the directory that `comps` names replaced by `new`,
/// every directory on the way keeping its metadata.
pub open spec fn replace_at(m: Map<Seq<char>, Node>, comps: Seq<Seq<char>>, new: Map<Seq<char>, Node>) -> Map<Seq<char>, Node>
    decreases comps.len(),
{
    if comps.len() == 0 {
        new
    } else {
        match m[comps[0]] {
            Node::Dir(md, sub) => m.insert(comps[0], Node::Dir(md, replace_at(sub, comps.drop_first(), new))),
            _ => m,
        }
    }
}

/// Whether `e` is the error that parsing the component `c` as a path segment gives.
pub open spec fn is_segment_error(e: VfsError, c: Seq<char>) -> bool {
    if c.len() == 0 {
        e is EmptyPathSegment
    } else {
        e matches VfsError::InvalidPathComponent(s) && s@ == c
    }
}

/// Why a walk through directories stopped.
pub enum WalkFail {
    /// A component names nothing.
    Missing,
    /// A component names an entity that is not a directory.
    NotDir,
    /// A component is not a valid path segment; the error says why.
    Bad(VfsError),
}

/// Whether the exec outcome of a failed walk is the abstract one.
pub open spec fn walk_fail_matches(f: WalkFail, w: Walk) -> bool {
    match w {
        Walk::Missing => f is Missing,
        Walk::NotDir => f is NotDir,
        Walk::Bad(c) => f matches WalkFail::Bad(e) && is_segment_error(e, c),
        Walk::Reached(_) => false,
    }
}

/// Walking to a directory that was just replaced reaches the replacement, and replacing twice
/// at the same place keeps only the second replacement.
pub proof fn lemma_replace_walk(m: Map<Seq<char>, Node>, comps: Seq<Seq<char>>, x: Map<Seq<char>, Node>, y: Map<Seq<char>, Node>)
    requires
        walk(m, comps) is Reached,
    ensures
        walk(replace_at(m, comps, x), comps) == Walk::Reached(x),
        replace_at(replace_at(m, comps, x), comps, y) == replace_at(m, comps, y),
        replace_at(m, comps, walk(m, comps)->Reached_0) == m,
    decreases comps.len(),
{
    if comps.len() > 0 {
        match m[comps[0]] {
            Node::Dir(md, sub) => {
                lemma_replace_walk(sub, comps.drop_first(), x, y);
                let m1 = replace_at(m, comps, x);
                assert(m1[comps[0]] == Node::Dir(md, replace_at(sub, comps.drop_first(), x)));
                assert(m.insert(comps[0], Node::Dir(md, sub)) =~= m);
            },
            _ => {},
        }
    }
}

impl Dir {
    /// Walks from this directory through the directories named by `comps[i..end]`.
    fn walk_ref<'a>(&'a self, comps: &Vec<String>, i: usize, end: usize) -> (r: Result<&'a Dir, WalkFail>)
        requires
            self.wf(),
            i <= end <= comps.len(),
        ensures
            walk(self@, comps.deep_view().subrange(i as int, end as int)) matches Walk::Reached(m)
                ==> (r matches Ok(d) && d@ == m && d.wf()),
            !(walk(self@, comps.deep_view().subrange(i as int, end as int)) is Reached) ==> (r matches Err(f)
                && walk_fail_matches(f, walk(self@, comps.deep_view().subrange(i as int, end as int)))),
        decreases end - i,
    {
        let ghost sub = comps.deep_view().subrange(i as int, end as int);
        if i == end {
            return Ok(self);
        }
        assert(sub[0] == comps[i as int]@);
        assert(sub.drop_first() =~= comps.deep_view().subrange(i + 1, end as int));
        let seg = match PathSegment::try_from_str(comps[i].as_str()) {
            Ok(seg) => seg,
            Err(e) => return Err(WalkFail::Bad(e)),
        };
        proof {
            lemma_entries_wf(self.entries@);
            lemma_entries_view(self.entries@);
        }
        match self.index_of(seg.as_str()) {
            None => Err(WalkFail::Missing),
            Some(k) => {
                proof {
                    assert(self@[sub[0]] == entity_view(self.entries@[k as int].1));
                    reveal(entity_view);
                    reveal(entity_wf);
                }
                match &self.entries[k].1 {
                    Entity::Dir(d) => d.walk_ref(comps, i + 1, end),
                    _ => Err(WalkFail::NotDir),
                }
            },
        }
    }
}

/// Why looking up a path failed.
pub enum FindFault {
    /// The path has no components.
    EmptyPath,
    /// A component is not a valid path segment.
    Bad(Seq<char>),
    /// A component before the last names an entity that is not a directory.
    NotDir,
}

/// The outcome of looking up a path.
pub enum Lookup {
    /// The path names this node.
    Found(Node),
    /// The path names nothing.
    Absent,
    /// The lookup failed.
    Fails(FindFault),
}

/// Looks up the path with components `comps` in the directory map `m`: the components before
/// the last must name directories, and a missing one makes the whole path absent.
pub open spec fn lookup(m: Map<Seq<char>, Node>, comps: Seq<Seq<char>>) -> Lookup {
    if comps.len() == 0 {
        Lookup::Fails(FindFault::EmptyPath)
    } else {
        match walk(m, comps.drop_last()) {
            Walk::Missing => Lookup::Absent,
            Walk::NotDir => Lookup::Fails(FindFault::NotDir),
            Walk::Bad(c) => Lookup::Fails(FindFault::Bad(c)),
            Walk::Reached(d) => if !is_valid_segment(comps.last()) {
                Lookup::Fails(FindFault::Bad(comps.last()))
            } else if d.contains_key(comps.last()) {
                Lookup::Found(d[comps.last()])
            } else {
                Lookup::Absent
            },
        }
    }
}

/// Whether `e` is the error that reports the lookup failure `f`.
pub open spec fn fault_matches(e: VfsError, f: FindFault) -> bool {
    match f {
        FindFault::EmptyPath => e matches VfsError::InvalidPathComponent(s) && s@ == "Empty path provided"@,
        FindFault::Bad(c) => is_segment_error(e, c),
        FindFault::NotDir => e matches VfsError::NotADirectory(s) && s@.len() == 0,
    }
}

/// Whether the result of a lookup is the abstract outcome `l`.
pub open spec fn find_matches(r: Result<Option<&Entity>, VfsError>, l: Lookup) -> bool {
    match l {
        Lookup::Found(n) => r matches Ok(Some(e)) && e@ == n && e.wf(),
        Lookup::Absent => r matches Ok(None),
        Lookup::Fails(f) => r matches Err(e) && fault_matches(e, f),
    }
}

impl Dir {
    /// Finds the entity at the path with the given components, starting from this directory.
    pub fn find_components(&self, comps: &Vec<String>) -> (r: VfsResult<Option<&Entity>>)
        requires
            self.wf(),
        ensures
            find_matches(r, lookup(self@, comps.deep_view())),
    {
        let n = comps.len();
        if n == 0 {
            proof {
                reveal_strlit("Empty path provided");
            }
            return Err(VfsError::InvalidPathComponent(String::from_str("Empty path provided")));
        }
        let ghost cv = comps.deep_view();
        assert(cv.subrange(0, n - 1) =~= cv.drop_last());
        assert(cv.last() == comps[n - 1]@);
        let d = match self.walk_ref(comps, 0, n - 1) {
            Ok(d) => d,
            Err(WalkFail::Missing) => return Ok(None),
            Err(WalkFail::NotDir) => return Err(VfsError::NotADirectory(String::new())),
            Err(WalkFail::Bad(e)) => return Err(e),
        };
        let seg = PathSegment::try_from_str(comps[n - 1].as_str())?;
        Ok(d.get(&seg))
    }

    /// Traverses a path starting from this directory to find an entity: `Ok(None)` when the
    /// path names nothing, an error when it is empty, holds an invalid component, or passes
    /// through an entity that is not a directory.
    pub fn find(&self, path: &str) -> (r: VfsResult<Option<&Entity>>)
        requires
            self.wf(),
        ensures
            find_matches(r, lookup(self@, std_path_components(path@))),
    {
        let comps = path_components(path);
        self.find_components(&comps)
    }
}

/// A change to one directory, named by one of its entries.
pub enum DirOp {
    /// Add `entity` under `name` unless the name is taken.
    Create { name: PathSegment, entity: Entity },
    /// Remove the entry under `name` if it is a directory (`dir`) or not a directory (`!dir`).
    Remove { name: PathSegment, dir: bool },
    /// Remove the entry under `name` and hand it back.
    Take { name: PathSegment },
    /// Store `entity` under `name`, replacing any entry there.
    Insert { name: PathSegment, entity: Entity },
    /// Write `data` at `offset` into the file under `name`.
    Write { name: PathSegment, offset: usize, data: Vec<u8> },
    /// Replace the metadata of the entry under `name`.
    SetMeta { name: PathSegment, md: Metadata },
}

/// The node with its metadata replaced.
pub open spec fn with_metadata(n: Node, md: Metadata) -> Node {
    match n {
        Node::Dir(_, m) => Node::Dir(md, m),
        Node::File(_, c) => Node::File(md, c),
        Node::Symlink(_, t) => Node::Symlink(md, t),
    }
}

/// What a change to a directory reports.
pub enum OpOut {
    /// The change was made.
    Done,
    /// The name was taken already; nothing changed.
    Present,
    /// The name was not there; nothing changed.
    Absent,
    /// The entry under the name has the wrong kind; nothing changed.
    WrongKind,
    /// The entry was removed and is handed back.
    Taken(Entity),
}

/// The abstract report of a change to a directory.
pub enum OutView {
    /// The change was made.
    Done,
    /// The name was taken already.
    Present,
    /// The name was not there.
    Absent,
    /// The entry under the name has the wrong kind.
    WrongKind,
    /// The entry with this content was removed.
    Taken(Node),
}

/// The content of a file after writing `data` at `offset`: the file grows with zero bytes up to
/// the offset when needed, and the bytes at `offset..offset + data.len()` become `data`.
pub open spec fn write_content(c: Seq<u8>, offset: int, data: Seq<u8>) -> Seq<u8> {
    let len = if c.len() > offset + data.len() { c.len() as int } else { offset + data.len() };
    Seq::new(len as nat, |j: int| if offset <= j < offset + data.len() {
        data[j - offset]
    } else if j < c.len() {
        c[j]
    } else {
        0u8
    })
}

/// The file node after writing `data` at `offset` into a file with metadata `md` and content
/// `c`: the written content, and the metadata with the content's length as its size.
pub open spec fn written_file(md: Metadata, c: Seq<u8>, offset: int, data: Seq<u8>) -> Node {
    Node::File(md.with_size(write_content(c, offset, data).len() as u64), write_content(c, offset, data))
}

impl DirOp {
    /// Whether the entity that the change brings in is well formed.
    pub open spec fn wf(&self) -> bool {
        match *self {
            DirOp::Create { entity, .. } => entity.wf(),
            DirOp::Insert { entity, .. } => entity.wf(),
            DirOp::Write { offset, data, .. } => offset + data.len() <= usize::MAX,
            _ => true,
        }
    }

    /// The directory map after the change.
    pub open spec fn map_after(&self, m: Map<Seq<char>, Node>) -> Map<Seq<char>, Node> {
        match *self {
            DirOp::Create { name, entity } => if m.contains_key(name@) {
                m
            } else {
                m.insert(name@, entity@)
            },
            DirOp::Remove { name, dir } => if m.contains_key(name@) && ((m[name@] is Dir) == dir) {
                m.remove(name@)
            } else {
                m
            },
            DirOp::Take { name } => m.remove(name@),
            DirOp::Insert { name, entity } => m.insert(name@, entity@),
            DirOp::Write { name, offset, data } => if m.contains_key(name@) {
                match m[name@] {
                    Node::File(md, c) => m.insert(name@, written_file(md, c, offset as int, data@)),
                    _ => m,
                }
            } else {
                m
            },
            DirOp::SetMeta { name, md } => if m.contains_key(name@) {
                m.insert(name@, with_metadata(m[name@], md))
            } else {
                m
            },
        }
    }

    /// What the change reports.
    pub open spec fn out(&self, m: Map<Seq<char>, Node>) -> OutView {
        match *self {
            DirOp::Create { name, .. } => if m.contains_key(name@) {
                OutView::Present
            } else {
                OutView::Done
            },
            DirOp::Remove { name, dir } => if !m.contains_key(name@) {
                OutView::Absent
            } else if (m[name@] is Dir) != dir {
                OutView::WrongKind
            } else {
                OutView::Done
            },
            DirOp::Take { name } => if m.contains_key(name@) {
                OutView::Taken(m[name@])
            } else {
                OutView::Absent
            },
            DirOp::Insert { .. } => OutView::Done,
            DirOp::Write { name, .. } => if !m.contains_key(name@) {
                OutView::Absent
            } else if !(m[name@] is File) {
                OutView::WrongKind
            } else {
                OutView::Done
            },
            DirOp::SetMeta { name, .. } => if !m.contains_key(name@) {
                OutView::Absent
            } else {
                OutView::Done
            },
        }
    }
}

/// Whether the exec report is the abstract one.
pub open spec fn out_matches(o: OpOut, v: OutView) -> bool {
    match v {
        OutView::Done => o is Done,
        OutView::Present => o is Present,
        OutView::Absent => o is Absent,
        OutView::WrongKind => o is WrongKind,
        OutView::Taken(n) => o matches OpOut::Taken(e) && e@ == n && e.wf(),
    }
}

/// Writes `data` into `content` at `offset`, growing it with zero bytes as needed.
fn write_into(content: &mut Vec<u8>, offset: usize, data: &Vec<u8>)
    requires
        offset + data.len() <= usize::MAX,
    ensures
        final(content)@ == write_content(old(content)@, offset as int, data@),
{
    let ghost c0 = content@;
    while content.len() < offset
        invariant
            content@.len() <= offset || content@.len() == c0.len(),
            forall|j: int| 0 <= j < content@.len() ==> #[trigger] content@[j] == (if j < c0.len() { c0[j] } else { 0u8 }),
            content@.len() >= c0.len(),
        decreases offset - content.len(),
    {
        content.push(0u8);
    }
    let mut i: usize = 0;
    while i < data.len()
        invariant
            offset + data.len() <= usize::MAX,
            i <= data.len(),
            content@.len() >= offset + i,
            content@.len() >= c0.len(),
            content@.len() == (if c0.len() > offset + i { c0.len() as int } else { offset + i }),
            forall|j: int| 0 <= j < content@.len() ==> #[trigger] content@[j] == (if offset <= j < offset + i {
                data@[j - offset]
            } else if j < c0.len() {
                c0[j]
            } else {
                0u8
            }),
        decreases data.len() - i,
    {
        if offset + i < content.len() {
            content.set(offset + i, data[i]);
        } else {
            content.push(data[i]);
        }
        i = i + 1;
    }
    assert(content@ =~= write_content(c0, offset as int, data@));
}

impl Dir {
    /// Applies a change to this directory.
    fn apply_op(&mut self, op: DirOp) -> (r: OpOut)
        requires
            old(self).wf(),
            op.wf(),
        ensures
            final(self).wf(),
            final(self).spec_metadata() == old(self).spec_metadata(),
            final(self)@ == op.map_after(old(self)@),
            out_matches(r, op.out(old(self)@)),
    {
        proof {
            lemma_entries_wf(self.entries@);
            lemma_entries_view(self.entries@);
            reveal(entity_view);
            reveal(entity_wf);
        }
        match op {
            DirOp::Create { name, entity } => {
                match self.index_of(name.as_str()) {
                    Some(_) => OpOut::Present,
                    None => {
                        proof {
                            lemma_entries_push(self.entries@, (name, entity));
                        }
                        self.entries.push((name, entity));
                        OpOut::Done
                    },
                }
            },
            DirOp::Remove { name, dir } => {
                match self.index_of(name.as_str()) {
                    None => OpOut::Absent,
                    Some(k) => {
                        let is_dir = match &self.entries[k].1 {
                            Entity::Dir(_) => true,
                            _ => false,
                        };
                        assert(is_dir == (self@[name@] is Dir));
                        if is_dir != dir {
                            OpOut::WrongKind
                        } else {
                            proof {
                                lemma_entries_remove(self.entries@, k as int);
                            }
                            self.entries.remove(k);
                            OpOut::Done
                        }
                    },
                }
            },
            DirOp::Take { name } => {
                match self.index_of(name.as_str()) {
                    None => {
                        assert(self@.remove(name@) =~= self@);
                        OpOut::Absent
                    },
                    Some(k) => {
                        proof {
                            lemma_entries_remove(self.entries@, k as int);
                        }
                        let (_, e) = self.entries.remove(k);
                        OpOut::Taken(e)
                    },
                }
            },
            DirOp::Insert { name, entity } => {
                match self.index_of(name.as_str()) {
                    None => {
                        proof {
                            lemma_entries_push(self.entries@, (name, entity));
                        }
                        self.entries.push((name, entity));
                        OpOut::Done
                    },
                    Some(k) => {
                        let ghost es = self.entries@;
                        let (old_name, _) = self.entries.remove(k);
                        self.entries.insert(k, (old_name, entity));
                        proof {
                            assert(self.entries@ =~= es.update(k as int, (es[k as int].0, entity)));
                            lemma_entries_update(es, k as int, entity);
                        }
                        OpOut::Done
                    },
                }
            },
            DirOp::Write { name, offset, data } => {
                match self.index_of(name.as_str()) {
                    None => OpOut::Absent,
                    Some(k) => {
                        let ghost es = self.entries@;
                        let (old_name, e) = self.entries.remove(k);
                        match e {
                            Entity::File(mut f) => {
                                write_into(&mut f.content, offset, &data);
                                let len = f.content.len() as u64;
                                f.metadata.set_size(len);
                                let ne = Entity::File(f);
                                self.entries.insert(k, (old_name, ne));
                                proof {
                                    assert(self.entries@ =~= es.update(k as int, (es[k as int].0, ne)));
                                    lemma_entries_update(es, k as int, ne);
                                }
                                OpOut::Done
                            },
                            other => {
                                self.entries.insert(k, (old_name, other));
                                assert(self.entries@ =~= es);
                                OpOut::WrongKind
                            },
                        }
                    },
                }
            },
            DirOp::SetMeta { name, md } => {
                match self.index_of(name.as_str()) {
                    None => {
                        assert(self@ =~= op.map_after(self@));
                        OpOut::Absent
                    },
                    Some(k) => {
                        let ghost es = self.entries@;
                        let (old_name, e) = self.entries.remove(k);
                        let ne = match e {
                            Entity::Dir(mut d) => {
                                d.metadata = md;
                                Entity::Dir(d)
                            },
                            Entity::File(mut f) => {
                                f.metadata = md;
                                Entity::File(f)
                            },
                            Entity::Symlink(mut l) => {
                                l.metadata = md;
                                Entity::Symlink(l)
                            },
                        };
                        self.entries.insert(k, (old_name, ne));
                        proof {
                            assert(self.entries@ =~= es.update(k as int, (es[k as int].0, ne)));
                            lemma_entries_update(es, k as int, ne);
                        }
                        OpOut::Done
                    },
                }
            },
        }
    }
}

/// Whether the result of applying a change at the end of a walk is the abstract outcome: the
/// change made in the directory that the walk reaches, or the walk's failure with nothing
/// changed.
pub open spec fn applied(
    before: Map<Seq<char>, Node>,
    after: Map<Seq<char>, Node>,
    comps: Seq<Seq<char>>,
    op: DirOp,
    r: Result<OpOut, WalkFail>,
) -> bool {
    match walk(before, comps) {
        Walk::Reached(m) => r matches Ok(o) && out_matches(o, op.out(m)) && after == replace_at(
            before,
            comps,
            op.map_after(m),
        ),
        w => r matches Err(f) && walk_fail_matches(f, w) && after == before,
    }
}

impl Dir {
    /// Walks through the directories named by `comps[i..end]` and applies the change to the
    /// directory reached.
    fn apply_at(&mut self, comps: &Vec<String>, i: usize, end: usize, op: DirOp) -> (r: Result<OpOut, WalkFail>)
        requires
            old(self).wf(),
            op.wf(),
            i <= end <= comps.len(),
        ensures
            final(self).wf(),
            final(self).spec_metadata() == old(self).spec_metadata(),
            applied(old(self)@, final(self)@, comps.deep_view().subrange(i as int, end as int), op, r),
        decreases end - i,
    {
        let ghost sub = comps.deep_view().subrange(i as int, end as int);
        if i == end {
            return Ok(self.apply_op(op));
        }
        assert(sub[0] == comps[i as int]@);
        assert(sub.drop_first() =~= comps.deep_view().subrange(i + 1, end as int));
        let seg = match PathSegment::try_from_str(comps[i].as_str()) {
            Ok(seg) => seg,
            Err(e) => return Err(WalkFail::Bad(e)),
        };
        proof {
            lemma_entries_wf(self.entries@);
            lemma_entries_view(self.entries@);
        }
        match self.index_of(seg.as_str()) {
            None => Err(WalkFail::Missing),
            Some(k) => {
                let ghost es = self.entries@;
                proof {
                    assert(self@[sub[0]] == entity_view(es[k as int].1));
                    reveal(entity_view);
                    reveal(entity_wf);
                }
                let (name, e) = self.entries.remove(k);
                match e {
                    Entity::Dir(mut d) => {
                        let ghost dv = d@;
                        let ghost md = d.metadata;
                        let ghost before = entries_view(es);
                        assert(before[sub[0]] == Node::Dir(md, dv));
                        let r = d.apply_at(comps, i + 1, end, op);
                        let ne = Entity::Dir(d);
                        self.entries.insert(k, (name, ne));
                        proof {
                            assert(self.entries@ =~= es.update(k as int, (es[k as int].0, ne)));
                            lemma_entries_update(es, k as int, ne);
                            assert(entity_view(ne) == Node::Dir(md, d@));
                            assert(walk(before, sub) == walk(dv, sub.drop_first()));
                            if !(walk(dv, sub.drop_first()) is Reached) {
                                assert(before.insert(sub[0], Node::Dir(md, dv)) =~= before);
                            }
                        }
                        r
                    },
                    other => {
                        self.entries.insert(k, (name, other));
                        assert(self.entries@ =~= es);
                        Err(WalkFail::NotDir)
                    },
                }
            },
        }
    }
}

/// How a path splits into the components of its parent and its last name.
pub enum SplitOut {
    /// The path has no final normal component (it is empty or ends in `/`, `.` or `..`).
    NoName,
    /// The final component is not a valid path segment.
    Bad(Seq<char>),
    /// The parent's components and the final name.
    Parts(Seq<Seq<char>>, Seq<char>),
}

/// Whether the component text names the root, the current directory or the parent directory.
pub open spec fn is_special_component(c: Seq<char>) -> bool {
    c == seq!['/'] || c == seq!['.'] || c == seq!['.', '.']
}

/// Splits path components into the parent's components and the final name.
pub open spec fn split_components(comps: Seq<Seq<char>>) -> SplitOut {
    if comps.len() == 0 || is_special_component(comps.last()) {
        SplitOut::NoName
    } else if !is_valid_segment(comps.last()) {
        SplitOut::Bad(comps.last())
    } else {
        SplitOut::Parts(comps.drop_last(), comps.last())
    }
}

/// Whether `e` reports why the path could not be split.
pub open spec fn split_error_matches(e: VfsError, sp: SplitOut) -> bool {
    match sp {
        SplitOut::NoName => e matches VfsError::InvalidPathComponent(s) && s@ == "No filename provided"@,
        SplitOut::Bad(c) => is_segment_error(e, c),
        SplitOut::Parts(..) => false,
    }
}

/// Whether `e` reports why the parent directory with components `parent` could not be reached.
pub open spec fn parent_error_matches(e: VfsError, w: Walk, parent: Seq<Seq<char>>) -> bool {
    match w {
        Walk::Missing => e matches VfsError::ParentDirectoryNotFound(p) && p@ == join_components(parent),
        Walk::NotDir => e matches VfsError::NotADirectory(p) && p@.len() == 0,
        Walk::Bad(c) => is_segment_error(e, c),
        Walk::Reached(_) => false,
    }
}

/// Whether the metadata is that of a newly made entity of type `t`: the type's default mode
/// and size 0.
pub open spec fn is_fresh_metadata(md: Metadata, t: ModeType) -> bool {
    &&& type_of(md.spec_mode().0) == Some(t)
    &&& perms_of(md.spec_mode().0) == Mode::default_perms(t)
    &&& md.spec_size() == 0
}

/// The bytes that a read of `length` bytes at `offset` gives from `c`: the read starts at the
/// offset (or the end, if the offset is past it) and stops at the end.
pub open spec fn read_range(c: Seq<u8>, offset: int, length: int) -> Seq<u8> {
    let start = if offset < c.len() { offset } else { c.len() as int };
    let n = if length < c.len() - start { length } else { c.len() - start };
    c.subrange(start, start + n)
}

/// Whether `r` and the map `m1` are the outcome of creating an entry at the path with
/// components `comps` (text `path`) in the map `m0`: an entry of the path's kind is made,
/// which `fresh` says of the entries it may be; an existing entry is left alone, which is
/// success only when `exists_ok`.
pub open spec fn create_rel(
    m0: Map<Seq<char>, Node>,
    m1: Map<Seq<char>, Node>,
    comps: Seq<Seq<char>>,
    path: Seq<char>,
    exists_ok: bool,
    fresh: spec_fn(Node) -> bool,
    r: VfsResult<()>,
) -> bool {
    match split_components(comps) {
        SplitOut::Parts(parent, name) => match walk(m0, parent) {
            Walk::Reached(m) => if m.contains_key(name) {
                m1 == m0 && (exists_ok ==> r is Ok) && (!exists_ok ==> (r matches Err(VfsError::AlreadyExists(p))
                    && p@ == path))
            } else {
                r is Ok && exists|n: Node| #[trigger] fresh(n) && m1 == replace_at(m0, parent, m.insert(name, n))
            },
            w => r matches Err(e) && parent_error_matches(e, w, parent) && m1 == m0,
        },
        sp => r matches Err(e) && split_error_matches(e, sp) && m1 == m0,
    }
}

/// The nodes that creating a file makes: empty, with fresh file metadata.
pub open spec fn fresh_file() -> spec_fn(Node) -> bool {
    |n: Node| n matches Node::File(md, c) && is_fresh_metadata(md, ModeType::File) && c.len() == 0
}

/// The nodes that creating a directory makes: empty, with fresh directory metadata.
pub open spec fn fresh_dir() -> spec_fn(Node) -> bool {
    |n: Node| n matches Node::Dir(md, m) && is_fresh_metadata(md, ModeType::Directory) && m == Map::<Seq<char>, Node>::empty()
}

/// The nodes that creating a symbolic link to `target` makes.
pub open spec fn fresh_link(target: Seq<char>) -> spec_fn(Node) -> bool {
    |n: Node| n matches Node::Symlink(md, t) && is_fresh_metadata(md, ModeType::Symlink) && t == target
}

/// Whether `r` and the map `m1` are the outcome of writing `data` at `offset` into the file
/// at the path in `m0`.
pub open spec fn write_rel(
    m0: Map<Seq<char>, Node>,
    m1: Map<Seq<char>, Node>,
    comps: Seq<Seq<char>>,
    path: Seq<char>,
    offset: u64,
    data: Seq<u8>,
    r: VfsResult<()>,
) -> bool {
    match lookup(m0, comps) {
        Lookup::Found(Node::File(md, c)) => if offset > usize::MAX {
            r matches Err(VfsError::InvalidOffset { path: p, offset: o }) && p@ == path && o == offset && m1 == m0
        } else {
            r is Ok && m1 == with_entry(m0, comps, written_file(md, c, offset as int, data))
        },
        Lookup::Found(_) => r matches Err(VfsError::NotAFile(p)) && p@.len() == 0 && m1 == m0,
        Lookup::Absent => r matches Err(VfsError::NotFound(p)) && p@ == path && m1 == m0,
        Lookup::Fails(f) => r matches Err(e) && fault_matches(e, f) && m1 == m0,
    }
}

/// Whether `r` and the map `m1` are the outcome of removing the entry at the path from
/// `m0`: a directory when `dir`, anything else otherwise.
pub open spec fn remove_rel(
    m0: Map<Seq<char>, Node>,
    m1: Map<Seq<char>, Node>,
    comps: Seq<Seq<char>>,
    path: Seq<char>,
    dir: bool,
    r: VfsResult<()>,
) -> bool {
    match split_components(comps) {
        SplitOut::Parts(parent, name) => match walk(m0, parent) {
            Walk::Reached(m) => if !m.contains_key(name) {
                r matches Err(VfsError::NotFound(p)) && p@ == path && m1 == m0
            } else if (m[name] is Dir) != dir {
                if dir {
                    r matches Err(VfsError::NotADirectory(p)) && p@ == path && m1 == m0
                } else {
                    r matches Err(VfsError::NotAFile(p)) && p@ == path && m1 == m0
                }
            } else {
                r is Ok && m1 == replace_at(m0, parent, m.remove(name))
            },
            w => r matches Err(e) && parent_error_matches(e, w, parent) && m1 == m0,
        },
        sp => r matches Err(e) && split_error_matches(e, sp) && m1 == m0,
    }
}

/// Whether `r` and the map `m1` are the outcome of replacing the metadata of the entity at
/// the path in `m0` with `md`.
pub open spec fn set_meta_rel(
    m0: Map<Seq<char>, Node>,
    m1: Map<Seq<char>, Node>,
    comps: Seq<Seq<char>>,
    path: Seq<char>,
    md: Metadata,
    r: VfsResult<()>,
) -> bool {
    match lookup(m0, comps) {
        Lookup::Found(n) => r is Ok && m1 == with_entry(m0, comps, with_metadata(n, md)),
        Lookup::Absent => r matches Err(VfsError::NotFound(p)) && p@ == path && m1 == m0,
        Lookup::Fails(f) => r matches Err(e) && fault_matches(e, f) && m1 == m0,
    }
}

/// An in-memory implementation of a virtual file system: a tree of directories, files and
/// symbolic links under a root directory.
#[derive(Debug)]
pub struct MemoryFileSystem {
    root_dir: Dir,
}

impl View for MemoryFileSystem {
    type V = Map<Seq<char>, Node>;

    closed spec fn view(&self) -> Map<Seq<char>, Node> {
        self.root_dir@
    }
}

impl MemoryFileSystem {
    /// Whether the tree is well formed: the entries of every directory have distinct names.
    pub closed spec fn wf(&self) -> bool {
        self.root_dir.wf()
    }

    /// Creates a new empty memory file system.
    pub fn new() -> (fs: Self)
        ensures
            fs.wf(),
            fs@ == Map::<Seq<char>, Node>::empty(),
            is_fresh_metadata(fs.spec_root_metadata(), ModeType::Directory),
    {
        MemoryFileSystem { root_dir: Dir::new() }
    }

    /// The metadata of the root directory, which the empty path names.
    pub closed spec fn spec_root_metadata(&self) -> Metadata {
        self.root_dir.spec_metadata()
    }

    /// Returns the root directory.
    pub fn get_root_dir(&self) -> (d: &Dir)
        ensures
            d@ == self@,
            self.wf() ==> d.wf(),
    {
        &self.root_dir
    }

    /// Splits path components into the final name, leaving the parent as all but the last
    /// component.
    fn split(comps: &Vec<String>) -> (r: Result<PathSegment, VfsError>)
        ensures
            match split_components(comps.deep_view()) {
                SplitOut::Parts(_, name) => r matches Ok(seg) && seg@ == name,
                sp => r matches Err(e) && split_error_matches(e, sp),
            },
    {
        let n = comps.len();
        proof {
            reveal_strlit("No filename provided");
            reveal_strlit("/");
            reveal_strlit(".");
            reveal_strlit("..");
            assert("/"@ =~= seq!['/']);
            assert("."@ =~= seq!['.']);
            assert(".."@ =~= seq!['.', '.']);
        }
        let no_name = String::from_str("No filename provided");
        if n == 0 {
            return Err(VfsError::InvalidPathComponent(no_name));
        }
        let last = comps[n - 1].as_str();
        assert(comps.deep_view().last() == last@);
        if crate::text::str_eq(last, "/") || crate::text::str_eq(last, ".") || crate::text::str_eq(last, "..") {
            return Err(VfsError::InvalidPathComponent(no_name));
        }
        PathSegment::try_from_str(last)
    }

    /// Applies a change to the parent directory named by all components but the last,
    /// reporting a parent that cannot be reached as `get_parent_dir` does.
    fn at_parent(&mut self, comps: &Vec<String>, op: DirOp) -> (r: Result<OpOut, VfsError>)
        requires
            old(self).wf(),
            op.wf(),
            comps.len() > 0,
        ensures
            final(self).wf(),
            ({
                let parent = comps.deep_view().drop_last();
                match walk(old(self)@, parent) {
                    Walk::Reached(m) => r matches Ok(o) && out_matches(o, op.out(m))
                        && final(self)@ == replace_at(old(self)@, parent, op.map_after(m)),
                    w => r matches Err(e) && parent_error_matches(e, w, parent) && final(self)@ == old(self)@,
                }
            }),
    {
        let n = comps.len();
        assert(comps.deep_view().subrange(0, n - 1) =~= comps.deep_view().drop_last());
        match self.root_dir.apply_at(comps, 0, n - 1, op) {
            Ok(o) => Ok(o),
            Err(WalkFail::Missing) => Err(VfsError::ParentDirectoryNotFound(join_prefix(comps, n - 1))),
            Err(WalkFail::NotDir) => Err(VfsError::NotADirectory(String::new())),
            Err(WalkFail::Bad(e)) => Err(e),
        }
    }

    /// Creates an entry at the path (given as the path text and its components) in its parent
    /// directory; an existing entry there is left alone, which is success only when
    /// `exists_ok`.
    fn create_entry(&mut self, path: &str, comps: &Vec<String>, entity: Entity, exists_ok: bool) -> (r: VfsResult<()>)
        requires
            old(self).wf(),
            entity.wf(),
        ensures
            final(self).wf(),
            match split_components(comps.deep_view()) {
                SplitOut::Parts(parent, name) => match walk(old(self)@, parent) {
                    Walk::Reached(m) => if m.contains_key(name) {
                        final(self)@ == old(self)@ && (exists_ok ==> r is Ok) && (!exists_ok ==> (r matches Err(
                            VfsError::AlreadyExists(p),
                        ) && p@ == path@))
                    } else {
                        r is Ok && final(self)@ == replace_at(old(self)@, parent, m.insert(name, entity@))
                    },
                    w => r matches Err(e) && parent_error_matches(e, w, parent) && final(self)@ == old(self)@,
                },
                sp => r matches Err(e) && split_error_matches(e, sp) && final(self)@ == old(self)@,
            },
    {
        let name = Self::split(comps)?;
        let ghost parent = comps.deep_view().drop_last();
        match self.at_parent(comps, DirOp::Create { name, entity })? {
            OpOut::Done => Ok(()),
            _ => {
                proof {
                    if let Walk::Reached(m) = walk(old(self)@, parent) {
                        lemma_replace_walk(old(self)@, parent, m, m);
                    }
                }
                if exists_ok {
                    Ok(())
                } else {
                    Err(VfsError::AlreadyExists(copy_str(path)))
                }
            },
        }
    }

    /// Creates an empty file at the path; an existing entry there is success only when
    /// `exists_ok`, and is left alone either way.
    pub fn create_file(&mut self, path: &str, exists_ok: bool) -> (r: VfsResult<()>)
        requires
            old(self).wf(),
        ensures
            final(self).wf(),
            match split_components(std_path_components(path@)) {
                SplitOut::Parts(parent, name) => match walk(old(self)@, parent) {
                    Walk::Reached(m) => if m.contains_key(name) {
                        final(self)@ == old(self)@ && (exists_ok ==> r is Ok) && (!exists_ok ==> (r matches Err(
                            VfsError::AlreadyExists(p),
                        ) && p@ == path@))
                    } else {
                        r is Ok && exists|md: Metadata| is_fresh_metadata(md, ModeType::File)
                            && final(self)@ == replace_at(old(self)@, parent, m.insert(name, Node::File(md, Seq::empty())))
                    },
                    w => r matches Err(e) && parent_error_matches(e, w, parent) && final(self)@ == old(self)@,
                },
                sp => r matches Err(e) && split_error_matches(e, sp) && final(self)@ == old(self)@,
            },
    {
        let comps = path_components(path);
        self.create_file_at(path, &comps, exists_ok)
    }

    /// `create_file` for a path given together with its components.
    pub fn create_file_at(&mut self, path: &str, comps: &Vec<String>, exists_ok: bool) -> (r: VfsResult<()>)
        requires
            old(self).wf(),
        ensures
            final(self).wf(),
            match split_components(comps.deep_view()) {
                SplitOut::Parts(parent, name) => match walk(old(self)@, parent) {
                    Walk::Reached(m) => if m.contains_key(name) {
                        final(self)@ == old(self)@ && (exists_ok ==> r is Ok) && (!exists_ok ==> (r matches Err(
                            VfsError::AlreadyExists(p),
                        ) && p@ == path@))
                    } else {
                        r is Ok && exists|md: Metadata| is_fresh_metadata(md, ModeType::File)
                            && final(self)@ == replace_at(old(self)@, parent, m.insert(name, Node::File(md, Seq::empty())))
                    },
                    w => r matches Err(e) && parent_error_matches(e, w, parent) && final(self)@ == old(self)@,
                },
                sp => r matches Err(e) && split_error_matches(e, sp) && final(self)@ == old(self)@,
            },
            create_rel(old(self)@, final(self)@, comps.deep_view(), path@, exists_ok, fresh_file(), r),
    {
        let f = File::new();
        let e = Entity::File(f);
        proof {
            reveal(entity_view);
            reveal(entity_wf);
            assert(is_fresh_metadata(f.metadata, ModeType::File));
            assert(fresh_file()(e@));
        }
        self.create_entry(path, comps, e, exists_ok)
    }

    /// Creates an empty directory at the path; an existing entry there gives `AlreadyExists`.
    pub fn create_directory(&mut self, path: &str) -> (r: VfsResult<()>)
        requires
            old(self).wf(),
        ensures
            final(self).wf(),
            match split_components(std_path_components(path@)) {
                SplitOut::Parts(parent, name) => match walk(old(self)@, parent) {
                    Walk::Reached(m) => if m.contains_key(name) {
                        final(self)@ == old(self)@ && (r matches Err(VfsError::AlreadyExists(p)) && p@ == path@)
                    } else {
                        r is Ok && exists|md: Metadata| is_fresh_metadata(md, ModeType::Directory)
                            && final(self)@ == replace_at(old(self)@, parent, m.insert(name, Node::Dir(md, Map::empty())))
                    },
                    w => r matches Err(e) && parent_error_matches(e, w, parent) && final(self)@ == old(self)@,
                },
                sp => r matches Err(e) && split_error_matches(e, sp) && final(self)@ == old(self)@,
            },
    {
        let comps = path_components(path);
        self.create_directory_at(path, &comps)
    }

    /// `create_directory` for a path given together with its components.
    pub fn create_directory_at(&mut self, path: &str, comps: &Vec<String>) -> (r: VfsResult<()>)
        requires
            old(self).wf(),
        ensures
            final(self).wf(),
            match split_components(comps.deep_view()) {
                SplitOut::Parts(parent, name) => match walk(old(self)@, parent) {
                    Walk::Reached(m) => if m.contains_key(name) {
                        final(self)@ == old(self)@ && (r matches Err(VfsError::AlreadyExists(p)) && p@ == path@)
                    } else {
                        r is Ok && exists|md: Metadata| is_fresh_metadata(md, ModeType::Directory)
                            && final(self)@ == replace_at(old(self)@, parent, m.insert(name, Node::Dir(md, Map::empty())))
                    },
                    w => r matches Err(e) && parent_error_matches(e, w, parent) && final(self)@ == old(self)@,
                },
                sp => r matches Err(e) && split_error_matches(e, sp) && final(self)@ == old(self)@,
            },
            create_rel(old(self)@, final(self)@, comps.deep_view(), path@, false, fresh_dir(), r),
    {
        let d = Dir::new();
        let e = Entity::Dir(d);
        proof {
            reveal(entity_view);
            reveal(entity_wf);
            assert(is_fresh_metadata(d.metadata, ModeType::Directory));
            assert(fresh_dir()(e@));
        }
        self.create_entry(path, comps, e, false)
    }

    /// Creates a symbolic link at the path pointing to `target`; an empty target gives
    /// `InvalidSymlinkTarget` and an existing entry gives `AlreadyExists`.
    pub fn create_symlink(&mut self, path: &str, target: &str) -> (r: VfsResult<()>)
        requires
            old(self).wf(),
        ensures
            final(self).wf(),
            target@.len() == 0 ==> (r matches Err(VfsError::InvalidSymlinkTarget(t)) && t@ == target@ && final(self)@ == old(self)@),
            target@.len() > 0 ==> match split_components(std_path_components(path@)) {
                SplitOut::Parts(parent, name) => match walk(old(self)@, parent) {
                    Walk::Reached(m) => if m.contains_key(name) {
                        final(self)@ == old(self)@ && (r matches Err(VfsError::AlreadyExists(p)) && p@ == path@)
                    } else {
                        r is Ok && exists|md: Metadata| is_fresh_metadata(md, ModeType::Symlink)
                            && final(self)@ == replace_at(old(self)@, parent, m.insert(name, Node::Symlink(md, target@)))
                    },
                    w => r matches Err(e) && parent_error_matches(e, w, parent) && final(self)@ == old(self)@,
                },
                sp => r matches Err(e) && split_error_matches(e, sp) && final(self)@ == old(self)@,
            },
    {
        let comps = path_components(path);
        self.create_symlink_at(path, &comps, target)
    }

    /// `create_symlink` for a path given together with its components.
    pub fn create_symlink_at(&mut self, path: &str, comps: &Vec<String>, target: &str) -> (r: VfsResult<()>)
        requires
            old(self).wf(),
        ensures
            final(self).wf(),
            target@.len() == 0 ==> (r matches Err(VfsError::InvalidSymlinkTarget(t)) && t@ == target@ && final(self)@ == old(self)@),
            target@.len() > 0 ==> match split_components(comps.deep_view()) {
                SplitOut::Parts(parent, name) => match walk(old(self)@, parent) {
                    Walk::Reached(m) => if m.contains_key(name) {
                        final(self)@ == old(self)@ && (r matches Err(VfsError::AlreadyExists(p)) && p@ == path@)
                    } else {
                        r is Ok && exists|md: Metadata| is_fresh_metadata(md, ModeType::Symlink)
                            && final(self)@ == replace_at(old(self)@, parent, m.insert(name, Node::Symlink(md, target@)))
                    },
                    w => r matches Err(e) && parent_error_matches(e, w, parent) && final(self)@ == old(self)@,
                },
                sp => r matches Err(e) && split_error_matches(e, sp) && final(self)@ == old(self)@,
            },
            target@.len() > 0 ==> create_rel(old(self)@, final(self)@, comps.deep_view(), path@, false, fresh_link(target@), r),
    {
        if target.is_empty() {
            return Err(VfsError::InvalidSymlinkTarget(copy_str(target)));
        }
        let l = Symlink::new(copy_str(target));
        let e = Entity::Symlink(l);
        proof {
            reveal(entity_view);
            reveal(entity_wf);
            assert(is_fresh_metadata(l.metadata, ModeType::Symlink));
            assert(fresh_link(target@)(e@));
        }
        self.create_entry(path, comps, e, false)
    }

    /// Checks whether the path names an entity.
    pub fn path_exists(&self, path: &str) -> (r: VfsResult<bool>)
        requires
            self.wf(),
        ensures
            path@.len() == 0 ==> r == VfsResult::<bool>::Ok(true),
            path@.len() > 0 ==> match lookup(self@, std_path_components(path@)) {
                Lookup::Found(_) => r matches Ok(b) && b,
                Lookup::Absent => r matches Ok(b) && !b,
                Lookup::Fails(f) => r matches Err(e) && fault_matches(e, f),
            },
    {
        if path.is_empty() {
            return Ok(true);
        }
        let comps = path_components(path);
        self.path_exists_at(path, &comps)
    }

    /// `path_exists` for a path given together with its components.
    pub fn path_exists_at(&self, path: &str, comps: &Vec<String>) -> (r: VfsResult<bool>)
        requires
            self.wf(),
        ensures
            match lookup(self@, comps.deep_view()) {
                Lookup::Found(_) => r matches Ok(b) && b,
                Lookup::Absent => r matches Ok(b) && !b,
                Lookup::Fails(f) => r matches Err(e) && fault_matches(e, f),
            },
    {
        let found = self.root_dir.find_components(comps)?;
        Ok(found.is_some())
    }

    /// Reads up to `length` bytes of the file at the path, starting at `offset` (or at the end
    /// of the file, if the offset is past it).
    pub fn read_file(&self, path: &str, offset: u64, length: u64) -> (r: VfsResult<Vec<u8>>)
        requires
            self.wf(),
        ensures
            match lookup(self@, std_path_components(path@)) {
                Lookup::Found(Node::File(_, c)) => r matches Ok(v) && v@ == read_range(c, offset as int, length as int),
                Lookup::Found(_) => r matches Err(VfsError::NotAFile(p)) && p@.len() == 0,
                Lookup::Absent => r matches Err(VfsError::NotFound(p)) && p@ == path@,
                Lookup::Fails(f) => r matches Err(e) && fault_matches(e, f),
            },
    {
        let comps = path_components(path);
        self.read_file_at(path, &comps, offset, length)
    }

    /// `read_file` for a path given together with its components.
    pub fn read_file_at(&self, path: &str, comps: &Vec<String>, offset: u64, length: u64) -> (r: VfsResult<Vec<u8>>)
        requires
            self.wf(),
        ensures
            match lookup(self@, comps.deep_view()) {
                Lookup::Found(Node::File(_, c)) => r matches Ok(v) && v@ == read_range(c, offset as int, length as int),
                Lookup::Found(_) => r matches Err(VfsError::NotAFile(p)) && p@.len() == 0,
                Lookup::Absent => r matches Err(VfsError::NotFound(p)) && p@ == path@,
                Lookup::Fails(f) => r matches Err(e) && fault_matches(e, f),
            },
    {
        let entity = match self.root_dir.find_components(comps)? {
            Some(e) => e,
            None => return Err(VfsError::NotFound(copy_str(path))),
        };
        proof {
            reveal(entity_view);
        }
        let file = entity.as_file()?;
        let mut reader = MemoryFileReader::new(file.get_content(), offset, length);
        Ok(reader.take_all())
    }

    /// Lists the names in the directory at the path; the empty path lists the root.
    pub fn read_directory(&self, path: &str) -> (r: VfsResult<Vec<PathSegment>>)
        requires
            self.wf(),
        ensures
            std_path_components(path@).len() == 0 ==> (r matches Ok(v) && names_of(v@, self@)),
            std_path_components(path@).len() > 0 ==> match lookup(self@, std_path_components(path@)) {
                Lookup::Found(Node::Dir(_, m)) => r matches Ok(v) && names_of(v@, m),
                Lookup::Found(_) => r matches Err(VfsError::NotADirectory(p)) && p@.len() == 0,
                Lookup::Absent => r matches Err(VfsError::NotFound(p)) && p@ == path@,
                Lookup::Fails(f) => r matches Err(e) && fault_matches(e, f),
            },
    {
        let comps = path_components(path);
        self.read_directory_at(path, &comps)
    }

    /// `read_directory` for a path given together with its components.
    pub fn read_directory_at(&self, path: &str, comps: &Vec<String>) -> (r: VfsResult<Vec<PathSegment>>)
        requires
            self.wf(),
        ensures
            comps.deep_view().len() == 0 ==> (r matches Ok(v) && names_of(v@, self@)),
            comps.deep_view().len() > 0 ==> match lookup(self@, comps.deep_view()) {
                Lookup::Found(Node::Dir(_, m)) => r matches Ok(v) && names_of(v@, m),
                Lookup::Found(_) => r matches Err(VfsError::NotADirectory(p)) && p@.len() == 0,
                Lookup::Absent => r matches Err(VfsError::NotFound(p)) && p@ == path@,
                Lookup::Fails(f) => r matches Err(e) && fault_matches(e, f),
            },
    {
        if comps.len() == 0 {
            return Ok(self.root_dir.names());
        }
        let entity = match self.root_dir.find_components(comps)? {
            Some(e) => e,
            None => return Err(VfsError::NotFound(copy_str(path))),
        };
        proof {
            reveal(entity_view);
            reveal(entity_wf);
        }
        let dir = entity.as_dir()?;
        Ok(dir.names())
    }

    /// Reads the target of the symbolic link at the path.
    pub fn read_symlink(&self, path: &str) -> (r: VfsResult<String>)
        requires
            self.wf(),
        ensures
            match lookup(self@, std_path_components(path@)) {
                Lookup::Found(Node::Symlink(_, t)) => r matches Ok(s) && s@ == t,
                Lookup::Found(_) => r matches Err(VfsError::NotASymlink(p)) && p@.len() == 0,
                Lookup::Absent => r matches Err(VfsError::NotFound(p)) && p@ == path@,
                Lookup::Fails(f) => r matches Err(e) && fault_matches(e, f),
            },
    {
        let comps = path_components(path);
        self.read_symlink_at(path, &comps)
    }

    /// `read_symlink` for a path given together with its components.
    pub fn read_symlink_at(&self, path: &str, comps: &Vec<String>) -> (r: VfsResult<String>)
        requires
            self.wf(),
        ensures
            match lookup(self@, comps.deep_view()) {
                Lookup::Found(Node::Symlink(_, t)) => r matches Ok(s) && s@ == t,
                Lookup::Found(_) => r matches Err(VfsError::NotASymlink(p)) && p@.len() == 0,
                Lookup::Absent => r matches Err(VfsError::NotFound(p)) && p@ == path@,
                Lookup::Fails(f) => r matches Err(e) && fault_matches(e, f),
            },
    {
        let entity = match self.root_dir.find_components(comps)? {
            Some(e) => e,
            None => return Err(VfsError::NotFound(copy_str(path))),
        };
        proof {
            reveal(entity_view);
        }
        let link = entity.as_symlink()?;
        Ok(copy_str(link.get_target().as_str()))
    }

    /// Returns a copy of the metadata of the entity at the path.
    pub fn get_metadata(&self, path: &str) -> (r: VfsResult<Metadata>)
        requires
            self.wf(),
        ensures
            path@.len() == 0 ==> r == VfsResult::<Metadata>::Ok(self.spec_root_metadata()),
            path@.len() > 0 ==> match lookup(self@, std_path_components(path@)) {
                Lookup::Found(n) => r matches Ok(md) && md == node_metadata(n),
                Lookup::Absent => r matches Err(VfsError::NotFound(p)) && p@ == path@,
                Lookup::Fails(f) => r matches Err(e) && fault_matches(e, f),
            },
    {
        if path.is_empty() {
            return Ok(*self.root_dir.get_metadata());
        }
        let comps = path_components(path);
        self.get_metadata_at(path, &comps)
    }

    /// `get_metadata` for a path given together with its components.
    pub fn get_metadata_at(&self, path: &str, comps: &Vec<String>) -> (r: VfsResult<Metadata>)
        requires
            self.wf(),
        ensures
            match lookup(self@, comps.deep_view()) {
                Lookup::Found(n) => r matches Ok(md) && md == node_metadata(n),
                Lookup::Absent => r matches Err(VfsError::NotFound(p)) && p@ == path@,
                Lookup::Fails(f) => r matches Err(e) && fault_matches(e, f),
            },
    {
        let entity = match self.root_dir.find_components(comps)? {
            Some(e) => e,
            None => return Err(VfsError::NotFound(copy_str(path))),
        };
        Ok(*entity.metadata())
    }
}

/// The directory map `m` with the entry named by the last of `comps` set to `node`, in the
/// directory that the other components name.
pub open spec fn with_entry(m: Map<Seq<char>, Node>, comps: Seq<Seq<char>>, node: Node) -> Map<Seq<char>, Node> {
    let parent = comps.drop_last();
    replace_at(m, parent, walk(m, parent)->Reached_0.insert(comps.last(), node))
}

/// Whether the parent with components `parent` is a directory: the empty parent is the root.
pub open spec fn parent_ok(m: Map<Seq<char>, Node>, parent: Seq<Seq<char>>) -> bool {
    parent.len() == 0 || lookup(m, parent) matches Lookup::Found(Node::Dir(..))
}

/// Whether `e` reports why the parent with components `parent` is not a directory, as a
/// rename reports it before it moves anything.
pub open spec fn parent_check_error(e: VfsError, m: Map<Seq<char>, Node>, parent: Seq<Seq<char>>) -> bool {
    match lookup(m, parent) {
        Lookup::Found(Node::Dir(..)) => false,
        Lookup::Found(_) => e matches VfsError::NotADirectory(p) && p@ == join_components(parent),
        Lookup::Absent => e matches VfsError::ParentDirectoryNotFound(p) && p@ == join_components(parent),
        Lookup::Fails(f) => fault_matches(e, f),
    }
}

/// Whether `r` and the map `m1` are the outcome of renaming the path with components `oc`
/// (text `ot`) to the path with components `nc` (text `nt`) in the map `m0`. Both paths are
/// split first, then both parents must be directories, the source must exist and the
/// destination must not. The entry is then taken from its parent and stored under the new
/// name; when the new parent cannot be reached once the entry is gone (it lay inside the
/// moved entry), the error comes with the entry removed.
pub open spec fn rename_matches(
    m0: Map<Seq<char>, Node>,
    m1: Map<Seq<char>, Node>,
    oc: Seq<Seq<char>>,
    nc: Seq<Seq<char>>,
    ot: Seq<char>,
    nt: Seq<char>,
    r: VfsResult<()>,
) -> bool {
    match split_components(oc) {
        SplitOut::Parts(op, on) => match split_components(nc) {
            SplitOut::Parts(np, nn) => if !parent_ok(m0, op) {
                r matches Err(e) && parent_check_error(e, m0, op) && m1 == m0
            } else if !parent_ok(m0, np) {
                r matches Err(e) && parent_check_error(e, m0, np) && m1 == m0
            } else {
                let om = walk(m0, op)->Reached_0;
                let nm = walk(m0, np)->Reached_0;
                if !om.contains_key(on) {
                    r matches Err(VfsError::NotFound(p)) && p@ == ot && m1 == m0
                } else if nm.contains_key(nn) {
                    r matches Err(VfsError::AlreadyExists(p)) && p@ == nt && m1 == m0
                } else {
                    let t1 = replace_at(m0, op, om.remove(on));
                    match walk(t1, np) {
                        Walk::Reached(pm) => r is Ok && m1 == replace_at(t1, np, pm.insert(nn, om[on])),
                        w => r matches Err(e) && parent_error_matches(e, w, np) && m1 == t1,
                    }
                }
            },
            sp => r matches Err(e) && split_error_matches(e, sp) && m1 == m0,
        },
        sp => r matches Err(e) && split_error_matches(e, sp) && m1 == m0,
    }
}

/// Walking all components is walking all but the last, then the last.
proof fn lemma_walk_last(m: Map<Seq<char>, Node>, comps: Seq<Seq<char>>)
    requires
        comps.len() > 0,
        walk(m, comps.drop_last()) is Reached,
    ensures
        walk(m, comps) == walk(walk(m, comps.drop_last())->Reached_0, seq![comps.last()]),
    decreases comps.len(),
{
    let one = seq![comps.last()];
    assert(one.drop_first() =~= Seq::<Seq<char>>::empty());
    if comps.len() == 1 {
        assert(comps =~= one);
    } else {
        let rest = comps.drop_first();
        assert(comps.drop_last().drop_first() =~= rest.drop_last());
        assert(comps.drop_last()[0] == comps[0]);
        match m[comps[0]] {
            Node::Dir(_, sub) => {
                lemma_walk_last(sub, rest);
                assert(rest.last() == comps.last());
            },
            _ => {},
        }
    }
}

/// A parent that is a directory is reached by a walk.
proof fn lemma_parent_ok_walk(m: Map<Seq<char>, Node>, parent: Seq<Seq<char>>)
    requires
        parent_ok(m, parent),
    ensures
        walk(m, parent) is Reached,
{
    if parent.len() > 0 {
        lemma_walk_last(m, parent);
        let one = seq![parent.last()];
        assert(one.drop_first() =~= Seq::<Seq<char>>::empty());
        let d = walk(m, parent.drop_last())->Reached_0;
        assert(one[0] == parent.last());
        match d[parent.last()] {
            Node::Dir(_, sub) => {
                assert(walk(d, one) == walk(sub, one.drop_first()));
            },
            _ => {},
        }
    }
}

/// Copies the first `k` components.
pub fn prefix_copy(comps: &Vec<String>, k: usize) -> (r: Vec<String>)
    requires
        k <= comps.len(),
    ensures
        r.deep_view() == comps.deep_view().take(k as int),
{
    let mut r: Vec<String> = Vec::new();
    let mut i: usize = 0;
    while i < k
        invariant
            i <= k,
            k <= comps.len(),
            r.deep_view() =~= comps.deep_view().take(i as int),
        decreases k - i,
    {
        let ghost before = r.deep_view();
        let ghost before_v = r@;
        assert(before.len() == before_v.len());
        assert(before_v.len() == i);
        let s = copy_str(comps[i].as_str());
        r.push(s);
        assert(r@ == before_v.push(s));
        proof {
            assert(r@[i as int].deep_view() == comps@[i as int].deep_view());
            assert forall|j: int| 0 <= j < i implies r.deep_view()[j] == before[j] by {
                assert(r@[j] == before_v[j]);
            }
        }
        i = i + 1;
        assert(r.deep_view() =~= comps.deep_view().take(i as int));
    }
    r
}

impl MemoryFileSystem {
    /// Writes `data` into the file at the path starting at `offset`; the file grows with zero
    /// bytes when the offset lies past its end.
    pub fn write_file(&mut self, path: &str, offset: u64, data: Vec<u8>) -> (r: VfsResult<()>)
        requires
            old(self).wf(),
            offset <= usize::MAX ==> offset + data@.len() <= usize::MAX,
        ensures
            final(self).wf(),
            match lookup(old(self)@, std_path_components(path@)) {
                Lookup::Found(Node::File(md, c)) => if offset > usize::MAX {
                    r matches Err(VfsError::InvalidOffset { path: p, offset: o }) && p@ == path@ && o == offset
                        && final(self)@ == old(self)@
                } else {
                    r is Ok && final(self)@ == with_entry(
                        old(self)@,
                        std_path_components(path@),
                        written_file(md, c, offset as int, data@),
                    )
                },
                Lookup::Found(_) => r matches Err(VfsError::NotAFile(p)) && p@.len() == 0 && final(self)@ == old(self)@,
                Lookup::Absent => r matches Err(VfsError::NotFound(p)) && p@ == path@ && final(self)@ == old(self)@,
                Lookup::Fails(f) => r matches Err(e) && fault_matches(e, f) && final(self)@ == old(self)@,
            },
    {
        let comps = path_components(path);
        self.write_file_at(path, &comps, offset, data)
    }

    /// `write_file` for a path given together with its components.
    pub fn write_file_at(&mut self, path: &str, comps: &Vec<String>, offset: u64, data: Vec<u8>) -> (r: VfsResult<()>)
        requires
            old(self).wf(),
            offset <= usize::MAX ==> offset + data@.len() <= usize::MAX,
        ensures
            final(self).wf(),
            match lookup(old(self)@, comps.deep_view()) {
                Lookup::Found(Node::File(md, c)) => if offset > usize::MAX {
                    r matches Err(VfsError::InvalidOffset { path: p, offset: o }) && p@ == path@ && o == offset
                        && final(self)@ == old(self)@
                } else {
                    r is Ok && final(self)@ == with_entry(
                        old(self)@,
                        comps.deep_view(),
                        written_file(md, c, offset as int, data@),
                    )
                },
                Lookup::Found(_) => r matches Err(VfsError::NotAFile(p)) && p@.len() == 0 && final(self)@ == old(self)@,
                Lookup::Absent => r matches Err(VfsError::NotFound(p)) && p@ == path@ && final(self)@ == old(self)@,
                Lookup::Fails(f) => r matches Err(e) && fault_matches(e, f) && final(self)@ == old(self)@,
            },
            write_rel(old(self)@, final(self)@, comps.deep_view(), path@, offset, data@, r),
    {
        match self.root_dir.find_components(comps) {
            Err(e) => return Err(e),
            Ok(None) => return Err(VfsError::NotFound(copy_str(path))),
            Ok(Some(e)) => {
                proof {
                    reveal(entity_view);
                }
                let is_file = match e {
                    Entity::File(_) => true,
                    _ => false,
                };
                if !is_file {
                    return Err(VfsError::NotAFile(String::new()));
                }
            },
        }
        if offset > usize::MAX as u64 {
            return Err(VfsError::InvalidOffset { path: copy_str(path), offset });
        }
        let n = comps.len();
        let ghost cv = comps.deep_view();
        assert(cv.subrange(0, n - 1) =~= cv.drop_last());
        assert(cv.last() == comps[n - 1]@);
        let name = match PathSegment::try_from_str(comps[n - 1].as_str()) {
            Ok(s) => s,
            Err(e) => return Err(e),
        };
        match self.root_dir.apply_at(comps, 0, n - 1, DirOp::Write { name, offset: offset as usize, data }) {
            Ok(_) => Ok(()),
            Err(_) => Err(VfsError::NotFound(copy_str(path))),
        }
    }

    /// Replaces the metadata of the entity at the path.
    pub fn set_metadata(&mut self, path: &str, metadata: Metadata) -> (r: VfsResult<()>)
        requires
            old(self).wf(),
        ensures
            final(self).wf(),
            match lookup(old(self)@, std_path_components(path@)) {
                Lookup::Found(n) => r is Ok && final(self)@ == with_entry(
                    old(self)@,
                    std_path_components(path@),
                    with_metadata(n, metadata),
                ),
                Lookup::Absent => r matches Err(VfsError::NotFound(p)) && p@ == path@ && final(self)@ == old(self)@,
                Lookup::Fails(f) => r matches Err(e) && fault_matches(e, f) && final(self)@ == old(self)@,
            },
    {
        let comps = path_components(path);
        self.set_metadata_at(path, &comps, metadata)
    }

    /// `set_metadata` for a path given together with its components.
    pub fn set_metadata_at(&mut self, path: &str, comps: &Vec<String>, metadata: Metadata) -> (r: VfsResult<()>)
        requires
            old(self).wf(),
        ensures
            final(self).wf(),
            match lookup(old(self)@, comps.deep_view()) {
                Lookup::Found(n) => r is Ok && final(self)@ == with_entry(old(self)@, comps.deep_view(), with_metadata(n, metadata)),
                Lookup::Absent => r matches Err(VfsError::NotFound(p)) && p@ == path@ && final(self)@ == old(self)@,
                Lookup::Fails(f) => r matches Err(e) && fault_matches(e, f) && final(self)@ == old(self)@,
            },
            set_meta_rel(old(self)@, final(self)@, comps.deep_view(), path@, metadata, r),
    {
        match self.root_dir.find_components(comps) {
            Err(e) => return Err(e),
            Ok(None) => return Err(VfsError::NotFound(copy_str(path))),
            Ok(Some(_)) => {},
        }
        let n = comps.len();
        let ghost cv = comps.deep_view();
        assert(cv.subrange(0, n - 1) =~= cv.drop_last());
        assert(cv.last() == comps[n - 1]@);
        let name = match PathSegment::try_from_str(comps[n - 1].as_str()) {
            Ok(s) => s,
            Err(e) => return Err(e),
        };
        match self.root_dir.apply_at(comps, 0, n - 1, DirOp::SetMeta { name, md: metadata }) {
            Ok(_) => Ok(()),
            Err(_) => Err(VfsError::NotFound(copy_str(path))),
        }
    }

    /// Removes the file or symbolic link at the path; a directory there gives `NotAFile`.
    pub fn remove(&mut self, path: &str) -> (r: VfsResult<()>)
        requires
            old(self).wf(),
        ensures
            final(self).wf(),
            match split_components(std_path_components(path@)) {
                SplitOut::Parts(parent, name) => match walk(old(self)@, parent) {
                    Walk::Reached(m) => if !m.contains_key(name) {
                        r matches Err(VfsError::NotFound(p)) && p@ == path@ && final(self)@ == old(self)@
                    } else if m[name] is Dir {
                        r matches Err(VfsError::NotAFile(p)) && p@ == path@ && final(self)@ == old(self)@
                    } else {
                        r is Ok && final(self)@ == replace_at(old(self)@, parent, m.remove(name))
                    },
                    w => r matches Err(e) && parent_error_matches(e, w, parent) && final(self)@ == old(self)@,
                },
                sp => r matches Err(e) && split_error_matches(e, sp) && final(self)@ == old(self)@,
            },
    {
        let comps = path_components(path);
        self.remove_at(path, &comps)
    }

    /// `remove` for a path given together with its components.
    pub fn remove_at(&mut self, path: &str, comps: &Vec<String>) -> (r: VfsResult<()>)
        requires
            old(self).wf(),
        ensures
            final(self).wf(),
            match split_components(comps.deep_view()) {
                SplitOut::Parts(parent, name) => match walk(old(self)@, parent) {
                    Walk::Reached(m) => if !m.contains_key(name) {
                        r matches Err(VfsError::NotFound(p)) && p@ == path@ && final(self)@ == old(self)@
                    } else if m[name] is Dir {
                        r matches Err(VfsError::NotAFile(p)) && p@ == path@ && final(self)@ == old(self)@
                    } else {
                        r is Ok && final(self)@ == replace_at(old(self)@, parent, m.remove(name))
                    },
                    w => r matches Err(e) && parent_error_matches(e, w, parent) && final(self)@ == old(self)@,
                },
                sp => r matches Err(e) && split_error_matches(e, sp) && final(self)@ == old(self)@,
            },
            remove_rel(old(self)@, final(self)@, comps.deep_view(), path@, false, r),
    {
        let name = Self::split(comps)?;
        let ghost parent = comps.deep_view().drop_last();
        match self.at_parent(comps, DirOp::Remove { name, dir: false })? {
            OpOut::Done => Ok(()),
            OpOut::WrongKind => {
                proof {
                    if let Walk::Reached(m) = walk(old(self)@, parent) {
                        lemma_replace_walk(old(self)@, parent, m, m);
                    }
                }
                Err(VfsError::NotAFile(copy_str(path)))
            },
            _ => {
                proof {
                    if let Walk::Reached(m) = walk(old(self)@, parent) {
                        lemma_replace_walk(old(self)@, parent, m, m);
                    }
                }
                Err(VfsError::NotFound(copy_str(path)))
            },
        }
    }

    /// Removes the directory at the path with everything in it; an entity there that is not a
    /// directory gives `NotADirectory`.
    pub fn remove_directory(&mut self, path: &str) -> (r: VfsResult<()>)
        requires
            old(self).wf(),
        ensures
            final(self).wf(),
            match split_components(std_path_components(path@)) {
                SplitOut::Parts(parent, name) => match walk(old(self)@, parent) {
                    Walk::Reached(m) => if !m.contains_key(name) {
                        r matches Err(VfsError::NotFound(p)) && p@ == path@ && final(self)@ == old(self)@
                    } else if !(m[name] is Dir) {
                        r matches Err(VfsError::NotADirectory(p)) && p@ == path@ && final(self)@ == old(self)@
                    } else {
                        r is Ok && final(self)@ == replace_at(old(self)@, parent, m.remove(name))
                    },
                    w => r matches Err(e) && parent_error_matches(e, w, parent) && final(self)@ == old(self)@,
                },
                sp => r matches Err(e) && split_error_matches(e, sp) && final(self)@ == old(self)@,
            },
    {
        let comps = path_components(path);
        self.remove_directory_at(path, &comps)
    }

    /// `remove_directory` for a path given together with its components.
    pub fn remove_directory_at(&mut self, path: &str, comps: &Vec<String>) -> (r: VfsResult<()>)
        requires
            old(self).wf(),
        ensures
            final(self).wf(),
            match split_components(comps.deep_view()) {
                SplitOut::Parts(parent, name) => match walk(old(self)@, parent) {
                    Walk::Reached(m) => if !m.contains_key(name) {
                        r matches Err(VfsError::NotFound(p)) && p@ == path@ && final(self)@ == old(self)@
                    } else if !(m[name] is Dir) {
                        r matches Err(VfsError::NotADirectory(p)) && p@ == path@ && final(self)@ == old(self)@
                    } else {
                        r is Ok && final(self)@ == replace_at(old(self)@, parent, m.remove(name))
                    },
                    w => r matches Err(e) && parent_error_matches(e, w, parent) && final(self)@ == old(self)@,
                },
                sp => r matches Err(e) && split_error_matches(e, sp) && final(self)@ == old(self)@,
            },
            remove_rel(old(self)@, final(self)@, comps.deep_view(), path@, true, r),
    {
        let name = Self::split(comps)?;
        let ghost parent = comps.deep_view().drop_last();
        match self.at_parent(comps, DirOp::Remove { name, dir: true })? {
            OpOut::Done => Ok(()),
            OpOut::WrongKind => {
                proof {
                    if let Walk::Reached(m) = walk(old(self)@, parent) {
                        lemma_replace_walk(old(self)@, parent, m, m);
                    }
                }
                Err(VfsError::NotADirectory(copy_str(path)))
            },
            _ => {
                proof {
                    if let Walk::Reached(m) = walk(old(self)@, parent) {
                        lemma_replace_walk(old(self)@, parent, m, m);
                    }
                }
                Err(VfsError::NotFound(copy_str(path)))
            },
        }
    }

    /// Checks that the parent with the given components is a directory; the empty parent is
    /// the root.
    fn check_parent(&self, parent: &Vec<String>) -> (r: VfsResult<()>)
        requires
            self.wf(),
        ensures
            r is Ok <==> parent_ok(self@, parent.deep_view()),
            r matches Err(e) ==> parent_check_error(e, self@, parent.deep_view()),
    {
        let n = parent.len();
        if n == 0 {
            return Ok(());
        }
        assert(parent.deep_view().take(n as int) =~= parent.deep_view());
        match self.root_dir.find_components(parent) {
            Err(e) => Err(e),
            Ok(None) => Err(VfsError::ParentDirectoryNotFound(join_prefix(parent, n))),
            Ok(Some(e)) => {
                proof {
                    reveal(entity_view);
                }
                match e {
                    Entity::Dir(_) => Ok(()),
                    _ => Err(VfsError::NotADirectory(join_prefix(parent, n))),
                }
            },
        }
    }

    /// Moves the entity at `old_path` to `new_path`.
    pub fn rename(&mut self, old_path: &str, new_path: &str) -> (r: VfsResult<()>)
        requires
            old(self).wf(),
        ensures
            final(self).wf(),
            rename_matches(
                old(self)@,
                final(self)@,
                std_path_components(old_path@),
                std_path_components(new_path@),
                old_path@,
                new_path@,
                r,
            ),
    {
        let oc = path_components(old_path);
        let nc = path_components(new_path);
        self.rename_at(old_path, &oc, new_path, &nc)
    }

    /// `rename` for paths given together with their components.
    pub fn rename_at(&mut self, old_path: &str, oc: &Vec<String>, new_path: &str, nc: &Vec<String>) -> (r: VfsResult<()>)
        requires
            old(self).wf(),
        ensures
            final(self).wf(),
            rename_matches(
                old(self)@,
                final(self)@,
                oc.deep_view(),
                nc.deep_view(),
                old_path@,
                new_path@,
                r,
            ),
    {
        let old_name = Self::split(oc)?;
        let new_name = Self::split(nc)?;
        let ghost ocv = oc.deep_view();
        let ghost ncv = nc.deep_view();
        let on = oc.len();
        let nn = nc.len();
        assert(ocv.take(on - 1) =~= ocv.drop_last());
        assert(ncv.take(nn - 1) =~= ncv.drop_last());
        assert(ocv.subrange(0, on - 1) =~= ocv.drop_last());
        assert(ncv.subrange(0, nn - 1) =~= ncv.drop_last());
        let op = prefix_copy(oc, on - 1);
        let np = prefix_copy(nc, nn - 1);
        self.check_parent(&op)?;
        self.check_parent(&np)?;
        proof {
            lemma_parent_ok_walk(self@, ocv.drop_last());
            lemma_parent_ok_walk(self@, ncv.drop_last());
        }
        let src_has = match self.root_dir.walk_ref(oc, 0, on - 1) {
            Ok(d) => d.index_of(old_name.as_str()).is_some(),
            Err(_) => false,
        };
        if !src_has {
            return Err(VfsError::NotFound(copy_str(old_path)));
        }
        let dst_has = match self.root_dir.walk_ref(nc, 0, nn - 1) {
            Ok(d) => d.index_of(new_name.as_str()).is_some(),
            Err(_) => true,
        };
        if dst_has {
            return Err(VfsError::AlreadyExists(copy_str(new_path)));
        }
        let entity = match self.at_parent(oc, DirOp::Take { name: old_name })? {
            OpOut::Taken(e) => e,
            _ => return Err(VfsError::NotFound(copy_str(old_path))),
        };
        self.at_parent(nc, DirOp::Insert { name: new_name, entity })?;
        Ok(())
    }
}

/// Looking up a path after the directory that holds its last name was replaced looks in the
/// replacement.
proof fn lemma_lookup_replaced(m: Map<Seq<char>, Node>, comps: Seq<Seq<char>>, x: Map<Seq<char>, Node>)
    requires
        split_components(comps) is Parts,
        walk(m, comps.drop_last()) is Reached,
    ensures
        lookup(replace_at(m, comps.drop_last(), x), comps) == (if x.contains_key(comps.last()) {
            Lookup::Found(x[comps.last()])
        } else {
            Lookup::Absent
        }),
{
    lemma_replace_walk(m, comps.drop_last(), x, x);
}

/// Once an entry is stored under a path, as creating a file, directory or symbolic link and
/// writing a file do, looking the path up finds that entry.
pub proof fn law_stored_entry_is_found(m: Map<Seq<char>, Node>, comps: Seq<Seq<char>>, node: Node)
    requires
        split_components(comps) is Parts,
        walk(m, comps.drop_last()) is Reached,
    ensures
        lookup(with_entry(m, comps, node), comps) == Lookup::Found(node),
{
    let pm = walk(m, comps.drop_last())->Reached_0;
    lemma_lookup_replaced(m, comps, pm.insert(comps.last(), node));
}

/// Once the entry under a path is removed, as removing a file or a directory does, looking
/// the path up finds nothing.
pub proof fn law_removed_entry_is_absent(m: Map<Seq<char>, Node>, comps: Seq<Seq<char>>)
    requires
        split_components(comps) is Parts,
        walk(m, comps.drop_last()) is Reached,
    ensures
        lookup(
            replace_at(m, comps.drop_last(), walk(m, comps.drop_last())->Reached_0.remove(comps.last())),
            comps,
        ) == Lookup::Absent,
{
    let pm = walk(m, comps.drop_last())->Reached_0;
    lemma_lookup_replaced(m, comps, pm.remove(comps.last()));
}

/// Reading back the range just written gives the written bytes; the file never shrinks, and
/// every byte of it outside the range keeps its value.
pub proof fn law_read_after_write(c: Seq<u8>, offset: int, data: Seq<u8>)
    requires
        0 <= offset,
    ensures
        read_range(write_content(c, offset, data), offset, data.len() as int) == data,
        write_content(c, offset, data).len() >= c.len(),
        forall|j: int|
            0 <= j < c.len() && !(offset <= j < offset + data.len()) ==> #[trigger] write_content(c, offset, data)[j] == c[j],
{
    let w = write_content(c, offset, data);
    assert(read_range(w, offset, data.len() as int) =~= data);
}

/// Two directory maps that agree on the first component of a path give the same lookup.
proof fn lemma_lookup_agree(m1: Map<Seq<char>, Node>, m2: Map<Seq<char>, Node>, p: Seq<Seq<char>>)
    requires
        p.len() > 0,
        m1.contains_key(p[0]) == m2.contains_key(p[0]),
        m1.contains_key(p[0]) ==> m1[p[0]] == m2[p[0]],
    ensures
        lookup(m1, p) == lookup(m2, p),
{
    if p.len() > 1 {
        assert(p.drop_last()[0] == p[0]);
    } else {
        assert(p.last() == p[0]);
    }
}

/// Looking up a path of two or more components through a directory looks it up from there.
proof fn lemma_lookup_through(m: Map<Seq<char>, Node>, p: Seq<Seq<char>>)
    requires
        p.len() >= 2,
        is_valid_segment(p[0]),
        m.contains_key(p[0]),
        m[p[0]] is Dir,
    ensures
        lookup(m, p) == lookup(m[p[0]]->Dir_1, p.drop_first()),
{
    assert(p.drop_last()[0] == p[0]);
    assert(p.drop_last().drop_first() =~= p.drop_first().drop_last());
    assert(p.last() == p.drop_first().last());
}

/// Dropping an equal first element keeps whether one sequence begins the other.
proof fn lemma_prefix_drop_first(a: Seq<Seq<char>>, b: Seq<Seq<char>>)
    requires
        a.len() > 0,
        b.len() > 0,
        a[0] == b[0],
    ensures
        a.is_prefix_of(b) == a.drop_first().is_prefix_of(b.drop_first()),
{
    if a.is_prefix_of(b) {
        assert(a.drop_first() =~= b.drop_first().subrange(0, a.len() - 1)) by {
            assert forall|i: int| 0 <= i < a.len() - 1 implies a.drop_first()[i] == b.drop_first().subrange(0, a.len() - 1)[i] by {
                assert(a[i + 1] == b.subrange(0, a.len() as int)[i + 1]);
            }
        }
    }
    if a.drop_first().is_prefix_of(b.drop_first()) {
        assert(a =~= b.subrange(0, a.len() as int)) by {
            assert forall|i: int| 0 <= i < a.len() implies a[i] == b.subrange(0, a.len() as int)[i] by {
                if i > 0 {
                    assert(a[i] == a.drop_first()[i - 1]);
                    assert(a.drop_first()[i - 1] == b.drop_first().subrange(0, a.len() - 1)[i - 1]);
                }
            }
        }
    }
}

/// Changing the entry `n` of the directory that `d` names changes no lookup of a path that
/// neither lies under `d` + `n` nor leads to it.
proof fn lemma_lookup_frame(
    m: Map<Seq<char>, Node>,
    d: Seq<Seq<char>>,
    n: Seq<char>,
    x: Map<Seq<char>, Node>,
    p: Seq<Seq<char>>,
)
    requires
        walk(m, d) is Reached,
        x.remove(n) == walk(m, d)->Reached_0.remove(n),
        !d.push(n).is_prefix_of(p),
        !p.is_prefix_of(d.push(n)),
    ensures
        lookup(replace_at(m, d, x), p) == lookup(m, p),
    decreases d.len(),
{
    if p.len() == 0 {
        assert(p.is_prefix_of(d.push(n)));
    }
    if d.len() == 0 {
        assert(d.push(n) =~= seq![n]);
        if p[0] == n {
            assert(d.push(n) =~= p.subrange(0, 1));
        }
        assert(x.remove(n).contains_key(p[0]) == m.remove(n).contains_key(p[0]));
        if x.contains_key(p[0]) {
            assert(x.remove(n)[p[0]] == m.remove(n)[p[0]]);
        }
        lemma_lookup_agree(x, m, p);
    } else {
        let a = d[0];
        let md = m[a]->Dir_0;
        let sub = m[a]->Dir_1;
        let big = replace_at(m, d, x);
        assert(big == m.insert(a, Node::Dir(md, replace_at(sub, d.drop_first(), x))));
        if p[0] != a {
            lemma_lookup_agree(big, m, p);
        } else {
            if p.len() == 1 {
                assert(p =~= d.push(n).subrange(0, 1));
            }
            assert(d.push(n)[0] == p[0]);
            assert(d.push(n).drop_first() =~= d.drop_first().push(n));
            lemma_prefix_drop_first(d.push(n), p);
            lemma_prefix_drop_first(p, d.push(n));
            lemma_lookup_frame(sub, d.drop_first(), n, x, p.drop_first());
            lemma_lookup_through(big, p);
            lemma_lookup_through(m, p);
        }
    }
}

/// Once the directory that `d` names has no entry `n`, no walk reaches past `d` + `n`.
proof fn lemma_walk_blocked(
    m: Map<Seq<char>, Node>,
    d: Seq<Seq<char>>,
    n: Seq<char>,
    x: Map<Seq<char>, Node>,
    q: Seq<Seq<char>>,
)
    requires
        walk(m, d) is Reached,
        !x.contains_key(n),
        d.push(n).is_prefix_of(q),
    ensures
        !(walk(replace_at(m, d, x), q) is Reached),
    decreases d.len(),
{
    assert(q[d.len() as int] == d.push(n)[d.len() as int]);
    if d.len() == 0 {
        assert(q[0] == n);
    } else {
        let a = d[0];
        let md = m[a]->Dir_0;
        let sub = m[a]->Dir_1;
        assert(q[0] == d.push(n)[0]);
        assert(d.push(n).drop_first() =~= d.drop_first().push(n));
        lemma_prefix_drop_first(d.push(n), q);
        lemma_walk_blocked(sub, d.drop_first(), n, x, q.drop_first());
    }
}

/// A rename that succeeds leaves the moved entry under the new path and nothing under the
/// old one; every path that neither lies under one of the two nor leads to one looks up as
/// before.
pub proof fn law_rename_moves(m0: Map<Seq<char>, Node>, oc: Seq<Seq<char>>, nc: Seq<Seq<char>>)
    requires
        split_components(oc) is Parts,
        split_components(nc) is Parts,
        parent_ok(m0, oc.drop_last()),
        parent_ok(m0, nc.drop_last()),
        walk(m0, oc.drop_last())->Reached_0.contains_key(oc.last()),
        !walk(m0, nc.drop_last())->Reached_0.contains_key(nc.last()),
        walk(
            replace_at(m0, oc.drop_last(), walk(m0, oc.drop_last())->Reached_0.remove(oc.last())),
            nc.drop_last(),
        ) is Reached,
    ensures
        ({
            let om = walk(m0, oc.drop_last())->Reached_0;
            let t1 = replace_at(m0, oc.drop_last(), om.remove(oc.last()));
            let m1 = replace_at(t1, nc.drop_last(), walk(t1, nc.drop_last())->Reached_0.insert(nc.last(), om[oc.last()]));
            &&& lookup(m1, nc) == Lookup::Found(om[oc.last()])
            &&& lookup(m1, oc) == Lookup::Absent
            &&& forall|p: Seq<Seq<char>>|
                !oc.is_prefix_of(p) && !p.is_prefix_of(oc) && !nc.is_prefix_of(p) && !p.is_prefix_of(nc)
                    ==> #[trigger] lookup(m1, p) == lookup(m0, p)
        }),
{
    let op = oc.drop_last();
    let np = nc.drop_last();
    lemma_parent_ok_walk(m0, op);
    lemma_parent_ok_walk(m0, np);
    let om = walk(m0, op)->Reached_0;
    let nm = walk(m0, np)->Reached_0;
    let t1 = replace_at(m0, op, om.remove(oc.last()));
    let pm = walk(t1, np)->Reached_0;
    let x = pm.insert(nc.last(), om[oc.last()]);
    let m1 = replace_at(t1, np, x);
    assert(op.push(oc.last()) =~= oc);
    assert(np.push(nc.last()) =~= nc);
    lemma_lookup_replaced(t1, nc, x);
    // Neither path leads to the other.
    if oc.is_prefix_of(nc) {
        if oc.len() == nc.len() {
            assert(oc =~= nc);
        } else {
            assert(oc.is_prefix_of(np)) by {
                assert(np.subrange(0, oc.len() as int) =~= nc.subrange(0, oc.len() as int));
            }
            lemma_walk_blocked(m0, op, oc.last(), om.remove(oc.last()), np);
        }
    }
    if nc.is_prefix_of(oc) && nc.len() < oc.len() {
        assert(nc.is_prefix_of(op)) by {
            assert(op.subrange(0, nc.len() as int) =~= oc.subrange(0, nc.len() as int));
        }
        lemma_replace_walk(m0, np, nm, nm);
        lemma_walk_blocked(m0, np, nc.last(), nm, op);
    }
    assert(x.remove(nc.last()) =~= pm.remove(nc.last()));
    assert(om.remove(oc.last()).remove(oc.last()) =~= om.remove(oc.last()));
    lemma_lookup_frame(t1, np, nc.last(), x, oc);
    lemma_lookup_replaced(m0, oc, om.remove(oc.last()));
    assert forall|p: Seq<Seq<char>>|
        !oc.is_prefix_of(p) && !p.is_prefix_of(oc) && !nc.is_prefix_of(p) && !p.is_prefix_of(nc)
            implies #[trigger] lookup(m1, p) == lookup(m0, p) by {
        lemma_lookup_frame(t1, np, nc.last(), x, p);
        lemma_lookup_frame(m0, op, oc.last(), om.remove(oc.last()), p);
    }
}

/// Whether `v` lists each name of the directory map `m` exactly once.
pub open spec fn names_of(v: Seq<PathSegment>, m: Map<Seq<char>, Node>) -> bool {
    &&& v.len() == m.len()
    &&& forall|i: int| 0 <= i < v.len() ==> m.contains_key(#[trigger] v[i]@)
    &&& forall|n: Seq<char>| m.contains_key(n) ==> exists|i: int| 0 <= i < v.len() && v[i]@ == n
    &&& forall|i: int, j: int| 0 <= i < v.len() && 0 <= j < v.len() && i != j ==> v[i]@ != v[j]@
}

/// A reader over a range of a file's content.
pub struct MemoryFileReader {
    content: Vec<u8>,
    position: usize,
    remaining: usize,
}

impl MemoryFileReader {
    /// The bytes that the reader has yet to hand out.
    pub closed spec fn pending(&self) -> Seq<u8> {
        self.content@.subrange(self.position as int, self.position + self.remaining)
    }

    closed spec fn inv(&self) -> bool {
        self.position + self.remaining <= self.content@.len()
    }

    /// Whether the reader's position and count lie within its content.
    pub closed spec fn wf(&self) -> bool {
        self.inv()
    }

    /// Creates a reader over `length` bytes of `content` starting at `offset`, both limited to
    /// the content.
    pub fn new(content: &Vec<u8>, offset: u64, length: u64) -> (r: Self)
        ensures
            r.wf(),
            r.pending() == read_range(content@, offset as int, length as int),
    {
        let len = content.len();
        let start: usize = if offset < len as u64 { offset as usize } else { len };
        let n: usize = if length < (len - start) as u64 { length as usize } else { len - start };
        let mut bytes: Vec<u8> = Vec::new();
        let mut i: usize = 0;
        while i < n
            invariant
                start + n <= len,
                len == content@.len(),
                i <= n,
                bytes@ == content@.subrange(start as int, start + i),
            decreases n - i,
        {
            bytes.push(content[start + i]);
            i = i + 1;
            assert(bytes@ =~= content@.subrange(start as int, start + i));
        }
        let r = MemoryFileReader { content: bytes, position: 0, remaining: n };
        assert(r.pending() =~= read_range(content@, offset as int, length as int));
        r
    }

    /// Hands out up to `max` of the pending bytes.
    pub fn read(&mut self, max: usize) -> (out: Vec<u8>)
        requires
            old(self).wf(),
        ensures
            final(self).wf(),
            out@ == old(self).pending().take(if max < old(self).pending().len() { max as int } else { old(self).pending().len() as int }),
            final(self).pending() == old(self).pending().skip(out@.len() as int),
    {
        let to_read = if max < self.remaining { max } else { self.remaining };
        let clen = self.content.len();
        let mut out: Vec<u8> = Vec::new();
        let mut i: usize = 0;
        while i < to_read
            invariant
                self.position + self.remaining <= self.content@.len(),
                clen == self.content@.len(),
                to_read <= self.remaining,
                i <= to_read,
                out@ == self.content@.subrange(self.position as int, self.position + i),
            decreases to_read - i,
        {
            out.push(self.content[self.position + i]);
            i = i + 1;
            assert(out@ =~= self.content@.subrange(self.position as int, self.position + i));
        }
        let ghost before = self.pending();
        self.position = self.position + to_read;
        self.remaining = self.remaining - to_read;
        assert(out@ =~= before.take(to_read as int));
        assert(self.pending() =~= before.skip(to_read as int));
        out
    }

    /// Hands out all the pending bytes.
    pub fn take_all(&mut self) -> (out: Vec<u8>)
        requires
            old(self).wf(),
        ensures
            final(self).wf(),
            out@ == old(self).pending(),
            final(self).pending().len() == 0,
    {
        let n = self.remaining;
        let out = self.read(n);
        assert(out@ =~= old(self).pending());
        out
    }
}

/// A creation that succeeds leaves an entry under the path: the one made, or the one that
/// was there when an existing entry is accepted.
pub proof fn law_created_entry_is_found(
    m0: Map<Seq<char>, Node>,
    m1: Map<Seq<char>, Node>,
    comps: Seq<Seq<char>>,
    path: Seq<char>,
    exists_ok: bool,
    fresh: spec_fn(Node) -> bool,
    r: VfsResult<()>,
)
    requires
        create_rel(m0, m1, comps, path, exists_ok, fresh, r),
        r is Ok,
    ensures
        lookup(m1, comps) is Found,
        lookup(m1, comps) matches Lookup::Found(n) && (lookup(m0, comps) is Found || fresh(n)),
{
    let parent = comps.drop_last();
    let name = comps.last();
    let pm = walk(m0, parent)->Reached_0;
    if pm.contains_key(name) {
        lemma_lookup_replaced(m0, comps, pm);
        lemma_replace_walk(m0, parent, pm, pm);
    } else {
        let n = choose|n: Node| #[trigger] fresh(n) && m1 == replace_at(m0, parent, pm.insert(name, n));
        lemma_lookup_replaced(m0, comps, pm.insert(name, n));
    }
}

} // verus!
