//! The lines of a directory tree listing: entries are ordered directories first, then by
//! name, and each line shows the tree's branches, an icon and the entry's name.

use vstd::prelude::*;
use crate::text::{chars_of, decimal, decimal_string};

verus! {

/// The spaces of one level of indentation.
pub const INDENT_SIZE: usize = 4;

/// What an entry of a listing is.
#[derive(Debug, Clone, Copy, PartialEq, Eq, Structural)]
pub enum ListingKind {
    /// A directory.
    Dir,
    /// A file of this many bytes.
    File(u64),
    /// A symbolic link.
    Symlink,
}

/// An entry of a directory listing: its name and what it is.
#[derive(Debug)]
pub struct ListingEntry {
    /// The entry's name.
    pub name: String,
    /// What the entry is.
    pub kind: ListingKind,
}

/// Whether `a` comes before `b` in the order of names: by code point, a proper prefix first.
pub open spec fn lex_lt(a: Seq<char>, b: Seq<char>) -> bool
    decreases a.len(),
{
    if b.len() == 0 {
        false
    } else if a.len() == 0 {
        true
    } else if a[0] != b[0] {
        (a[0] as u32) < (b[0] as u32)
    } else {
        lex_lt(a.drop_first(), b.drop_first())
    }
}

/// Whether entry `a` comes before entry `b`: directories before the rest, then by name.
pub open spec fn entry_lt(a: ListingEntry, b: ListingEntry) -> bool {
    let ad = a.kind == ListingKind::Dir;
    let bd = b.kind == ListingKind::Dir;
    (ad && !bd) || (ad == bd && lex_lt(a.name@, b.name@))
}

/// Whether no entry comes before one earlier in the sequence.
pub open spec fn entries_sorted(s: Seq<ListingEntry>) -> bool {
    forall|i: int, j: int| 0 <= i < j < s.len() ==> !entry_lt(s[j], s[i])
}

/// The order of names is never both ways.
proof fn lemma_lex_asym(a: Seq<char>, b: Seq<char>)
    ensures
        !(lex_lt(a, b) && lex_lt(b, a)),
    decreases a.len(),
{
    if a.len() > 0 && b.len() > 0 && a[0] == b[0] {
        lemma_lex_asym(a.drop_first(), b.drop_first());
    }
}

/// The order of names is transitive.
proof fn lemma_lex_trans(a: Seq<char>, b: Seq<char>, c: Seq<char>)
    requires
        lex_lt(a, b),
        lex_lt(b, c),
    ensures
        lex_lt(a, c),
    decreases a.len(),
{
    if a.len() > 0 && b.len() > 0 && c.len() > 0 && a[0] == b[0] && b[0] == c[0] {
        lemma_lex_trans(a.drop_first(), b.drop_first(), c.drop_first());
    }
}

/// The order of entries is transitive and never both ways.
proof fn lemma_entry_order(a: ListingEntry, b: ListingEntry, c: ListingEntry)
    ensures
        !(entry_lt(a, b) && entry_lt(b, a)),
        entry_lt(a, b) && entry_lt(b, c) ==> entry_lt(a, c),
{
    lemma_lex_asym(a.name@, b.name@);
    if entry_lt(a, b) && entry_lt(b, c) {
        if (a.kind == ListingKind::Dir) == (b.kind == ListingKind::Dir) && (b.kind == ListingKind::Dir) == (c.kind
            == ListingKind::Dir) {
            lemma_lex_trans(a.name@, b.name@, c.name@);
        }
    }
}

/// Whether name `a` comes before name `b`.
pub fn name_less(a: &str, b: &str) -> (r: bool)
    ensures
        r == lex_lt(a@, b@),
{
    let ca = chars_of(a);
    let cb = chars_of(b);
    let mut i: usize = 0;
    assert(a@.skip(0) =~= a@);
    assert(b@.skip(0) =~= b@);
    while i < ca.len() && i < cb.len() && ca[i] == cb[i]
        invariant
            ca@ == a@,
            cb@ == b@,
            i <= ca@.len(),
            i <= cb@.len(),
            lex_lt(a@, b@) == lex_lt(a@.skip(i as int), b@.skip(i as int)),
        decreases ca.len() - i,
    {
        assert(a@.skip(i as int).drop_first() =~= a@.skip(i + 1));
        assert(b@.skip(i as int).drop_first() =~= b@.skip(i + 1));
        i = i + 1;
    }
    if i == cb.len() {
        false
    } else if i == ca.len() {
        true
    } else {
        (ca[i] as u32) < (cb[i] as u32)
    }
}

/// Whether entry `a` comes before entry `b`.
pub fn entry_less(a: &ListingEntry, b: &ListingEntry) -> (r: bool)
    ensures
        r == entry_lt(*a, *b),
{
    let ad = match a.kind {
        ListingKind::Dir => true,
        _ => false,
    };
    let bd = match b.kind {
        ListingKind::Dir => true,
        _ => false,
    };
    if ad && !bd {
        true
    } else if ad == bd {
        name_less(a.name.as_str(), b.name.as_str())
    } else {
        false
    }
}

/// Orders a listing: directories first, then by name; the entries are those given.
pub fn sort_entries(v: Vec<ListingEntry>) -> (r: Vec<ListingEntry>)
    ensures
        r@.to_multiset() == v@.to_multiset(),
        entries_sorted(r@),
{
    broadcast use {vstd::seq_lib::group_to_multiset_ensures, vstd::multiset::group_multiset_axioms};

    let mut input = v;
    let ghost v0 = input@;
    let mut out: Vec<ListingEntry> = Vec::new();
    assert(out@.to_multiset() =~= vstd::multiset::Multiset::empty());
    assert(vstd::multiset::Multiset::<ListingEntry>::empty().add(v0.to_multiset()) =~= v0.to_multiset());
    while input.len() > 0
        invariant
            out@.to_multiset().add(input@.to_multiset()) == v0.to_multiset(),
            entries_sorted(out@),
        decreases input.len(),
    {
        let ghost in0 = input@;
        let e = input.remove(0);
        proof {
            assert(in0 =~= in0.remove(0).insert(0, e));
        }
        let mut j: usize = 0;
        while j < out.len() && !entry_less(&e, &out[j])
            invariant
                j <= out@.len(),
                forall|k: int| 0 <= k < j ==> !entry_lt(e, #[trigger] out@[k]),
            decreases out.len() - j,
        {
            j = j + 1;
        }
        let ghost o0 = out@;
        out.insert(j, e);
        proof {
            assert forall|x: int, y: int| 0 <= x < y < out@.len() implies !entry_lt(out@[y], out@[x]) by {
                if x < j && y < j + 1 {
                    if y == j {
                    } else {
                        assert(out@[x] == o0[x] && out@[y] == o0[y]);
                    }
                } else if x == j {
                    assert(out@[y] == o0[y - 1]);
                    assert(entry_lt(e, o0[j as int]));
                    lemma_entry_order(o0[y - 1], e, o0[j as int]);
                    if y - 1 > j {
                        assert(!entry_lt(o0[y - 1], o0[j as int]));
                    }
                } else if x > j {
                    assert(out@[x] == o0[x - 1] && out@[y] == o0[y - 1]);
                } else {
                    assert(out@[x] == o0[x]);
                    assert(out@[y] == o0[y - 1]);
                }
            }
            vstd::seq_lib::to_multiset_remove(in0, 0);
            vstd::seq_lib::to_multiset_insert(o0, j as int, e);
            vstd::seq_lib::to_multiset_contains(in0, e);
            assert(input@ =~= in0.remove(0));
            assert(out@ =~= o0.insert(j as int, e));
            assert(out@.to_multiset().add(input@.to_multiset()) =~= v0.to_multiset());
        }
    }
    proof {
        assert(input@.to_multiset() =~= vstd::multiset::Multiset::empty());
        assert(out@.to_multiset().add(vstd::multiset::Multiset::empty()) =~= out@.to_multiset());
    }
    out
}

/// The text before a line's branch: for each level above, a vertical line and three spaces
/// where that level has more entries below, and four spaces where it has none.
pub open spec fn prefix_text(parts: Seq<bool>) -> Seq<char>
    decreases parts.len(),
{
    if parts.len() == 0 {
        Seq::empty()
    } else {
        prefix_text(parts.drop_last()) + if parts.last() {
            seq!['│', ' ', ' ', ' ']
        } else {
            seq![' ', ' ', ' ', ' ']
        }
    }
}

/// Builds the text before a line's branch.
pub fn build_prefix(parts: &Vec<bool>) -> (r: String)
    ensures
        r@ == prefix_text(parts@),
{
    let mut out: Vec<char> = Vec::new();
    let mut i: usize = 0;
    while i < parts.len()
        invariant
            i <= parts@.len(),
            out@ == prefix_text(parts@.take(i as int)),
        decreases parts.len() - i,
    {
        assert(parts@.take(i + 1).drop_last() =~= parts@.take(i as int));
        if parts[i] {
            out.push('│');
        } else {
            out.push(' ');
        }
        out.push(' ');
        out.push(' ');
        out.push(' ');
        i = i + 1;
        assert(out@ =~= prefix_text(parts@.take(i as int)));
    }
    assert(parts@.take(i as int) =~= parts@);
    crate::text::string_of(out.as_slice())
}

/// The line of an entry: the prefix, the branch (`└──` for the last entry of its level,
/// `├──` otherwise), then a folder icon and the name with a trailing slash for a directory,
/// a page icon, the name and the size for a file, and a link icon and the name for a
/// symbolic link.
pub open spec fn line_text(parts: Seq<bool>, is_last: bool, name: Seq<char>, kind: ListingKind) -> Seq<char> {
    let branch = if is_last { seq!['└', '─', '─'] } else { seq!['├', '─', '─'] };
    prefix_text(parts) + branch + match kind {
        ListingKind::Dir => seq![' ', '📁', ' '] + name + seq!['/'],
        ListingKind::File(size) => seq![' ', '📄', ' '] + name + seq![' ', '('] + decimal(size as nat) + seq![
            ' ',
            'b',
            'y',
            't',
            'e',
            's',
            ')',
        ],
        ListingKind::Symlink => seq![' ', '🔗', ' '] + name,
    }
}

/// Builds the line of an entry.
pub fn tree_line(parts: &Vec<bool>, is_last: bool, entry: &ListingEntry) -> (r: String)
    ensures
        r@ == line_text(parts@, is_last, entry.name@, entry.kind),
{
    let mut out: Vec<char> = chars_of(build_prefix(parts).as_str());
    if is_last {
        out.push('└');
    } else {
        out.push('├');
    }
    out.push('─');
    out.push('─');
    out.push(' ');
    let icon = match entry.kind {
        ListingKind::Dir => '📁',
        ListingKind::File(_) => '📄',
        ListingKind::Symlink => '🔗',
    };
    out.push(icon);
    out.push(' ');
    let name = chars_of(entry.name.as_str());
    let mut i: usize = 0;
    let ghost before = out@;
    while i < name.len()
        invariant
            i <= name@.len(),
            out@ == before + name@.take(i as int),
        decreases name.len() - i,
    {
        out.push(name[i]);
        i = i + 1;
        assert(out@ =~= before + name@.take(i as int));
    }
    assert(name@.take(i as int) =~= name@);
    match entry.kind {
        ListingKind::Dir => {
            out.push('/');
        },
        ListingKind::File(size) => {
            out.push(' ');
            out.push('(');
            let digits = chars_of(decimal_string(size).as_str());
            let mut k: usize = 0;
            let ghost mid = out@;
            while k < digits.len()
                invariant
                    k <= digits@.len(),
                    out@ == mid + digits@.take(k as int),
                decreases digits.len() - k,
            {
                out.push(digits[k]);
                k = k + 1;
                assert(out@ =~= mid + digits@.take(k as int));
            }
            assert(digits@.take(k as int) =~= digits@);
            out.push(' ');
            out.push('b');
            out.push('y');
            out.push('t');
            out.push('e');
            out.push('s');
            out.push(')');
        },
        ListingKind::Symlink => {},
    }
    proof {
        let branch = if is_last { seq!['└', '─', '─'] } else { seq!['├', '─', '─'] };
        let tail = match entry.kind {
            ListingKind::Dir => seq![' ', '📁', ' '] + entry.name@ + seq!['/'],
            ListingKind::File(size) => seq![' ', '📄', ' '] + entry.name@ + seq![' ', '('] + decimal(size as nat) + seq![
                ' ',
                'b',
                'y',
                't',
                'e',
                's',
                ')',
            ],
            ListingKind::Symlink => seq![' ', '🔗', ' '] + entry.name@,
        };
        assert(out@ =~= prefix_text(parts@) + branch + tail);
    }
    crate::text::string_of(out.as_slice())
}

} // verus!
