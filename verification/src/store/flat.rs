//! The flat layout: data stored as a list of chunks under one node, and a cursor that finds
//! the chunk holding any byte position.

use vstd::prelude::*;

verus! {

/// A layout that stores the chunks of a file as the children of one node.
#[derive(Clone, Debug, PartialEq, Eq, Structural)]
pub struct FlatLayout {}

impl FlatLayout {
    /// Creates a flat layout.
    pub fn new() -> (l: FlatLayout)
        ensures
            l == (FlatLayout {}),
    {
        FlatLayout {}
    }
}

/// A layout that organizes data into a balanced tree of nodes.
#[derive(Clone, Debug, PartialEq, Eq, Structural)]
pub struct BalancedDagLayout {
    /// The maximum number of children each node can have.
    pub degree: usize,
}

/// A seek position, as `std::io::SeekFrom`.
#[derive(Clone, Copy, Debug, PartialEq, Eq, Structural)]
pub enum SeekPos {
    /// An offset from the start.
    Start(u64),
    /// An offset from the end.
    End(i64),
    /// An offset from the current position.
    Current(i64),
}

/// What a reader must do to hand out the bytes at its cursor.
#[derive(Clone, Copy, Debug, PartialEq, Eq, Structural)]
pub enum FetchPlan {
    /// Hand out the bytes left over from the last chunk.
    Leftover,
    /// Hand out nothing: the cursor is at or past the end.
    End,
    /// Fetch the chunk with this index and hand out its bytes from this offset on.
    Chunk {
        /// The index of the chunk.
        index: u64,
        /// The offset of the cursor within the chunk.
        offset: u64,
    },
}

/// The total size of the first `k` chunks.
pub open spec fn prefix_sum(sizes: Seq<usize>, k: int) -> int
    decreases k,
{
    if k <= 0 {
        0
    } else {
        prefix_sum(sizes, k - 1) + sizes[k - 1]
    }
}

/// The position of a cursor over the chunks of a flat node: the byte position, the chunk that
/// holds it, and where that chunk starts.
#[derive(Debug)]
pub struct FlatLayoutCursor {
    sizes: Vec<usize>,
    size: u64,
    byte_cursor: u64,
    chunk_index: u64,
    chunk_distance: u64,
}

/// The seek target of a position, or the message of the error for one out of bounds: the
/// target must lie within the data.
pub open spec fn seek_target(size: int, cursor: int, pos: SeekPos) -> Result<int, Seq<char>> {
    match pos {
        SeekPos::Start(o) => if o >= size {
            Err("Seek from start position out of bounds"@)
        } else {
            Ok(o as int)
        },
        SeekPos::Current(o) => if cursor + o < 0 || cursor + o >= size {
            Err("Seek from current position out of bounds"@)
        } else {
            Ok(cursor + o)
        },
        SeekPos::End(o) => if size + o < 0 || size + o >= size {
            Err("Seek from end position out of bounds"@)
        } else {
            Ok(size + o)
        },
    }
}

/// A seek from the start lands at its offset, when that lies within the data. A seek from
/// the current position lands where a seek from the start to the cursor plus the offset
/// lands, and one to before the start fails; a seek from the end lands where a seek from the
/// start to the size plus the offset lands, and one to before the start fails.
pub proof fn law_seek_positions_agree(size: int, cursor: int, o: u64, d: i64)
    requires
        0 <= size,
        0 <= cursor,
    ensures
        seek_target(size, cursor, SeekPos::Start(o)) is Ok <==> o < size,
        seek_target(size, cursor, SeekPos::Start(o)) matches Ok(t) ==> t == o,
        0 <= cursor + d <= u64::MAX ==> {
            &&& seek_target(size, cursor, SeekPos::Current(d)) is Ok <==> seek_target(
                size,
                cursor,
                SeekPos::Start((cursor + d) as u64),
            ) is Ok
            &&& seek_target(size, cursor, SeekPos::Current(d)) matches Ok(t) ==> t == (cursor + d) as u64
        },
        cursor + d < 0 ==> seek_target(size, cursor, SeekPos::Current(d)) is Err,
        0 <= size + d <= u64::MAX ==> {
            &&& seek_target(size, cursor, SeekPos::End(d)) is Ok <==> seek_target(
                size,
                cursor,
                SeekPos::Start((size + d) as u64),
            ) is Ok
            &&& seek_target(size, cursor, SeekPos::End(d)) matches Ok(t) ==> t == (size + d) as u64
        },
        size + d < 0 ==> seek_target(size, cursor, SeekPos::End(d)) is Err,
{
}

impl FlatLayoutCursor {
    /// The sizes of the chunks.
    pub closed spec fn spec_sizes(&self) -> Seq<usize> {
        self.sizes@
    }

    /// The size of the data.
    pub closed spec fn spec_size(&self) -> u64 {
        self.size
    }

    /// The byte position.
    pub closed spec fn spec_cursor(&self) -> u64 {
        self.byte_cursor
    }

    /// The chunk that holds the position.
    pub closed spec fn spec_index(&self) -> u64 {
        self.chunk_index
    }

    /// Where that chunk starts.
    pub closed spec fn spec_distance(&self) -> u64 {
        self.chunk_distance
    }

    /// Whether the cursor is consistent: the size is the sum of the chunk sizes and fits an
    /// `i64`, and the chunk index is a chunk (or the end) that starts at the distance.
    pub closed spec fn wf(&self) -> bool {
        &&& self.size == prefix_sum(self.sizes@, self.sizes@.len() as int)
        &&& self.size <= i64::MAX
        &&& self.chunk_index <= self.sizes@.len()
        &&& self.chunk_distance == prefix_sum(self.sizes@, self.chunk_index as int)
    }

    /// Creates a cursor at the start of chunks with the given sizes; the sizes must add up to
    /// at most `i64::MAX`.
    pub fn new(sizes: Vec<usize>) -> (r: Option<Self>)
        ensures
            r matches Some(c) ==> c.wf() && c.spec_sizes() == sizes@ && c.spec_cursor() == 0 && c.spec_index() == 0
                && c.spec_distance() == 0,
            r is None <==> prefix_sum(sizes@, sizes@.len() as int) > i64::MAX,
    {
        let mut total: u64 = 0;
        let mut k: usize = 0;
        proof {
            lemma_prefix_sum_mono(sizes@);
        }
        while k < sizes.len()
            invariant
                k <= sizes@.len(),
                total == prefix_sum(sizes@, k as int),
                total <= i64::MAX,
                forall|a: int, b: int| 0 <= a <= b <= sizes@.len() ==> prefix_sum(sizes@, a) <= prefix_sum(sizes@, b),
            decreases sizes.len() - k,
        {
            let s = sizes[k] as u64;
            if s > 0x7fff_ffff_ffff_ffffu64 - total {
                assert(prefix_sum(sizes@, k + 1) > i64::MAX);
                return None;
            }
            total = total + s;
            k = k + 1;
        }
        Some(FlatLayoutCursor { sizes, size: total, byte_cursor: 0, chunk_index: 0, chunk_distance: 0 })
    }

    /// Computes the target of a seek: the position must lie within the data.
    pub fn seek_target(&self, position: SeekPos) -> (r: Result<u64, String>)
        requires
            self.wf(),
            self.spec_cursor() <= i64::MAX,
            position matches SeekPos::Current(o) ==> i64::MIN <= self.spec_cursor() + o <= i64::MAX,
            position matches SeekPos::End(o) ==> self.spec_size() + o <= i64::MAX,
        ensures
            match seek_target(self.spec_size() as int, self.spec_cursor() as int, position) {
                Ok(t) => r matches Ok(v) && v == t,
                Err(m) => r matches Err(s) && s@ == m,
            },
    {
        proof {
            reveal_strlit("Seek from start position out of bounds");
            reveal_strlit("Seek from current position out of bounds");
            reveal_strlit("Seek from end position out of bounds");
        }
        match position {
            SeekPos::Start(offset) => {
                if offset >= self.size {
                    return Err(String::from_str("Seek from start position out of bounds"));
                }
                Ok(offset)
            },
            SeekPos::Current(offset) => {
                let new_cursor = self.byte_cursor as i64 + offset;
                if new_cursor < 0 || new_cursor >= self.size as i64 {
                    return Err(String::from_str("Seek from current position out of bounds"));
                }
                Ok(new_cursor as u64)
            },
            SeekPos::End(offset) => {
                let size = self.size as i64;
                let new_cursor = size + offset;
                if new_cursor < 0 || new_cursor >= size {
                    return Err(String::from_str("Seek from end position out of bounds"));
                }
                Ok(new_cursor as u64)
            },
        }
    }

    /// Moves the cursor to a byte position, walking to the chunk that holds it, and says what
    /// to hand out next.
    pub fn seek_update(&mut self, byte_cursor: u64) -> (plan: FetchPlan)
        requires
            old(self).wf(),
            forall|i: int| 0 <= i < old(self).spec_sizes().len() ==> old(self).spec_sizes()[i] > 0,
        ensures
            final(self).wf(),
            final(self).spec_sizes() == old(self).spec_sizes(),
            final(self).spec_size() == old(self).spec_size(),
            final(self).spec_cursor() == byte_cursor,
            byte_cursor >= old(self).spec_size() ==> plan == FetchPlan::End && final(self).spec_index() == old(
                self,
            ).spec_index(),
            byte_cursor < old(self).spec_size() ==> ({
                &&& final(self).spec_index() < final(self).spec_sizes().len()
                &&& final(self).spec_distance() <= byte_cursor < final(self).spec_distance()
                    + final(self).spec_sizes()[final(self).spec_index() as int]
                &&& plan == (FetchPlan::Chunk {
                    index: final(self).spec_index(),
                    offset: (byte_cursor - final(self).spec_distance()) as u64,
                })
            }),
    {
        let n = self.sizes.len();
        self.byte_cursor = byte_cursor;
        if byte_cursor >= self.size {
            return FetchPlan::End;
        }
        proof {
            lemma_prefix_sum_mono(self.sizes@);
        }
        let ghost sizes0 = self.sizes@;
        let ghost size0 = self.size;
        while self.chunk_distance > byte_cursor && self.chunk_index > 0
            invariant
                self.wf(),
                n == self.sizes@.len(),
                self.sizes@ == sizes0,
                self.size == size0,
                self.byte_cursor == byte_cursor,
                byte_cursor < self.size,
                forall|a: int, b: int| 0 <= a <= b <= n ==> prefix_sum(self.sizes@, a) <= prefix_sum(self.sizes@, b),
            decreases self.chunk_index,
        {
            assert(prefix_sum(self.sizes@, 0) <= prefix_sum(self.sizes@, self.chunk_index - 1));
            self.chunk_index = self.chunk_index - 1;
            self.chunk_distance = self.chunk_distance - self.sizes[self.chunk_index as usize] as u64;
        }
        assert(self.chunk_distance <= byte_cursor);
        proof {
            if self.chunk_index < n {
                assert(prefix_sum(self.sizes@, self.chunk_index + 1) <= prefix_sum(self.sizes@, n as int));
            }
        }
        while (self.chunk_index as usize) < n && self.chunk_distance + self.sizes[self.chunk_index as usize] as u64 <= byte_cursor
            invariant
                self.wf(),
                n == self.sizes@.len(),
                self.sizes@ == sizes0,
                self.size == size0,
                self.byte_cursor == byte_cursor,
                byte_cursor < self.size,
                self.chunk_distance <= byte_cursor,
                self.chunk_index < n ==> self.chunk_distance + self.sizes@[self.chunk_index as int] <= self.size,
                forall|a: int, b: int| 0 <= a <= b <= n ==> prefix_sum(self.sizes@, a) <= prefix_sum(self.sizes@, b),
            decreases n - self.chunk_index,
        {
            self.chunk_distance = self.chunk_distance + self.sizes[self.chunk_index as usize] as u64;
            self.chunk_index = self.chunk_index + 1;
            proof {
                if self.chunk_index < n {
                    assert(prefix_sum(self.sizes@, self.chunk_index + 1) <= prefix_sum(self.sizes@, n as int));
                }
            }
        }
        if self.chunk_index as usize == n {
            assert(self.chunk_distance == self.size);
            assert(false);
        }
        FetchPlan::Chunk { index: self.chunk_index, offset: byte_cursor - self.chunk_distance }
    }

    /// Moves the cursor past `consumed` bytes that were handed out, with `left_over` bytes of
    /// the chunk still to hand out, and says what to hand out next: the left-over bytes, the
    /// end, or the next chunk from its start.
    pub fn read_update(&mut self, left_over: usize, consumed: u64) -> (plan: FetchPlan)
        requires
            old(self).wf(),
            old(self).spec_cursor() + consumed <= u64::MAX,
            left_over == 0 && old(self).spec_cursor() + consumed < old(self).spec_size() ==> old(self).spec_index()
                < old(self).spec_sizes().len() && old(self).spec_cursor() + consumed == old(self).spec_distance()
                + old(self).spec_sizes()[old(self).spec_index() as int],
        ensures
            final(self).wf(),
            final(self).spec_sizes() == old(self).spec_sizes(),
            final(self).spec_cursor() == old(self).spec_cursor() + consumed,
            left_over > 0 ==> plan == FetchPlan::Leftover && final(self).spec_index() == old(self).spec_index(),
            left_over == 0 && final(self).spec_cursor() >= old(self).spec_size() ==> plan == FetchPlan::End,
            left_over == 0 && final(self).spec_cursor() < old(self).spec_size() ==> ({
                &&& final(self).spec_index() == old(self).spec_index() + 1
                &&& final(self).spec_distance() == final(self).spec_cursor()
                &&& plan == (FetchPlan::Chunk { index: final(self).spec_index(), offset: 0 })
            }),
    {
        let n = self.sizes.len();
        self.byte_cursor = self.byte_cursor + consumed;
        if left_over > 0 {
            return FetchPlan::Leftover;
        }
        if self.byte_cursor >= self.size {
            return FetchPlan::End;
        }
        proof {
            lemma_prefix_sum_mono(self.sizes@);
            assert(prefix_sum(self.sizes@, self.chunk_index + 1) <= self.size);
        }
        self.chunk_distance = self.chunk_distance + self.sizes[self.chunk_index as usize] as u64;
        self.chunk_index = self.chunk_index + 1;
        FetchPlan::Chunk { index: self.chunk_index, offset: 0 }
    }
}

/// Prefix sums grow with the number of chunks.
proof fn lemma_prefix_sum_mono(sizes: Seq<usize>)
    ensures
        forall|a: int, b: int| 0 <= a <= b <= sizes.len() ==> prefix_sum(sizes, a) <= prefix_sum(sizes, b),
{
    assert forall|a: int, b: int| 0 <= a <= b <= sizes.len() implies prefix_sum(sizes, a) <= prefix_sum(sizes, b) by {
        lemma_prefix_sum_le(sizes, a, b);
    }
}

proof fn lemma_prefix_sum_le(sizes: Seq<usize>, a: int, b: int)
    requires
        0 <= a <= b <= sizes.len(),
    ensures
        prefix_sum(sizes, a) <= prefix_sum(sizes, b),
    decreases b - a,
{
    if a < b {
        lemma_prefix_sum_le(sizes, a, b - 1);
    }
}

} // verus!
