use vstd::prelude::*;
use crate::text::{chars_of, copy_str};
use crate::vfs::error::VfsError;

verus! {

/// Whether `s` is a valid path segment: not empty, free of the separator `/`, and neither `.`
/// nor `..`.
pub open spec fn is_valid_segment(s: Seq<char>) -> bool {
    &&& s.len() > 0
    &&& !s.contains('/')
    &&& s != seq!['.']
    &&& s != seq!['.', '.']
}

/// Represents a single segment of a path: a non-empty name without separators that is neither
/// `.` nor `..`.
#[derive(Debug, PartialEq, Eq, Hash, PartialOrd, Ord)]
pub struct PathSegment(String);

impl View for PathSegment {
    type V = Seq<char>;

    closed spec fn view(&self) -> Seq<char> {
        self.0@
    }
}

impl PathSegment {
    /// Every segment is a valid one.
    #[verifier::type_invariant]
    closed spec fn inv(self) -> bool {
        is_valid_segment(self.0@)
    }

    /// Parses a segment from a string, rejecting the empty string with `EmptyPathSegment` and
    /// separators, `.` and `..` with `InvalidPathComponent`.
    pub fn try_from_str(value: &str) -> (r: Result<PathSegment, VfsError>)
        ensures
            value@.len() == 0 ==> r matches Err(VfsError::EmptyPathSegment),
            value@.len() > 0 && !is_valid_segment(value@) ==> (r matches Err(
                VfsError::InvalidPathComponent(s),
            ) && s@ == value@),
            is_valid_segment(value@) ==> (r matches Ok(seg) && seg@ == value@),
    {
        let cs = chars_of(value);
        if cs.len() == 0 {
            return Err(VfsError::EmptyPathSegment);
        }
        let mut i: usize = 0;
        while i < cs.len()
            invariant
                cs@ == value@,
                i <= cs.len(),
                forall|j: int| 0 <= j < i ==> cs@[j] != '/',
            decreases cs.len() - i,
        {
            if cs[i] == '/' {
                return Err(VfsError::InvalidPathComponent(copy_str(value)));
            }
            i = i + 1;
        }
        let is_dot = cs.len() == 1 && cs[0] == '.';
        let is_dotdot = cs.len() == 2 && cs[0] == '.' && cs[1] == '.';
        if is_dot || is_dotdot {
            assert(cs@ == seq!['.'] || cs@ == seq!['.', '.']);
            return Err(VfsError::InvalidPathComponent(copy_str(value)));
        }
        assert(!cs@.contains('/'));
        assert(cs@ != seq!['.']) by {
            if cs@ == seq!['.'] {
                assert(cs@.len() == 1 && cs@[0] == '.');
            }
        }
        assert(cs@ != seq!['.', '.']) by {
            if cs@ == seq!['.', '.'] {
                assert(cs@.len() == 2 && cs@[0] == '.' && cs@[1] == '.');
            }
        }
        Ok(PathSegment(copy_str(value)))
    }

    /// Returns the segment as a string slice.
    pub fn as_str(&self) -> (s: &str)
        ensures
            s@ == self@,
    {
        self.0.as_str()
    }

    /// Returns the bytes of the segment in its UTF-8 encoding.
    pub fn as_bytes(&self) -> (b: &[u8])
        ensures
            b@ == vstd::utf8::encode_utf8(self@),
    {
        self.0.as_str().as_bytes()
    }

    /// Returns the length of the segment in bytes.
    pub fn len(&self) -> (n: usize)
        ensures
            n == vstd::utf8::encode_utf8(self@).len(),
    {
        self.as_bytes().len()
    }

    /// Returns `true` if the segment is empty, which no segment is.
    pub fn is_empty(&self) -> (b: bool)
        ensures
            b == false,
    {
        proof {
            use_type_invariant(self);
        }
        let n = self.len();
        assert(vstd::utf8::encode_utf8(self@).len() > 0) by {
            let bytes = vstd::utf8::encode_utf8(self@);
            vstd::utf8::encode_utf8_decode_utf8(self.0@);
            if bytes.len() == 0 {
                assert(bytes =~= Seq::<u8>::empty());
                assert(vstd::utf8::decode_utf8(bytes) =~= Seq::<char>::empty());
            }
        }
        n == 0
    }

    /// Renders the segment as a string.
    pub fn to_string(&self) -> (s: String)
        ensures
            s@ == self@,
    {
        copy_str(self.0.as_str())
    }

    /// Returns a copy of the segment.
    pub fn duplicate(&self) -> (r: PathSegment)
        ensures
            r@ == self@,
    {
        proof {
            use_type_invariant(self);
        }
        PathSegment(copy_str(self.0.as_str()))
    }

    /// Confirms that the segment is a valid one.
    pub fn valid(&self)
        ensures
            is_valid_segment(self@),
    {
        proof {
            use_type_invariant(self);
        }
    }
}

} // verus!
