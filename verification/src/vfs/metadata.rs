use vstd::prelude::*;
use vstd::std_specs::ops::BitOrSpecImpl;
use vstd::std_specs::convert::FromSpecImpl;

verus! {

/// Bit mask for the file type bit field of a mode.
pub const S_IFMT: u32 = 0o170000;

/// Mode bits of a regular file.
pub const S_IFREG: u32 = 0o100000;

/// Mode bits of a directory.
pub const S_IFDIR: u32 = 0o040000;

/// Mode bits of a symbolic link.
pub const S_IFLNK: u32 = 0o120000;

/// Mask for the permission bits of a mode.
pub const S_IPERM: u32 = 0o777;

/// The type of a file in the filesystem.
#[derive(Debug, Clone, Copy, PartialEq, Eq, Structural)]
pub enum ModeType {
    /// Regular file
    File,
    /// Directory
    Directory,
    /// Symbolic link
    Symlink,
}

/// Unix-style user permission flags (bits 8-6).
#[derive(Debug, Clone, Copy, PartialEq, Eq, Structural)]
pub enum User {
    /// Read permission
    R,
    /// Write permission
    W,
    /// Execute permission
    X,
    /// Read + Write
    RW,
    /// Read + Execute
    RX,
    /// Write + Execute
    WX,
    /// Read + Write + Execute
    RWX,
    /// No permissions
    Empty,
}

/// Unix-style group permission flags (bits 5-3).
#[derive(Debug, Clone, Copy, PartialEq, Eq, Structural)]
pub enum Group {
    /// Read permission
    R,
    /// Write permission
    W,
    /// Execute permission
    X,
    /// Read + Write
    RW,
    /// Read + Execute
    RX,
    /// Write + Execute
    WX,
    /// Read + Write + Execute
    RWX,
    /// No permissions
    Empty,
}

/// Unix-style other permission flags (bits 2-0).
#[derive(Debug, Clone, Copy, PartialEq, Eq, Structural)]
pub enum Other {
    /// Read permission
    R,
    /// Write permission
    W,
    /// Execute permission
    X,
    /// Read + Write
    RW,
    /// Read + Execute
    RX,
    /// Write + Execute
    WX,
    /// Read + Write + Execute
    RWX,
    /// No permissions
    Empty,
}

/// A structured representation of Unix-style permission bits.
#[derive(Debug, Clone, Copy, PartialEq, Eq, Structural)]
pub struct ModePerms {
    /// The user (owner) permissions.
    pub user: User,
    /// The group permissions.
    pub group: Group,
    /// The permissions of everyone else.
    pub other: Other,
}

/// A Unix-style file mode that combines file type and permission bits.
#[derive(Debug, Clone, Copy, PartialEq, Eq, Structural)]
pub struct Mode(pub u32);

/// The three read/write/execute bits of a permission class, as a number from 0 to 7
/// (read = 4, write = 2, execute = 1).
pub open spec fn rwx_value(r: bool, w: bool, x: bool) -> u32 {
    ((if r { 4int } else { 0int }) + (if w { 2int } else { 0int }) + (if x { 1int } else { 0int })) as u32
}

impl ModeType {
    /// The file type bits of this type.
    pub open spec fn spec_bits(self) -> u32 {
        match self {
            ModeType::File => S_IFREG,
            ModeType::Directory => S_IFDIR,
            ModeType::Symlink => S_IFLNK,
        }
    }

    /// Returns the file type bits of this type.
    pub fn bits(&self) -> (r: u32)
        ensures
            r == self.spec_bits(),
    {
        match self {
            ModeType::File => S_IFREG,
            ModeType::Directory => S_IFDIR,
            ModeType::Symlink => S_IFLNK,
        }
    }

    /// The one-letter name of the type, as `ls -l` shows it.
    pub open spec fn spec_letter(self) -> Seq<char> {
        match self {
            ModeType::File => seq!['-'],
            ModeType::Directory => seq!['d'],
            ModeType::Symlink => seq!['l'],
        }
    }

    /// Renders the type as the one-letter name that `ls -l` shows.
    pub fn to_string(&self) -> (s: String)
        ensures
            s@ == self.spec_letter(),
    {
        let s = match self {
            ModeType::File => String::from_str("-"),
            ModeType::Directory => String::from_str("d"),
            ModeType::Symlink => String::from_str("l"),
        };
        proof {
            reveal_strlit("-");
            reveal_strlit("d");
            reveal_strlit("l");
        }
        s
    }
}

impl User {
    /// The read, write and execute flags of this permission set.
    pub open spec fn flags(self) -> (bool, bool, bool) {
        match self {
            User::R => (true, false, false),
            User::W => (false, true, false),
            User::X => (false, false, true),
            User::RW => (true, true, false),
            User::RX => (true, false, true),
            User::WX => (false, true, true),
            User::RWX => (true, true, true),
            User::Empty => (false, false, false),
        }
    }

    /// The mode bits of this permission set.
    pub open spec fn spec_bits(self) -> u32 {
        (rwx_value(self.flags().0, self.flags().1, self.flags().2) * 64) as u32
    }

    /// Returns the mode bits of this permission set.
    pub fn bits(&self) -> (r: u32)
        ensures
            r == self.spec_bits(),
    {
        match self {
            User::R => 0o400,
            User::W => 0o200,
            User::X => 0o100,
            User::RW => 0o600,
            User::RX => 0o500,
            User::WX => 0o300,
            User::RWX => 0o700,
            User::Empty => 0,
        }
    }
}

impl Group {
    /// The read, write and execute flags of this permission set.
    pub open spec fn flags(self) -> (bool, bool, bool) {
        match self {
            Group::R => (true, false, false),
            Group::W => (false, true, false),
            Group::X => (false, false, true),
            Group::RW => (true, true, false),
            Group::RX => (true, false, true),
            Group::WX => (false, true, true),
            Group::RWX => (true, true, true),
            Group::Empty => (false, false, false),
        }
    }

    /// The mode bits of this permission set.
    pub open spec fn spec_bits(self) -> u32 {
        (rwx_value(self.flags().0, self.flags().1, self.flags().2) * 8) as u32
    }

    /// Returns the mode bits of this permission set.
    pub fn bits(&self) -> (r: u32)
        ensures
            r == self.spec_bits(),
    {
        match self {
            Group::R => 0o040,
            Group::W => 0o020,
            Group::X => 0o010,
            Group::RW => 0o060,
            Group::RX => 0o050,
            Group::WX => 0o030,
            Group::RWX => 0o070,
            Group::Empty => 0,
        }
    }
}

impl Other {
    /// The read, write and execute flags of this permission set.
    pub open spec fn flags(self) -> (bool, bool, bool) {
        match self {
            Other::R => (true, false, false),
            Other::W => (false, true, false),
            Other::X => (false, false, true),
            Other::RW => (true, true, false),
            Other::RX => (true, false, true),
            Other::WX => (false, true, true),
            Other::RWX => (true, true, true),
            Other::Empty => (false, false, false),
        }
    }

    /// The mode bits of this permission set.
    pub open spec fn spec_bits(self) -> u32 {
        rwx_value(self.flags().0, self.flags().1, self.flags().2)
    }

    /// Returns the mode bits of this permission set.
    pub fn bits(&self) -> (r: u32)
        ensures
            r == self.spec_bits(),
    {
        match self {
            Other::R => 0o004,
            Other::W => 0o002,
            Other::X => 0o001,
            Other::RW => 0o006,
            Other::RX => 0o005,
            Other::WX => 0o003,
            Other::RWX => 0o007,
            Other::Empty => 0,
        }
    }
}


/// The user permission set whose read, write and execute bits are those of `v` (0 to 7).
pub open spec fn user_of_rwx(v: u32) -> User {
    if v == 7 { User::RWX } else if v == 6 { User::RW } else if v == 5 { User::RX }
    else if v == 3 { User::WX } else if v == 4 { User::R } else if v == 2 { User::W }
    else if v == 1 { User::X } else { User::Empty }
}

/// The group permission set whose read, write and execute bits are those of `v` (0 to 7).
pub open spec fn group_of_rwx(v: u32) -> Group {
    if v == 7 { Group::RWX } else if v == 6 { Group::RW } else if v == 5 { Group::RX }
    else if v == 3 { Group::WX } else if v == 4 { Group::R } else if v == 2 { Group::W }
    else if v == 1 { Group::X } else { Group::Empty }
}

/// The other permission set whose read, write and execute bits are those of `v` (0 to 7).
pub open spec fn other_of_rwx(v: u32) -> Other {
    if v == 7 { Other::RWX } else if v == 6 { Other::RW } else if v == 5 { Other::RX }
    else if v == 3 { Other::WX } else if v == 4 { Other::R } else if v == 2 { Other::W }
    else if v == 1 { Other::X } else { Other::Empty }
}

/// The permissions that the lower nine bits of `mode` describe.
pub open spec fn perms_of(mode: u32) -> ModePerms {
    ModePerms {
        user: user_of_rwx((mode >> 6u32) & 7u32),
        group: group_of_rwx((mode >> 3u32) & 7u32),
        other: other_of_rwx(mode & 7u32),
    }
}

/// The file type that the type bits of `mode` name, if any.
pub open spec fn type_of(mode: u32) -> Option<ModeType> {
    if mode & S_IFMT == S_IFREG {
        Some(ModeType::File)
    } else if mode & S_IFMT == S_IFDIR {
        Some(ModeType::Directory)
    } else if mode & S_IFMT == S_IFLNK {
        Some(ModeType::Symlink)
    } else {
        None
    }
}

/// `mode` with its type bits replaced by those of `t`.
pub open spec fn with_type(mode: u32, t: ModeType) -> u32 {
    (mode & !S_IFMT) | t.spec_bits()
}

/// `mode` with its permission bits replaced by those of `p`.
pub open spec fn with_perms(mode: u32, p: ModePerms) -> u32 {
    (mode & !S_IPERM) | p.spec_bits()
}

/// The letters `r`, `w`, `x` or `-` for three permission flags.
pub open spec fn rwx_letters(flags: (bool, bool, bool)) -> Seq<char> {
    seq![
        if flags.0 { 'r' } else { '-' },
        if flags.1 { 'w' } else { '-' },
        if flags.2 { 'x' } else { '-' },
    ]
}

impl ModePerms {
    /// The permission bits (lower nine bits of a mode) of these permissions.
    pub open spec fn spec_bits(self) -> u32 {
        (self.user.spec_bits() + self.group.spec_bits() + self.other.spec_bits()) as u32
    }

    /// Returns the permission bits of these permissions.
    pub fn bits(&self) -> (r: u32)
        ensures
            r == self.spec_bits(),
            r <= S_IPERM,
    {
        self.user.bits() + self.group.bits() + self.other.bits()
    }

    /// The nine letters that `ls -l` shows for these permissions.
    pub open spec fn spec_letters(self) -> Seq<char> {
        rwx_letters(self.user.flags()) + rwx_letters(self.group.flags()) + rwx_letters(self.other.flags())
    }

    /// Renders the permissions as the nine letters that `ls -l` shows, such as `rw-r--r--`.
    pub fn to_string(&self) -> (s: String)
        ensures
            s@ == self.spec_letters(),
    {
        let mut s = String::new();
        proof {
            lemma_rwx_bits(self.user.spec_bits() / 64);
            lemma_rwx_bits(self.group.spec_bits() / 8);
            lemma_rwx_bits(self.other.spec_bits());
        }
        push_rwx(&mut s, self.user.bits() / 64);
        push_rwx(&mut s, self.group.bits() / 8);
        push_rwx(&mut s, self.other.bits());
        s
    }
}

/// The read, write and execute bits of a number below 8 are its fours, twos and ones.
proof fn lemma_rwx_bits(v: u32)
    requires
        v < 8,
    ensures
        (v & 4 != 0) == (v >= 4),
        (v & 2 != 0) == (v % 4 >= 2),
        (v & 1 != 0) == (v % 2 == 1),
{
    assert((v & 4 != 0) == (v >= 4)) by (bit_vector)
        requires v < 8;
    assert((v & 2 != 0) == (v % 4 >= 2)) by (bit_vector)
        requires v < 8;
    assert((v & 1 != 0) == (v % 2 == 1)) by (bit_vector)
        requires v < 8;
}

/// Appends the letters of the three permission flags held in `v` (0 to 7) to `s`.
fn push_rwx(s: &mut String, v: u32)
    requires
        v < 8,
    ensures
        final(s)@ == old(s)@ + rwx_letters((v & 4 != 0, v & 2 != 0, v & 1 != 0)),
{
    proof {
        reveal_strlit("r");
        reveal_strlit("w");
        reveal_strlit("x");
        reveal_strlit("-");
    }
    if v & 4 != 0 { s.append("r"); } else { s.append("-"); }
    if v & 2 != 0 { s.append("w"); } else { s.append("-"); }
    if v & 1 != 0 { s.append("x"); } else { s.append("-"); }
}


/// Extracting the permission bits back out of a mode whose permission bits were just set
/// gives the bits that were set, and leaves the type bits unchanged.
proof fn lemma_with_perms_bits(mode: u32, b: u32)
    requires
        b <= 0o777,
    ensures
        ((mode & !S_IPERM) | b) & S_IPERM == b,
        ((mode & !S_IPERM) | b) & S_IFMT == mode & S_IFMT,
{
    assert(((mode & !0o777u32) | b) & 0o777u32 == b) by (bit_vector)
        requires b <= 0o777u32;
    assert(((mode & !0o777u32) | b) & 0o170000u32 == mode & 0o170000u32) by (bit_vector)
        requires b <= 0o777u32;
}

/// The three classes of a permission value below 0o1000 are its base-8 digits.
proof fn lemma_perm_digits(b: u32)
    requires
        b <= 0o777,
    ensures
        (b >> 6u32) & 7u32 == b / 64,
        (b >> 3u32) & 7u32 == (b / 8) % 8,
        b & 7u32 == b % 8,
{
    assert((b >> 6u32) & 7u32 == b / 64) by (bit_vector)
        requires b <= 0o777u32;
    assert((b >> 3u32) & 7u32 == (b / 8) % 8) by (bit_vector)
        requires b <= 0o777u32;
    assert(b & 7u32 == b % 8) by (bit_vector);
}

/// Setting the type bits of a mode makes it name that type, and leaves the permission bits
/// unchanged.
proof fn lemma_with_type_bits(mode: u32, t: ModeType)
    ensures
        type_of(with_type(mode, t)) == Some(t),
        with_type(mode, t) & S_IPERM == mode & S_IPERM,
{
    assert(((mode & !0o170000u32) | 0o100000u32) & 0o170000u32 == 0o100000u32) by (bit_vector);
    assert(((mode & !0o170000u32) | 0o040000u32) & 0o170000u32 == 0o040000u32) by (bit_vector);
    assert(((mode & !0o170000u32) | 0o120000u32) & 0o170000u32 == 0o120000u32) by (bit_vector);
    assert(((mode & !0o170000u32) | 0o100000u32) & 0o777u32 == mode & 0o777u32) by (bit_vector);
    assert(((mode & !0o170000u32) | 0o040000u32) & 0o777u32 == mode & 0o777u32) by (bit_vector);
    assert(((mode & !0o170000u32) | 0o120000u32) & 0o777u32 == mode & 0o777u32) by (bit_vector);
}

/// Reading the permissions back from a mode gives the permissions whose bits it holds.
proof fn lemma_perms_of_bits(mode: u32, p: ModePerms)
    requires
        mode & S_IPERM == p.spec_bits(),
    ensures
        perms_of(mode) == p,
{
    let b = p.spec_bits();
    assert((mode >> 6u32) & 7u32 == ((mode & 0o777u32) >> 6u32) & 7u32) by (bit_vector);
    assert((mode >> 3u32) & 7u32 == ((mode & 0o777u32) >> 3u32) & 7u32) by (bit_vector);
    assert(mode & 7u32 == (mode & 0o777u32) & 7u32) by (bit_vector);
    lemma_perm_digits(b);
}

impl Mode {
    /// The default permissions of a new entity of type `t`: `rw-r--r--` for files, `rwxr-xr-x`
    /// for directories and `rwxrwxrwx` for symbolic links.
    pub open spec fn default_perms(t: ModeType) -> ModePerms {
        match t {
            ModeType::File => ModePerms { user: User::RW, group: Group::R, other: Other::R },
            ModeType::Directory => ModePerms { user: User::RWX, group: Group::RX, other: Other::RX },
            ModeType::Symlink => ModePerms { user: User::RWX, group: Group::RWX, other: Other::RWX },
        }
    }

    /// Creates a new mode of the given type with its default permissions.
    pub fn new(entity_type: ModeType) -> (m: Mode)
        ensures
            m.0 == entity_type.spec_bits() | Self::default_perms(entity_type).spec_bits(),
            type_of(m.0) == Some(entity_type),
            perms_of(m.0) == Self::default_perms(entity_type),
    {
        let perms = match entity_type {
            ModeType::File => ModePerms { user: User::RW, group: Group::R, other: Other::R },
            ModeType::Directory => ModePerms { user: User::RWX, group: Group::RX, other: Other::RX },
            ModeType::Symlink => ModePerms { user: User::RWX, group: Group::RWX, other: Other::RWX },
        };
        let m = Mode(entity_type.bits() | perms.bits());
        proof {
            let t = entity_type.spec_bits();
            let b = perms.spec_bits();
            assert(((0u32 & !0o777u32) | b) == b) by (bit_vector);
            lemma_with_type_bits(b, entity_type);
            assert(((b & !0o170000u32) | t) == (t | b)) by (bit_vector)
                requires b <= 0o777u32;
            lemma_with_perms_bits(0, b);
            lemma_perms_of_bits(m.0, perms);
        }
        m
    }

    /// Gets the file type that the type bits of the mode name, if any.
    pub fn get_type(&self) -> (r: Option<ModeType>)
        ensures
            r == type_of(self.0),
    {
        let bits = self.0 & S_IFMT;
        if bits == S_IFREG {
            Some(ModeType::File)
        } else if bits == S_IFDIR {
            Some(ModeType::Directory)
        } else if bits == S_IFLNK {
            Some(ModeType::Symlink)
        } else {
            None
        }
    }

    /// Sets the file type portion of the mode, leaving the other bits unchanged.
    pub fn set_type(&mut self, entity_type: ModeType)
        ensures
            final(self).0 == with_type(old(self).0, entity_type),
            type_of(final(self).0) == Some(entity_type),
            final(self).0 & S_IPERM == old(self).0 & S_IPERM,
    {
        proof {
            lemma_with_type_bits(self.0, entity_type);
        }
        self.0 = (self.0 & !S_IFMT) | entity_type.bits();
    }

    /// Gets the permission portion of the mode.
    pub fn get_permissions(&self) -> (p: ModePerms)
        ensures
            p == perms_of(self.0),
    {
        let u = (self.0 >> 6) & 7;
        let g = (self.0 >> 3) & 7;
        let o = self.0 & 7;
        let user = if u == 7 { User::RWX } else if u == 6 { User::RW } else if u == 5 { User::RX }
            else if u == 3 { User::WX } else if u == 4 { User::R } else if u == 2 { User::W }
            else if u == 1 { User::X } else { User::Empty };
        let group = if g == 7 { Group::RWX } else if g == 6 { Group::RW } else if g == 5 { Group::RX }
            else if g == 3 { Group::WX } else if g == 4 { Group::R } else if g == 2 { Group::W }
            else if g == 1 { Group::X } else { Group::Empty };
        let other = if o == 7 { Other::RWX } else if o == 6 { Other::RW } else if o == 5 { Other::RX }
            else if o == 3 { Other::WX } else if o == 4 { Other::R } else if o == 2 { Other::W }
            else if o == 1 { Other::X } else { Other::Empty };
        ModePerms { user, group, other }
    }

    /// Sets the permission portion of the mode, leaving the type bits unchanged.
    pub fn set_permissions<P: PermsSource>(&mut self, perms: P)
        ensures
            final(self).0 == with_perms(old(self).0, perms.spec_perms()),
            final(self).0 & S_IPERM == perms.spec_perms().spec_bits(),
            final(self).0 & S_IFMT == old(self).0 & S_IFMT,
            type_of(final(self).0) == type_of(old(self).0),
            perms_of(final(self).0) == perms.spec_perms(),
    {
        let perms = perms.to_perms();
        let b = perms.bits();
        proof {
            lemma_with_perms_bits(self.0, b);
            lemma_perms_of_bits((self.0 & !S_IPERM) | b, perms);
        }
        self.0 = (self.0 & !S_IPERM) | b;
    }

    /// The ten letters that `ls -l` shows for this mode: the type letter (`?` for an unknown
    /// type) and the permission letters.
    pub open spec fn spec_letters(self) -> Seq<char> {
        let letter = match type_of(self.0) {
            Some(t) => t.spec_letter(),
            None => seq!['?'],
        };
        letter + perms_of(self.0).spec_letters()
    }

    /// Renders the mode as `ls -l` does, such as `-rw-r--r--`.
    pub fn to_string(&self) -> (s: String)
        ensures
            s@ == self.spec_letters(),
    {
        let mut s = match self.get_type() {
            Some(t) => t.to_string(),
            None => {
                proof {
                    reveal_strlit("?");
                }
                String::from_str("?")
            },
        };
        let p = self.get_permissions().to_string();
        s.append(p.as_str());
        s
    }
}

/// Setting the type of a mode and then reading it gives that type back, and setting the
/// permissions and then reading them gives those permissions back; each of the two leaves the
/// other half of the mode unchanged.
pub proof fn law_mode_fields_independent(mode: u32, t: ModeType, p: ModePerms)
    ensures
        type_of(with_type(mode, t)) == Some(t),
        perms_of(with_type(mode, t)) == perms_of(mode),
        perms_of(with_perms(mode, p)) == p,
        type_of(with_perms(mode, p)) == type_of(mode),
{
    lemma_with_type_bits(mode, t);
    let m2 = with_type(mode, t);
    assert((m2 >> 6u32) & 7u32 == ((m2 & 0o777u32) >> 6u32) & 7u32) by (bit_vector);
    assert((m2 >> 3u32) & 7u32 == ((m2 & 0o777u32) >> 3u32) & 7u32) by (bit_vector);
    assert(m2 & 7u32 == (m2 & 0o777u32) & 7u32) by (bit_vector);
    assert((mode >> 6u32) & 7u32 == ((mode & 0o777u32) >> 6u32) & 7u32) by (bit_vector);
    assert((mode >> 3u32) & 7u32 == ((mode & 0o777u32) >> 3u32) & 7u32) by (bit_vector);
    assert(mode & 7u32 == (mode & 0o777u32) & 7u32) by (bit_vector);
    let b = p.spec_bits();
    assert(b <= 0o777);
    lemma_with_perms_bits(mode, b);
    lemma_perms_of_bits(with_perms(mode, p), p);
}


// Combining permission classes with `|` builds the permissions that hold each of them.

impl core::ops::BitOr<Group> for User {
    type Output = ModePerms;

    fn bitor(self, rhs: Group) -> (r: ModePerms) {
        ModePerms { user: self, group: rhs, other: Other::Empty }
    }
}

impl BitOrSpecImpl<Group> for User {
    open spec fn obeys_bitor_spec() -> bool {
        true
    }

    open spec fn bitor_req(self, rhs: Group) -> bool {
        true
    }

    open spec fn bitor_spec(self, rhs: Group) -> ModePerms {
        ModePerms { user: self, group: rhs, other: Other::Empty }
    }
}

impl core::ops::BitOr<Other> for User {
    type Output = ModePerms;

    fn bitor(self, rhs: Other) -> (r: ModePerms) {
        ModePerms { user: self, group: Group::Empty, other: rhs }
    }
}

impl BitOrSpecImpl<Other> for User {
    open spec fn obeys_bitor_spec() -> bool {
        true
    }

    open spec fn bitor_req(self, rhs: Other) -> bool {
        true
    }

    open spec fn bitor_spec(self, rhs: Other) -> ModePerms {
        ModePerms { user: self, group: Group::Empty, other: rhs }
    }
}

impl core::ops::BitOr<Other> for Group {
    type Output = ModePerms;

    fn bitor(self, rhs: Other) -> (r: ModePerms) {
        ModePerms { user: User::Empty, group: self, other: rhs }
    }
}

impl BitOrSpecImpl<Other> for Group {
    open spec fn obeys_bitor_spec() -> bool {
        true
    }

    open spec fn bitor_req(self, rhs: Other) -> bool {
        true
    }

    open spec fn bitor_spec(self, rhs: Other) -> ModePerms {
        ModePerms { user: User::Empty, group: self, other: rhs }
    }
}

impl core::ops::BitOr<ModePerms> for User {
    type Output = ModePerms;

    fn bitor(self, rhs: ModePerms) -> (r: ModePerms) {
        ModePerms { user: self, group: rhs.group, other: rhs.other }
    }
}

impl BitOrSpecImpl<ModePerms> for User {
    open spec fn obeys_bitor_spec() -> bool {
        true
    }

    open spec fn bitor_req(self, rhs: ModePerms) -> bool {
        true
    }

    open spec fn bitor_spec(self, rhs: ModePerms) -> ModePerms {
        ModePerms { user: self, group: rhs.group, other: rhs.other }
    }
}

impl core::ops::BitOr<ModePerms> for Group {
    type Output = ModePerms;

    fn bitor(self, rhs: ModePerms) -> (r: ModePerms) {
        ModePerms { user: rhs.user, group: self, other: rhs.other }
    }
}

impl BitOrSpecImpl<ModePerms> for Group {
    open spec fn obeys_bitor_spec() -> bool {
        true
    }

    open spec fn bitor_req(self, rhs: ModePerms) -> bool {
        true
    }

    open spec fn bitor_spec(self, rhs: ModePerms) -> ModePerms {
        ModePerms { user: rhs.user, group: self, other: rhs.other }
    }
}

impl core::ops::BitOr<ModePerms> for Other {
    type Output = ModePerms;

    fn bitor(self, rhs: ModePerms) -> (r: ModePerms) {
        ModePerms { user: rhs.user, group: rhs.group, other: self }
    }
}

impl BitOrSpecImpl<ModePerms> for Other {
    open spec fn obeys_bitor_spec() -> bool {
        true
    }

    open spec fn bitor_req(self, rhs: ModePerms) -> bool {
        true
    }

    open spec fn bitor_spec(self, rhs: ModePerms) -> ModePerms {
        ModePerms { user: rhs.user, group: rhs.group, other: self }
    }
}

impl core::ops::BitOr<Group> for ModePerms {
    type Output = ModePerms;

    fn bitor(self, rhs: Group) -> (r: ModePerms) {
        ModePerms { user: self.user, group: rhs, other: self.other }
    }
}

impl BitOrSpecImpl<Group> for ModePerms {
    open spec fn obeys_bitor_spec() -> bool {
        true
    }

    open spec fn bitor_req(self, rhs: Group) -> bool {
        true
    }

    open spec fn bitor_spec(self, rhs: Group) -> ModePerms {
        ModePerms { user: self.user, group: rhs, other: self.other }
    }
}

impl core::ops::BitOr<Other> for ModePerms {
    type Output = ModePerms;

    fn bitor(self, rhs: Other) -> (r: ModePerms) {
        ModePerms { user: self.user, group: self.group, other: rhs }
    }
}

impl BitOrSpecImpl<Other> for ModePerms {
    open spec fn obeys_bitor_spec() -> bool {
        true
    }

    open spec fn bitor_req(self, rhs: Other) -> bool {
        true
    }

    open spec fn bitor_spec(self, rhs: Other) -> ModePerms {
        ModePerms { user: self.user, group: self.group, other: rhs }
    }
}

impl core::ops::BitOr<User> for ModePerms {
    type Output = ModePerms;

    fn bitor(self, rhs: User) -> (r: ModePerms) {
        ModePerms { user: rhs, group: self.group, other: self.other }
    }
}

impl BitOrSpecImpl<User> for ModePerms {
    open spec fn obeys_bitor_spec() -> bool {
        true
    }

    open spec fn bitor_req(self, rhs: User) -> bool {
        true
    }

    open spec fn bitor_spec(self, rhs: User) -> ModePerms {
        ModePerms { user: rhs, group: self.group, other: self.other }
    }
}

impl From<User> for ModePerms {
    fn from(v: User) -> (r: ModePerms) {
        ModePerms { user: v, group: Group::Empty, other: Other::Empty }
    }
}

impl FromSpecImpl<User> for ModePerms {
    open spec fn obeys_from_spec() -> bool {
        true
    }

    open spec fn from_spec(v: User) -> ModePerms {
        ModePerms { user: v, group: Group::Empty, other: Other::Empty }
    }
}

impl From<Group> for ModePerms {
    fn from(v: Group) -> (r: ModePerms) {
        ModePerms { user: User::Empty, group: v, other: Other::Empty }
    }
}

impl FromSpecImpl<Group> for ModePerms {
    open spec fn obeys_from_spec() -> bool {
        true
    }

    open spec fn from_spec(v: Group) -> ModePerms {
        ModePerms { user: User::Empty, group: v, other: Other::Empty }
    }
}

impl From<Other> for ModePerms {
    fn from(v: Other) -> (r: ModePerms) {
        ModePerms { user: User::Empty, group: Group::Empty, other: v }
    }
}

impl FromSpecImpl<Other> for ModePerms {
    open spec fn obeys_from_spec() -> bool {
        true
    }

    open spec fn from_spec(v: Other) -> ModePerms {
        ModePerms { user: User::Empty, group: Group::Empty, other: v }
    }
}

impl From<u32> for Mode {
    fn from(v: u32) -> (r: Mode) {
        Mode(v)
    }
}

impl FromSpecImpl<u32> for Mode {
    open spec fn obeys_from_spec() -> bool {
        true
    }

    open spec fn from_spec(v: u32) -> Mode {
        Mode(v)
    }
}

impl From<Mode> for u32 {
    fn from(v: Mode) -> (r: u32) {
        v.0
    }
}

impl FromSpecImpl<Mode> for u32 {
    open spec fn obeys_from_spec() -> bool {
        true
    }

    open spec fn from_spec(v: Mode) -> u32 {
        v.0
    }
}

impl From<ModeType> for Mode {
    fn from(v: ModeType) -> (r: Mode) {
        Mode(v.bits())
    }
}

impl FromSpecImpl<ModeType> for Mode {
    open spec fn obeys_from_spec() -> bool {
        true
    }

    open spec fn from_spec(v: ModeType) -> Mode {
        Mode(v.spec_bits())
    }
}

impl From<ModePerms> for Mode {
    fn from(v: ModePerms) -> (r: Mode) {
        Mode(v.bits())
    }
}

impl FromSpecImpl<ModePerms> for Mode {
    open spec fn obeys_from_spec() -> bool {
        true
    }

    open spec fn from_spec(v: ModePerms) -> Mode {
        Mode(v.spec_bits())
    }
}

impl From<ModePerms> for u32 {
    fn from(v: ModePerms) -> (r: u32) {
        v.bits()
    }
}

impl FromSpecImpl<ModePerms> for u32 {
    open spec fn obeys_from_spec() -> bool {
        true
    }

    open spec fn from_spec(v: ModePerms) -> u32 {
        v.spec_bits()
    }
}

/// A description of permissions: a single permission class or a full set of permissions.
pub trait PermsSource: Sized {
    /// The permissions that this description stands for.
    spec fn spec_perms(&self) -> ModePerms;

    /// Returns the permissions that this description stands for.
    fn to_perms(&self) -> (r: ModePerms)
        ensures
            r == self.spec_perms(),
    ;
}

impl PermsSource for ModePerms {
    open spec fn spec_perms(&self) -> ModePerms {
        *self
    }

    fn to_perms(&self) -> (r: ModePerms) {
        *self
    }
}

impl PermsSource for User {
    open spec fn spec_perms(&self) -> ModePerms {
        ModePerms { user: *self, group: Group::Empty, other: Other::Empty }
    }

    fn to_perms(&self) -> (r: ModePerms) {
        ModePerms { user: *self, group: Group::Empty, other: Other::Empty }
    }
}

impl PermsSource for Group {
    open spec fn spec_perms(&self) -> ModePerms {
        ModePerms { user: User::Empty, group: *self, other: Other::Empty }
    }

    fn to_perms(&self) -> (r: ModePerms) {
        ModePerms { user: User::Empty, group: *self, other: Other::Empty }
    }
}

impl PermsSource for Other {
    open spec fn spec_perms(&self) -> ModePerms {
        ModePerms { user: User::Empty, group: Group::Empty, other: *self }
    }

    fn to_perms(&self) -> (r: ModePerms) {
        ModePerms { user: User::Empty, group: Group::Empty, other: *self }
    }
}

/// A point in time: whole seconds since the Unix epoch and the nanoseconds within the second.
#[derive(Debug, Clone, Copy, PartialEq, Eq, Structural)]
pub struct Timestamp {
    /// Seconds since 1970-01-01T00:00:00Z (negative before it).
    pub secs: i64,
    /// Nanoseconds within the second.
    pub nanos: u32,
}

/// Reads the current time from the system clock (`chrono::Utc::now`) as seconds since the Unix
/// epoch and nanoseconds within the second. Nothing is claimed of the result: it is whatever
/// time the clock shows.
#[verifier::external_body]
pub(crate) fn now_timestamp() -> Timestamp {
    let now = chrono::Utc::now();
    Timestamp { secs: now.timestamp(), nanos: now.timestamp_subsec_nanos() }
}

/// Reads the real user ID of the running process (`users::get_current_uid`). Nothing is
/// claimed of the result: it depends on the process.
#[verifier::external_body]
fn current_uid() -> u32 {
    users::get_current_uid()
}

/// Reads the real group ID of the running process (`users::get_current_gid`). Nothing is
/// claimed of the result: it depends on the process.
#[verifier::external_body]
fn current_gid() -> u32 {
    users::get_current_gid()
}

/// Metadata for a file or directory in the virtual filesystem: the mode (type and permission
/// bits), the size, three timestamps and the owning user and group.
#[derive(Debug, Clone, Copy, PartialEq, Eq, Structural)]
pub struct Metadata {
    mode: Mode,
    size: u64,
    created_at: Timestamp,
    modified_at: Timestamp,
    accessed_at: Timestamp,
    uid: u32,
    gid: u32,
}

impl Metadata {
    /// The mode of the entity.
    pub closed spec fn spec_mode(&self) -> Mode {
        self.mode
    }

    /// The size of the entity in bytes.
    pub closed spec fn spec_size(&self) -> u64 {
        self.size
    }

    /// The user ID of the owner.
    pub closed spec fn spec_uid(&self) -> u32 {
        self.uid
    }

    /// The group ID of the owner.
    pub closed spec fn spec_gid(&self) -> u32 {
        self.gid
    }

    /// The creation time.
    pub closed spec fn spec_created_at(&self) -> Timestamp {
        self.created_at
    }

    /// The time of the last modification.
    pub closed spec fn spec_modified_at(&self) -> Timestamp {
        self.modified_at
    }

    /// The time of the last access.
    pub closed spec fn spec_accessed_at(&self) -> Timestamp {
        self.accessed_at
    }

    /// Creates metadata for a new entity of the given type: its default mode, size 0, all
    /// three timestamps set to the current time, and the current user and group as owner.
    pub fn new(entity_type: ModeType) -> (m: Self)
        ensures
            m.spec_mode() == Mode(entity_type.spec_bits() | Mode::default_perms(entity_type).spec_bits()),
            type_of(m.spec_mode().0) == Some(entity_type),
            perms_of(m.spec_mode().0) == Mode::default_perms(entity_type),
            m.spec_size() == 0,
            m.spec_created_at() == m.spec_modified_at(),
            m.spec_modified_at() == m.spec_accessed_at(),
    {
        let now = now_timestamp();
        Self {
            mode: Mode::new(entity_type),
            size: 0,
            created_at: now,
            modified_at: now,
            accessed_at: now,
            uid: current_uid(),
            gid: current_gid(),
        }
    }

    /// Creates metadata as `new` does, but owned by user 0 and group 0.
    pub fn with_root_ownership(entity_type: ModeType) -> (m: Self)
        ensures
            m.spec_mode() == Mode(entity_type.spec_bits() | Mode::default_perms(entity_type).spec_bits()),
            m.spec_size() == 0,
            m.spec_uid() == 0,
            m.spec_gid() == 0,
            m.spec_created_at() == m.spec_modified_at(),
            m.spec_modified_at() == m.spec_accessed_at(),
    {
        let now = now_timestamp();
        Self {
            mode: Mode::new(entity_type),
            size: 0,
            created_at: now,
            modified_at: now,
            accessed_at: now,
            uid: 0,
            gid: 0,
        }
    }

    /// Sets the file type portion of the mode.
    pub fn set_type(&mut self, entity_type: ModeType)
        ensures
            final(self).spec_mode().0 == with_type(old(self).spec_mode().0, entity_type),
            type_of(final(self).spec_mode().0) == Some(entity_type),
            perms_of(final(self).spec_mode().0) == perms_of(old(self).spec_mode().0),
            final(self).spec_size() == old(self).spec_size(),
            final(self).spec_uid() == old(self).spec_uid(),
            final(self).spec_gid() == old(self).spec_gid(),
            final(self).spec_accessed_at() == old(self).spec_accessed_at(),
            final(self).spec_created_at() == old(self).spec_created_at(),
            final(self).spec_modified_at() == old(self).spec_modified_at(),
    {
        proof {
            law_mode_fields_independent(self.mode.0, entity_type, perms_of(self.mode.0));
        }
        self.mode.set_type(entity_type);
    }

    /// Gets the file type that the mode names, if any.
    pub fn get_type(&self) -> (r: Option<ModeType>)
        ensures
            r == type_of(self.spec_mode().0),
    {
        self.mode.get_type()
    }

    /// Sets the permission bits of the mode, leaving its type bits unchanged.
    pub fn set_permissions<P: PermsSource>(&mut self, permissions: P)
        ensures
            final(self).spec_mode().0 == with_perms(old(self).spec_mode().0, permissions.spec_perms()),
            perms_of(final(self).spec_mode().0) == permissions.spec_perms(),
            type_of(final(self).spec_mode().0) == type_of(old(self).spec_mode().0),
            final(self).spec_size() == old(self).spec_size(),
            final(self).spec_uid() == old(self).spec_uid(),
            final(self).spec_gid() == old(self).spec_gid(),
            final(self).spec_accessed_at() == old(self).spec_accessed_at(),
            final(self).spec_created_at() == old(self).spec_created_at(),
            final(self).spec_modified_at() == old(self).spec_modified_at(),
    {
        self.mode.set_permissions(permissions);
    }

    /// Gets the permissions that the mode holds.
    pub fn get_permissions(&self) -> (p: ModePerms)
        ensures
            p == perms_of(self.spec_mode().0),
    {
        self.mode.get_permissions()
    }

    /// Returns the mode.
    pub fn get_mode(&self) -> (m: &Mode)
        ensures
            *m == self.spec_mode(),
    {
        &self.mode
    }

    /// Returns the size in bytes.
    pub fn get_size(&self) -> (r: u64)
        ensures
            r == self.spec_size(),
    {
        self.size
    }

    /// The same metadata with another size.
    pub closed spec fn with_size(self, size: u64) -> Metadata {
        Metadata { size, ..self }
    }

    /// Changing the size changes only the size.
    pub proof fn lemma_with_size(self, size: u64)
        ensures
            self.with_size(size).spec_size() == size,
            self.with_size(size).spec_mode() == self.spec_mode(),
            self.with_size(size).spec_uid() == self.spec_uid(),
            self.with_size(size).spec_gid() == self.spec_gid(),
            self.with_size(size).spec_accessed_at() == self.spec_accessed_at(),
            self.with_size(size).spec_created_at() == self.spec_created_at(),
            self.with_size(size).spec_modified_at() == self.spec_modified_at(),
    {
    }

    /// Sets the size in bytes.
    pub fn set_size(&mut self, size: u64)
        ensures
            *final(self) == old(self).with_size(size),
            final(self).spec_size() == size,
            final(self).spec_mode() == old(self).spec_mode(),
            final(self).spec_uid() == old(self).spec_uid(),
            final(self).spec_gid() == old(self).spec_gid(),
            final(self).spec_accessed_at() == old(self).spec_accessed_at(),
            final(self).spec_created_at() == old(self).spec_created_at(),
            final(self).spec_modified_at() == old(self).spec_modified_at(),
    {
        self.size = size;
    }

    /// Returns the creation time.
    pub fn get_created_at(&self) -> (r: &Timestamp)
        ensures
            *r == self.spec_created_at(),
    {
        &self.created_at
    }

    /// Returns the time of the last modification.
    pub fn get_modified_at(&self) -> (r: &Timestamp)
        ensures
            *r == self.spec_modified_at(),
    {
        &self.modified_at
    }

    /// Returns the time of the last access.
    pub fn get_accessed_at(&self) -> (r: &Timestamp)
        ensures
            *r == self.spec_accessed_at(),
    {
        &self.accessed_at
    }

    /// Sets the time of the last access.
    pub fn set_accessed_at(&mut self, time: Timestamp)
        ensures
            final(self).spec_accessed_at() == time,
            final(self).spec_mode() == old(self).spec_mode(),
            final(self).spec_size() == old(self).spec_size(),
            final(self).spec_uid() == old(self).spec_uid(),
            final(self).spec_gid() == old(self).spec_gid(),
            final(self).spec_created_at() == old(self).spec_created_at(),
            final(self).spec_modified_at() == old(self).spec_modified_at(),
    {
        self.accessed_at = time;
    }

    /// Sets the time of the last modification.
    pub fn set_modified_at(&mut self, time: Timestamp)
        ensures
            final(self).spec_modified_at() == time,
            final(self).spec_mode() == old(self).spec_mode(),
            final(self).spec_size() == old(self).spec_size(),
            final(self).spec_uid() == old(self).spec_uid(),
            final(self).spec_gid() == old(self).spec_gid(),
            final(self).spec_created_at() == old(self).spec_created_at(),
            final(self).spec_accessed_at() == old(self).spec_accessed_at(),
    {
        self.modified_at = time;
    }

    /// Returns the user ID of the owner.
    pub fn get_uid(&self) -> (r: u32)
        ensures
            r == self.spec_uid(),
    {
        self.uid
    }

    /// Returns the group ID of the owner.
    pub fn get_gid(&self) -> (r: u32)
        ensures
            r == self.spec_gid(),
    {
        self.gid
    }

    /// Sets the user ID of the owner.
    pub fn set_uid(&mut self, uid: u32)
        ensures
            final(self).spec_uid() == uid,
            final(self).spec_gid() == old(self).spec_gid(),
            final(self).spec_mode() == old(self).spec_mode(),
            final(self).spec_size() == old(self).spec_size(),
            final(self).spec_accessed_at() == old(self).spec_accessed_at(),
            final(self).spec_created_at() == old(self).spec_created_at(),
            final(self).spec_modified_at() == old(self).spec_modified_at(),
    {
        self.uid = uid;
    }

    /// Sets the group ID of the owner.
    pub fn set_gid(&mut self, gid: u32)
        ensures
            final(self).spec_gid() == gid,
            final(self).spec_uid() == old(self).spec_uid(),
            final(self).spec_mode() == old(self).spec_mode(),
            final(self).spec_size() == old(self).spec_size(),
            final(self).spec_accessed_at() == old(self).spec_accessed_at(),
            final(self).spec_created_at() == old(self).spec_created_at(),
            final(self).spec_modified_at() == old(self).spec_modified_at(),
    {
        self.gid = gid;
    }
}

} // verus!
