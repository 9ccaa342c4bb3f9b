//! File-system related decoding: permission bits, open flags, node modes,
//! and the statfs buffer.

use vstd::prelude::*;
use vstd::bytes::{spec_u32_from_le_bytes, spec_u64_from_le_bytes};
use vstd::string::StringExecFns;
use crate::fmt::{
    fmt_dec_i64, fmt_dec_u64, fmt_hex_upper, push_char, spec_join_sep, join_sep, dec_digits,
    hex_digits, hex_digits_upper, spec_dec_int,
};
use crate::framer::{read_u32_at, read_u64_at};

verus! {

/// Owner read permission bit.
pub const OWNER_READ: u16 = 0o400;

/// Owner write permission bit.
pub const OWNER_WRITE: u16 = 0o200;

/// Owner execute permission bit.
pub const OWNER_EXEC: u16 = 0o100;

/// Group read permission bit.
pub const GROUP_READ: u16 = 0o40;

/// Group write permission bit.
pub const GROUP_WRITE: u16 = 0o20;

/// Group execute permission bit.
pub const GROUP_EXEC: u16 = 0o10;

/// Others' read permission bit.
pub const OTHER_READ: u16 = 0o4;

/// Others' write permission bit.
pub const OTHER_WRITE: u16 = 0o2;

/// Others' execute permission bit.
pub const OTHER_EXEC: u16 = 0o1;

/// Node (file/directory) permission mode: the nine `rwx` bits.
#[derive(Clone, Copy, Debug)]
pub struct VfsNodePerm {
    pub bits: u16,
}

/// One cell of the `rwx` permission display.
pub open spec fn perm_char(bits: u16, mask: u16, shown: u8) -> u8 {
    if bits & mask != 0 {
        shown
    } else {
        45u8
    }
}

/// The nine-character `rwxrwxrwx` display of a permission value; unset
/// bits show as a dash.
pub open spec fn spec_rwx(bits: u16) -> Seq<u8> {
    seq![
        perm_char(bits, 0o400, 114),
        perm_char(bits, 0o200, 119),
        perm_char(bits, 0o100, 120),
        perm_char(bits, 0o40, 114),
        perm_char(bits, 0o20, 119),
        perm_char(bits, 0o10, 120),
        perm_char(bits, 0o4, 114),
        perm_char(bits, 0o2, 119),
        perm_char(bits, 0o1, 120),
    ]
}

impl VfsNodePerm {
    /// The permission value with any non-permission bits cleared.
    pub fn from_bits_truncate(bits: u16) -> (r: Self)
        ensures
            r.bits == bits & 0o777,
    {
        VfsNodePerm { bits: bits & 0o777 }
    }

    /// True when every bit of `mask` is set.
    pub fn contains_bits(&self, mask: u16) -> (r: bool)
        ensures
            r == (self.bits & mask == mask),
    {
        self.bits & mask == mask
    }

    /// The `rwxrwxrwx` display of this permission value.
    pub fn rwx_buf(&self) -> (r: [u8; 9])
        ensures
            r@ == spec_rwx(self.bits),
    {
        let mut perm: [u8; 9] = [45u8; 9];
        if self.contains_bits(OWNER_READ) {
            perm[0] = 114;
        }
        if self.contains_bits(OWNER_WRITE) {
            perm[1] = 119;
        }
        if self.contains_bits(OWNER_EXEC) {
            perm[2] = 120;
        }
        if self.contains_bits(GROUP_READ) {
            perm[3] = 114;
        }
        if self.contains_bits(GROUP_WRITE) {
            perm[4] = 119;
        }
        if self.contains_bits(GROUP_EXEC) {
            perm[5] = 120;
        }
        if self.contains_bits(OTHER_READ) {
            perm[6] = 114;
        }
        if self.contains_bits(OTHER_WRITE) {
            perm[7] = 119;
        }
        if self.contains_bits(OTHER_EXEC) {
            perm[8] = 120;
        }
        proof {
            let bb = self.bits;
            assert forall|m: u16| #[trigger] (bb & m) != 0 implies bb & m == m || !(m == 0o400 || m
                == 0o200 || m == 0o100 || m == 0o40 || m == 0o20 || m == 0o10 || m == 0o4 || m
                == 0o2 || m == 0o1) by {
                if m == 0o400 || m == 0o200 || m == 0o100 || m == 0o40 || m == 0o20 || m == 0o10
                    || m == 0o4 || m == 0o2 || m == 0o1 {
                    assert(bb & m == m) by (bit_vector)
                        requires
                            bb & m != 0,
                            m == 0o400 || m == 0o200 || m == 0o100 || m == 0o40 || m == 0o20 || m
                                == 0o10 || m == 0o4 || m == 0o2 || m == 0o1,
                    ;
                }
            }
            assert(perm@ =~= spec_rwx(self.bits));
        }
        perm
    }
}

/// The display name of a node type, from the high bits of its mode.
pub open spec fn spec_node_type(mode: u64) -> Seq<char> {
    let t = mode / 0x1000;
    if t == 0o1 {
        "FIFO"@
    } else if t == 0o2 {
        "CharDevice"@
    } else if t == 0o4 {
        "Dir"@
    } else if t == 0o6 {
        "BlockDevice"@
    } else if t == 0o10 {
        "File"@
    } else if t == 0o12 {
        "SymLink"@
    } else if t == 0o14 {
        "Socket"@
    } else {
        "Unknown"@
    }
}

/// ASCII bytes read as characters.
pub open spec fn chars_of_bytes(s: Seq<u8>) -> Seq<char> {
    s.map_values(|b: u8| b as char)
}

/// The quoted display of a node mode: its type name and its `rwx` bits.
pub open spec fn spec_mode_name(mode: u64) -> Seq<char> {
    seq!['"'] + spec_node_type(mode) + seq![' '] + chars_of_bytes(
        spec_rwx((mode % 0x1000) as u16 & 0o777),
    ) + seq!['"']
}

/// The display of a node mode, as `"<type> <rwx bits>"`.
pub fn mode_name(mode: u64) -> (r: String)
    ensures
        r@ == spec_mode_name(mode),
{
    let mut s = String::new();
    push_char(&mut s, '"');
    let t: u64 = mode >> 12;
    proof {
        assert(mode >> 12 == mode / 0x1000) by (bit_vector);
    }
    if t == 0o1 {
        s.append("FIFO");
    } else if t == 0o2 {
        s.append("CharDevice");
    } else if t == 0o4 {
        s.append("Dir");
    } else if t == 0o6 {
        s.append("BlockDevice");
    } else if t == 0o10 {
        s.append("File");
    } else if t == 0o12 {
        s.append("SymLink");
    } else if t == 0o14 {
        s.append("Socket");
    } else {
        s.append("Unknown");
    }
    push_char(&mut s, ' ');
    let low: u16 = (mode & 0o777) as u16;
    proof {
        assert(mode & 0o777 == (mode % 0x1000) & 0o777) by (bit_vector);
        assert((mode & 0o777) < 0x1000) by (bit_vector);
        assert((mode % 0x1000) as u16 & 0o777 == (mode & 0o777) as u16) by {
            assert(((mode % 0x1000) as u16) & 0o777 == ((mode % 0x1000) & 0o777) as u16)
                by (bit_vector);
        }
    }
    let perm = VfsNodePerm::from_bits_truncate(low);
    proof {
        assert(low & 0o777 == low) by (bit_vector)
            requires
                low == (mode & 0o777) as u16,
                mode & 0o777 < 0x1000,
        ;
    }
    let buf = perm.rwx_buf();
    let mut i: usize = 0;
    while i < 9
        invariant
            i <= 9,
            buf@ == spec_rwx((mode % 0x1000) as u16 & 0o777),
            s@ == seq!['"'] + spec_node_type(mode) + seq![' '] + chars_of_bytes(buf@.take(i as int)),
        decreases 9 - i,
    {
        proof {
            assert(buf@[i as int] == 45 || buf@[i as int] == 114 || buf@[i as int] == 119
                || buf@[i as int] == 120);
        }
        push_char(&mut s, buf[i] as char);
        proof {
            assert(chars_of_bytes(buf@.take(i + 1)) =~= chars_of_bytes(buf@.take(i as int)) + seq![
                buf@[i as int] as char,
            ]);
        }
        i = i + 1;
    }
    push_char(&mut s, '"');
    proof {
        assert(buf@.take(9) =~= buf@);
        assert(s@ =~= spec_mode_name(mode));
    }
    s
}

/// Access-mode mask of the open flags.
pub const O_ACCMODE: i32 = 0o003;

/// Open for reading only.
pub const O_RDONLY: i32 = 0o000;

/// Open for writing only.
pub const O_WRONLY: i32 = 0o001;

/// Open for reading and writing.
pub const O_RDWR: i32 = 0o002;

/// Create the file if it does not exist.
pub const O_CREAT: i32 = 0o100;

/// Truncate the file on open.
pub const O_TRUNC: i32 = 0o001000;

/// Append on each write.
pub const O_APPEND: i32 = 0o002000;

/// The path must name a directory.
pub const O_DIRECTORY: i32 = 0o200000;

/// A one-name segment of a flag display, present when the flag is set.
pub open spec fn flag_seg(cond: bool, name: Seq<char>) -> Seq<Seq<char>> {
    if cond {
        seq![name]
    } else {
        Seq::empty()
    }
}

/// Appends `name` to the list when `cond` holds.
pub fn push_flag(names: &mut Vec<String>, cond: bool, name: &'static str)
    ensures
        final(names)@.map_values(|p: String| p@) == old(names)@.map_values(|p: String| p@)
            + flag_seg(cond, name@),
{
    let ghost before = names@.map_values(|p: String| p@);
    if cond {
        names.push(String::from_str(name));
        proof {
            assert(names@.map_values(|p: String| p@) =~= before + flag_seg(cond, name@));
        }
    } else {
        proof {
            assert(names@.map_values(|p: String| p@) =~= before + flag_seg(cond, name@));
        }
    }
}

/// The access-mode segment of the open-flag display.
pub open spec fn accmode_seg(flags: i32) -> Seq<Seq<char>> {
    if flags & 0o003 == 0o000 {
        seq!["O_RDONLY"@]
    } else if flags & 0o003 == 0o001 {
        seq!["O_WRONLY"@]
    } else if flags & 0o003 == 0o002 {
        seq!["O_RDWR"@]
    } else {
        Seq::empty()
    }
}

/// The names of the set open flags, in display order.
pub open spec fn spec_open_flag_names(flags: i32) -> Seq<Seq<char>> {
    accmode_seg(flags) + flag_seg(flags & 0o100 != 0, "O_CREAT"@) + flag_seg(
        flags & 0o1000 != 0,
        "O_TRUNC"@,
    ) + flag_seg(flags & 0o2000 != 0, "O_APPEND"@) + flag_seg(
        flags & 0o200000 != 0,
        "O_DIRECTORY"@,
    )
}

/// The display of a set of open flags, joined by `|`.
pub fn open_flags_name(flags: i32) -> (r: String)
    ensures
        r@ == spec_join_sep(spec_open_flag_names(flags), "|"@),
{
    let mut names: Vec<String> = Vec::new();
    if flags & O_ACCMODE == O_RDONLY {
        names.push(String::from_str("O_RDONLY"));
    }
    if flags & O_ACCMODE == O_WRONLY {
        names.push(String::from_str("O_WRONLY"));
    }
    if flags & O_ACCMODE == O_RDWR {
        names.push(String::from_str("O_RDWR"));
    }
    proof {
        assert(names@.map_values(|p: String| p@) =~= accmode_seg(flags));
    }
    push_flag(&mut names, flags & O_CREAT != 0, "O_CREAT");
    push_flag(&mut names, flags & O_TRUNC != 0, "O_TRUNC");
    push_flag(&mut names, flags & O_APPEND != 0, "O_APPEND");
    push_flag(&mut names, flags & O_DIRECTORY != 0, "O_DIRECTORY");
    let n = names.len();
    let r = join_sep(&names, n, "|");
    proof {
        assert(names@.take(n as int) =~= names@);
    }
    r
}

/// Magic of the original extended filesystem.
pub const EXT_SUPER_MAGIC: u64 = 0x137d;

/// Magic of old ext2 filesystems.
pub const EXT2_OLD_SUPER_MAGIC: u64 = 0xef51;

/// Magic shared by ext2, ext3 and ext4 filesystems.
pub const EXT2_OR_EXT3_OR_EXT4_SUPER_MAGIC: u64 = 0xef53;

/// The display name of a filesystem type: a known name, or the raw value
/// in upper-case hexadecimal.
pub open spec fn spec_f_type_name(f_type: u64) -> Seq<char> {
    if f_type == 0x137d {
        "ext"@
    } else if f_type == 0xef51 {
        "ext2"@
    } else if f_type == 0xef53 {
        "ext2|ext3|ext4"@
    } else {
        hex_digits_upper(f_type as nat)
    }
}

/// The display name of a filesystem type.
pub fn f_type_name(f_type: u64) -> (r: String)
    ensures
        r@ == spec_f_type_name(f_type),
{
    if f_type == EXT_SUPER_MAGIC {
        String::from_str("ext")
    } else if f_type == EXT2_OLD_SUPER_MAGIC {
        String::from_str("ext2")
    } else if f_type == EXT2_OR_EXT3_OR_EXT4_SUPER_MAGIC {
        String::from_str("ext2|ext3|ext4")
    } else {
        fmt_hex_upper(f_type)
    }
}

/// The names of the set mount flags, in display order.
pub open spec fn spec_f_flag_names(f: u64) -> Seq<Seq<char>> {
    flag_seg(f & 0x0001 != 0, "ST_RDONLY"@) + flag_seg(f & 0x0002 != 0, "ST_NOSUID"@) + flag_seg(
        f & 0x0004 != 0,
        "ST_NODEV"@,
    ) + flag_seg(f & 0x0008 != 0, "ST_NOEXEC"@) + flag_seg(
        f & 0x0010 != 0,
        "ST_SYNCHRONOUS"@,
    ) + flag_seg(f & 0x0020 != 0, "ST_VALID"@) + flag_seg(
        f & 0x0040 != 0,
        "ST_MANDLOCK"@,
    ) + flag_seg(f & 0x0400 != 0, "ST_NOATIME"@) + flag_seg(
        f & 0x0800 != 0,
        "ST_NODIRATIME"@,
    ) + flag_seg(f & 0x1000 != 0, "ST_RELATIME"@) + flag_seg(f & 0x2000 != 0, "ST_NOSYMFOLLOW"@)
}

/// The display of a set of mount flags, joined by `|`.
pub fn f_flags_name(f_flags: u64) -> (r: String)
    ensures
        r@ == spec_join_sep(spec_f_flag_names(f_flags), "|"@),
{
    let mut names: Vec<String> = Vec::new();
    proof {
        assert(names@.map_values(|p: String| p@) =~= Seq::<Seq<char>>::empty());
        assert(Seq::<Seq<char>>::empty() + flag_seg(f_flags & 0x0001 != 0, "ST_RDONLY"@)
            =~= flag_seg(f_flags & 0x0001 != 0, "ST_RDONLY"@));
    }
    push_flag(&mut names, f_flags & 0x0001 != 0, "ST_RDONLY");
    push_flag(&mut names, f_flags & 0x0002 != 0, "ST_NOSUID");
    push_flag(&mut names, f_flags & 0x0004 != 0, "ST_NODEV");
    push_flag(&mut names, f_flags & 0x0008 != 0, "ST_NOEXEC");
    push_flag(&mut names, f_flags & 0x0010 != 0, "ST_SYNCHRONOUS");
    push_flag(&mut names, f_flags & 0x0020 != 0, "ST_VALID");
    push_flag(&mut names, f_flags & 0x0040 != 0, "ST_MANDLOCK");
    push_flag(&mut names, f_flags & 0x0400 != 0, "ST_NOATIME");
    push_flag(&mut names, f_flags & 0x0800 != 0, "ST_NODIRATIME");
    push_flag(&mut names, f_flags & 0x1000 != 0, "ST_RELATIME");
    push_flag(&mut names, f_flags & 0x2000 != 0, "ST_NOSYMFOLLOW");
    let n = names.len();
    let r = join_sep(&names, n, "|");
    proof {
        assert(names@.take(n as int) =~= names@);
    }
    r
}

/// Filesystem identifier: two raw words.
#[derive(Clone, Copy, Debug)]
pub struct KernelFsid {
    pub val: [i32; 2],
}

/// The display of a filesystem identifier.
pub open spec fn spec_fsid_repr(a: i32, b: i32) -> Seq<char> {
    "KernelFsid { val: ["@ + spec_dec_int(a as int) + ", "@ + spec_dec_int(b as int) + "] }"@
}

impl KernelFsid {
    /// Renders the identifier as text.
    pub fn render(&self) -> (r: String)
        ensures
            r@ == spec_fsid_repr(self.val[0], self.val[1]),
    {
        let mut s = String::from_str("KernelFsid { val: [");
        let d = fmt_dec_i64(self.val[0] as i64);
        s.append(d.as_str());
        s.append(", ");
        let d = fmt_dec_i64(self.val[1] as i64);
        s.append(d.as_str());
        s.append("] }");
        proof {
            assert(s@ =~= spec_fsid_repr(self.val@[0], self.val@[1]));
        }
        s
    }
}

/// The statfs buffer: what the kernel reports about a mounted filesystem.
#[derive(Clone, Copy, Debug)]
pub struct FileSystemInfo {
    /// Type of filesystem.
    pub f_type: u64,
    /// Optimal transfer block size.
    pub f_bsize: u64,
    /// Total data blocks in filesystem.
    pub f_blocks: u64,
    /// Free blocks in filesystem.
    pub f_bfree: u64,
    /// Free blocks available to an unprivileged user.
    pub f_bavail: u64,
    /// Total inodes in filesystem.
    pub f_files: u64,
    /// Free inodes in filesystem.
    pub f_ffree: u64,
    /// Filesystem identifier.
    pub f_fsid: KernelFsid,
    /// Maximum length of filenames.
    pub f_namelen: u64,
    /// Fragment size.
    pub f_frsize: u64,
    /// Mount flags of filesystem.
    pub f_flags: u64,
    /// Padding reserved for future use.
    pub f_spare: [u64; 4],
}

/// `fs` holds exactly the fields of the 120-byte statfs buffer at the
/// front of `b`.
pub open spec fn fsinfo_matches(fs: FileSystemInfo, b: Seq<u8>) -> bool {
    &&& fs.f_type == spec_u64_from_le_bytes(b.subrange(0, 8))
    &&& fs.f_bsize == spec_u64_from_le_bytes(b.subrange(8, 16))
    &&& fs.f_blocks == spec_u64_from_le_bytes(b.subrange(16, 24))
    &&& fs.f_bfree == spec_u64_from_le_bytes(b.subrange(24, 32))
    &&& fs.f_bavail == spec_u64_from_le_bytes(b.subrange(32, 40))
    &&& fs.f_files == spec_u64_from_le_bytes(b.subrange(40, 48))
    &&& fs.f_ffree == spec_u64_from_le_bytes(b.subrange(48, 56))
    &&& fs.f_fsid.val@[0] == spec_u32_from_le_bytes(b.subrange(56, 60)) as i32
    &&& fs.f_fsid.val@[1] == spec_u32_from_le_bytes(b.subrange(60, 64)) as i32
    &&& fs.f_namelen == spec_u64_from_le_bytes(b.subrange(64, 72))
    &&& fs.f_frsize == spec_u64_from_le_bytes(b.subrange(72, 80))
    &&& fs.f_flags == spec_u64_from_le_bytes(b.subrange(80, 88))
    &&& forall|i: int|
        0 <= i < 4 ==> fs.f_spare@[i] == spec_u64_from_le_bytes(b.subrange(88 + 8 * i, 96 + 8 * i))
}

/// The display of a statfs buffer.
pub open spec fn spec_fsinfo_repr(fs: FileSystemInfo) -> Seq<char> {
    "FileSystemInfo { f_type: "@ + spec_f_type_name(fs.f_type) + ", f_bsize: "@ + hex_digits(
        fs.f_bsize as nat,
    ) + ", f_blocks: "@ + hex_digits(fs.f_blocks as nat) + ", f_bfree: "@ + hex_digits(
        fs.f_bfree as nat,
    ) + ", f_bavail: "@ + hex_digits(fs.f_bavail as nat) + ", f_files: "@ + hex_digits(
        fs.f_files as nat,
    ) + ", f_ffree: "@ + hex_digits(fs.f_ffree as nat) + ", f_fsid: "@ + spec_fsid_repr(
        fs.f_fsid.val@[0],
        fs.f_fsid.val@[1],
    ) + ", f_namelen: "@ + dec_digits(fs.f_namelen as nat) + ", f_frsize: "@ + dec_digits(
        fs.f_frsize as nat,
    ) + ", f_flags: "@ + spec_join_sep(spec_f_flag_names(fs.f_flags), "|"@) + ", f_spare: ["@
        + dec_digits(fs.f_spare@[0] as nat) + ", "@ + dec_digits(fs.f_spare@[1] as nat) + ", "@
        + dec_digits(fs.f_spare@[2] as nat) + ", "@ + dec_digits(fs.f_spare@[3] as nat) + "] }"@
}

impl FileSystemInfo {
    /// Decodes the buffer from its first 120 bytes, field by field.
    pub fn from_bytes(b: &[u8]) -> (r: Self)
        requires
            b@.len() >= 120,
        ensures
            fsinfo_matches(r, b@.subrange(0, 120)),
    {
        let ghost pre = b@.subrange(0, 120);
        proof {
            assert forall|k1: int, k2: int| 0 <= k1 <= k2 <= 120 implies pre.subrange(k1, k2) =~= b@
                .subrange(k1, k2) by {}
        }
        let mut f_spare: [u64; 4] = [0; 4];
        f_spare[0] = read_u64_at(b, 88);
        f_spare[1] = read_u64_at(b, 96);
        f_spare[2] = read_u64_at(b, 104);
        f_spare[3] = read_u64_at(b, 112);
        let r = FileSystemInfo {
            f_type: read_u64_at(b, 0),
            f_bsize: read_u64_at(b, 8),
            f_blocks: read_u64_at(b, 16),
            f_bfree: read_u64_at(b, 24),
            f_bavail: read_u64_at(b, 32),
            f_files: read_u64_at(b, 40),
            f_ffree: read_u64_at(b, 48),
            f_fsid: KernelFsid {
                val: [read_u32_at(b, 56) as i32, read_u32_at(b, 60) as i32],
            },
            f_namelen: read_u64_at(b, 64),
            f_frsize: read_u64_at(b, 72),
            f_flags: read_u64_at(b, 80),
            f_spare,
        };
        r
    }

    /// Renders the buffer as text.
    pub fn render(&self) -> (r: String)
        ensures
            r@ == spec_fsinfo_repr(*self),
    {
        let mut s = String::from_str("FileSystemInfo { f_type: ");
        let part = f_type_name(self.f_type);
        s.append(part.as_str());
        s.append(", f_bsize: ");
        let part = crate::fmt::fmt_hex_digits(self.f_bsize);
        s.append(part.as_str());
        s.append(", f_blocks: ");
        let part = crate::fmt::fmt_hex_digits(self.f_blocks);
        s.append(part.as_str());
        s.append(", f_bfree: ");
        let part = crate::fmt::fmt_hex_digits(self.f_bfree);
        s.append(part.as_str());
        s.append(", f_bavail: ");
        let part = crate::fmt::fmt_hex_digits(self.f_bavail);
        s.append(part.as_str());
        s.append(", f_files: ");
        let part = crate::fmt::fmt_hex_digits(self.f_files);
        s.append(part.as_str());
        s.append(", f_ffree: ");
        let part = crate::fmt::fmt_hex_digits(self.f_ffree);
        s.append(part.as_str());
        s.append(", f_fsid: ");
        let part = self.f_fsid.render();
        s.append(part.as_str());
        s.append(", f_namelen: ");
        let part = fmt_dec_u64(self.f_namelen);
        s.append(part.as_str());
        s.append(", f_frsize: ");
        let part = fmt_dec_u64(self.f_frsize);
        s.append(part.as_str());
        s.append(", f_flags: ");
        let part = f_flags_name(self.f_flags);
        s.append(part.as_str());
        s.append(", f_spare: [");
        let part = fmt_dec_u64(self.f_spare[0]);
        s.append(part.as_str());
        s.append(", ");
        let part = fmt_dec_u64(self.f_spare[1]);
        s.append(part.as_str());
        s.append(", ");
        let part = fmt_dec_u64(self.f_spare[2]);
        s.append(part.as_str());
        s.append(", ");
        let part = fmt_dec_u64(self.f_spare[3]);
        s.append(part.as_str());
        s.append("] }");
        s
    }
}

/// The statfs buffer encoded at the front of `b`, as a value.
pub open spec fn spec_fsinfo_of(b: Seq<u8>) -> FileSystemInfo {
    FileSystemInfo {
        f_type: spec_u64_from_le_bytes(b.subrange(0, 8)),
        f_bsize: spec_u64_from_le_bytes(b.subrange(8, 16)),
        f_blocks: spec_u64_from_le_bytes(b.subrange(16, 24)),
        f_bfree: spec_u64_from_le_bytes(b.subrange(24, 32)),
        f_bavail: spec_u64_from_le_bytes(b.subrange(32, 40)),
        f_files: spec_u64_from_le_bytes(b.subrange(40, 48)),
        f_ffree: spec_u64_from_le_bytes(b.subrange(48, 56)),
        f_fsid: KernelFsid {
            val: vstd::array::spec_array_update(
                vstd::array::spec_array_update(
                    vstd::array::spec_array_fill_for_copy_type::<i32, 2>(0i32),
                    0,
                    spec_u32_from_le_bytes(b.subrange(56, 60)) as i32,
                ),
                1,
                spec_u32_from_le_bytes(b.subrange(60, 64)) as i32,
            ),
        },
        f_namelen: spec_u64_from_le_bytes(b.subrange(64, 72)),
        f_frsize: spec_u64_from_le_bytes(b.subrange(72, 80)),
        f_flags: spec_u64_from_le_bytes(b.subrange(80, 88)),
        f_spare: vstd::array::spec_array_update(
            vstd::array::spec_array_update(
                vstd::array::spec_array_update(
                    vstd::array::spec_array_update(
                        vstd::array::spec_array_fill_for_copy_type::<u64, 4>(0u64),
                        0,
                        spec_u64_from_le_bytes(b.subrange(88, 96)),
                    ),
                    1,
                    spec_u64_from_le_bytes(b.subrange(96, 104)),
                ),
                2,
                spec_u64_from_le_bytes(b.subrange(104, 112)),
            ),
            3,
            spec_u64_from_le_bytes(b.subrange(112, 120)),
        ),
    }
}

/// A buffer value matching the bytes is the value those bytes encode.
pub proof fn lemma_fsinfo_of(fs: FileSystemInfo, b: Seq<u8>)
    requires
        fsinfo_matches(fs, b),
    ensures
        fs == spec_fsinfo_of(b),
{
    broadcast use vstd::array::group_array_axioms;

    let m = spec_fsinfo_of(b);
    assert(fs.f_spare@ =~= m.f_spare@);
    assert(fs.f_spare == m.f_spare);
    assert(fs.f_fsid.val@ =~= m.f_fsid.val@);
    assert(fs.f_fsid.val == m.f_fsid.val);
}

} // verus!
