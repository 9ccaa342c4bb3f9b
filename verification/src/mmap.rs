//! Names for memory-protection and mapping flags.

use vstd::prelude::*;
use vstd::string::StringExecFns;
use crate::fmt::{spec_join_sep, join_sep};
use crate::fs::{flag_seg, push_flag};

verus! {

/// Pages may be read.
pub const PROT_READ: u64 = 0x1;

/// Pages may be written.
pub const PROT_WRITE: u64 = 0x2;

/// Pages may be executed.
pub const PROT_EXEC: u64 = 0x4;

/// Share the mapping.
pub const MAP_SHARED: u64 = 0x01;

/// Changes are private to the process.
pub const MAP_PRIVATE: u64 = 0x02;

/// Place the mapping at exactly the given address.
pub const MAP_FIXED: u64 = 0x10;

/// The mapping is not backed by any file.
pub const MAP_ANONYMOUS: u64 = 0x20;

/// Do not permit writes through other mappings.
pub const MAP_DENYWRITE: u64 = 0x800;

/// Do not reserve swap space for the mapping.
pub const MAP_NORESERVE: u64 = 0x4000;

/// The mapping is suitable for a stack.
pub const MAP_STACK: u64 = 0x20000;

/// The display of a protection value: `PROT_NONE` when no bit is set,
/// else the set bits' names joined by `|`.
pub open spec fn spec_prot_name(prot: u64) -> Seq<char> {
    if prot & 0x7 == 0 {
        "PROT_NONE"@
    } else {
        spec_join_sep(
            flag_seg(prot & 0x1 != 0, "PROT_READ"@) + flag_seg(prot & 0x2 != 0, "PROT_WRITE"@)
                + flag_seg(prot & 0x4 != 0, "PROT_EXEC"@),
            "|"@,
        )
    }
}

/// The display of a protection value.
pub fn prot_name(prot: u64) -> (r: String)
    ensures
        r@ == spec_prot_name(prot),
{
    if prot & (PROT_READ | PROT_WRITE | PROT_EXEC) == 0 {
        proof {
            assert(prot & 0x7 == prot & (0x1u64 | 0x2 | 0x4)) by (bit_vector);
        }
        String::from_str("PROT_NONE")
    } else {
        proof {
            assert(prot & 0x7 == prot & (0x1u64 | 0x2 | 0x4)) by (bit_vector);
        }
        let mut names: Vec<String> = Vec::new();
        proof {
            assert(names@.map_values(|p: String| p@) =~= Seq::<Seq<char>>::empty());
            assert(Seq::<Seq<char>>::empty() + flag_seg(prot & 0x1 != 0, "PROT_READ"@) =~= flag_seg(
                prot & 0x1 != 0,
                "PROT_READ"@,
            ));
        }
        push_flag(&mut names, prot & PROT_READ != 0, "PROT_READ");
        push_flag(&mut names, prot & PROT_WRITE != 0, "PROT_WRITE");
        push_flag(&mut names, prot & PROT_EXEC != 0, "PROT_EXEC");
        let n = names.len();
        let r = join_sep(&names, n, "|");
        proof {
            assert(names@.take(n as int) =~= names@);
        }
        r
    }
}

/// The names of the set mapping flags, in display order.
pub open spec fn spec_map_names(flags: u64) -> Seq<Seq<char>> {
    flag_seg(flags & 0x01 != 0, "MAP_SHARED"@) + flag_seg(flags & 0x02 != 0, "MAP_PRIVATE"@)
        + flag_seg(flags & 0x10 != 0, "MAP_FIXED"@) + flag_seg(
        flags & 0x20 != 0,
        "MAP_ANONYMOUS"@,
    ) + flag_seg(flags & 0x800 != 0, "MAP_DENYWRITE"@) + flag_seg(
        flags & 0x4000 != 0,
        "MAP_NORESERVE"@,
    ) + flag_seg(flags & 0x20000 != 0, "MAP_STACK"@)
}

/// The display of a set of mapping flags, joined by `|`.
pub fn map_name(flags: u64) -> (r: String)
    ensures
        r@ == spec_join_sep(spec_map_names(flags), "|"@),
{
    let mut names: Vec<String> = Vec::new();
    proof {
        assert(names@.map_values(|p: String| p@) =~= Seq::<Seq<char>>::empty());
        assert(Seq::<Seq<char>>::empty() + flag_seg(flags & 0x01 != 0, "MAP_SHARED"@) =~= flag_seg(
            flags & 0x01 != 0,
            "MAP_SHARED"@,
        ));
    }
    push_flag(&mut names, flags & MAP_SHARED != 0, "MAP_SHARED");
    push_flag(&mut names, flags & MAP_PRIVATE != 0, "MAP_PRIVATE");
    push_flag(&mut names, flags & MAP_FIXED != 0, "MAP_FIXED");
    push_flag(&mut names, flags & MAP_ANONYMOUS != 0, "MAP_ANONYMOUS");
    push_flag(&mut names, flags & MAP_DENYWRITE != 0, "MAP_DENYWRITE");
    push_flag(&mut names, flags & MAP_NORESERVE != 0, "MAP_NORESERVE");
    push_flag(&mut names, flags & MAP_STACK != 0, "MAP_STACK");
    let n = names.len();
    let r = join_sep(&names, n, "|");
    proof {
        assert(names@.take(n as int) =~= names@);
    }
    r
}

} // verus!
