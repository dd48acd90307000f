//! Element types and their widths.
use vstd::prelude::*;

verus! {

/// The element types a tensor can hold, declared in increasing alignment.
#[allow(non_camel_case_types)]
#[derive(Clone, Copy, Debug, PartialEq, Eq, Structural, PartialOrd, Ord, Hash)]
pub enum Dtype {
    /// Boolean
    BOOL,
    /// 4-bit float (MXF4)
    F4,
    /// 6-bit float (MXF6, E2M3)
    F6_E2M3,
    /// 6-bit float (MXF6, E3M2)
    F6_E3M2,
    /// Unsigned byte
    U8,
    /// Signed byte
    I8,
    /// 8-bit float (E5M2)
    F8_E5M2,
    /// 8-bit float (E4M3)
    F8_E4M3,
    /// 8-bit scale (E8M0)
    F8_E8M0,
    /// Signed 16-bit integer
    I16,
    /// Unsigned 16-bit integer
    U16,
    /// Half-precision float
    F16,
    /// Brain float
    BF16,
    /// Signed 32-bit integer
    I32,
    /// Unsigned 32-bit integer
    U32,
    /// 32-bit float
    F32,
    /// Complex number with two 32-bit parts
    C64,
    /// 64-bit float
    F64,
    /// Signed 64-bit integer
    I64,
    /// Unsigned 64-bit integer
    U64,
}

/// Width of one element, in bits.
pub open spec fn bits_of(d: Dtype) -> nat {
    match d {
        Dtype::F4 => 4,
        Dtype::F6_E2M3 | Dtype::F6_E3M2 => 6,
        Dtype::BOOL | Dtype::U8 | Dtype::I8 | Dtype::F8_E5M2 | Dtype::F8_E4M3
        | Dtype::F8_E8M0 => 8,
        Dtype::I16 | Dtype::U16 | Dtype::F16 | Dtype::BF16 => 16,
        Dtype::I32 | Dtype::U32 | Dtype::F32 => 32,
        Dtype::C64 | Dtype::F64 | Dtype::I64 | Dtype::U64 => 64,
    }
}

/// Position of a dtype in the declared order, which ascends by alignment.
pub open spec fn rank_of(d: Dtype) -> nat {
    match d {
        Dtype::BOOL => 0,
        Dtype::F4 => 1,
        Dtype::F6_E2M3 => 2,
        Dtype::F6_E3M2 => 3,
        Dtype::U8 => 4,
        Dtype::I8 => 5,
        Dtype::F8_E5M2 => 6,
        Dtype::F8_E4M3 => 7,
        Dtype::F8_E8M0 => 8,
        Dtype::I16 => 9,
        Dtype::U16 => 10,
        Dtype::F16 => 11,
        Dtype::BF16 => 12,
        Dtype::I32 => 13,
        Dtype::U32 => 14,
        Dtype::F32 => 15,
        Dtype::C64 => 16,
        Dtype::F64 => 17,
        Dtype::I64 => 18,
        Dtype::U64 => 19,
    }
}

/// The tag that names a dtype in a header.
pub open spec fn tag_of(d: Dtype) -> Seq<char> {
    match d {
        Dtype::BOOL => seq!['B', 'O', 'O', 'L'],
        Dtype::F4 => seq!['F', '4'],
        Dtype::F6_E2M3 => seq!['F', '6', '_', 'E', '2', 'M', '3'],
        Dtype::F6_E3M2 => seq!['F', '6', '_', 'E', '3', 'M', '2'],
        Dtype::U8 => seq!['U', '8'],
        Dtype::I8 => seq!['I', '8'],
        Dtype::F8_E5M2 => seq!['F', '8', '_', 'E', '5', 'M', '2'],
        Dtype::F8_E4M3 => seq!['F', '8', '_', 'E', '4', 'M', '3'],
        Dtype::F8_E8M0 => seq!['F', '8', '_', 'E', '8', 'M', '0'],
        Dtype::I16 => seq!['I', '1', '6'],
        Dtype::U16 => seq!['U', '1', '6'],
        Dtype::F16 => seq!['F', '1', '6'],
        Dtype::BF16 => seq!['B', 'F', '1', '6'],
        Dtype::I32 => seq!['I', '3', '2'],
        Dtype::U32 => seq!['U', '3', '2'],
        Dtype::F32 => seq!['F', '3', '2'],
        Dtype::C64 => seq!['C', '6', '4'],
        Dtype::F64 => seq!['F', '6', '4'],
        Dtype::I64 => seq!['I', '6', '4'],
        Dtype::U64 => seq!['U', '6', '4'],
    }
}

/// The dtype whose tag is `t`, if any.
pub open spec fn dtype_named(t: Seq<char>) -> Option<Dtype> {
    if t == tag_of(Dtype::BOOL) {
        Some(Dtype::BOOL)
    } else if t == tag_of(Dtype::F4) {
        Some(Dtype::F4)
    } else if t == tag_of(Dtype::F6_E2M3) {
        Some(Dtype::F6_E2M3)
    } else if t == tag_of(Dtype::F6_E3M2) {
        Some(Dtype::F6_E3M2)
    } else if t == tag_of(Dtype::U8) {
        Some(Dtype::U8)
    } else if t == tag_of(Dtype::I8) {
        Some(Dtype::I8)
    } else if t == tag_of(Dtype::F8_E5M2) {
        Some(Dtype::F8_E5M2)
    } else if t == tag_of(Dtype::F8_E4M3) {
        Some(Dtype::F8_E4M3)
    } else if t == tag_of(Dtype::F8_E8M0) {
        Some(Dtype::F8_E8M0)
    } else if t == tag_of(Dtype::I16) {
        Some(Dtype::I16)
    } else if t == tag_of(Dtype::U16) {
        Some(Dtype::U16)
    } else if t == tag_of(Dtype::F16) {
        Some(Dtype::F16)
    } else if t == tag_of(Dtype::BF16) {
        Some(Dtype::BF16)
    } else if t == tag_of(Dtype::I32) {
        Some(Dtype::I32)
    } else if t == tag_of(Dtype::U32) {
        Some(Dtype::U32)
    } else if t == tag_of(Dtype::F32) {
        Some(Dtype::F32)
    } else if t == tag_of(Dtype::C64) {
        Some(Dtype::C64)
    } else if t == tag_of(Dtype::F64) {
        Some(Dtype::F64)
    } else if t == tag_of(Dtype::I64) {
        Some(Dtype::I64)
    } else if t == tag_of(Dtype::U64) {
        Some(Dtype::U64)
    } else {
        None
    }
}

/// Whether `t` is the tag of some dtype.
pub open spec fn is_tag(t: Seq<char>) -> bool {
    exists|d: Dtype| tag_of(d) == t
}

impl Dtype {
    /// Width of one element, in bits.
    pub fn bitsize(&self) -> (r: usize)
        ensures
            r == bits_of(*self),
            r > 0,
    {
        match self {
            Dtype::F4 => 4,
            Dtype::F6_E3M2 => 6,
            Dtype::F6_E2M3 => 6,
            Dtype::BOOL => 8,
            Dtype::U8 => 8,
            Dtype::I8 => 8,
            Dtype::F8_E5M2 => 8,
            Dtype::F8_E4M3 => 8,
            Dtype::F8_E8M0 => 8,
            Dtype::I16 => 16,
            Dtype::U16 => 16,
            Dtype::I32 => 32,
            Dtype::U32 => 32,
            Dtype::I64 => 64,
            Dtype::U64 => 64,
            Dtype::F16 => 16,
            Dtype::BF16 => 16,
            Dtype::F32 => 32,
            Dtype::F64 => 64,
            Dtype::C64 => 64,
        }
    }

    /// Position of this dtype in the declared order, which ascends by
    /// alignment.
    pub fn rank(&self) -> (r: usize)
        ensures
            r == rank_of(*self),
    {
        match self {
            Dtype::BOOL => 0,
            Dtype::F4 => 1,
            Dtype::F6_E2M3 => 2,
            Dtype::F6_E3M2 => 3,
            Dtype::U8 => 4,
            Dtype::I8 => 5,
            Dtype::F8_E5M2 => 6,
            Dtype::F8_E4M3 => 7,
            Dtype::F8_E8M0 => 8,
            Dtype::I16 => 9,
            Dtype::U16 => 10,
            Dtype::F16 => 11,
            Dtype::BF16 => 12,
            Dtype::I32 => 13,
            Dtype::U32 => 14,
            Dtype::F32 => 15,
            Dtype::C64 => 16,
            Dtype::F64 => 17,
            Dtype::I64 => 18,
            Dtype::U64 => 19,
        }
    }

    /// Width of one element in whole bytes (rounded down: zero for the
    /// sub-byte types).
    pub fn size(&self) -> (r: usize)
        ensures
            r == bits_of(*self) / 8,
    {
        self.bitsize() / 8
    }

    /// The tag that names this dtype in a header.
    pub fn name(&self) -> (r: &'static str)
        ensures
            r@ == tag_of(*self),
    {
        match self {
            Dtype::BOOL => { proof { reveal_strlit("BOOL"); } "BOOL" },
            Dtype::F4 => { proof { reveal_strlit("F4"); } "F4" },
            Dtype::F6_E2M3 => { proof { reveal_strlit("F6_E2M3"); } "F6_E2M3" },
            Dtype::F6_E3M2 => { proof { reveal_strlit("F6_E3M2"); } "F6_E3M2" },
            Dtype::U8 => { proof { reveal_strlit("U8"); } "U8" },
            Dtype::I8 => { proof { reveal_strlit("I8"); } "I8" },
            Dtype::F8_E5M2 => { proof { reveal_strlit("F8_E5M2"); } "F8_E5M2" },
            Dtype::F8_E4M3 => { proof { reveal_strlit("F8_E4M3"); } "F8_E4M3" },
            Dtype::F8_E8M0 => { proof { reveal_strlit("F8_E8M0"); } "F8_E8M0" },
            Dtype::I16 => { proof { reveal_strlit("I16"); } "I16" },
            Dtype::U16 => { proof { reveal_strlit("U16"); } "U16" },
            Dtype::F16 => { proof { reveal_strlit("F16"); } "F16" },
            Dtype::BF16 => { proof { reveal_strlit("BF16"); } "BF16" },
            Dtype::I32 => { proof { reveal_strlit("I32"); } "I32" },
            Dtype::U32 => { proof { reveal_strlit("U32"); } "U32" },
            Dtype::F32 => { proof { reveal_strlit("F32"); } "F32" },
            Dtype::C64 => { proof { reveal_strlit("C64"); } "C64" },
            Dtype::F64 => { proof { reveal_strlit("F64"); } "F64" },
            Dtype::I64 => { proof { reveal_strlit("I64"); } "I64" },
            Dtype::U64 => { proof { reveal_strlit("U64"); } "U64" },
        }
    }

    /// The dtype whose tag is `s`, if any.
    pub fn from_name(s: &str) -> (r: Option<Dtype>)
        ensures
            r == dtype_named(s@),
            r is Some <==> is_tag(s@),
            r matches Some(d) ==> tag_of(d) == s@,
    {
        if same_text(Dtype::BOOL.name(), s) {
            return Some(Dtype::BOOL);
        }
        if same_text(Dtype::F4.name(), s) {
            return Some(Dtype::F4);
        }
        if same_text(Dtype::F6_E2M3.name(), s) {
            return Some(Dtype::F6_E2M3);
        }
        if same_text(Dtype::F6_E3M2.name(), s) {
            return Some(Dtype::F6_E3M2);
        }
        if same_text(Dtype::U8.name(), s) {
            return Some(Dtype::U8);
        }
        if same_text(Dtype::I8.name(), s) {
            return Some(Dtype::I8);
        }
        if same_text(Dtype::F8_E5M2.name(), s) {
            return Some(Dtype::F8_E5M2);
        }
        if same_text(Dtype::F8_E4M3.name(), s) {
            return Some(Dtype::F8_E4M3);
        }
        if same_text(Dtype::F8_E8M0.name(), s) {
            return Some(Dtype::F8_E8M0);
        }
        if same_text(Dtype::I16.name(), s) {
            return Some(Dtype::I16);
        }
        if same_text(Dtype::U16.name(), s) {
            return Some(Dtype::U16);
        }
        if same_text(Dtype::F16.name(), s) {
            return Some(Dtype::F16);
        }
        if same_text(Dtype::BF16.name(), s) {
            return Some(Dtype::BF16);
        }
        if same_text(Dtype::I32.name(), s) {
            return Some(Dtype::I32);
        }
        if same_text(Dtype::U32.name(), s) {
            return Some(Dtype::U32);
        }
        if same_text(Dtype::F32.name(), s) {
            return Some(Dtype::F32);
        }
        if same_text(Dtype::C64.name(), s) {
            return Some(Dtype::C64);
        }
        if same_text(Dtype::F64.name(), s) {
            return Some(Dtype::F64);
        }
        if same_text(Dtype::I64.name(), s) {
            return Some(Dtype::I64);
        }
        if same_text(Dtype::U64.name(), s) {
            return Some(Dtype::U64);
        }
        None
    }
}

/// Whether two strings hold the same characters.
pub fn same_text(a: &str, b: &str) -> (r: bool)
    ensures
        r == (a@ == b@),
{
    let n = a.unicode_len();
    if n != b.unicode_len() {
        return false;
    }
    let mut i: usize = 0;
    while i < n
        invariant
            n == a@.len(),
            n == b@.len(),
            0 <= i <= n,
            forall|j: int| 0 <= j < i ==> a@[j] == b@[j],
        decreases n - i,
    {
        if a.get_char(i) != b.get_char(i) {
            return false;
        }
        i += 1;
    }
    assert(a@ =~= b@);
    true
}

} // verus!
