//! Readers of the kernel interfaces that the monitor samples.
pub mod fdinfo;
pub mod pmu;
pub mod rapl;
pub mod sysfs;

use vstd::prelude::*;

use crate::text::{int_parse, unsigned_digits, parse_checked, trim, trim_range, IntErrorKind};

verus! {

/// An unsigned integer type that sysfs values are read as.
pub trait SysfsNumber: Sized {
    /// The largest value of the type.
    spec fn max_value() -> nat;

    /// The value as a mathematical integer.
    spec fn value_of(self) -> nat;

    fn max_as_u64() -> (r: u64)
        ensures
            r as nat == Self::max_value(),
    ;

    fn from_u64(v: u64) -> (r: Self)
        requires
            v as nat <= Self::max_value(),
        ensures
            r.value_of() == v as nat,
    ;
}

impl SysfsNumber for u32 {
    open spec fn max_value() -> nat {
        u32::MAX as nat
    }

    open spec fn value_of(self) -> nat {
        self as nat
    }

    fn max_as_u64() -> (r: u64) {
        0xFFFF_FFFF
    }

    fn from_u64(v: u64) -> (r: u32) {
        v as u32
    }
}

impl SysfsNumber for u64 {
    open spec fn max_value() -> nat {
        u64::MAX as nat
    }

    open spec fn value_of(self) -> nat {
        self as nat
    }

    fn max_as_u64() -> (r: u64) {
        u64::MAX
    }

    fn from_u64(v: u64) -> (r: u64) {
        v
    }
}

/// The number held by the content of a sysfs file: the content trimmed of
/// whitespace and parsed as `T` (an optional `+` and decimal digits), or
/// the kind of error that `str::parse` gives.
pub fn read_sysfs_value<T: SysfsNumber>(content: &[u8]) -> (r: Result<T, IntErrorKind>)
    ensures
        match r {
            Ok(v) => int_parse(trim(content@), T::max_value()) == Ok::<nat, IntErrorKind>(
                v.value_of(),
            ),
            Err(e) => int_parse(trim(content@), T::max_value()) == Err::<nat, IntErrorKind>(e),
        },
{
    let n = content.len();
    proof {
        assert(content@.subrange(0, n as int) =~= content@);
    }
    let (a, b) = trim_range(content, 0, n);
    match parse_checked(content, a, b, T::max_as_u64()) {
        Ok(v) => {
            proof {
                let d = unsigned_digits(content@.subrange(a as int, b as int));
                assert(d.take(d.len() as int) =~= d);
            }
            Ok(T::from_u64(v))
        },
        Err(e) => Err(e),
    }
}

} // verus!
