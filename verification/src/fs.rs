//! What the kernel keeps of open files.
//!
//! The files themselves live outside the kernel core. A task holds handles:
//! the number under which the file layer knows an open file, and what the
//! task may do with it.

use vstd::prelude::*;

verus! {

/// A task's handle of an open file.
#[derive(Clone, Copy, Debug, PartialEq, Eq, Structural)]
pub struct FileHandle {
    /// The number under which the file layer knows the open file.
    pub id: usize,
    /// The task may read the file.
    pub readable: bool,
    /// The task may write the file.
    pub writable: bool,
}

/// The flags of a call to open a file.
#[derive(Clone, Copy, Debug, PartialEq, Eq, Structural)]
pub struct OpenFlags {
    bits: u32,
}

/// Open for reading only: no flag is set.
pub const RDONLY: u32 = 0;

/// Open for writing only.
pub const WRONLY: u32 = 1;

/// Open for reading and writing.
pub const RDWR: u32 = 2;

/// Create the file where it does not exist.
pub const CREATE: u32 = 512;

/// Cut the file to no bytes.
pub const TRUNC: u32 = 1024;

/// The bit of value `flag`, a power of two, is set in `bits`.
pub open spec fn has_bit(bits: u32, flag: u32) -> bool {
    (bits / flag) % 2 == 1
}

/// The bits are made of the known flags alone.
pub open spec fn known_bits(bits: u32) -> bool {
    bits < 2048 && (bits / 4) % 128 == 0
}

impl OpenFlags {
    /// The flags as a number.
    pub closed spec fn spec_bits(self) -> u32 {
        self.bits
    }

    /// The flags as a number.
    #[verifier::when_used_as_spec(spec_bits)]
    pub fn bits(self) -> (bits: u32)
        ensures
            bits == self.spec_bits(),
    {
        self.bits
    }

    /// The flags that the number `bits` stands for; `None` where a bit is
    /// set that no flag has.
    pub fn from_bits(bits: u32) -> (flags: Option<Self>)
        ensures
            match flags {
                Some(f) => known_bits(bits) && f.spec_bits() == bits,
                None => !known_bits(bits),
            },
    {
        if bits < 2048 && (bits / 4) % 128 == 0 {
            Some(Self { bits })
        } else {
            None
        }
    }

    /// No flag is set: open for reading only.
    pub open spec fn spec_is_empty(self) -> bool {
        self.spec_bits() == 0
    }

    /// No flag is set: open for reading only.
    #[verifier::when_used_as_spec(spec_is_empty)]
    pub fn is_empty(self) -> (yes: bool)
        ensures
            yes == self.spec_is_empty(),
    {
        self.bits == 0
    }

    /// The flag of value `flag`, a power of two, is set.
    pub open spec fn spec_contains(self, flag: u32) -> bool {
        has_bit(self.spec_bits(), flag)
    }

    /// The flag of value `flag`, a power of two, is set.
    #[verifier::when_used_as_spec(spec_contains)]
    pub fn contains(self, flag: u32) -> (yes: bool)
        requires
            flag > 0,
        ensures
            yes == self.spec_contains(flag),
    {
        (self.bits / flag) % 2 == 1
    }

    /// Whether the file is opened for reading, and whether for writing:
    /// reading alone without flags, writing alone with `WRONLY`, both
    /// otherwise.
    pub open spec fn spec_read_write(self) -> (bool, bool) {
        if self.spec_is_empty() {
            (true, false)
        } else if self.spec_contains(WRONLY) {
            (false, true)
        } else {
            (true, true)
        }
    }

    /// Whether the file is opened for reading, and whether for writing.
    #[verifier::when_used_as_spec(spec_read_write)]
    pub fn read_write(self) -> (access: (bool, bool))
        ensures
            access == self.spec_read_write(),
    {
        if self.is_empty() {
            (true, false)
        } else if self.contains(WRONLY) {
            (false, true)
        } else {
            (true, true)
        }
    }
}

} // verus!
