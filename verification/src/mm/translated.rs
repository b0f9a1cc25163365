//! Access to the memory of a task through its address space.
//!
//! The kernel never follows a pointer that a task handed in. It translates
//! every byte through the task's page table, asks for the permission that
//! the access needs, and touches the frame only where the whole range
//! passed.

use vstd::prelude::*;
use crate::config::{PAGE_SIZE, VPN_COUNT};
use crate::mm::address::{lemma_high_pages, PhysAddr, VirtAddr};
use crate::mm::memory_set::MemorySet;
use crate::mm::page_table::MapPermission;

verus! {

/// Page number of the virtual address `va`.
pub open spec fn vpn_of(va: int) -> usize {
    ((va / PAGE_SIZE as int) % VPN_COUNT as int) as usize
}

/// Offset of the virtual address `va` in its page.
pub open spec fn offset_of(va: int) -> int {
    va % PAGE_SIZE as int
}

/// What a task needs to read its memory.
pub open spec fn spec_user_read() -> MapPermission {
    MapPermission { r: true, w: false, x: false, u: true }
}

/// What a task needs to read its memory.
#[verifier::when_used_as_spec(spec_user_read)]
pub fn user_read() -> (perm: MapPermission)
    ensures
        perm == spec_user_read(),
{
    MapPermission { r: true, w: false, x: false, u: true }
}

/// What a task needs to write its memory.
pub open spec fn spec_user_write() -> MapPermission {
    MapPermission { r: false, w: true, x: false, u: true }
}

/// What a task needs to write its memory.
#[verifier::when_used_as_spec(spec_user_write)]
pub fn user_write() -> (perm: MapPermission)
    ensures
        perm == spec_user_write(),
{
    MapPermission { r: false, w: true, x: false, u: true }
}

/// One of the first `len` bytes from `va` on lies at `offset` in the page `vpn`.
pub open spec fn touched(va: usize, len: int, vpn: usize, offset: int) -> bool {
    exists|k: int| 0 <= k < len && #[trigger] vpn_of(va + k) == vpn && offset_of(va + k) == offset
}

/// Two bytes of a range shorter than the address space lie at different
/// places.
pub proof fn lemma_distinct_places(va: usize, j: int, k: int)
    requires
        0 <= j < k,
        k / (PAGE_SIZE as int) < VPN_COUNT,
    ensures
        vpn_of(va + j) != vpn_of(va + k) || offset_of(va + j) != offset_of(va + k),
{
    let a = va + j;
    let b = va + k;
    if offset_of(a) == offset_of(b) {
        let pa = a / 4096;
        let pb = b / 4096;
        assert(a == pa * 4096 + a % 4096);
        assert(b == pb * 4096 + b % 4096);
        assert(b - a == (pb - pa) * 4096);
        assert(0 < pb - pa);
        assert((k - j) / 4096 == pb - pa);
        assert(pb - pa < 0x800_0000);
        if pa % 0x800_0000 == pb % 0x800_0000 {
            assert(pa == (pa / 0x800_0000) * 0x800_0000 + pa % 0x800_0000);
            assert(pb == (pb / 0x800_0000) * 0x800_0000 + pb % 0x800_0000);
            assert(pb - pa == (pb / 0x800_0000 - pa / 0x800_0000) * 0x800_0000);
        }
    }
}

/// A run of bytes in one frame.
#[derive(Clone, Copy, Debug, PartialEq, Eq, Structural)]
pub struct PhysRun {
    /// Physical address of the first byte.
    pub start: PhysAddr,
    /// Number of bytes.
    pub len: usize,
}

/// The physical addresses of the bytes of the runs, run after run.
pub open spec fn run_addresses(runs: Seq<PhysRun>) -> Seq<int>
    decreases runs.len(),
{
    if runs.len() == 0 {
        Seq::empty()
    } else {
        run_addresses(runs.drop_last()) + Seq::new(
            runs.last().len as nat,
            |i: int| runs.last().start.0 + i,
        )
    }
}

/// The low `width` bytes of `value`, the lowest first.
pub open spec fn le_bytes(value: nat, width: nat) -> Seq<u8>
    decreases width,
{
    if width == 0 {
        Seq::empty()
    } else {
        seq![(value % 256) as u8] + le_bytes(value / 256, (width - 1) as nat)
    }
}

/// The low `width` bytes of `value`, the lowest first.
pub fn to_le_bytes(value: u64, width: usize) -> (bytes: Vec<u8>)
    ensures
        bytes@ == le_bytes(value as nat, width as nat),
        bytes@.len() == width,
{
    let mut out: Vec<u8> = Vec::new();
    let mut rest = value;
    let mut i: usize = 0;
    while i < width
        invariant
            i <= width,
            out@.len() == i,
            out@ + le_bytes(rest as nat, (width - i) as nat) == le_bytes(value as nat, width as nat),
        decreases width - i,
    {
        let ghost before = out@;
        out.push((rest % 256) as u8);
        proof {
            let tail = le_bytes((rest / 256) as nat, (width - i - 1) as nat);
            assert(le_bytes(rest as nat, (width - i) as nat) == seq![(rest % 256) as u8] + tail);
            assert(out@ + tail =~= before + (seq![(rest % 256) as u8] + tail));
        }
        rest = rest / 256;
        i += 1;
    }
    proof {
        assert(out@ + le_bytes(rest as nat, 0) =~= out@);
    }
    out
}

/// The 32 bits of `value` in two's complement.
pub open spec fn spec_i32_bits(value: i32) -> u32 {
    if value >= 0 {
        value as u32
    } else {
        (value + 0x1_0000_0000) as u32
    }
}

/// The 32 bits of `value` in two's complement.
#[verifier::when_used_as_spec(spec_i32_bits)]
pub fn i32_bits(value: i32) -> (bits: u32)
    ensures
        bits == spec_i32_bits(value),
{
    if value >= 0 {
        value as u32
    } else {
        (value as i64 + 0x1_0000_0000) as u32
    }
}

impl MemorySet {
    /// The page `vpn` is mapped and may be used as `need` asks.
    pub open spec fn allows(&self, vpn: usize, need: MapPermission) -> bool {
        self.mapping().contains_key(vpn) && self.mapping()[vpn].perm.allows(need)
    }

    /// The byte at the virtual address `va`.
    pub open spec fn byte_at(&self, va: int) -> u8 {
        self.page_data(vpn_of(va))[offset_of(va)]
    }

    /// The `len` bytes from `va` on.
    pub open spec fn bytes_at(&self, va: usize, len: int) -> Seq<u8> {
        Seq::new(len as nat, |k: int| self.byte_at(va + k))
    }

    /// The `len` bytes from `va` on lie below the end of the addresses, are
    /// fewer than the address space holds, and each lies in a page that may
    /// be used as `need` asks.
    pub open spec fn accessible(&self, va: usize, len: usize, need: MapPermission) -> bool {
        &&& va + len <= usize::MAX
        &&& len / PAGE_SIZE < VPN_COUNT
        &&& forall|k: int| 0 <= k < len ==> self.allows(#[trigger] vpn_of(va + k), need)
    }

    /// The physical address behind `va`, where its page may be used as
    /// `need` asks.
    pub open spec fn spec_translate_va(&self, va: VirtAddr, need: MapPermission) -> Option<PhysAddr> {
        if self.allows(va.spec_floor().0, need) {
            Some(self.mapping()[va.spec_floor().0].ppn.spec_at(va.spec_page_offset()))
        } else {
            None
        }
    }

    /// A page that a task may use lies in an area.
    pub proof fn lemma_user_page(&self, vpn: usize, need: MapPermission)
        requires
            self.wf(),
            need.u,
            self.allows(vpn, need),
        ensures
            self.covered(vpn),
            self.page_data(vpn).len() == PAGE_SIZE,
    {
        self.lemma_mapping(vpn);
        lemma_high_pages();
    }

    /// Walks the page table for `va`: the physical address behind it, or
    /// `None` where the page is unmapped or may not be used as `need` asks.
    pub fn translate_va(&self, va: VirtAddr, need: MapPermission) -> (pa: Option<PhysAddr>)
        requires
            self.wf(),
        ensures
            pa == self.spec_translate_va(va, need),
    {
        let vpn = va.floor();
        match self.translate(vpn) {
            Some(entry) => {
                if entry.perm.allows(need) {
                    proof {
                        self.lemma_mapping(vpn.0);
                    }
                    Some(entry.ppn.at(va.page_offset()))
                } else {
                    None
                }
            },
            None => None,
        }
    }

    /// Tells whether the `len` bytes from `va` on may be used as `need` asks.
    pub fn can_access(&self, va: usize, len: usize, need: MapPermission) -> (yes: bool)
        requires
            self.wf(),
        ensures
            yes == self.accessible(va, len, need),
    {
        if len > usize::MAX - va || len / PAGE_SIZE >= VPN_COUNT {
            return false;
        }
        let end = va + len;
        let mut at = va;
        while at < end
            invariant
                self.wf(),
                va <= at <= end,
                end == va + len,
                forall|k: int| 0 <= k < at - va ==> self.allows(#[trigger] vpn_of(va + k), need),
            decreases end - at,
        {
            let vpn = VirtAddr(at).floor();
            let allowed = match self.translate(vpn) {
                Some(entry) => entry.perm.allows(need),
                None => false,
            };
            if !allowed {
                proof {
                    assert(vpn_of(va + (at - va)) == vpn.0);
                }
                return false;
            }
            let room = PAGE_SIZE - at % PAGE_SIZE;
            let next = if end - at <= room {
                end
            } else {
                at + room
            };
            proof {
                assert forall|k: int| 0 <= k < next - va implies self.allows(
                    #[trigger] vpn_of(va + k),
                    need,
                ) by {
                    if k >= at - va {
                        assert((va + k) / 4096 == at as int / 4096);
                    }
                }
            }
            at = next;
        }
        true
    }

    /// Copies the `len` bytes from `va` on out of the task's memory. `None`
    /// where the task may not read all of them.
    pub fn read_bytes(&self, va: usize, len: usize) -> (bytes: Option<Vec<u8>>)
        requires
            self.wf(),
        ensures
            match bytes {
                Some(b) => self.accessible(va, len, spec_user_read()) && b@ == self.bytes_at(
                    va,
                    len as int,
                ),
                None => !self.accessible(va, len, spec_user_read()),
            },
    {
        if !self.can_access(va, len, user_read()) {
            return None;
        }
        let mut out: Vec<u8> = Vec::new();
        let mut k: usize = 0;
        while k < len
            invariant
                self.wf(),
                self.accessible(va, len, spec_user_read()),
                k <= len,
                out@ == self.bytes_at(va, k as int),
            decreases len - k,
        {
            let at = VirtAddr(va + k);
            proof {
                assert(self.allows(vpn_of(va + k), spec_user_read()));
                self.lemma_user_page(vpn_of(va + k), spec_user_read());
            }
            let byte = self.read_byte(at.floor(), at.page_offset());
            out.push(byte);
            assert(out@ =~= self.bytes_at(va, k + 1));
            k += 1;
        }
        Some(out)
    }

    /// The bytes from `va` on are a string of `n` bytes that the task may
    /// read, with a zero byte behind it.
    pub open spec fn str_ends(&self, va: usize, n: int) -> bool {
        &&& 0 <= n
        &&& va + n <= usize::MAX
        &&& forall|k: int|
            0 <= k < n ==> self.allows(#[trigger] vpn_of(va + k), spec_user_read()) && self.byte_at(
                va + k,
            ) != 0
        &&& self.allows(vpn_of(va + n), spec_user_read())
        &&& self.byte_at(va + n) == 0
    }

    /// The string at `va`, without the zero byte that ends it, where the
    /// task may read it up to that byte.
    pub open spec fn str_at(&self, va: usize) -> Option<Seq<u8>> {
        if exists|n: int| self.str_ends(va, n) {
            Some(self.bytes_at(va, choose|n: int| self.str_ends(va, n)))
        } else {
            None
        }
    }

    /// A string ends at its first zero byte and nowhere else.
    pub proof fn lemma_str_at(&self, va: usize, n: int)
        requires
            self.str_ends(va, n),
        ensures
            self.str_at(va) == Some(self.bytes_at(va, n)),
    {
        let m = choose|m: int| self.str_ends(va, m);
        if m < n {
            assert(self.allows(vpn_of(va + m), spec_user_read()));
        } else if n < m {
            assert(self.allows(vpn_of(va + n), spec_user_read()));
        }
    }

    /// Copies the string at `va`, which a zero byte ends, out of the task's
    /// memory, without the zero byte. `None` where the task may not read on
    /// before a zero byte is found.
    pub fn translated_str(&self, va: usize) -> (string: Option<Vec<u8>>)
        requires
            self.wf(),
        ensures
            match string {
                Some(s) => self.str_ends(va, s@.len() as int) && s@ == self.bytes_at(
                    va,
                    s@.len() as int,
                ) && self.str_at(va) == Some(s@),
                None => (forall|n: int| !#[trigger] self.str_ends(va, n)) && self.str_at(va) is None,
            },
    {
        let mut out: Vec<u8> = Vec::new();
        let mut k: usize = 0;
        loop
            invariant
                self.wf(),
                va + k <= usize::MAX,
                out@ == self.bytes_at(va, k as int),
                forall|j: int|
                    0 <= j < k ==> self.allows(#[trigger] vpn_of(va + j), spec_user_read())
                        && self.byte_at(va + j) != 0,
            decreases usize::MAX - va - k,
        {
            let at = VirtAddr(va + k);
            let allowed = match self.translate(at.floor()) {
                Some(entry) => entry.perm.allows(user_read()),
                None => false,
            };
            if !allowed {
                proof {
                    assert forall|n: int| !#[trigger] self.str_ends(va, n) by {
                        if self.str_ends(va, n) {
                            if n > k {
                                assert(self.allows(vpn_of(va + k), spec_user_read()));
                            } else if n < k {
                                assert(self.allows(vpn_of(va + n), spec_user_read()));
                            }
                        }
                    }
                }
                return None;
            }
            proof {
                self.lemma_user_page(vpn_of(va + k), spec_user_read());
            }
            let byte = self.read_byte(at.floor(), at.page_offset());
            if byte == 0 {
                proof {
                    self.lemma_str_at(va, k as int);
                }
                return Some(out);
            }
            if k == usize::MAX - va {
                proof {
                    assert forall|n: int| !#[trigger] self.str_ends(va, n) by {
                        if self.str_ends(va, n) {
                            if n < k {
                                assert(self.allows(vpn_of(va + n), spec_user_read()));
                            }
                        }
                    }
                }
                return None;
            }
            out.push(byte);
            assert(out@ =~= self.bytes_at(va, k + 1));
            k += 1;
        }
    }

    /// The physical address of the byte at the virtual address `va`.
    pub open spec fn phys_at(&self, va: int) -> int {
        self.mapping()[vpn_of(va)].ppn.0 * PAGE_SIZE + offset_of(va)
    }

    /// Translates the `len` bytes from `va` on into runs of physical
    /// addresses, one run for each page that the range touches. `None` where
    /// a page of the range may not be used as `need` asks.
    pub fn translated_byte_buffer(&self, va: usize, len: usize, need: MapPermission) -> (buffers: Option<
        Vec<PhysRun>,
    >)
        requires
            self.wf(),
        ensures
            match buffers {
                Some(runs) => {
                    &&& self.accessible(va, len, need)
                    &&& run_addresses(runs@) == Seq::new(len as nat, |k: int| self.phys_at(va + k))
                    &&& forall|i: int|
                        0 <= i < runs@.len() ==> (#[trigger] runs@[i]).len > 0 && runs@[i].start.0
                            % PAGE_SIZE + runs@[i].len <= PAGE_SIZE
                },
                None => !self.accessible(va, len, need),
            },
    {
        if !self.can_access(va, len, need) {
            return None;
        }
        let end = va + len;
        let mut runs: Vec<PhysRun> = Vec::new();
        let mut at = va;
        while at < end
            invariant
                self.wf(),
                self.accessible(va, len, need),
                va <= at <= end,
                end == va + len,
                run_addresses(runs@) == Seq::new((at - va) as nat, |k: int| self.phys_at(va + k)),
                forall|i: int|
                    0 <= i < runs@.len() ==> (#[trigger] runs@[i]).len > 0 && runs@[i].start.0 % PAGE_SIZE
                        + runs@[i].len <= PAGE_SIZE,
            decreases end - at,
        {
            let room = PAGE_SIZE - at % PAGE_SIZE;
            let count = if end - at <= room {
                end - at
            } else {
                room
            };
            proof {
                assert(self.allows(vpn_of(va + (at - va)), need));
                self.lemma_mapping(vpn_of(at as int));
            }
            let start = self.translate_va(VirtAddr(at), need).unwrap();
            let ghost before = runs@;
            runs.push(PhysRun { start, len: count });
            proof {
                assert(runs@.drop_last() =~= before);
                assert(run_addresses(runs@) =~= Seq::new(
                    (at + count - va) as nat,
                    |k: int| self.phys_at(va + k),
                )) by {
                    let ppn = self.mapping()[vpn_of(at as int)].ppn.0;
                    assert(start.0 == ppn * PAGE_SIZE + at % PAGE_SIZE);
                    assert forall|i: int| 0 <= i < count implies start.0 + i == #[trigger] self.phys_at(
                        at + i,
                    ) by {
                        assert((at + i) / 4096 == at as int / 4096);
                        assert((at + i) % 4096 == at as int % 4096 + i);
                    }
                }
            }
            at = at + count;
        }
        Some(runs)
    }

    /// Copies `data` into the task's memory at `va`. Nothing is written, and
    /// `false` returned, where the task may not write all of the range.
    pub fn write_bytes(&mut self, va: usize, data: &Vec<u8>) -> (done: bool)
        requires
            old(self).wf(),
        ensures
            done == old(self).accessible(va, data.len(), spec_user_write()),
            !done ==> *final(self) == *old(self),
            done ==> final(self).bytes_at(va, data.len() as int) == data@,
            forall|vpn: usize, offset: int|
                0 <= offset < PAGE_SIZE && !(done && touched(va, data.len() as int, vpn, offset)) ==> (
                #[trigger] final(self).page_data(vpn)[offset]) == old(self).page_data(vpn)[offset],
            forall|vpn: usize| (#[trigger] final(self).page_data(vpn)).len() ==
                old(self).page_data(vpn).len(),
            final(self).wf(),
            final(self).layout() == old(self).layout(),
            final(self).mapping() == old(self).mapping(),
            final(self).frames() == old(self).frames(),
            final(self).trampoline_frame() == old(self).trampoline_frame(),
    {
        let len = data.len();
        if !self.can_access(va, len, user_write()) {
            return false;
        }
        let mut k: usize = 0;
        while k < len
            invariant
                self.wf(),
                len == data@.len(),
                old(self).accessible(va, len, spec_user_write()),
                k <= len,
                self.layout() == old(self).layout(),
                self.mapping() == old(self).mapping(),
                self.frames() == old(self).frames(),
                self.trampoline_frame() == old(self).trampoline_frame(),
                forall|j: int| 0 <= j < k ==> #[trigger] self.byte_at(va + j) == data@[j],
                forall|vpn: usize, offset: int|
                    0 <= offset < PAGE_SIZE && !touched(va, k as int, vpn, offset) ==> (
                    #[trigger] self.page_data(vpn)[offset]) == old(self).page_data(vpn)[offset],
                forall|vpn: usize| (#[trigger] self.page_data(vpn)).len() == old(self).page_data(vpn).len(),
            decreases len - k,
        {
            let at = VirtAddr(va + k);
            let ghost before = *self;
            proof {
                assert(self.allows(vpn_of(va + k), spec_user_write()));
                self.lemma_user_page(vpn_of(va + k), spec_user_write());
            }
            self.write_byte(at.floor(), at.page_offset(), data[k]);
            proof {
                let here = vpn_of(va + k);
                let off = offset_of(va + k);
                assert forall|j: int| 0 <= j < k + 1 implies #[trigger] self.byte_at(va + j) ==
                    data@[j] by {
                    if j < k {
                        lemma_distinct_places(va, j, k as int);
                        assert(before.byte_at(va + j) == data@[j]);
                    }
                }
                assert forall|vpn: usize, offset: int|
                    0 <= offset < PAGE_SIZE && !touched(va, k + 1, vpn, offset) implies (
                #[trigger] self.page_data(vpn)[offset]) == old(self).page_data(vpn)[offset] by {
                    assert(!touched(va, k as int, vpn, offset)) by {
                        if touched(va, k as int, vpn, offset) {
                            let j = choose|j: int|
                                0 <= j < k && #[trigger] vpn_of(va + j) == vpn && offset_of(va + j)
                                    == offset;
                            assert(vpn_of(va + j) == vpn);
                        }
                    }
                    assert(before.page_data(vpn)[offset] == old(self).page_data(vpn)[offset]);
                    if vpn == here && offset == off {
                        assert(vpn_of(va + k) == vpn);
                    }
                }
            }
            k += 1;
        }
        proof {
            assert(self.bytes_at(va, len as int) =~= data@);
        }
        true
    }
}

} // verus!
