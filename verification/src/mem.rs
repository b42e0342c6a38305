//! The memory manager: one contiguous emulated address space, carved into
//! non-overlapping regions, with bounds- and alignment-checked typed access.

use vstd::prelude::*;

verus! {

/// An offset into the emulated address space. Address 0 is the null sentinel
/// and never lies inside a region.
pub type GuestAddress = u32;

/// The null guest address.
pub const NULL: GuestAddress = 0;

/// Ways in which a memory operation can fail.
#[derive(Clone, Copy, Debug, PartialEq, Eq, Structural)]
pub enum MemError {
    /// No free range of the requested size and alignment is left.
    OutOfMemory,
    /// The address is not the base of a live region.
    InvalidFree,
    /// The access does not lie inside one live region.
    OutOfBounds,
    /// The address is not a multiple of the accessed type's size.
    Misaligned,
}

/// What a region may be used for.
#[derive(Clone, Copy, Debug, PartialEq, Eq, Structural)]
pub struct Permissions {
    pub read: bool,
    pub write: bool,
    pub execute: bool,
}

/// How guest code touches memory.
#[derive(Clone, Copy, Debug, PartialEq, Eq, Structural)]
pub enum Access {
    Read,
    Write,
    Execute,
}

impl Permissions {
    /// Whether these permissions allow `access`.
    pub open spec fn allows(self, access: Access) -> bool {
        match access {
            Access::Read => self.read,
            Access::Write => self.write,
            Access::Execute => self.execute,
        }
    }
}

/// Who asked for a region.
#[derive(Clone, Copy, Debug, PartialEq, Eq, Structural)]
pub enum Owner {
    Loader,
    Heap,
    Stack,
}

/// A live range `[base, base + len)` of the address space.
#[derive(Clone, Copy, Debug, PartialEq, Eq, Structural)]
pub struct MemoryRegion {
    pub base: GuestAddress,
    pub len: u32,
    pub perms: Permissions,
    pub owner: Owner,
}

impl MemoryRegion {
    /// One past the last address of the region.
    pub open spec fn end(self) -> int {
        self.base + self.len
    }

    /// Whether `[addr, addr + len)` lies inside the region.
    pub open spec fn covers(self, addr: int, len: int) -> bool {
        self.base <= addr && addr + len <= self.end()
    }

    /// Whether `[addr, addr + len)` shares an address with the region.
    pub open spec fn overlaps(self, addr: int, len: int) -> bool {
        addr < self.end() && self.base < addr + len
    }
}

/// Read and write, not execute: what heap allocations get.
pub open spec fn heap_permissions() -> Permissions {
    Permissions { read: true, write: true, execute: false }
}

/// The value of four bytes read as a little-endian word.
pub open spec fn le_word(b0: u8, b1: u8, b2: u8, b3: u8) -> int {
    b0 + b1 * 0x100 + b2 * 0x1_0000 + b3 * 0x100_0000
}

/// Byte `k` (0 is the lowest) of a 32-bit word.
pub open spec fn word_byte(v: u32, k: int) -> u8 {
    if k == 0 {
        (v % 0x100) as u8
    } else if k == 1 {
        ((v / 0x100) % 0x100) as u8
    } else if k == 2 {
        ((v / 0x1_0000) % 0x100) as u8
    } else {
        (v / 0x100_0000) as u8
    }
}

/// Whether `addr` is a multiple of `align`.
pub open spec fn is_aligned(addr: int, align: int) -> bool {
    addr % align == 0
}

/// Whether one of the regions in `live` starts at `addr`.
pub open spec fn has_base(live: Set<MemoryRegion>, addr: u32) -> bool {
    exists|r: MemoryRegion| #[trigger] live.contains(r) && r.base == addr
}

/// The region in `live` that starts at `addr`, where there is one.
pub open spec fn base_region(live: Set<MemoryRegion>, addr: u32) -> MemoryRegion {
    choose|r: MemoryRegion| #[trigger] live.contains(r) && r.base == addr
}

/// What a requested size or alignment counts as: at least 1.
pub open spec fn at_least_one(n: u32) -> int {
    if n == 0 {
        1
    } else {
        n as int
    }
}

/// The region that a heap allocation of `len` bytes at `base` creates.
pub open spec fn heap_region(base: u32, len: int) -> MemoryRegion {
    MemoryRegion { base, len: len as u32, perms: heap_permissions(), owner: Owner::Heap }
}

/// The smallest multiple of `align` that is not below `addr`.
fn align_up(addr: u64, align: u64) -> (r: u64)
    requires
        1 <= align <= u32::MAX,
        addr <= u32::MAX,
    ensures
        addr <= r < addr + align,
        r % align == 0,
        forall|b: int| addr <= b < r ==> !#[trigger] is_aligned(b, align as int),
{
    let rem: u64 = addr % align;
    let r: u64 = if rem == 0 {
        addr
    } else {
        addr + (align - rem)
    };
    proof {
        let a = align as int;
        let q = addr as int / a;
        vstd::arithmetic::div_mod::lemma_fundamental_div_mod(addr as int, a);
        if rem != 0 {
            assert(r == (q + 1) * a) by (nonlinear_arith)
                requires
                    addr == a * q + rem,
                    r == addr + (a - rem),
            ;
            vstd::arithmetic::div_mod::lemma_mod_multiples_basic(q + 1, a);
            assert forall|b: int| addr <= b < r implies !#[trigger] is_aligned(b, a) by {
                if b % a == 0 {
                    let k = b / a;
                    vstd::arithmetic::div_mod::lemma_fundamental_div_mod(b, a);
                    assert(false) by (nonlinear_arith)
                        requires
                            b == a * k,
                            a * q < b,
                            b < (q + 1) * a,
                            a >= 1,
                    ;
                }
            }
        }
    }
    r
}

/// That a sequence with one element put in holds that element and the old
/// ones, and nothing else.
proof fn lemma_insert_to_set(s: Seq<MemoryRegion>, k: int, r: MemoryRegion)
    requires
        0 <= k <= s.len(),
    ensures
        s.insert(k, r).to_set() == s.to_set().insert(r),
{
    let t = s.insert(k, r);
    s.insert_ensures(k, r);
    assert forall|x: MemoryRegion| t.to_set().contains(x) <==> s.to_set().insert(r).contains(
        x,
    ) by {
        if t.contains(x) {
            let i = choose|i: int| 0 <= i < t.len() && t[i] == x;
            if i < k {
                assert(s[i] == x);
            } else if i > k {
                assert(s[i - 1] == x);
            }
        }
        if s.contains(x) {
            let i = choose|i: int| 0 <= i < s.len() && s[i] == x;
            if i < k {
                assert(t[i] == x);
            } else {
                assert(t[i + 1] == x);
            }
        }
        if x == r {
            assert(t[k] == x);
        }
    }
    assert(t.to_set() =~= s.to_set().insert(r));
}

/// That a sequence without repeats, with one element taken out, holds the
/// others and not that one.
proof fn lemma_remove_to_set(s: Seq<MemoryRegion>, k: int)
    requires
        0 <= k < s.len(),
        forall|i: int, j: int| 0 <= i < j < s.len() ==> s[i] != s[j],
    ensures
        s.remove(k).to_set() == s.to_set().remove(s[k]),
{
    let t = s.remove(k);
    assert forall|x: MemoryRegion| t.to_set().contains(x) <==> s.to_set().remove(s[k]).contains(
        x,
    ) by {
        if t.contains(x) {
            let i = choose|i: int| 0 <= i < t.len() && t[i] == x;
            if i < k {
                assert(s[i] == x);
            } else {
                assert(s[i + 1] == x);
            }
        }
        if s.contains(x) && x != s[k] {
            let i = choose|i: int| 0 <= i < s.len() && s[i] == x;
            if i < k {
                assert(t[i] == x);
            } else {
                assert(t[i - 1] == x);
            }
        }
    }
    assert(t.to_set() =~= s.to_set().remove(s[k]));
}

/// The memory as contracts see it.
#[verifier::ext_equal]
pub struct MemView {
    /// The contents of the address space.
    pub bytes: Seq<u8>,
    /// The live regions.
    pub live: Set<MemoryRegion>,
}

impl MemView {
    /// Whether `[addr, addr + len)` lies inside one live region.
    pub open spec fn accessible(self, addr: int, len: int) -> bool {
        exists|r: MemoryRegion| #[trigger] self.live.contains(r) && r.covers(addr, len)
    }

    /// Whether `[addr, addr + len)` is inside the space, clear of address 0
    /// and of every live region.
    pub open spec fn range_free(self, addr: int, len: int) -> bool {
        &&& 1 <= addr
        &&& addr + len <= self.bytes.len()
        &&& forall|r: MemoryRegion| #[trigger] self.live.contains(r) ==> !r.overlaps(addr, len)
    }

    /// Whether a region of `len` bytes aligned to `align` can start at `addr`.
    pub open spec fn can_place(self, addr: int, len: int, align: int) -> bool {
        self.range_free(addr, len) && is_aligned(addr, align)
    }

    /// Whether `addr` is the lowest address at which a region of `len` bytes
    /// aligned to `align` can start.
    pub open spec fn is_lowest_fit(self, addr: int, len: int, align: int) -> bool {
        self.can_place(addr, len, align) && forall|b: int|
            b < addr ==> !self.can_place(b, len, align)
    }

    /// The lowest address at which a region of `len` bytes aligned to
    /// `align` can start, if it can start anywhere.
    pub open spec fn lowest_fit(self, len: int, align: int) -> Option<GuestAddress> {
        if exists|a: int| self.can_place(a, len, align) {
            Some((choose|a: int| self.is_lowest_fit(a, len, align)) as u32)
        } else {
            None
        }
    }

    /// Whether guest code may touch `[addr, addr + len)` in the way of
    /// `access`: the range lies inside one live region whose permissions
    /// allow it.
    pub open spec fn permits(self, addr: int, len: int, access: Access) -> bool {
        exists|r: MemoryRegion| #[trigger]
            self.live.contains(r) && r.covers(addr, len) && r.perms.allows(access)
    }

    /// The no-overlap invariant: every live region is non-empty, lies inside
    /// the space and clear of address 0, and no two live regions share an
    /// address.
    pub open spec fn disjoint(self) -> bool {
        &&& forall|r: MemoryRegion| #[trigger]
            self.live.contains(r) ==> 1 <= r.base && 1 <= r.len && r.end() <= self.bytes.len()
        &&& forall|a: MemoryRegion, b: MemoryRegion|
            #![trigger self.live.contains(a), self.live.contains(b)]
            self.live.contains(a) && self.live.contains(b) && a != b ==> !a.overlaps(
                b.base as int,
                b.len as int,
            )
    }

    /// The contents after `data` was stored from `addr` on.
    pub open spec fn bytes_with(self, addr: int, data: Seq<u8>) -> Seq<u8> {
        Seq::new(
            self.bytes.len(),
            |i: int|
                if addr <= i < addr + data.len() {
                    data[i - addr]
                } else {
                    self.bytes[i]
                },
        )
    }

    /// What an allocation does and answers: first fit, else `OutOfMemory`.
    pub open spec fn allocate(self, size: u32, align: u32) -> (
        MemView,
        Result<GuestAddress, MemError>,
    ) {
        match self.lowest_fit(at_least_one(size), at_least_one(align)) {
            Some(addr) => (
                MemView {
                    live: self.live.insert(heap_region(addr, at_least_one(size))),
                    ..self
                },
                Ok(addr),
            ),
            None => (self, Err(MemError::OutOfMemory)),
        }
    }

    /// What freeing the region at `addr` does and answers.
    pub open spec fn free(self, addr: GuestAddress) -> (MemView, Result<(), MemError>) {
        if has_base(self.live, addr) {
            (MemView { live: self.live.remove(base_region(self.live, addr)), ..self }, Ok(()))
        } else {
            (self, Err(MemError::InvalidFree))
        }
    }

    /// What making `region` live does and answers.
    pub open spec fn map_region(self, region: MemoryRegion) -> (MemView, Result<(), MemError>) {
        if region.len == 0 || region.base == 0 || region.end() > self.bytes.len() {
            (self, Err(MemError::OutOfBounds))
        } else if !self.range_free(region.base as int, region.len as int) {
            (self, Err(MemError::OutOfMemory))
        } else {
            (MemView { live: self.live.insert(region), ..self }, Ok(()))
        }
    }

    /// What storing `data` from `addr` on does and answers.
    pub open spec fn write_bytes(self, addr: GuestAddress, data: Seq<u8>) -> (
        MemView,
        Result<(), MemError>,
    ) {
        if self.accessible(addr as int, data.len() as int) {
            (MemView { bytes: self.bytes_with(addr as int, data), ..self }, Ok(()))
        } else {
            (self, Err(MemError::OutOfBounds))
        }
    }

    /// What storing the word `value` at `addr` does and answers.
    pub open spec fn write_u32(self, addr: GuestAddress, value: u32) -> (
        MemView,
        Result<(), MemError>,
    ) {
        if !self.accessible(addr as int, 4) {
            (self, Err(MemError::OutOfBounds))
        } else if addr % 4 != 0 {
            (self, Err(MemError::Misaligned))
        } else {
            (
                MemView {
                    bytes: self.bytes_with(
                        addr as int,
                        seq![
                            word_byte(value, 0),
                            word_byte(value, 1),
                            word_byte(value, 2),
                            word_byte(value, 3),
                        ],
                    ),
                    ..self
                },
                Ok(()),
            )
        }
    }

    /// What a word read at `addr` gives.
    pub open spec fn read_u32(self, addr: GuestAddress) -> Result<u32, MemError> {
        if !self.accessible(addr as int, 4) {
            Err(MemError::OutOfBounds)
        } else if addr % 4 != 0 {
            Err(MemError::Misaligned)
        } else {
            Ok(
                le_word(
                    self.bytes[addr as int],
                    self.bytes[addr + 1],
                    self.bytes[addr + 2],
                    self.bytes[addr + 3],
                ) as u32,
            )
        }
    }
}

/// An allocation keeps the no-overlap invariant, and the range that it
/// hands out shares no address with a region that was live before.
pub proof fn lemma_allocate_keeps_disjoint(m: MemView, size: u32, align: u32)
    requires
        m.disjoint(),
        m.bytes.len() <= u32::MAX,
    ensures
        m.allocate(size, align).0.disjoint(),
        m.allocate(size, align).1 is Ok ==> forall|r: MemoryRegion| #[trigger]
            m.live.contains(r) ==> !r.overlaps(
                m.allocate(size, align).1->Ok_0 as int,
                at_least_one(size),
            ),
{
    let len = at_least_one(size);
    let al = at_least_one(align);
    if m.lowest_fit(len, al) is Some {
        let a = choose|a: int| m.can_place(a, len, al);
        lemma_lowest_fit_exists(m, a, len, al);
        let least = choose|a: int| m.is_lowest_fit(a, len, al);
        assert(m.range_free(least, len));
        let added = heap_region(least as u32, len);
        let after = m.allocate(size, align).0;
        assert forall|x: MemoryRegion, y: MemoryRegion|
            #![trigger after.live.contains(x), after.live.contains(y)]
            after.live.contains(x) && after.live.contains(y) && x != y implies !x.overlaps(
            y.base as int,
            y.len as int,
        ) by {
            if x != added && y != added {
                assert(m.live.contains(x) && m.live.contains(y));
            }
        }
    }
}

/// Where a region can be placed at all, it can be placed at a lowest
/// address.
pub proof fn lemma_lowest_fit_exists(m: MemView, a: int, len: int, align: int)
    requires
        m.can_place(a, len, align),
    ensures
        exists|least: int| m.is_lowest_fit(least, len, align),
    decreases a,
{
    if exists|b: int| b < a && m.can_place(b, len, align) {
        let b = choose|b: int| b < a && m.can_place(b, len, align);
        lemma_lowest_fit_exists(m, b, len, align);
    } else {
        assert(m.is_lowest_fit(a, len, align));
    }
}

/// Freeing a region keeps the no-overlap invariant.
pub proof fn lemma_free_keeps_disjoint(m: MemView, addr: GuestAddress)
    requires
        m.disjoint(),
    ensures
        m.free(addr).0.disjoint(),
{
    let after = m.free(addr).0;
    assert forall|x: MemoryRegion, y: MemoryRegion|
        #![trigger after.live.contains(x), after.live.contains(y)]
        after.live.contains(x) && after.live.contains(y) && x != y implies !x.overlaps(
        y.base as int,
        y.len as int,
    ) by {
        assert(m.live.contains(x) && m.live.contains(y));
    }
}

/// Mapping a region at a fixed address keeps the no-overlap invariant.
pub proof fn lemma_map_region_keeps_disjoint(m: MemView, region: MemoryRegion)
    requires
        m.disjoint(),
    ensures
        m.map_region(region).0.disjoint(),
{
    let after = m.map_region(region).0;
    assert forall|x: MemoryRegion, y: MemoryRegion|
        #![trigger after.live.contains(x), after.live.contains(y)]
        after.live.contains(x) && after.live.contains(y) && x != y implies !x.overlaps(
        y.base as int,
        y.len as int,
    ) by {
        if x != region && y != region {
            assert(m.live.contains(x) && m.live.contains(y));
        }
    }
}

/// The emulated address space and the regions that are live in it.
pub struct Mem {
    bytes: Vec<u8>,
    /// Live regions, ordered by base address.
    regions: Vec<MemoryRegion>,
}

impl View for Mem {
    type V = MemView;

    open spec fn view(&self) -> MemView {
        MemView { bytes: self.bytes(), live: self.live() }
    }
}

impl Mem {
    /// Size of the address space in bytes.
    pub open spec fn space(&self) -> nat {
        self.bytes().len()
    }

    /// The contents of the address space.
    pub closed spec fn bytes(&self) -> Seq<u8> {
        self.bytes@
    }

    /// The set of live regions.
    pub closed spec fn live(&self) -> Set<MemoryRegion> {
        self.regions@.to_set()
    }

    /// Whether `[addr, addr + len)` lies inside one live region.
    pub open spec fn accessible(&self, addr: int, len: int) -> bool {
        self@.accessible(addr, len)
    }

    /// Whether `[addr, addr + len)` is inside the space, clear of address 0
    /// and of every live region.
    pub open spec fn range_free(&self, addr: int, len: int) -> bool {
        self@.range_free(addr, len)
    }

    /// Whether a region of `len` bytes aligned to `align` can start at `addr`.
    pub open spec fn can_place(&self, addr: int, len: int, align: int) -> bool {
        self@.can_place(addr, len, align)
    }

    /// The representation invariant: regions are non-empty, inside the space,
    /// clear of address 0, ordered and pairwise disjoint.
    pub closed spec fn wf(&self) -> bool {
        &&& self.bytes@.len() <= u32::MAX
        &&& forall|i: int|
            0 <= i < self.regions@.len() ==> {
                &&& 1 <= (#[trigger] self.regions@[i]).base
                &&& 1 <= self.regions@[i].len
                &&& self.regions@[i].end() <= self.bytes@.len()
            }
        &&& forall|i: int, j: int|
            0 <= i < j < self.regions@.len() ==> (#[trigger] self.regions@[i]).end() <= (
            #[trigger] self.regions@[j]).base
    }

    /// An address space of `size` zero bytes with no live region.
    pub fn new(size: u32) -> (m: Mem)
        ensures
            m.wf(),
            m.space() == size,
            m.live() == Set::<MemoryRegion>::empty(),
            forall|i: int| 0 <= i < size ==> m.bytes()[i] == 0,
    {
        let bytes: Vec<u8> = vec![0u8; size as usize];
        let m = Mem { bytes, regions: Vec::new() };
        assert(m.regions@.to_set() =~= Set::<MemoryRegion>::empty());
        m
    }

    /// What a one-byte read at `addr` gives.
    pub open spec fn read_u8_spec(&self, addr: u32) -> Result<u8, MemError> {
        if !self@.accessible(addr as int, 1) {
            Err(MemError::OutOfBounds)
        } else {
            Ok(self.bytes()[addr as int])
        }
    }

    /// What a little-endian word read at `addr` gives: the access must lie
    /// inside one live region, and then `addr` must be a multiple of 4.
    pub open spec fn read_u32_spec(&self, addr: u32) -> Result<u32, MemError> {
        self@.read_u32(addr)
    }

    /// The contents after `data` was stored from `addr` on.
    pub open spec fn bytes_with(&self, addr: int, data: Seq<u8>) -> Seq<u8> {
        self@.bytes_with(addr, data)
    }

    /// Index of a region that holds `[addr, addr + len)`, if one is live.
    fn find_covering(&self, addr: u32, len: u32) -> (found: Option<usize>)
        requires
            self.wf(),
        ensures
            match found {
                Some(i) => {
                    &&& i < self.regions@.len()
                    &&& self.regions@[i as int].covers(addr as int, len as int)
                    &&& self@.live.contains(self.regions@[i as int])
                    &&& self@.accessible(addr as int, len as int)
                },
                None => !self@.accessible(addr as int, len as int),
            },
    {
        let mut i: usize = 0;
        while i < self.regions.len()
            invariant
                i <= self.regions@.len(),
                forall|k: int| 0 <= k < i ==> !self.regions@[k].covers(addr as int, len as int),
            decreases self.regions@.len() - i,
        {
            let r = self.regions[i];
            if r.base <= addr && addr as u64 + len as u64 <= r.base as u64 + r.len as u64 {
                assert(self.regions@.contains(r));
                assert(self@.live.contains(r));
                return Some(i);
            }
            i += 1;
        }
        None
    }

    /// Checks an access of guest code against the permissions of the
    /// regions. Fails with `OutOfBounds` unless the range lies inside one
    /// live region that allows the access.
    pub fn check_access(&self, addr: GuestAddress, len: u32, access: Access) -> (r: Result<
        (),
        MemError,
    >)
        requires
            self.wf(),
        ensures
            r is Ok <==> self@.permits(addr as int, len as int, access),
            r is Err ==> r == Err::<(), MemError>(MemError::OutOfBounds),
    {
        let mut i: usize = 0;
        while i < self.regions.len()
            invariant
                i <= self.regions@.len(),
                forall|k: int|
                    0 <= k < i ==> !(self.regions@[k].covers(addr as int, len as int)
                        && self.regions@[k].perms.allows(access)),
            decreases self.regions@.len() - i,
        {
            let r = self.regions[i];
            let allowed: bool = match access {
                Access::Read => r.perms.read,
                Access::Write => r.perms.write,
                Access::Execute => r.perms.execute,
            };
            if allowed && r.base <= addr && addr as u64 + len as u64 <= r.base as u64
                + r.len as u64 {
                assert(self.regions@.contains(r));
                assert(self@.live.contains(r));
                return Ok(());
            }
            i += 1;
        }
        Err(MemError::OutOfBounds)
    }

    /// The live region that holds the byte at `addr`, if there is one.
    pub fn region_at(&self, addr: GuestAddress) -> (found: Option<MemoryRegion>)
        requires
            self.wf(),
        ensures
            match found {
                Some(r) => self@.live.contains(r) && r.covers(addr as int, 1),
                None => !self@.accessible(addr as int, 1),
            },
    {
        match self.find_covering(addr, 1) {
            Some(i) => Some(self.regions[i]),
            None => None,
        }
    }

    /// Reads one byte.
    pub fn read_u8(&self, addr: GuestAddress) -> (r: Result<u8, MemError>)
        requires
            self.wf(),
        ensures
            r == self.read_u8_spec(addr),
    {
        match self.find_covering(addr, 1) {
            Some(_) => Ok(self.bytes[addr as usize]),
            None => Err(MemError::OutOfBounds),
        }
    }

    /// Reads a little-endian 32-bit word.
    pub fn read_u32(&self, addr: GuestAddress) -> (r: Result<u32, MemError>)
        requires
            self.wf(),
        ensures
            r == self.read_u32_spec(addr),
    {
        match self.find_covering(addr, 4) {
            None => Err(MemError::OutOfBounds),
            Some(_) => {
                if addr % 4 != 0 {
                    Err(MemError::Misaligned)
                } else {
                    let at: usize = addr as usize;
                    let b0: u32 = self.bytes[at] as u32;
                    let b1: u32 = self.bytes[at + 1] as u32;
                    let b2: u32 = self.bytes[at + 2] as u32;
                    let b3: u32 = self.bytes[at + 3] as u32;
                    Ok(b0 + b1 * 0x100 + b2 * 0x1_0000 + b3 * 0x100_0000)
                }
            },
        }
    }

    /// Stores one byte. Fails with `OutOfBounds`, changing nothing, unless
    /// `addr` lies inside a live region.
    pub fn write_u8(&mut self, addr: GuestAddress, value: u8) -> (r: Result<(), MemError>)
        requires
            old(self).wf(),
        ensures
            final(self).wf(),
            final(self).live() == old(self).live(),
            r is Ok <==> old(self)@.accessible(addr as int, 1),
            r is Err ==> r == Err::<(), MemError>(MemError::OutOfBounds),
            r is Ok ==> final(self).bytes() == old(self).bytes().update(addr as int, value),
            r is Err ==> final(self).bytes() == old(self).bytes(),
    {
        match self.find_covering(addr, 1) {
            Some(_) => {
                self.bytes.set(addr as usize, value);
                Ok(())
            },
            None => Err(MemError::OutOfBounds),
        }
    }

    /// Stores a 32-bit word, lowest byte first. Fails with `OutOfBounds`
    /// unless the four bytes lie inside one live region, and else with
    /// `Misaligned` unless `addr` is a multiple of 4; a failed store changes
    /// nothing.
    pub fn write_u32(&mut self, addr: GuestAddress, value: u32) -> (r: Result<(), MemError>)
        requires
            old(self).wf(),
        ensures
            final(self).wf(),
            final(self)@ == old(self)@.write_u32(addr, value).0,
            r == old(self)@.write_u32(addr, value).1,
            final(self).live() == old(self).live(),
            !old(self)@.accessible(addr as int, 4) ==> r == Err::<(), MemError>(
                MemError::OutOfBounds,
            ),
            old(self)@.accessible(addr as int, 4) && addr % 4 != 0 ==> r == Err::<(), MemError>(
                MemError::Misaligned,
            ),
            old(self)@.accessible(addr as int, 4) && addr % 4 == 0 ==> r is Ok,
            r is Ok ==> final(self).bytes() == old(self).bytes_with(
                addr as int,
                seq![
                    word_byte(value, 0),
                    word_byte(value, 1),
                    word_byte(value, 2),
                    word_byte(value, 3),
                ],
            ),
            r is Ok ==> final(self).read_u32_spec(addr) == Ok::<u32, MemError>(value),
            r is Err ==> final(self).bytes() == old(self).bytes(),
    {
        match self.find_covering(addr, 4) {
            None => Err(MemError::OutOfBounds),
            Some(i) => {
                if addr % 4 != 0 {
                    Err(MemError::Misaligned)
                } else {
                    let ghost region = self.regions@[i as int];
                    let at: usize = addr as usize;
                    self.bytes.set(at, (value % 0x100) as u8);
                    self.bytes.set(at + 1, ((value / 0x100) % 0x100) as u8);
                    self.bytes.set(at + 2, ((value / 0x1_0000) % 0x100) as u8);
                    self.bytes.set(at + 3, (value / 0x100_0000) as u8);
                    assert(final(self).bytes() =~= old(self).bytes_with(
                        addr as int,
                        seq![
                            word_byte(value, 0),
                            word_byte(value, 1),
                            word_byte(value, 2),
                            word_byte(value, 3),
                        ],
                    ));
                    assert(self@.accessible(addr as int, 4)) by {
                        assert(self@.live.contains(region) && region.covers(addr as int, 4));
                    }
                    assert(le_word(
                        word_byte(value, 0),
                        word_byte(value, 1),
                        word_byte(value, 2),
                        word_byte(value, 3),
                    ) == value);
                    Ok(())
                }
            },
        }
    }

    /// First fit: the lowest address at which `len` bytes aligned to `align`
    /// can be placed, and the index at which the new region keeps the list
    /// ordered.
    fn find_slot(&self, len: u32, align: u32) -> (slot: Option<(usize, u32)>)
        requires
            self.wf(),
            len >= 1,
            align >= 1,
        ensures
            match slot {
                Some((k, addr)) => {
                    &&& k <= self.regions@.len()
                    &&& self@.can_place(addr as int, len as int, align as int)
                    &&& forall|b: int| b < addr ==> !self@.can_place(b, len as int, align as int)
                    &&& forall|j: int| 0 <= j < k ==> self.regions@[j].end() <= addr
                    &&& forall|j: int|
                        k <= j < self.regions@.len() ==> addr + len <= self.regions@[j].base
                },
                None => forall|b: int| !self@.can_place(b, len as int, align as int),
            },
    {
        let n: usize = self.regions.len();
        let space: u64 = self.bytes.len() as u64;
        let mut cursor: u64 = 1;
        let mut i: usize = 0;
        while i < n
            invariant
                self.wf(),
                n == self.regions@.len(),
                space == self.bytes@.len(),
                len >= 1,
                align >= 1,
                i <= n,
                1 <= cursor <= u32::MAX,
                forall|j: int| 0 <= j < i ==> self.regions@[j].end() <= cursor,
                forall|j: int| i <= j < n ==> cursor <= self.regions@[j].base,
                forall|b: int| b < cursor ==> !self@.can_place(b, len as int, align as int),
            decreases n - i,
        {
            let cand: u64 = align_up(cursor, align as u64);
            let r = self.regions[i];
            assert(self.regions@.contains(r));
            assert(self@.live.contains(r));
            if cand + len as u64 <= r.base as u64 {
                assert(self@.range_free(cand as int, len as int)) by {
                    assert forall|x: MemoryRegion| #[trigger]
                        self@.live.contains(x) implies !x.overlaps(cand as int, len as int) by {
                        let j = choose|j: int| 0 <= j < self.regions@.len() && self.regions@[j] == x;
                        if j > i {
                            assert(self.regions@[i as int].end() <= self.regions@[j].base);
                        }
                    }
                }
                return Some((i, cand as u32));
            }
            assert forall|b: int| b < r.end() implies !self@.can_place(
                b,
                len as int,
                align as int,
            ) by {
                if b >= cand {
                    assert(r.overlaps(b, len as int));
                }
            }
            assert forall|j: int| i + 1 <= j < n implies r.end() <= self.regions@[j].base by {
                assert(self.regions@[i as int].end() <= self.regions@[j].base);
            }
            cursor = r.base as u64 + r.len as u64;
            i += 1;
        }
        let cand: u64 = align_up(cursor, align as u64);
        if cand + len as u64 <= space {
            assert(self@.range_free(cand as int, len as int)) by {
                assert forall|x: MemoryRegion| #[trigger]
                    self@.live.contains(x) implies !x.overlaps(cand as int, len as int) by {
                    let j = choose|j: int| 0 <= j < self.regions@.len() && self.regions@[j] == x;
                }
            }
            Some((n, cand as u32))
        } else {
            None
        }
    }

    /// Allocates a fresh heap region of at least `size` bytes whose base is a
    /// multiple of `align`; a size or an alignment of 0 counts as 1. The
    /// region starts at the lowest address at which it fits. Fails with
    /// `OutOfMemory`, changing nothing, when it fits nowhere.
    pub fn allocate(&mut self, size: u32, align: u32) -> (r: Result<GuestAddress, MemError>)
        requires
            old(self).wf(),
        ensures
            final(self).wf(),
            final(self)@ == old(self)@.allocate(size, align).0,
            r == old(self)@.allocate(size, align).1,
            final(self).bytes() == old(self).bytes(),
            match r {
                Ok(addr) => {
                    &&& old(self)@.can_place(addr as int, at_least_one(size), at_least_one(align))
                    &&& forall|b: int|
                        b < addr ==> !old(self)@.can_place(
                            b,
                            at_least_one(size),
                            at_least_one(align),
                        )
                    &&& final(self).live() == old(self).live().insert(
                        heap_region(addr, at_least_one(size)),
                    )
                },
                Err(e) => {
                    &&& e == MemError::OutOfMemory
                    &&& forall|b: int|
                        !old(self)@.can_place(b, at_least_one(size), at_least_one(align))
                    &&& final(self).live() == old(self).live()
                },
            },
    {
        let len: u32 = if size == 0 {
            1
        } else {
            size
        };
        let al: u32 = if align == 0 {
            1
        } else {
            align
        };
        match self.find_slot(len, al) {
            None => Err(MemError::OutOfMemory),
            Some((k, addr)) => {
                proof {
                    let view = self@;
                    assert(view.is_lowest_fit(addr as int, len as int, al as int));
                    let least = choose|a: int| view.is_lowest_fit(a, len as int, al as int);
                    assert(least == addr);
                }
                let region = MemoryRegion {
                    base: addr,
                    len,
                    perms: Permissions { read: true, write: true, execute: false },
                    owner: Owner::Heap,
                };
                proof {
                    lemma_insert_to_set(self.regions@, k as int, region);
                    self.regions@.insert_ensures(k as int, region);
                }
                self.regions.insert(k, region);
                Ok(addr)
            },
        }
    }

    /// Whether a live region starts at `addr`.
    pub open spec fn is_base(&self, addr: u32) -> bool {
        has_base(self.live(), addr)
    }

    /// The live region that starts at `addr`, where there is one.
    pub open spec fn region_of(&self, addr: u32) -> MemoryRegion {
        base_region(self.live(), addr)
    }

    /// A memory in order keeps the no-overlap invariant.
    pub proof fn lemma_wf_disjoint(&self)
        requires
            self.wf(),
        ensures
            self@.disjoint(),
            self@.bytes.len() <= u32::MAX,
    {
        assert forall|r: MemoryRegion| #[trigger] self@.live.contains(r) implies 1 <= r.base && 1
            <= r.len && r.end() <= self@.bytes.len() by {
            self.lemma_live_regions_disjoint(r, r);
        }
        assert forall|a: MemoryRegion, b: MemoryRegion|
            #![trigger self@.live.contains(a), self@.live.contains(b)]
            self@.live.contains(a) && self@.live.contains(b) && a != b implies !a.overlaps(
            b.base as int,
            b.len as int,
        ) by {
            self.lemma_live_regions_disjoint(a, b);
        }
    }

    /// Live regions lie inside the space, clear of address 0, are not empty,
    /// and no two of them share an address.
    pub proof fn lemma_live_regions_disjoint(&self, a: MemoryRegion, b: MemoryRegion)
        requires
            self.wf(),
            self@.live.contains(a),
            self@.live.contains(b),
        ensures
            1 <= a.base,
            1 <= a.len,
            a.end() <= self.space(),
            a != b ==> !a.overlaps(b.base as int, b.len as int),
            a.base == b.base ==> a == b,
    {
        let i = choose|i: int| 0 <= i < self.regions@.len() && self.regions@[i] == a;
        let j = choose|j: int| 0 <= j < self.regions@.len() && self.regions@[j] == b;
        if i < j {
            assert(self.regions@[i].end() <= self.regions@[j].base);
        } else if j < i {
            assert(self.regions@[j].end() <= self.regions@[i].base);
        }
    }

    /// Releases the live region that starts at `addr`. Fails with
    /// `InvalidFree`, changing nothing, when no live region starts there.
    pub fn free(&mut self, addr: GuestAddress) -> (r: Result<(), MemError>)
        requires
            old(self).wf(),
        ensures
            final(self).wf(),
            final(self)@ == old(self)@.free(addr).0,
            r == old(self)@.free(addr).1,
            final(self).bytes() == old(self).bytes(),
            r is Ok <==> old(self).is_base(addr),
            r is Ok ==> final(self).live() == old(self).live().remove(old(self).region_of(addr)),
            r is Err ==> r == Err::<(), MemError>(MemError::InvalidFree),
            r is Err ==> final(self).live() == old(self).live(),
    {
        let mut i: usize = 0;
        while i < self.regions.len()
            invariant
                self.wf(),
                *self == *old(self),
                i <= self.regions@.len(),
                forall|k: int| 0 <= k < i ==> self.regions@[k].base != addr,
            decreases self.regions@.len() - i,
        {
            if self.regions[i].base == addr {
                proof {
                    let found = self.regions@[i as int];
                    assert(self.regions@.contains(found));
                    assert(self@.live.contains(found));
                    self.lemma_live_regions_disjoint(found, self.region_of(addr));
                    assert forall|a: int, b: int|
                        0 <= a < b < self.regions@.len() implies self.regions@[a]
                        != self.regions@[b] by {
                        assert(self.regions@[a].end() <= self.regions@[b].base);
                    }
                    lemma_remove_to_set(self.regions@, i as int);
                }
                self.regions.remove(i);
                return Ok(());
            }
            i += 1;
        }
        Err(MemError::InvalidFree)
    }

    /// Makes `[base, base + len)` a live region with the given permissions
    /// and owner. Fails with `OutOfBounds` when the range is empty, holds
    /// address 0 or leaves the space, and else with `OutOfMemory` when it
    /// shares an address with a live region; a failure changes nothing.
    pub fn map_region(
        &mut self,
        base: GuestAddress,
        len: u32,
        perms: Permissions,
        owner: Owner,
    ) -> (r: Result<(), MemError>)
        requires
            old(self).wf(),
        ensures
            final(self).wf(),
            final(self)@ == old(self)@.map_region(MemoryRegion { base, len, perms, owner }).0,
            r == old(self)@.map_region(MemoryRegion { base, len, perms, owner }).1,
            final(self).bytes() == old(self).bytes(),
            r is Ok <==> len >= 1 && old(self)@.range_free(base as int, len as int),
            r is Ok ==> final(self).live() == old(self).live().insert(
                MemoryRegion { base, len, perms, owner },
            ),
            r is Err ==> final(self).live() == old(self).live(),
            r is Err ==> r == Err::<(), MemError>(
                if len == 0 || base == 0 || base + len > old(self).space() {
                    MemError::OutOfBounds
                } else {
                    MemError::OutOfMemory
                },
            ),
    {
        if len == 0 || base == 0 || base as u64 + len as u64 > self.bytes.len() as u64 {
            return Err(MemError::OutOfBounds);
        }
        let n: usize = self.regions.len();
        let mut k: usize = 0;
        while k < n && self.regions[k].base < base
            invariant
                self.wf(),
                *self == *old(self),
                n == self.regions@.len(),
                k <= n,
                forall|j: int| 0 <= j < k ==> self.regions@[j].base < base,
            decreases n - k,
        {
            k += 1;
        }
        if k > 0 && self.regions[k - 1].base as u64 + self.regions[k - 1].len as u64 > base as u64 {
            proof {
                let x = self.regions@[k - 1];
                assert(self.regions@.contains(x));
                assert(self@.live.contains(x) && x.overlaps(base as int, len as int));
            }
            return Err(MemError::OutOfMemory);
        }
        if k < n && base as u64 + len as u64 > self.regions[k].base as u64 {
            proof {
                let x = self.regions@[k as int];
                assert(self.regions@.contains(x));
                assert(self@.live.contains(x) && x.overlaps(base as int, len as int));
            }
            return Err(MemError::OutOfMemory);
        }
        let region = MemoryRegion { base, len, perms, owner };
        proof {
            assert forall|x: MemoryRegion| #[trigger] self@.live.contains(x) implies !x.overlaps(
                base as int,
                len as int,
            ) by {
                let j = choose|j: int| 0 <= j < self.regions@.len() && self.regions@[j] == x;
                if j < k - 1 {
                    assert(self.regions@[j].end() <= self.regions@[k - 1].base);
                } else if j > k {
                    assert(self.regions@[k as int].end() <= self.regions@[j].base);
                }
            }
            assert forall|j: int| 0 <= j < k implies self.regions@[j].end() <= base by {
                if j < k - 1 {
                    assert(self.regions@[j].end() <= self.regions@[k - 1].base);
                }
            }
            assert forall|j: int| k <= j < n implies base + len <= self.regions@[j].base by {
                if j > k {
                    assert(self.regions@[k as int].end() <= self.regions@[j].base);
                }
            }
            lemma_insert_to_set(self.regions@, k as int, region);
            self.regions@.insert_ensures(k as int, region);
        }
        self.regions.insert(k, region);
        Ok(())
    }

    /// Copies `len` bytes out, starting at `addr`. Fails with `OutOfBounds`
    /// unless the range lies inside one live region.
    pub fn read_bytes(&self, addr: GuestAddress, len: u32) -> (r: Result<Vec<u8>, MemError>)
        requires
            self.wf(),
        ensures
            r is Ok <==> self@.accessible(addr as int, len as int),
            r is Err ==> r == Err::<Vec<u8>, MemError>(MemError::OutOfBounds),
            r is Ok ==> r->Ok_0@ == self.bytes().subrange(addr as int, addr + len),
    {
        match self.find_covering(addr, len) {
            None => Err(MemError::OutOfBounds),
            Some(_) => {
                let mut out: Vec<u8> = Vec::new();
                let mut i: u32 = 0;
                while i < len
                    invariant
                        i <= len,
                        addr + len <= self.bytes@.len() <= u32::MAX,
                        out@ == self.bytes@.subrange(addr as int, addr + i),
                    decreases len - i,
                {
                    out.push(self.bytes[(addr + i) as usize]);
                    i += 1;
                    assert(out@ =~= self.bytes@.subrange(addr as int, addr + i));
                }
                Ok(out)
            },
        }
    }

    /// Stores `data` from `addr` on. Fails with `OutOfBounds`, changing
    /// nothing, unless the range lies inside one live region.
    pub fn write_bytes(&mut self, addr: GuestAddress, data: &[u8]) -> (r: Result<(), MemError>)
        requires
            old(self).wf(),
        ensures
            final(self).wf(),
            final(self)@ == old(self)@.write_bytes(addr, data@).0,
            r == old(self)@.write_bytes(addr, data@).1,
            final(self).live() == old(self).live(),
            r is Ok <==> old(self)@.accessible(addr as int, data@.len() as int),
            r is Err ==> r == Err::<(), MemError>(MemError::OutOfBounds),
            r is Ok ==> final(self).bytes() == old(self).bytes_with(addr as int, data@),
            r is Err ==> final(self).bytes() == old(self).bytes(),
    {
        if data.len() > u32::MAX as usize {
            proof {
                if self@.accessible(addr as int, data@.len() as int) {
                    let x = choose|x: MemoryRegion| #[trigger]
                        self@.live.contains(x) && x.covers(addr as int, data@.len() as int);
                    self.lemma_live_regions_disjoint(x, x);
                }
            }
            return Err(MemError::OutOfBounds);
        }
        let len: u32 = data.len() as u32;
        match self.find_covering(addr, len) {
            None => Err(MemError::OutOfBounds),
            Some(_) => {
                let mut i: u32 = 0;
                while i < len
                    invariant
                        i <= len,
                        len == data@.len(),
                        addr + len <= self.bytes@.len() <= u32::MAX,
                        self.regions == old(self).regions,
                        self.bytes@ == old(self).bytes_with(addr as int, data@.subrange(0, i as int)),
                    decreases len - i,
                {
                    self.bytes.set((addr + i) as usize, data[i as usize]);
                    i += 1;
                    assert(self.bytes@ =~= old(self).bytes_with(
                        addr as int,
                        data@.subrange(0, i as int),
                    ));
                }
                assert(data@.subrange(0, len as int) =~= data@);
                Ok(())
            },
        }
    }

    /// A copy of the memory as it is now.
    pub fn snapshot(&self) -> (copy: Mem)
        requires
            self.wf(),
        ensures
            copy.wf(),
            copy@ == self@,
    {
        let copy = Mem { bytes: self.bytes.clone(), regions: self.regions.clone() };
        assert(copy.bytes@ =~= self.bytes@);
        assert(copy.regions@ =~= self.regions@);
        copy
    }

    /// Size of the address space in bytes.
    pub fn size(&self) -> (n: u32)
        requires
            self.wf(),
        ensures
            n == self.space(),
    {
        self.bytes.len() as u32
    }
}

} // verus!
