//! Byte-addressable storage blocks and the memory-mapped bus that routes a
//! 16-bit address to the block registered at its footprint.

use vstd::prelude::*;

verus! {

/// Byte returned by the bus for an address that no registered region claims.
pub const BUS_DEFAULT: u8 = 0x00;

/// Mathematical model of one storage block: its bytes, the default byte
/// handed back for an out-of-range read, and whether writes are dropped.
#[verifier::ext_equal]
pub struct MemModel {
    pub data: Seq<u8>,
    pub fill: u8,
    pub read_only: bool,
}

/// What a read of one block returns: the byte at the offset when it is in
/// range, else the fill byte with a validity flag of `false`.
pub open spec fn mem_read(m: MemModel, offset: int) -> (u8, bool) {
    if 0 <= offset < m.data.len() {
        (m.data[offset], true)
    } else {
        (m.fill, false)
    }
}

/// The block after a write: unchanged when it is read-only or the offset is
/// out of range, else the byte at the offset is replaced.
pub open spec fn mem_write(m: MemModel, offset: int, v: u8) -> MemModel {
    if m.read_only || !(0 <= offset < m.data.len()) {
        m
    } else {
        MemModel { data: m.data.update(offset, v), ..m }
    }
}

/// A fixed-size byte-addressable storage block with a default fill value and
/// optional read-only enforcement. Reads outside the block return the fill
/// byte and a validity flag of `false`; writes to a read-only block or
/// outside the block are dropped.
pub struct Memory {
    data: Vec<u8>,
    fill: u8,
    read_only: bool,
}

impl View for Memory {
    type V = MemModel;

    closed spec fn view(&self) -> MemModel {
        MemModel { data: self.data@, fill: self.fill, read_only: self.read_only }
    }
}

impl Memory {
    /// A writable block of `size` bytes, each initialized to `fill`.
    pub fn new(size: usize, fill: u8) -> (r: Memory)
        ensures
            r@.data.len() == size,
            forall|i: int| 0 <= i < size ==> r@.data[i] == fill,
            r@.fill == fill,
            !r@.read_only,
    {
        let mut data: Vec<u8> = Vec::new();
        while data.len() < size
            invariant
                data.len() <= size,
                forall|i: int| 0 <= i < data.len() ==> data@[i] == fill,
            decreases size - data.len(),
        {
            data.push(fill);
        }
        Memory { data, fill, read_only: false }
    }

    /// A read-only block holding exactly the given bytes; its size is the
    /// length of `data`.
    pub fn new_rom(data: Vec<u8>, fill: u8) -> (r: Memory)
        ensures
            r@.data == data@,
            r@.fill == fill,
            r@.read_only,
    {
        Memory { data, fill, read_only: true }
    }

    /// Number of addressable bytes.
    pub fn size(&self) -> (r: usize)
        ensures
            r == self@.data.len(),
    {
        self.data.len()
    }

    /// Read the byte at `offset`; the flag is `false` exactly when `offset`
    /// is outside the block, in which case the byte is the fill value.
    pub fn read(&self, offset: usize) -> (r: (u8, bool))
        ensures
            r == mem_read(self@, offset as int),
    {
        if offset < self.data.len() {
            (self.data[offset], true)
        } else {
            (self.fill, false)
        }
    }

    /// Write `v` at `offset`; dropped when the block is read-only or the
    /// offset is outside the block.
    pub fn write(&mut self, offset: usize, v: u8)
        ensures
            final(self)@ == mem_write(old(self)@, offset as int, v),
    {
        if !self.read_only && offset < self.data.len() {
            self.data[offset] = v;
            assert(self@.data =~= mem_write(old(self)@, offset as int, v).data);
        }
    }
}

/// Model of one bus registration: a block and the base address of its
/// footprint.
#[verifier::ext_equal]
pub struct EntryModel {
    pub base: u16,
    pub mem: MemModel,
}

/// Whether address `addr` falls inside the footprint of entry `e`.
pub open spec fn entry_covers(e: EntryModel, addr: int) -> bool {
    e.base <= addr < e.base + e.mem.data.len()
}

/// Index of the first entry at position `i` or later whose footprint covers
/// `addr`, or -1 when none does.
pub open spec fn resolve_from(m: Seq<EntryModel>, addr: int, i: int) -> int
    decreases m.len() - i,
{
    if i < 0 || i >= m.len() {
        -1
    } else if entry_covers(m[i], addr) {
        i
    } else {
        resolve_from(m, addr, i + 1)
    }
}

/// Index of the owning entry for `addr`: the first registered entry whose
/// footprint covers it, or -1 when the address is unmapped.
pub open spec fn map_resolve(m: Seq<EntryModel>, addr: int) -> int {
    resolve_from(m, addr, 0)
}

/// What a bus read returns: the owning block's byte at the translated local
/// offset, or `(BUS_DEFAULT, false)` when no entry claims the address.
pub open spec fn map_read(m: Seq<EntryModel>, addr: int) -> (u8, bool) {
    let i = map_resolve(m, addr);
    if i >= 0 {
        mem_read(m[i].mem, addr - m[i].base)
    } else {
        (BUS_DEFAULT, false)
    }
}

/// The bus after a write: the owning block takes the byte at the translated
/// local offset; an unmapped write changes nothing.
pub open spec fn map_write(m: Seq<EntryModel>, addr: int, v: u8) -> Seq<EntryModel> {
    let i = map_resolve(m, addr);
    if i >= 0 {
        m.update(i, EntryModel { base: m[i].base, mem: mem_write(m[i].mem, addr - m[i].base, v) })
    } else {
        m
    }
}

/// Whether the footprints of two entries share at least one address.
pub open spec fn entries_overlap(a: EntryModel, b: EntryModel) -> bool {
    a.base < b.base + b.mem.data.len() && b.base < a.base + a.mem.data.len()
}

/// Whether any two distinct registered entries compete for a bus address.
pub open spec fn map_has_conflict(m: Seq<EntryModel>) -> bool {
    exists|i: int, j: int| 0 <= i < j < m.len() && entries_overlap(m[i], m[j])
}

/// One registered region: a storage block placed at a base address.
struct MapEntry {
    base: u16,
    mem: Memory,
}

impl View for MapEntry {
    type V = EntryModel;

    closed spec fn view(&self) -> EntryModel {
        EntryModel { base: self.base, mem: self.mem@ }
    }
}

/// A memory-mapped bus: an ordered set of storage blocks, each registered at
/// a base address. An address is resolved to the first region, in
/// registration order, whose footprint covers it; overlapping registrations
/// are therefore deterministic, the earlier registration winning.
pub struct MemoryMap {
    entries: Vec<MapEntry>,
}

impl View for MemoryMap {
    type V = Seq<EntryModel>;

    closed spec fn view(&self) -> Seq<EntryModel> {
        self.entries@.map_values(|e: MapEntry| e@)
    }
}

impl MemoryMap {
    /// An empty bus: every address is unmapped.
    pub fn new() -> (r: MemoryMap)
        ensures
            r@ =~= Seq::<EntryModel>::empty(),
    {
        MemoryMap { entries: Vec::new() }
    }

    /// Number of registered regions.
    pub fn len(&self) -> (r: usize)
        ensures
            r == self@.len(),
    {
        self.entries.len()
    }

    /// Register `mem` with its footprint starting at `base`. Registration
    /// order is resolution order: an address claimed by two regions is served
    /// by the earlier one.
    pub fn add(&mut self, base: u16, mem: Memory)
        ensures
            final(self)@ =~= old(self)@.push(EntryModel { base, mem: mem@ }),
    {
        self.entries.push(MapEntry { base, mem });
    }

    /// Read the byte at bus address `addr`: routed to the first region
    /// covering it, else `(BUS_DEFAULT, false)`.
    #[verifier::loop_isolation(false)]
    pub fn read(&self, addr: u16) -> (r: (u8, bool))
        ensures
            r == map_read(self@, addr as int),
    {
        let n = self.entries.len();
        let mut i: usize = 0;
        while i < n
            invariant
                i <= n,
                map_resolve(self@, addr as int) == resolve_from(self@, addr as int, i as int),
            decreases n - i,
        {
            let base = self.entries[i].base;
            if addr >= base && ((addr - base) as usize) < self.entries[i].mem.size() {
                assert(entry_covers(self@[i as int], addr as int));
                return self.entries[i].mem.read((addr - base) as usize);
            }
            assert(!entry_covers(self@[i as int], addr as int));
            i = i + 1;
        }
        (BUS_DEFAULT, false)
    }

    /// Write `v` at bus address `addr`: routed to the first region covering
    /// it; an unmapped or read-only target leaves every block unchanged.
    #[verifier::loop_isolation(false)]
    pub fn write(&mut self, addr: u16, v: u8)
        ensures
            final(self)@ == map_write(old(self)@, addr as int, v),
    {
        let n = self.entries.len();
        let mut i: usize = 0;
        while i < n
            invariant
                i <= n,
                *self == *old(self),
                map_resolve(self@, addr as int) == resolve_from(self@, addr as int, i as int),
            decreases n - i,
        {
            let base = self.entries[i].base;
            if addr >= base && ((addr - base) as usize) < self.entries[i].mem.size() {
                assert(entry_covers(self@[i as int], addr as int));
                let entry = &mut self.entries[i];
                entry.mem.write((addr - base) as usize, v);
                assert(final(self)@ =~= map_write(old(self)@, addr as int, v));
                return;
            }
            assert(!entry_covers(self@[i as int], addr as int));
            i = i + 1;
        }
    }

    /// Write `v` at local offset `offset` of the region registered at index
    /// `i`, bypassing address translation: the fast path the firmware loader
    /// takes into flash.
    pub fn write_region(&mut self, i: usize, offset: usize, v: u8)
        requires
            i < old(self)@.len(),
        ensures
            final(self)@ == old(self)@.update(
                i as int,
                EntryModel {
                    base: old(self)@[i as int].base,
                    mem: mem_write(old(self)@[i as int].mem, offset as int, v),
                },
            ),
    {
        let entry = &mut self.entries[i];
        entry.mem.write(offset, v);
        assert(final(self)@ =~= old(self)@.update(
            i as int,
            EntryModel {
                base: old(self)@[i as int].base,
                mem: mem_write(old(self)@[i as int].mem, offset as int, v),
            },
        ));
    }

    /// Validation pass for aliasing hazards: reports whether any two
    /// registered regions' footprints overlap.
    #[verifier::loop_isolation(false)]
    pub fn has_mapping_conflict(&self) -> (r: bool)
        ensures
            r == map_has_conflict(self@),
    {
        let n = self.entries.len();
        let mut i: usize = 0;
        while i < n
            invariant
                i <= n,
                forall|p: int, q: int|
                    0 <= p < q < self@.len() && p < i ==> !entries_overlap(self@[p], self@[q]),
            decreases n - i,
        {
            let mut j: usize = i + 1;
            while j < n
                invariant
                    i < j <= n,
                    forall|q: int| i < q < j ==> !entries_overlap(self@[i as int], self@[q]),
                decreases n - j,
            {
                if Self::footprints_overlap(
                    self.entries[i].base,
                    self.entries[i].mem.size(),
                    self.entries[j].base,
                    self.entries[j].mem.size(),
                ) {
                    assert(entries_overlap(self@[i as int], self@[j as int]));
                    return true;
                }
                j = j + 1;
            }
            i = i + 1;
        }
        false
    }

    /// Overflow-free test that `[a_base, a_base + a_len)` and
    /// `[b_base, b_base + b_len)` share an address.
    fn footprints_overlap(a_base: u16, a_len: usize, b_base: u16, b_len: usize) -> (r: bool)
        ensures
            r == ((a_base < b_base + b_len) && (b_base < a_base + a_len)),
    {
        let a_in_b = if a_base >= b_base {
            ((a_base - b_base) as usize) < b_len
        } else {
            true
        };
        let b_in_a = if b_base >= a_base {
            ((b_base - a_base) as usize) < a_len
        } else {
            true
        };
        a_in_b && b_in_a
    }
}

/// Everything `resolve_from` promises of its result: -1 means no entry at or
/// past `i` covers the address; otherwise it is the first covering index at
/// or past `i`.
pub proof fn lemma_resolve_from_props(m: Seq<EntryModel>, addr: int, i: int)
    requires
        0 <= i,
    ensures
        resolve_from(m, addr, i) == -1 ==> forall|p: int|
            i <= p < m.len() ==> !entry_covers(m[p], addr),
        resolve_from(m, addr, i) != -1 ==> {
            let r = resolve_from(m, addr, i);
            &&& i <= r < m.len()
            &&& entry_covers(m[r], addr)
            &&& forall|p: int| i <= p < r ==> !entry_covers(m[p], addr)
        },
    decreases m.len() - i,
{
    if i < m.len() && !entry_covers(m[i], addr) {
        lemma_resolve_from_props(m, addr, i + 1);
    }
}

/// Two bus states of the same shape (same region count, bases and sizes)
/// resolve every address to the same region index.
pub open spec fn same_shape(m1: Seq<EntryModel>, m2: Seq<EntryModel>) -> bool {
    &&& m1.len() == m2.len()
    &&& forall|i: int|
        0 <= i < m1.len() ==> m1[i].base == m2[i].base && m1[i].mem.data.len()
            == m2[i].mem.data.len() && m1[i].mem.read_only == m2[i].mem.read_only
            && m1[i].mem.fill == m2[i].mem.fill
}

pub proof fn lemma_resolve_same_shape(m1: Seq<EntryModel>, m2: Seq<EntryModel>, addr: int, i: int)
    requires
        0 <= i,
        same_shape(m1, m2),
    ensures
        resolve_from(m1, addr, i) == resolve_from(m2, addr, i),
    decreases m1.len() - i,
{
    if i < m1.len() {
        lemma_resolve_same_shape(m1, m2, addr, i + 1);
    }
}

/// A bus write keeps the bus shape: region count, bases and sizes are
/// untouched, whatever the address.
pub proof fn lemma_write_same_shape(m: Seq<EntryModel>, addr: int, v: u8)
    ensures
        same_shape(m, map_write(m, addr, v)),
{
    let m2 = map_write(m, addr, v);
    lemma_resolve_from_props(m, addr, 0);
    assert forall|i: int| 0 <= i < m.len() implies m[i].base == m2[i].base
        && m[i].mem.data.len() == m2[i].mem.data.len()
        && m[i].mem.read_only == m2[i].mem.read_only && m[i].mem.fill == m2[i].mem.fill by {
        let r = map_resolve(m, addr);
        if r >= 0 && i == r {
            assert(m2[i].mem == mem_write(m[i].mem, addr - m[i].base, v));
        }
    }
}

/// For every address inside a registered region's footprint, a bus write of
/// `v` followed by a bus read returns `(v, true)` — unless the owning region
/// is read-only, in which case the write changes nothing and the read
/// returns the stored value.
pub proof fn lemma_mapped_write_then_read(m: Seq<EntryModel>, addr: int, v: u8)
    requires
        map_resolve(m, addr) >= 0,
    ensures
        ({
            let i = map_resolve(m, addr);
            let m2 = map_write(m, addr, v);
            &&& !m[i].mem.read_only ==> map_read(m2, addr) == (v, true)
            &&& m[i].mem.read_only ==> m2 == m && map_read(m2, addr) == (m[i].mem.data[addr
                - m[i].base], true)
        }),
{
    let i = map_resolve(m, addr);
    let m2 = map_write(m, addr, v);
    lemma_resolve_from_props(m, addr, 0);
    lemma_write_same_shape(m, addr, v);
    lemma_resolve_same_shape(m, m2, addr, 0);
    if m[i].mem.read_only {
        assert(m2 =~= m);
    }
}

/// For every address that no registered region covers, a bus read returns
/// `(BUS_DEFAULT, false)` and a bus write has no observable effect.
pub proof fn lemma_unmapped_read_write(m: Seq<EntryModel>, addr: int, v: u8)
    requires
        forall|k: int| 0 <= k < m.len() ==> !entry_covers(m[k], addr),
    ensures
        map_read(m, addr) == (BUS_DEFAULT, false),
        map_write(m, addr, v) == m,
{
    lemma_resolve_from_props(m, addr, 0);
}

/// Overlap resolution is deterministic: when two registered regions both
/// cover an address, the bus serves the first covering region in
/// registration order — reads inside the overlap come from that region and
/// from no later one.
pub proof fn lemma_overlap_deterministic(m: Seq<EntryModel>, addr: int, i: int, j: int)
    requires
        0 <= i < j < m.len(),
        entry_covers(m[i], addr),
        entry_covers(m[j], addr),
    ensures
        ({
            let r = map_resolve(m, addr);
            &&& 0 <= r <= i
            &&& entry_covers(m[r], addr)
            &&& forall|p: int| 0 <= p < r ==> !entry_covers(m[p], addr)
            &&& map_read(m, addr) == mem_read(m[r].mem, addr - m[r].base)
        }),
{
    lemma_resolve_from_props(m, addr, 0);
}

} // verus!
