//! Device assembly: the ATtiny1626 memory map — flash, SRAM and the
//! peripheral register blocks at their datasheet offsets — an execution core
//! bound to it, firmware loading from decoded hex records, and diagnostic
//! dumps of registers and stack.

use vstd::prelude::*;
use crate::cores::{
    core_wf, lemma_step_same_shape, spec_step, Core, CoreModel, CoreType, FLASH_BASE, FLASH_SIZE,
};
use crate::isa::spec_flags_cleared;
use crate::memory::{
    entries_overlap, map_has_conflict, map_read, mem_write, EntryModel, MemModel, Memory,
    MemoryMap,
};

verus! {

/// The parts this crate can assemble.
pub enum DeviceType {
    ATtiny1626,
}

/// Highest valid SRAM bus address of the ATtiny1626: the stack pointer's
/// reset value.
pub const RAMEND_1626: u16 = 0x3BFF;

/// Bus address at which SRAM starts on the ATtiny1626.
pub const SRAM_BASE_1626: u16 = 0x3400;

/// Index of the flash region in the device's registration order; the
/// firmware loader takes this fast path into flash without address
/// translation.
pub const FLASH_REGION: usize = 17;

/// Failure of the firmware loader: the hex text holds a record that does
/// not decode.
#[derive(Clone, Copy, PartialEq, Eq, Structural, Debug)]
pub enum HexError {
    Format,
}

/// A writable block model of `size` bytes all holding `fill`.
pub open spec fn ram_model(size: int, fill: u8) -> MemModel {
    MemModel { data: Seq::new(size as nat, |i: int| fill), fill, read_only: false }
}

/// A read-only block model holding exactly `data`, reading back 0x00 out of
/// range.
pub open spec fn rom_model(data: Seq<u8>) -> MemModel {
    MemModel { data, fill: 0x00, read_only: true }
}

/// An all-zero read-only block model of `size` bytes.
pub open spec fn zero_rom_model(size: int) -> MemModel {
    rom_model(Seq::new(size as nat, |i: int| 0u8))
}

/// The ATtiny1626 bus, region by region in registration order: GPIO and the
/// peripheral stub blocks at their datasheet offsets, the system
/// configuration, fuse, user-row and EEPROM blocks as read-only data, then
/// SRAM and flash. Every block not yet modelled still occupies its exact
/// address footprint so that bus probes behave plausibly.
pub open spec fn attiny1626_map() -> Seq<EntryModel> {
    seq![
        EntryModel { base: 0x001C, mem: ram_model(0x04, 0x00) },  // GPIO
        EntryModel { base: 0x0030, mem: ram_model(0x10, 0x00) },  // CPU
        EntryModel { base: 0x0050, mem: zero_rom_model(0x01) },  // SLPCTRL
        EntryModel { base: 0x0060, mem: ram_model(0x1D, 0x00) },  // CLKCTRL
        EntryModel { base: 0x0080, mem: zero_rom_model(0x0C) },  // BOD
        EntryModel { base: 0x0120, mem: zero_rom_model(0x03) },  // CRCSCAN
        EntryModel { base: 0x0400, mem: ram_model(0x18, 0x00) },  // PORTA
        EntryModel { base: 0x0420, mem: ram_model(0x18, 0x00) },  // PORTB
        EntryModel { base: 0x0440, mem: ram_model(0x18, 0x00) },  // PORTC
        EntryModel { base: 0x0680, mem: zero_rom_model(0x08) },  // AC0
        EntryModel { base: 0x08A0, mem: zero_rom_model(0x0F) },  // TWI0
        EntryModel { base: 0x0F00, mem: rom_model(seq![0x00u8, 0x04u8]) },  // SYSCFG
        EntryModel { base: 0x1000, mem: zero_rom_model(0x09) },  // NVMCTRL
        EntryModel { base: 0x1280, mem: rom_model(seq![0x00u8, 0x00u8, 0x7Eu8]) },  // FUSE
        EntryModel { base: 0x1300, mem: zero_rom_model(0x80) },  // USERROW
        EntryModel { base: 0x1400, mem: zero_rom_model(0x100) },  // EEPROM
        EntryModel { base: 0x3400, mem: ram_model(0x800, 0x00) },  // SRAM
        EntryModel { base: 0x8000, mem: ram_model(0x4000, 0xFF) },  // FLASH
    ]
}

/// The core at reset, bound to the ATtiny1626 stack window.
pub open spec fn initial_core_1626() -> CoreModel {
    CoreModel {
        regs: Seq::new(32, |i: int| 0u8),
        flags: spec_flags_cleared(),
        pc: 0,
        sp: RAMEND_1626,
        sram_base: SRAM_BASE_1626,
        ramend: RAMEND_1626,
        debug: false,
        halt: None,
    }
}

/// The data records of an Intel HEX text, in file order, as
/// (offset, bytes) pairs — or `None` when some record fails to decode.
/// Non-data records are accepted and ignored; extended-address records in
/// particular are not applied, so firmware addressing past 64 KiB within a
/// segment is out of scope.
pub uninterp spec fn hex_records(s: Seq<char>) -> Option<Seq<(u16, Seq<u8>)>>;

/// The (offset, bytes) view of parsed records.
pub open spec fn records_view(rs: Seq<(u16, Vec<u8>)>) -> Seq<(u16, Seq<u8>)> {
    rs.map_values(|p: (u16, Vec<u8>)| (p.0, p.1@))
}

/// Relies on ihex::Reader and ihex::Record: iterating the reader parses the
/// text record by record, yielding data records' offset and bytes in file
/// order; the first record-level parse error ends iteration, reported here
/// as `None`. The result depends on the text alone.
#[verifier::external_body]
fn parse_hex(text: &str) -> (r: Option<Vec<(u16, Vec<u8>)>>)
    ensures
        r is Some <==> hex_records(text@) is Some,
        r matches Some(v) ==> Some(records_view(v@)) == hex_records(text@),
{
    let mut out: Vec<(u16, Vec<u8>)> = Vec::new();
    for rec in ihex::Reader::new(text) {
        match rec {
            Ok(ihex::Record::Data { offset, value }) => out.push((offset, value)),
            Ok(_) => {},
            Err(_) => {
                return None;
            },
        }
    }
    Some(out)
}

/// The block after the bytes of one data record are written in order,
/// starting at local offset `off`; bytes that fall outside the block are
/// dropped, as every out-of-range write is.
pub open spec fn apply_bytes(m: MemModel, off: int, bytes: Seq<u8>) -> MemModel
    decreases bytes.len(),
{
    if bytes.len() == 0 {
        m
    } else {
        mem_write(apply_bytes(m, off, bytes.drop_last()), off + bytes.len() - 1, bytes.last())
    }
}

/// The block after every record's bytes are written, records in file order.
pub open spec fn apply_records(m: MemModel, rs: Seq<(u16, Seq<u8>)>) -> MemModel
    decreases rs.len(),
{
    if rs.len() == 0 {
        m
    } else {
        apply_bytes(apply_records(m, rs.drop_last()), rs.last().0 as int, rs.last().1)
    }
}

/// Applying record bytes never changes a block's size, writability or fill.
pub proof fn lemma_apply_bytes_shape(m: MemModel, off: int, bytes: Seq<u8>)
    ensures
        apply_bytes(m, off, bytes).data.len() == m.data.len(),
        apply_bytes(m, off, bytes).read_only == m.read_only,
        apply_bytes(m, off, bytes).fill == m.fill,
    decreases bytes.len(),
{
    if bytes.len() > 0 {
        lemma_apply_bytes_shape(m, off, bytes.drop_last());
    }
}

/// Applying records never changes a block's size, writability or fill.
pub proof fn lemma_apply_records_shape(m: MemModel, rs: Seq<(u16, Seq<u8>)>)
    ensures
        apply_records(m, rs).data.len() == m.data.len(),
        apply_records(m, rs).read_only == m.read_only,
        apply_records(m, rs).fill == m.fill,
    decreases rs.len(),
{
    if rs.len() > 0 {
        lemma_apply_records_shape(m, rs.drop_last());
        lemma_apply_bytes_shape(apply_records(m, rs.drop_last()), rs.last().0 as int, rs.last().1);
    }
}

/// No two regions of the assembled map compete for a bus address: every
/// peripheral block, SRAM and flash occupy disjoint footprints.
#[verifier::rlimit(100)]
pub proof fn lemma_attiny1626_map_disjoint()
    ensures
        !map_has_conflict(attiny1626_map()),
{
    let m = attiny1626_map();
    assert forall|i: int, j: int| 0 <= i < j < m.len() implies !entries_overlap(m[i], m[j]) by {
        assert(m[i].base + m[i].mem.data.len() <= m[j].base);
    }
}

/// One emulated part: the execution core and the memory-mapped bus it runs
/// against.
pub struct Device {
    pub core: Core,
    pub mm: MemoryMap,
}

impl Device {
    /// Device well-formedness: a well-formed core whose stack window is the
    /// part's, and a bus whose flash region sits at its registration index
    /// with the architected base, size and writability.
    pub open spec fn wf(&self) -> bool {
        &&& core_wf(self.core@)
        &&& self.core@.sram_base == SRAM_BASE_1626
        &&& self.core@.ramend == RAMEND_1626
        &&& FLASH_REGION < self.mm@.len()
        &&& self.mm@[FLASH_REGION as int].base == FLASH_BASE
        &&& self.mm@[FLASH_REGION as int].mem.data.len() == FLASH_SIZE
        &&& !self.mm@[FLASH_REGION as int].mem.read_only
    }

    /// Assemble the named part: its exact memory map, and a core at reset
    /// with the stack pointer at `RAMEND`.
    #[verifier::rlimit(100)]
    pub fn new(dt: DeviceType) -> (d: Device)
        ensures
            d.wf(),
            d.mm@ == attiny1626_map(),
            d.core@ == initial_core_1626(),
    {
        match dt {
            DeviceType::ATtiny1626 => {
                let mut mm = MemoryMap::new();
                mm.add(0x001C, Memory::new(0x04, 0x00));  // GPIO
                mm.add(0x0030, Memory::new(0x10, 0x00));  // CPU
                mm.add(0x0050, Memory::new_rom(zero_vec(0x01), 0x00));  // SLPCTRL
                mm.add(0x0060, Memory::new(0x1D, 0x00));  // CLKCTRL
                mm.add(0x0080, Memory::new_rom(zero_vec(0x0C), 0x00));  // BOD
                mm.add(0x0120, Memory::new_rom(zero_vec(0x03), 0x00));  // CRCSCAN
                mm.add(0x0400, Memory::new(0x18, 0x00));  // PORTA
                mm.add(0x0420, Memory::new(0x18, 0x00));  // PORTB
                mm.add(0x0440, Memory::new(0x18, 0x00));  // PORTC
                mm.add(0x0680, Memory::new_rom(zero_vec(0x08), 0x00));  // AC0
                mm.add(0x08A0, Memory::new_rom(zero_vec(0x0F), 0x00));  // TWI0
                let mut syscfg: Vec<u8> = Vec::new();
                syscfg.push(0x00);
                syscfg.push(0x04);  // revision E is the initial release
                mm.add(0x0F00, Memory::new_rom(syscfg, 0x00));  // SYSCFG
                mm.add(0x1000, Memory::new_rom(zero_vec(0x09), 0x00));  // NVMCTRL
                let mut fuse: Vec<u8> = Vec::new();
                fuse.push(0x00);
                fuse.push(0x00);
                fuse.push(0x7E);
                mm.add(0x1280, Memory::new_rom(fuse, 0x00));  // FUSE
                mm.add(0x1300, Memory::new_rom(zero_vec(0x80), 0x00));  // USERROW
                mm.add(0x1400, Memory::new_rom(zero_vec(0x100), 0x00));  // EEPROM
                mm.add(0x3400, Memory::new(0x800, 0x00));  // SRAM
                mm.add(0x8000, Memory::new(0x4000, 0xFF));  // FLASH
                let core = Core::new(CoreType::AVRxt, SRAM_BASE_1626, RAMEND_1626);
                let d = Device { core, mm };
                proof {
                    assert(d.mm@ =~~= attiny1626_map());
                    assert(d.core@ =~~= initial_core_1626());
                }
                d
            },
        }
    }

    /// Decode `text` as Intel HEX and write each data record's bytes into
    /// flash starting at the record's stated offset, leaving every other
    /// region and the core untouched. A text with an undecodable record
    /// changes nothing and reports the format error.
    #[verifier::loop_isolation(false)]
    #[verifier::rlimit(100)]
    pub fn load_hex(&mut self, text: &str) -> (r: Result<(), HexError>)
        requires
            old(self).wf(),
        ensures
            final(self).wf(),
            final(self).core == old(self).core,
            hex_records(text@) is None ==> r == Err::<(), HexError>(HexError::Format)
                && final(self).mm@ == old(self).mm@,
            hex_records(text@) matches Some(rs) ==> r == Ok::<(), HexError>(())
                && final(self).mm@ == old(self).mm@.update(
                FLASH_REGION as int,
                EntryModel {
                    base: old(self).mm@[FLASH_REGION as int].base,
                    mem: apply_records(old(self).mm@[FLASH_REGION as int].mem, rs),
                },
            ),
    {
        match parse_hex(text) {
            Option::None => Err(HexError::Format),
            Option::Some(records) => {
                let ghost rs = records_view(records@);
                let ghost m0 = self.mm@;
                let ghost flash0 = self.mm@[FLASH_REGION as int].mem;
                proof {
                    assert(rs.take(0) =~= Seq::<(u16, Seq<u8>)>::empty());
                    assert(m0.update(
                        FLASH_REGION as int,
                        EntryModel { base: m0[FLASH_REGION as int].base, mem: flash0 },
                    ) =~= m0);
                }
                let mut idx: usize = 0;
                while idx < records.len()
                    invariant
                        idx <= records.len(),
                        self.core == old(self).core,
                        self.wf(),
                        self.mm@ == m0.update(
                            FLASH_REGION as int,
                            EntryModel {
                                base: m0[FLASH_REGION as int].base,
                                mem: apply_records(flash0, rs.take(idx as int)),
                            },
                        ),
                    decreases records.len() - idx,
                {
                    let off = records[idx].0;
                    let ghost flash_at = apply_records(flash0, rs.take(idx as int));
                    let ghost bytes_seq = rs[idx as int].1;
                    proof {
                        assert(bytes_seq == records@[idx as int].1@);
                        assert(bytes_seq.take(0) =~= Seq::<u8>::empty());
                        lemma_apply_records_shape(flash0, rs.take(idx as int));
                    }
                    let mut j: usize = 0;
                    while j < records[idx].1.len()
                        invariant
                            idx < records.len(),
                            j <= bytes_seq.len(),
                            self.core == old(self).core,
                            self.wf(),
                            self.mm@ == m0.update(
                                FLASH_REGION as int,
                                EntryModel {
                                    base: m0[FLASH_REGION as int].base,
                                    mem: apply_bytes(flash_at, off as int, bytes_seq.take(j as int)),
                                },
                            ),
                        decreases bytes_seq.len() - j,
                    {
                        let b = records[idx].1[j];
                        proof {
                            assert(bytes_seq.take(j as int + 1).drop_last() =~= bytes_seq.take(
                                j as int,
                            ));
                            assert(bytes_seq.take(j as int + 1).last() == bytes_seq[j as int]);
                            lemma_apply_bytes_shape(flash_at, off as int, bytes_seq.take(j as int));
                        }
                        if j < 0x4000 {
                            self.mm.write_region(FLASH_REGION, off as usize + j, b);
                            proof {
                                assert(self.mm@ =~= m0.update(
                                    FLASH_REGION as int,
                                    EntryModel {
                                        base: m0[FLASH_REGION as int].base,
                                        mem: apply_bytes(
                                            flash_at,
                                            off as int,
                                            bytes_seq.take(j as int + 1),
                                        ),
                                    },
                                ));
                            }
                        } else {
                            proof {
                                lemma_apply_records_shape(flash0, rs.take(idx as int));
                                assert(apply_bytes(flash_at, off as int, bytes_seq.take(j as int))
                                    .data.len() == FLASH_SIZE);
                                assert(mem_write(
                                    apply_bytes(flash_at, off as int, bytes_seq.take(j as int)),
                                    off + j,
                                    bytes_seq[j as int],
                                ) == apply_bytes(flash_at, off as int, bytes_seq.take(j as int)));
                            }
                        }
                        j = j + 1;
                    }
                    proof {
                        assert(bytes_seq.take(bytes_seq.len() as int) =~= bytes_seq);
                        assert(rs.take(idx as int + 1).drop_last() =~= rs.take(idx as int));
                        assert(rs.take(idx as int + 1).last() == rs[idx as int]);
                        assert(apply_records(flash0, rs.take(idx as int + 1)) == apply_bytes(
                            flash_at,
                            off as int,
                            bytes_seq,
                        ));
                    }
                    idx = idx + 1;
                }
                proof {
                    assert(rs.take(records.len() as int) =~= rs);
                }
                Ok(())
            },
        }
    }

    /// Advance the core by one instruction; `true` while the run loop should
    /// continue.
    pub fn tick(&mut self) -> (r: bool)
        requires
            old(self).wf(),
        ensures
            final(self).wf(),
            final(self).core@ == spec_step(old(self).core@, old(self).mm@).core,
            final(self).mm@ == spec_step(old(self).core@, old(self).mm@).mem,
            r == spec_step(old(self).core@, old(self).mm@).running,
    {
        proof {
            lemma_step_same_shape(old(self).core@, old(self).mm@);
        }
        self.core.step(&mut self.mm)
    }

    /// Pass the trace flag through to the core; execution semantics are
    /// unaffected.
    pub fn debug(&mut self, enabled: bool)
        requires
            old(self).wf(),
        ensures
            final(self).wf(),
            final(self).core@ == (CoreModel { debug: enabled, ..old(self).core@ }),
            final(self).mm@ == old(self).mm@,
    {
        self.core.debug(enabled);
    }

    /// The register file R0..R31, in index order.
    #[verifier::loop_isolation(false)]
    pub fn dump_regs(&self) -> (r: Vec<u8>)
        requires
            self.wf(),
        ensures
            r@ == self.core@.regs,
    {
        let mut out: Vec<u8> = Vec::new();
        let mut i: u8 = 0;
        while i < 32
            invariant
                i <= 32,
                out@ =~= self.core@.regs.take(i as int),
            decreases 32 - i,
        {
            out.push(self.core.get_r(i));
            i = i + 1;
        }
        proof {
            assert(self.core@.regs.take(32) =~= self.core@.regs);
        }
        out
    }

    /// The stack contents, walking the bus from one above the stack pointer
    /// up to `RAMEND` inclusive: each element pairs the byte's offset below
    /// `RAMEND` with its value. An untouched core yields no elements.
    #[verifier::loop_isolation(false)]
    pub fn dump_stack(&self) -> (r: Vec<(u16, u8)>)
        requires
            self.wf(),
        ensures
            r@.len() == self.core@.ramend - self.core@.sp,
            forall|i: int|
                0 <= i < r@.len() ==> r@[i] == (
                    ((self.core@.ramend - self.core@.sp - 1 - i) as u16),
                    map_read(self.mm@, self.core@.sp + 1 + i).0,
                ),
    {
        let mut out: Vec<(u16, u8)> = Vec::new();
        let mut sp = self.core.get_sp();
        let re = self.core.get_ramend();
        while sp < re
            invariant
                self.core@.sp <= sp <= re,
                re == self.core@.ramend,
                out@.len() == sp - self.core@.sp,
                forall|i: int|
                    0 <= i < out@.len() ==> out@[i] == (
                        ((self.core@.ramend - self.core@.sp - 1 - i) as u16),
                        map_read(self.mm@, self.core@.sp + 1 + i).0,
                    ),
            decreases re - sp,
        {
            sp = sp + 1;
            let (v, _) = self.mm.read(sp);
            out.push((re - sp, v));
        }
        out
    }
}

/// A writable all-zero byte vector of length `n`.
fn zero_vec(n: usize) -> (r: Vec<u8>)
    ensures
        r@ =~= Seq::new(n as nat, |i: int| 0u8),
{
    let mut data: Vec<u8> = Vec::new();
    while data.len() < n
        invariant
            data.len() <= n,
            forall|i: int| 0 <= i < data.len() ==> data@[i] == 0u8,
        decreases n - data.len(),
    {
        data.push(0);
    }
    data
}

} // verus!
