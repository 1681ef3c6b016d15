//! Tests of device assembly, firmware loading and the execution core.

use tinyavr::cores::HaltReason;
use tinyavr::devices::{Device, DeviceType, HexError};

const FLASH_BASE: u16 = 0x8000;
const RAMEND: u16 = 0x3BFF;

/// Poke one opcode word into flash, little-endian, at flash byte offset
/// `off`.
fn write_word(d: &mut Device, off: u16, w: u16) {
    d.mm.write(FLASH_BASE + off, (w & 0xFF) as u8);
    d.mm.write(FLASH_BASE + off + 1, (w >> 8) as u8);
}

#[test]
fn device_map_has_no_conflict() {
    let d = Device::new(DeviceType::ATtiny1626);
    assert!(!d.mm.has_mapping_conflict());
}

#[test]
fn load_hex_two_records() {
    let mut d = Device::new(DeviceType::ATtiny1626);
    let text = ":020000000102FB\n:0100020003FA\n:00000001FF\n";
    assert_eq!(d.load_hex(text), Ok(()));
    assert_eq!(d.mm.read(FLASH_BASE), (0x01, true));
    assert_eq!(d.mm.read(FLASH_BASE + 1), (0x02, true));
    assert_eq!(d.mm.read(FLASH_BASE + 2), (0x03, true));
    // elsewhere flash still reads as erased
    assert_eq!(d.mm.read(FLASH_BASE + 3), (0xFF, true));
}

#[test]
fn load_hex_bad_record_is_format_error() {
    let mut d = Device::new(DeviceType::ATtiny1626);
    assert_eq!(d.load_hex(":02000000010\n"), Err(HexError::Format));
    // nothing was written
    assert_eq!(d.mm.read(FLASH_BASE), (0xFF, true));
}

#[test]
fn dump_stack_untouched_core_is_empty() {
    let d = Device::new(DeviceType::ATtiny1626);
    assert_eq!(d.core.get_sp(), RAMEND);
    assert!(d.dump_stack().is_empty());
}

#[test]
fn dump_regs_at_reset_all_zero() {
    let d = Device::new(DeviceType::ATtiny1626);
    let regs = d.dump_regs();
    assert_eq!(regs.len(), 32);
    assert!(regs.iter().all(|&b| b == 0));
}

#[test]
fn step_nop_advances_pc_only() {
    let mut d = Device::new(DeviceType::ATtiny1626);
    write_word(&mut d, 0, 0x0000);
    let before_regs = d.dump_regs();
    let before_sp = d.core.get_sp();
    assert!(d.tick());
    assert_eq!(d.core.get_pc(), 2);
    assert_eq!(d.dump_regs(), before_regs);
    assert_eq!(d.core.get_sp(), before_sp);
    assert_eq!(d.core.halt_reason(), None);
}

#[test]
fn push_pop_restores_sp_and_value() {
    let mut d = Device::new(DeviceType::ATtiny1626);
    write_word(&mut d, 0, 0xEA0B); // LDI r16, 0xAB
    write_word(&mut d, 2, 0x930F); // PUSH r16
    write_word(&mut d, 4, 0x911F); // POP r17
    let sp0 = d.core.get_sp();
    assert!(d.tick());
    assert!(d.tick());
    assert_eq!(d.core.get_sp(), sp0 - 1);
    // the pushed byte is visible on the stack dump
    assert_eq!(d.dump_stack(), vec![(0, 0xAB)]);
    assert!(d.tick());
    assert_eq!(d.core.get_sp(), sp0);
    assert_eq!(d.core.get_r(17), 0xAB);
}

#[test]
fn add_sets_result_and_carry() {
    let mut d = Device::new(DeviceType::ATtiny1626);
    write_word(&mut d, 0, 0xEC08); // LDI r16, 200
    write_word(&mut d, 2, 0xE614); // LDI r17, 100
    write_word(&mut d, 4, 0x0F01); // ADD r16, r17
    assert!(d.tick());
    assert!(d.tick());
    assert_eq!(d.core.get_r(16), 200);
    assert_eq!(d.core.get_r(17), 100);
    assert!(d.tick());
    assert_eq!(d.core.get_r(16), 44); // 300 modulo 256, carry out
}

#[test]
fn sts_and_lds_move_data_through_sram() {
    let mut d = Device::new(DeviceType::ATtiny1626);
    write_word(&mut d, 0, 0xE50A); // LDI r16, 0x5A
    write_word(&mut d, 2, 0x9300); // STS (second word is the address)
    write_word(&mut d, 4, 0x3400);
    write_word(&mut d, 6, 0x9110); // LDS r17
    write_word(&mut d, 8, 0x3400);
    assert!(d.tick());
    assert!(d.tick());
    assert_eq!(d.mm.read(0x3400), (0x5A, true));
    assert!(d.tick());
    assert_eq!(d.core.get_r(17), 0x5A);
}

#[test]
fn rcall_and_ret_round_trip() {
    let mut d = Device::new(DeviceType::ATtiny1626);
    write_word(&mut d, 0, 0xD001); // RCALL +1 word -> byte 4
    write_word(&mut d, 2, 0x0000); // NOP, the return target
    write_word(&mut d, 4, 0xE027); // LDI r18, 7
    write_word(&mut d, 6, 0x9508); // RET
    assert!(d.tick()); // call
    assert_eq!(d.core.get_pc(), 4);
    assert_eq!(d.core.get_sp(), RAMEND - 2);
    assert!(d.tick()); // LDI
    assert!(d.tick()); // RET
    assert_eq!(d.core.get_pc(), 2);
    assert_eq!(d.core.get_sp(), RAMEND);
    assert_eq!(d.core.get_r(18), 7);
}

#[test]
fn branch_taken_and_not_taken() {
    let mut d = Device::new(DeviceType::ATtiny1626);
    write_word(&mut d, 0, 0xE30C); // LDI r16, 0x3C
    write_word(&mut d, 2, 0x3300); // CPI r16, 0x30 -> not equal, no carry
    write_word(&mut d, 4, 0xF011); // BREQ +2 words (not taken)
    write_word(&mut d, 6, 0xF411); // BRNE +2 words (taken) -> byte 12
    assert!(d.tick());
    assert!(d.tick());
    assert!(d.tick());
    assert_eq!(d.core.get_pc(), 6); // fell through
    assert!(d.tick());
    assert_eq!(d.core.get_pc(), 12); // branched
}

#[test]
fn illegal_opcode_halts_without_panicking() {
    let mut d = Device::new(DeviceType::ATtiny1626);
    // erased flash reads 0xFFFF, which is no implemented encoding
    assert!(!d.tick());
    assert_eq!(d.core.halt_reason(), Some(HaltReason::IllegalOpcode));
}

#[test]
fn break_halts() {
    let mut d = Device::new(DeviceType::ATtiny1626);
    write_word(&mut d, 0, 0x9598); // BREAK
    assert!(!d.tick());
    assert_eq!(d.core.halt_reason(), Some(HaltReason::Break));
}

#[test]
fn runaway_push_loop_faults_on_stack_overflow() {
    let mut d = Device::new(DeviceType::ATtiny1626);
    write_word(&mut d, 0, 0x930F); // PUSH r16
    write_word(&mut d, 2, 0xCFFE); // RJMP -2 words, back to the push
    let mut steps = 0u32;
    while d.tick() {
        steps += 1;
        assert!(steps < 20_000, "loop failed to fault");
    }
    assert_eq!(d.core.halt_reason(), Some(HaltReason::StackOverflow));
    // the stack pointer stopped one below the SRAM base, never outside it
    assert_eq!(d.core.get_sp(), 0x33FF);
}

#[test]
fn writes_to_rom_regions_are_dropped() {
    let mut d = Device::new(DeviceType::ATtiny1626);
    // SYSCFG revision byte is read-only
    assert_eq!(d.mm.read(0x0F01), (0x04, true));
    d.mm.write(0x0F01, 0x99);
    assert_eq!(d.mm.read(0x0F01), (0x04, true));
}

#[test]
fn debug_flag_does_not_change_execution() {
    let mut d = Device::new(DeviceType::ATtiny1626);
    write_word(&mut d, 0, 0x0000);
    d.debug(true);
    assert!(d.tick());
    assert_eq!(d.core.get_pc(), 2);
}

#[test]
fn load_hex_ignores_non_data_records() {
    let mut d = Device::new(DeviceType::ATtiny1626);
    // an extended-linear-address record is accepted but not applied
    let text = ":020000040000FA\n:020000000102FB\n:00000001FF\n";
    assert_eq!(d.load_hex(text), Ok(()));
    assert_eq!(d.mm.read(FLASH_BASE), (0x01, true));
    assert_eq!(d.mm.read(FLASH_BASE + 1), (0x02, true));
}

#[test]
fn load_hex_bytes_past_flash_end_are_dropped() {
    let mut d = Device::new(DeviceType::ATtiny1626);
    // a record straddling the last flash byte: the first byte lands, the
    // second falls outside the block and is dropped
    let text = ":023FFF00AABB5B\n:00000001FF\n";
    assert_eq!(d.load_hex(text), Ok(()));
    assert_eq!(d.mm.read(FLASH_BASE + 0x3FFF), (0xAA, true));
    assert_eq!(d.mm.read(0xC000), (0x00, false));
}
