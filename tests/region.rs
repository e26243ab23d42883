use bytevm::jit::{load_immediate, ExecMemory, PAGE_SIZE, RET_INSTRUCTION};
use bytevm::vm::VM;

#[test]
fn fresh_regions_hold_only_ret() {
    for k in [1usize, 2, 10] {
        let mem = ExecMemory::new(k);
        assert_eq!(mem.len(), k * PAGE_SIZE);
        assert_eq!(mem.num_pages(), k);
        assert!(mem.as_bytes().iter().all(|b| *b == 0xc3));
        assert_eq!(mem.read(0), RET_INSTRUCTION);
        assert_eq!(mem.read(k * PAGE_SIZE - 1), RET_INSTRUCTION);
    }
}

#[test]
fn load_immediate_three() {
    assert_eq!(load_immediate(3), vec![0x48, 0xc7, 0xc0, 0x03, 0x00, 0x00, 0x00]);
    assert_eq!(load_immediate(-1), vec![0x48, 0xc7, 0xc0, 0xff, 0xff, 0xff, 0xff]);
    assert_eq!(load_immediate(0x12345678), vec![0x48, 0xc7, 0xc0, 0x78, 0x56, 0x34, 0x12]);
}

#[test]
fn write_and_read_bytes() {
    let mut mem = ExecMemory::new(1);
    mem.write(5, 0x90);
    assert_eq!(mem.read(5), 0x90);
    assert_eq!(mem.read(4), 0xc3);
    mem.write_code(100, &[1, 2, 3]);
    assert_eq!(&mem.as_bytes()[99..104], &[0xc3, 1, 2, 3, 0xc3]);
    assert_eq!(mem.len(), PAGE_SIZE);
}

#[test]
fn vm_program_loads_three_then_returns() {
    let vm = VM::new();
    let mem = vm.build();
    assert_eq!(mem.num_pages(), 10);
    assert_eq!(&mem.as_bytes()[..8], &[0x48, 0xc7, 0xc0, 0x03, 0x00, 0x00, 0x00, 0xc3]);
    assert!(mem.as_bytes()[7..].iter().all(|b| *b == 0xc3));
}
