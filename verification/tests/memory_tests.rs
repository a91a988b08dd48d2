use toy_cpu::memory::Memory;

#[test]
fn mem_read_write() {
    let mut m = Memory::new();
    m.write(0x10, 0xAA);
    assert_eq!(m.read(0x10), 0xAA);
}

#[test]
fn memory_starts_zeroed_and_has_256_bytes() {
    let m = Memory::new();
    assert_eq!(m.size(), 256);
    for addr in 0..256 {
        assert_eq!(m.read(addr), 0);
    }
}

#[test]
fn reading_wraps() {
    let mut m = Memory::new();
    m.write(0, 7);
    assert_eq!(m.read(256), 7);
    assert_eq!(m.read(512), 7);
    m.write(257, 9);
    assert_eq!(m.read(1), 9);
}

#[test]
fn write_bytes_wraps_past_the_end() {
    let mut m = Memory::new();
    m.write_bytes(254, &[1, 2, 3, 4]);
    assert_eq!(m.read(254), 1);
    assert_eq!(m.read(255), 2);
    assert_eq!(m.read(0), 3);
    assert_eq!(m.read(1), 4);
    assert_eq!(m.read(2), 0);
    assert_eq!(m.read(253), 0);
}

#[test]
fn write_bytes_longer_than_memory_keeps_the_last() {
    let mut m = Memory::new();
    let bytes: Vec<u8> = (0..300).map(|i| (i % 251) as u8).collect();
    m.write_bytes(10, &bytes);
    assert_eq!(m.read(10), (256 % 251) as u8);
    assert_eq!(m.read(10 + 43), (299 % 251) as u8);
    assert_eq!(m.read(10 + 44), 44);
    assert_eq!(m.read(9), 255 % 251);
}

#[test]
fn write_bytes_of_nothing_changes_nothing() {
    let mut m = Memory::new();
    m.write(3, 3);
    m.write_bytes(3, &[]);
    assert_eq!(m.read(3), 3);
}
