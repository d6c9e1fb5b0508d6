use cos::ata::init;
use cos::ata::read_ata;
use cos::ata::write_ata;
use cos::ata::BusRegistry;
use cos::ata::BLOCK_SIZE;
use cos::chan::Channel;
use cos::device::Device;
use cos::fs::SuperBlock;
use cos::fs;

fn payload_with_count(block_count: u32) -> Vec<u16> {
    let mut words = vec![0u16; 256];
    words[60] = (block_count & 0xFFFF) as u16;
    words[61] = (block_count >> 16) as u16;
    words
}

fn registry_with_disk(blocks: usize) -> (BusRegistry, cos::ata::Drive) {
    let mut store = Vec::new();
    for _ in 0..blocks {
        store.push(vec![0u8; 512]);
    }
    let dev = Device::new_ata(payload_with_count(blocks as u32), store, false);
    let chan0 = Channel::new(true, dev, Device::absent());
    let chan1 = Channel::new(false, Device::absent(), Device::absent());
    let (registry, mut drives) = init(chan0, chan1);
    let drive = drives.remove(0);
    (registry, drive)
}

#[test]
fn fresh_drive_is_unformatted() {
    let (mut registry, drive) = registry_with_disk(8);
    assert!(!SuperBlock::check_ata(&mut registry, drive.bus, drive.dsk, 3));
}

#[test]
fn init_formats_then_finds_the_superblock() {
    let (mut registry, drive) = registry_with_disk(8);
    let addr = 3;
    assert_eq!(fs::init(&mut registry, &drive, addr), Ok(true));
    assert!(SuperBlock::check_ata(&mut registry, drive.bus, drive.dsk, addr));
    assert_eq!(fs::init(&mut registry, &drive, addr), Ok(false));
}

#[test]
fn superblock_write_stores_signature_and_padding() {
    let (mut registry, drive) = registry_with_disk(4);
    let sb = SuperBlock::new();
    sb.write(&mut registry, drive.bus, drive.dsk, 2).unwrap();
    let mut out = vec![0xFFu8; BLOCK_SIZE];
    read_ata(&mut registry, drive.bus, drive.dsk, 2, &mut out).unwrap();
    assert_eq!(&out[0..8], b"COS FSYS");
    assert!(out[8..].iter().all(|b| *b == 0));
}

#[test]
fn check_ata_rejects_a_wrong_signature() {
    let (mut registry, drive) = registry_with_disk(4);
    let mut block = vec![0u8; BLOCK_SIZE];
    block[..8].copy_from_slice(b"NOT COSF");
    write_ata(&mut registry, drive.bus, drive.dsk, 1, &block).unwrap();
    assert!(!SuperBlock::check_ata(&mut registry, drive.bus, drive.dsk, 1));
}

#[test]
fn init_fails_when_the_drive_cannot_be_written() {
    let dev = Device::new_ata(payload_with_count(4), Vec::new(), true);
    let chan0 = Channel::new(true, dev, Device::absent());
    let chan1 = Channel::new(false, Device::absent(), Device::absent());
    let (mut registry, drives) = init(chan0, chan1);
    assert!(drives.is_empty());
    let drive = cos::ata::Drive {
        bus: 0,
        dsk: 0,
        blocks: 4,
        model: String::new(),
        serial: String::new(),
    };
    assert!(fs::init(&mut registry, &drive, 0).is_err());
}
