use cos::ata::read_ata;
use cos::ata::write_ata;
use cos::ata::list_drives;
use cos::ata::init;
use cos::ata::Bus;
use cos::ata::BusRegistry;
use cos::ata::Drive;
use cos::ata::IdentifyResponse;
use cos::ata::BLOCK_SIZE;
use cos::chan::Channel;
use cos::device::Device;
use cos::device::DeviceKind;

/// An IDENTIFY payload with the given serial (bytes 20..40), model
/// (bytes 54..94) and reported block count (words 60 and 61, low first).
fn identify_payload(serial: &str, model: &str, block_count: u32) -> Vec<u16> {
    let mut bytes = [0u8; 512];
    for (i, b) in serial.bytes().enumerate() {
        assert!(i < 20);
        bytes[20 + i] = b;
    }
    for i in serial.len()..20 {
        bytes[20 + i] = b' ';
    }
    for (i, b) in model.bytes().enumerate() {
        assert!(i < 40);
        bytes[54 + i] = b;
    }
    for i in model.len()..40 {
        bytes[54 + i] = b' ';
    }
    // words 60/61: 28-bit addressable sector count, low word first;
    // byte 2i is the high byte of word i
    bytes[120] = ((block_count >> 8) & 0xFF) as u8;
    bytes[121] = (block_count & 0xFF) as u8;
    bytes[122] = ((block_count >> 24) & 0xFF) as u8;
    bytes[123] = ((block_count >> 16) & 0xFF) as u8;
    let mut words = Vec::new();
    for i in 0..256 {
        words.push(((bytes[2 * i] as u16) << 8) | bytes[2 * i + 1] as u16);
    }
    words
}

fn small_disk(blocks: usize, fill: u8) -> Vec<Vec<u8>> {
    let mut v = Vec::new();
    for _ in 0..blocks {
        v.push(vec![fill; 512]);
    }
    v
}

fn ata_device(serial: &str, model: &str, blocks: usize, faulty: bool) -> Device {
    Device::new_ata(
        identify_payload(serial, model, blocks as u32),
        small_disk(blocks, 0),
        faulty,
    )
}

fn single_drive_registry(blocks: usize) -> BusRegistry {
    let chan0 = Channel::new(
        true,
        ata_device("SER0", "MODEL0", blocks, false),
        Device::absent(),
    );
    let chan1 = Channel::new(false, Device::absent(), Device::absent());
    let (registry, _) = init(chan0, chan1);
    registry
}

#[test]
fn drive_select_encoding() {
    let chan = Channel::new(true, Device::absent(), Device::absent());
    let mut bus = Bus::new(0, 0x1F0, 0x3F6, 14, chan);
    bus.write_command_args(0, 0x0ABCDEF).unwrap();
    assert_eq!(bus.chan.lba_low, 0xEF);
    assert_eq!(bus.chan.lba_mid, 0xCD);
    assert_eq!(bus.chan.lba_high, 0xAB);
    assert_eq!(bus.chan.drive_head, 0xE0);
    assert_eq!(bus.chan.sector_count, 1);
    bus.write_command_args(1, 0x0ABCDEF).unwrap();
    assert_eq!(bus.chan.drive_head, 0xF0);
}

#[test]
fn identify_parses_serial_model_and_block_count() {
    let chan0 = Channel::new(
        true,
        Device::new_ata(
            identify_payload("WD-1234567890   ", "GENERIC DISK", 0x00100000),
            Vec::new(),
            false,
        ),
        Device::absent(),
    );
    let chan1 = Channel::new(false, Device::absent(), Device::absent());
    let mut buses = Vec::new();
    buses.push(Bus::new(0, 0x1F0, 0x3F6, 14, chan0));
    buses.push(Bus::new(1, 0x170, 0x376, 15, chan1));
    let mut registry = BusRegistry { buses };
    let drive = Drive::open(&mut registry, 0, 0).expect("ATA device expected");
    assert_eq!(drive.serial, "WD-1234567890".to_string());
    assert_eq!(drive.model, "GENERIC DISK".to_string());
    assert_eq!(drive.block_count(), 0x00100000);
    assert_eq!(drive.block_count(), 1_048_576);
    assert_eq!(drive.block_size(), 512);
}

#[test]
fn identify_trims_all_space_serial_to_empty() {
    let chan0 = Channel::new(
        true,
        Device::new_ata(identify_payload("", "", 4), small_disk(4, 0), false),
        Device::absent(),
    );
    let chan1 = Channel::new(false, Device::absent(), Device::absent());
    let (mut registry, _) = init(chan0, chan1);
    let drive = Drive::open(&mut registry, 0, 0).expect("ATA device expected");
    assert_eq!(drive.serial, String::new());
    assert_eq!(drive.model, String::new());
}

#[test]
fn identify_signatures() {
    let chan0 = Channel::new(
        true,
        ata_device("A", "A", 2, false),
        Device::new_other(DeviceKind::Atapi),
    );
    let chan1 = Channel::new(
        true,
        Device::new_other(DeviceKind::Sata),
        Device::absent(),
    );
    let mut bus0 = Bus::new(0, 0x1F0, 0x3F6, 14, chan0);
    let mut bus1 = Bus::new(1, 0x170, 0x376, 15, chan1);
    match bus0.identify_drive(0) {
        Ok(IdentifyResponse::Ata(payload)) => assert_eq!(payload.len(), 256),
        _ => panic!("expected an ATA identification"),
    }
    assert!(matches!(bus0.identify_drive(1), Ok(IdentifyResponse::Atapi)));
    assert!(matches!(bus1.identify_drive(0), Ok(IdentifyResponse::Sata)));
    assert!(matches!(bus1.identify_drive(1), Ok(IdentifyResponse::Absent)));
}

#[test]
fn identify_with_unrecognized_signature_is_error() {
    let chan = Channel::new(
        true,
        Device::new_other(DeviceKind::Unknown),
        Device::absent(),
    );
    let mut bus = Bus::new(0, 0x1F0, 0x3F6, 14, chan);
    assert!(bus.identify_drive(0).is_err());
}

#[test]
fn identify_on_floating_bus_is_absent() {
    let chan = Channel::new(false, Device::absent(), Device::absent());
    let mut bus = Bus::new(1, 0x170, 0x376, 15, chan);
    assert!(matches!(bus.identify_drive(0), Ok(IdentifyResponse::Absent)));
    assert!(matches!(bus.identify_drive(1), Ok(IdentifyResponse::Absent)));
}

#[test]
fn identify_on_faulty_device_is_error() {
    let chan = Channel::new(true, ata_device("A", "A", 2, true), Device::absent());
    let mut bus = Bus::new(0, 0x1F0, 0x3F6, 14, chan);
    assert!(bus.identify_drive(0).is_err());
}

#[test]
fn write_then_read_round_trip() {
    let mut registry = single_drive_registry(8);
    let mut data = vec![0u8; BLOCK_SIZE];
    for (i, b) in data.iter_mut().enumerate() {
        *b = (i % 251) as u8;
    }
    write_ata(&mut registry, 0, 0, 5, &data).unwrap();
    let mut out = vec![0u8; BLOCK_SIZE];
    read_ata(&mut registry, 0, 0, 5, &mut out).unwrap();
    assert_eq!(out, data);
}

#[test]
fn repeated_reads_return_identical_bytes() {
    let mut registry = single_drive_registry(8);
    let mut data = vec![0u8; BLOCK_SIZE];
    for (i, b) in data.iter_mut().enumerate() {
        *b = (i % 13) as u8 ^ 0x5A;
    }
    write_ata(&mut registry, 0, 0, 2, &data).unwrap();
    let mut first = vec![0u8; BLOCK_SIZE];
    let mut second = vec![0u8; BLOCK_SIZE];
    read_ata(&mut registry, 0, 0, 2, &mut first).unwrap();
    read_ata(&mut registry, 0, 0, 2, &mut second).unwrap();
    assert_eq!(first, second);
    assert_eq!(first, data);
}

#[test]
fn write_leaves_other_blocks_untouched() {
    let mut registry = single_drive_registry(4);
    let data = vec![0xABu8; BLOCK_SIZE];
    write_ata(&mut registry, 0, 0, 1, &data).unwrap();
    let mut out = vec![0xFFu8; BLOCK_SIZE];
    read_ata(&mut registry, 0, 0, 0, &mut out).unwrap();
    assert_eq!(out, vec![0u8; BLOCK_SIZE]);
    read_ata(&mut registry, 0, 0, 2, &mut out).unwrap();
    assert_eq!(out, vec![0u8; BLOCK_SIZE]);
}

#[test]
fn faulty_device_fails_read_and_write() {
    let mut chan0 = Channel::new(true, ata_device("S", "M", 4, true), Device::absent());
    // the device also starts with the Error status bit raised
    chan0.error = true;
    let chan1 = Channel::new(false, Device::absent(), Device::absent());
    let (mut registry, drives) = init(chan0, chan1);
    assert!(drives.is_empty());
    let data = vec![1u8; BLOCK_SIZE];
    assert!(write_ata(&mut registry, 0, 0, 0, &data).is_err());
    let mut out = vec![0u8; BLOCK_SIZE];
    assert!(read_ata(&mut registry, 0, 0, 0, &mut out).is_err());
}

#[test]
fn out_of_range_block_fails() {
    let mut registry = single_drive_registry(4);
    let mut out = vec![0u8; BLOCK_SIZE];
    assert!(read_ata(&mut registry, 0, 0, 4, &mut out).is_err());
    assert!(read_ata(&mut registry, 0, 0, 3, &mut out).is_ok());
    let data = vec![7u8; BLOCK_SIZE];
    assert!(write_ata(&mut registry, 0, 0, 100, &data).is_err());
}

#[test]
fn absent_device_fails_read() {
    let mut registry = single_drive_registry(4);
    let mut out = vec![0u8; BLOCK_SIZE];
    assert!(read_ata(&mut registry, 0, 1, 0, &mut out).is_err());
    assert!(read_ata(&mut registry, 1, 0, 0, &mut out).is_err());
}

#[test]
fn list_drives_visits_addresses_in_order() {
    let chan0 = Channel::new(
        true,
        ata_device("S00", "M00", 2, false),
        ata_device("S01", "M01", 2, false),
    );
    let chan1 = Channel::new(
        true,
        Device::absent(),
        ata_device("S11", "M11", 2, false),
    );
    let (_, drives) = init(chan0, chan1);
    let addrs: Vec<(u8, u8)> = drives.iter().map(|d| (d.bus, d.dsk)).collect();
    assert_eq!(addrs, vec![(0u8, 0u8), (0, 1), (1, 1)]);
    assert_eq!(drives[0].serial, "S00");
    assert_eq!(drives[1].serial, "S01");
    assert_eq!(drives[2].serial, "S11");
}

#[test]
fn list_drives_skips_non_ata_devices() {
    let chan0 = Channel::new(
        true,
        Device::new_other(DeviceKind::Atapi),
        ata_device("ONLY", "ONE", 2, false),
    );
    let chan1 = Channel::new(false, Device::absent(), Device::absent());
    let (_, drives) = init(chan0, chan1);
    let addrs: Vec<(u8, u8)> = drives.iter().map(|d| (d.bus, d.dsk)).collect();
    assert_eq!(addrs, vec![(0u8, 1u8)]);
}

#[test]
fn human_readable_size_scales() {
    let mb = Drive {
        bus: 0,
        dsk: 0,
        blocks: 4096,
        model: String::new(),
        serial: String::new(),
    };
    let (n, unit) = mb.human_readable_size();
    assert_eq!((n, unit.as_str()), (2, "MB"));
    let gb = Drive {
        bus: 0,
        dsk: 0,
        blocks: 4_194_304,
        model: String::new(),
        serial: String::new(),
    };
    let (n, unit) = gb.human_readable_size();
    assert_eq!((n, unit.as_str()), (2, "GB"));
}

#[test]
fn reset_settles_a_wedged_channel() {
    let mut chan = Channel::new(true, ata_device("S", "M", 2, false), Device::absent());
    chan.error = true;
    chan.sig_pending = true;
    let mut bus = Bus::new(0, 0x1F0, 0x3F6, 14, chan);
    bus.reset();
    assert!(!bus.chan.error);
    assert!(!bus.chan.sig_pending);
}
