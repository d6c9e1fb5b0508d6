//! Model of one device position on an ATA channel: what kind of device
//! answers there (if any), the IDENTIFY payload it reports, and the block
//! contents it stores.
use vstd::prelude::*;

verus! {

/// Protocol-level device type, told apart by the signature a device
/// leaves in the LBA-mid/LBA-high registers after an IDENTIFY command.
/// `Unknown` models a device whose signature the driver does not
/// recognize.
#[derive(Clone, Copy, PartialEq, Eq, Structural)]
pub enum DeviceKind {
    Ata,
    Atapi,
    Sata,
    Unknown,
}

/// One drive-select position of a channel.
///
/// `present == false` models an empty slot: the channel reports status 0
/// for it and no command gets an answer.  `faulty == true` models a device
/// that aborts every command with the `Error` status bit set.
pub struct Device {
    pub present: bool,
    pub kind: DeviceKind,
    pub faulty: bool,
    /// The 256-word IDENTIFY payload the device reports.
    pub identify: Vec<u16>,
    /// Stored block contents, one 512-byte block per entry.
    pub blocks: Vec<Vec<u8>>,
}

impl Device {
    /// Number of data words of an IDENTIFY payload.
    pub open spec fn identify_len() -> int {
        256
    }

    /// Total addressable block count that an IDENTIFY payload reports:
    /// words 60 and 61 hold the 28-bit sector count, low word first.
    pub open spec fn id_block_count(ws: Seq<u16>) -> int {
        ws[60] as int + ws[61] as int * 0x10000
    }

    /// The device's stored blocks, as byte sequences.
    pub open spec fn disk(self) -> Seq<Seq<u8>> {
        self.blocks@.map_values(|b: Vec<u8>| b@)
    }

    /// A present ATA device carries a full IDENTIFY payload and stores
    /// whole 512-byte blocks.
    pub open spec fn wf(self) -> bool {
        self.present && self.kind == DeviceKind::Ata ==> {
            &&& self.identify@.len() == Self::identify_len()
            &&& forall|i: int| 0 <= i < self.blocks@.len() ==> (#[trigger] self.blocks@[i])@.len() == 512
        }
    }

    /// An empty slot.
    pub fn absent() -> (d: Device)
        ensures
            !d.present,
            d.wf(),
    {
        Device { present: false, kind: DeviceKind::Ata, faulty: false, identify: Vec::new(), blocks: Vec::new() }
    }

    /// An ATA device with the given IDENTIFY payload and block contents.
    pub fn new_ata(identify: Vec<u16>, blocks: Vec<Vec<u8>>, faulty: bool) -> (d: Device)
        requires
            identify@.len() == Self::identify_len(),
            forall|i: int| 0 <= i < blocks@.len() ==> (#[trigger] blocks@[i])@.len() == 512,
        ensures
            d.present,
            d.kind == DeviceKind::Ata,
            d.faulty == faulty,
            d.identify == identify,
            d.blocks == blocks,
            d.wf(),
    {
        Device { present: true, kind: DeviceKind::Ata, faulty, identify, blocks }
    }

    /// A present device that is not ATA (detected, never read).
    pub fn new_other(kind: DeviceKind) -> (d: Device)
        requires
            kind != DeviceKind::Ata,
        ensures
            d.present,
            d.kind == kind,
            !d.faulty,
            d.wf(),
    {
        Device { present: true, kind, faulty: false, identify: Vec::new(), blocks: Vec::new() }
    }

    /// A working ATA drive: the only kind of device whose blocks can be
    /// read or written.
    pub open spec fn ready_ata(self) -> bool {
        self.present && self.kind == DeviceKind::Ata && !self.faulty
    }

}

} // verus!
