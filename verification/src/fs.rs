//! The superblock check of the filesystem layer: whether a drive is
//! formatted is decided by an 8-byte signature at a fixed block address,
//! read and written over the block I/O entry points.
use vstd::prelude::*;

use crate::ata::BusRegistry;
use crate::ata::Drive;
use crate::ata::BLOCK_SIZE;
use crate::ata::read_ata;
use crate::ata::write_ata;
use crate::ata::rw_ok;
use crate::ata::same_shape;
use crate::ata::same_disks;

verus! {

/// The filesystem signature, the 8 bytes of "COS FSYS".
pub open spec fn spec_signature() -> Seq<u8> {
    seq![0x43u8, 0x4Fu8, 0x53u8, 0x20u8, 0x46u8, 0x53u8, 0x59u8, 0x53u8]
}

/// The block a fresh superblock occupies: the signature, zero-padded.
pub open spec fn superblock_bytes() -> Seq<u8> {
    Seq::new(512, |i: int| if i < 8 { spec_signature()[i] } else { 0u8 })
}

/// Whether the stored block at the superblock address starts with the
/// signature.
pub open spec fn formatted(reg: BusRegistry, bus: int, dsk: int, addr: int) -> bool {
    reg.disk_at(bus, dsk)[addr].take(8) == spec_signature()
}

fn signature_bytes() -> (r: Vec<u8>)
    ensures
        r@ == spec_signature(),
{
    let mut v: Vec<u8> = Vec::new();
    v.push(0x43);
    v.push(0x4F);
    v.push(0x53);
    v.push(0x20);
    v.push(0x46);
    v.push(0x53);
    v.push(0x59);
    v.push(0x53);
    proof {
        assert(v@ =~= spec_signature());
    }
    v
}

/// The superblock record: holds the signature it writes and looks for.
pub struct SuperBlock {
    pub signature: Vec<u8>,
}

impl SuperBlock {
    pub open spec fn wf(self) -> bool {
        self.signature@ == spec_signature()
    }

    pub fn new() -> (r: SuperBlock)
        ensures
            r.wf(),
    {
        SuperBlock { signature: signature_bytes() }
    }

    /// Checks if the drive is already formatted and contains the
    /// signature at block `addr`; a failed read counts as unformatted.
    pub fn check_ata(registry: &mut BusRegistry, bus: u8, dsk: u8, addr: u32) -> (r: bool)
        requires
            old(registry).wf(),
            (bus as int) < old(registry).buses@.len(),
            dsk < 2,
            addr < 0x10000000,
        ensures
            final(registry).wf(),
            same_shape(*old(registry), *final(registry)),
            same_disks(*old(registry), *final(registry)),
            r == (rw_ok(old(registry).buses@[bus as int].chan, dsk, addr) && formatted(
                *old(registry),
                bus as int,
                dsk as int,
                addr as int,
            )),
            rw_ok(old(registry).buses@[bus as int].chan, dsk, addr) ==> final(registry).buses@[
                bus as int
            ].chan.quiet(),
    {
        let mut buf: Vec<u8> = vec![0u8; BLOCK_SIZE];
        if read_ata(registry, bus, dsk, addr, &mut buf).is_err() {
            return false;
        }
        let sig = signature_bytes();
        let ghost stored = old(registry).disk_at(bus as int, dsk as int)[addr as int];
        let mut i: usize = 0;
        while i < 8
            invariant
                i <= 8,
                buf@.len() == 512,
                buf@ == stored,
                stored == old(registry).disk_at(bus as int, dsk as int)[addr as int],
                sig@ == spec_signature(),
                forall|k: int| 0 <= k < i ==> stored[k] == spec_signature()[k],
                registry.wf(),
                same_shape(*old(registry), *registry),
                same_disks(*old(registry), *registry),
                (bus as int) < registry.buses@.len(),
                registry.buses@[bus as int].chan.quiet(),
                rw_ok(old(registry).buses@[bus as int].chan, dsk, addr),
            decreases 8 - i,
        {
            if buf[i] != sig[i] {
                proof {
                    assert(stored[i as int] != spec_signature()[i as int]);
                    if formatted(*old(registry), bus as int, dsk as int, addr as int) {
                        assert(stored.take(8) == spec_signature());
                        assert(stored.take(8)[i as int] == stored[i as int]);
                        assert(false);
                    }
                }
                return false;
            }
            i = i + 1;
        }
        proof {
            assert(stored.take(8) =~= spec_signature());
        }
        true
    }

    /// Writes superblock data to the drive: the signature, zero-padded to
    /// one block, at block `addr`.
    pub fn write(&self, registry: &mut BusRegistry, bus: u8, dsk: u8, addr: u32) -> (r: Result<
        (),
        (),
    >)
        requires
            self.wf(),
            old(registry).wf(),
            (bus as int) < old(registry).buses@.len(),
            dsk < 2,
            addr < 0x10000000,
        ensures
            final(registry).wf(),
            same_shape(*old(registry), *final(registry)),
            r.is_ok() == rw_ok(old(registry).buses@[bus as int].chan, dsk, addr),
            r.is_ok() ==> final(registry).disk_at(bus as int, dsk as int) == old(registry).disk_at(
                bus as int,
                dsk as int,
            ).update(addr as int, superblock_bytes()),
            r.is_err() ==> same_disks(*old(registry), *final(registry)),
    {
        let mut buf: Vec<u8> = vec![0u8; BLOCK_SIZE];
        let mut i: usize = 0;
        while i < 8
            invariant
                i <= 8,
                self.wf(),
                buf@.len() == 512,
                forall|k: int| 0 <= k < i ==> buf@[k] == spec_signature()[k],
                forall|k: int| i <= k < 512 ==> buf@[k] == 0u8,
            decreases 8 - i,
        {
            buf.set(i, self.signature[i]);
            i = i + 1;
        }
        proof {
            assert(buf@ =~= superblock_bytes());
        }
        write_ata(registry, bus, dsk, addr, &buf)
    }
}

/// Sets up the filesystem on an unformatted drive by writing a fresh
/// superblock at block `addr`.
pub fn format_ata(registry: &mut BusRegistry, drive: &Drive, addr: u32) -> (r: Result<(), ()>)
    requires
        old(registry).wf(),
        (drive.bus as int) < old(registry).buses@.len(),
        drive.dsk < 2,
        addr < 0x10000000,
    ensures
        final(registry).wf(),
        same_shape(*old(registry), *final(registry)),
        r.is_ok() == rw_ok(old(registry).buses@[drive.bus as int].chan, drive.dsk, addr),
        r.is_ok() ==> final(registry).disk_at(drive.bus as int, drive.dsk as int) == old(
            registry,
        ).disk_at(drive.bus as int, drive.dsk as int).update(addr as int, superblock_bytes()),
        r.is_err() ==> same_disks(*old(registry), *final(registry)),
{
    let sb = SuperBlock::new();
    sb.write(registry, drive.bus, drive.dsk, addr)
}

/// Initializes the filesystem for a mounted drive: checks the superblock
/// and formats the drive when the signature is missing.  `Ok(true)` means
/// a superblock was written, `Ok(false)` that one was already there.
pub fn init(registry: &mut BusRegistry, drive: &Drive, addr: u32) -> (r: Result<bool, ()>)
    requires
        old(registry).wf(),
        (drive.bus as int) < old(registry).buses@.len(),
        drive.dsk < 2,
        addr < 0x10000000,
    ensures
        final(registry).wf(),
        same_shape(*old(registry), *final(registry)),
        rw_ok(old(registry).buses@[drive.bus as int].chan, drive.dsk, addr) ==> r.is_ok() && (r
            == Ok::<bool, ()>(false) <==> formatted(
            *old(registry),
            drive.bus as int,
            drive.dsk as int,
            addr as int,
        )),
        r == Ok::<bool, ()>(false) ==> same_disks(*old(registry), *final(registry)) && formatted(
            *old(registry),
            drive.bus as int,
            drive.dsk as int,
            addr as int,
        ),
        r == Ok::<bool, ()>(true) ==> final(registry).disk_at(drive.bus as int, drive.dsk as int)
            == old(registry).disk_at(drive.bus as int, drive.dsk as int).update(
            addr as int,
            superblock_bytes(),
        ),
        r.is_err() ==> same_disks(*old(registry), *final(registry)) && !rw_ok(
            old(registry).buses@[drive.bus as int].chan,
            drive.dsk,
            addr,
        ),
{
    let ghost entry = old(registry).buses@[drive.bus as int].chan;
    let check = SuperBlock::check_ata(registry, drive.bus, drive.dsk, addr);
    proof {
        assert(old(registry).buses@[drive.bus as int].same_identity(
            registry.buses@[drive.bus as int],
        ));
        if rw_ok(entry, drive.dsk, addr) {
            assert(rw_ok(registry.buses@[drive.bus as int].chan, drive.dsk, addr));
        }
    }
    if !check {
        let res = format_ata(registry, drive, addr);
        if res.is_err() {
            return Err(());
        }
        Ok(true)
    } else {
        Ok(false)
    }
}

} // verus!
