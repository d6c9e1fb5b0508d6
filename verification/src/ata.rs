//! The bus protocol engine: status polling, drive selection,
//! command-argument encoding, command issuance, word-at-a-time data
//! transfer and device identification, plus the bus registry and the
//! block I/O entry points that external callers use.
use vstd::prelude::*;

use crate::chan::Channel;
use crate::chan::BLOCK_WORDS;
use crate::chan::OP_IDENTIFY;
use crate::chan::OP_READ;
use crate::chan::OP_WRITE;
use crate::chan::signature_high;
use crate::chan::signature_mid;
use crate::device::Device;
use crate::device::DeviceKind;
use crate::words::le_bytes_to_words;
use crate::words::lemma_bytes_round_trip;
use crate::words::split_word;
use crate::words::join_word;
use crate::words::word_lo;
use crate::words::word_hi;
use crate::words::words_to_le_bytes;

verus! {

/// Bytes per block; every transfer moves exactly one block.
pub const BLOCK_SIZE: usize = 512;

/// How many times a poll reads the status register before it gives up.
/// Polling is a pure busy-wait; the bound turns a wedged controller into
/// a failed operation instead of a hung caller.
pub const MAX_SPIN: u32 = 1000;

/// Command opcodes the driver issues.
pub enum Command {
    Read,
    Write,
    Identify,
}

impl Command {
    /// The opcode byte written to the command register.
    pub open spec fn spec_opcode(self) -> u8 {
        match self {
            Command::Read => 0x20,
            Command::Write => 0x30,
            Command::Identify => 0xEC,
        }
    }

    fn opcode(self) -> (r: u8)
        ensures
            r == self.spec_opcode(),
    {
        match self {
            Command::Read => 0x20,
            Command::Write => 0x30,
            Command::Identify => 0xEC,
        }
    }
}

/// Status bits the driver interprets; no other bits are read.
#[derive(Clone, Copy)]
pub enum Status {
    Error,
    DataRequest,
    DeviceReady,
    Busy,
}

impl Status {
    /// Bit position within the status register.
    pub open spec fn spec_bit(self) -> u8 {
        match self {
            Status::Error => 0,
            Status::DataRequest => 3,
            Status::DeviceReady => 6,
            Status::Busy => 7,
        }
    }

    fn bit(self) -> (r: u8)
        ensures
            r == self.spec_bit(),
    {
        match self {
            Status::Error => 0,
            Status::DataRequest => 3,
            Status::DeviceReady => 6,
            Status::Busy => 7,
        }
    }
}

/// Whether bit `bit` of a status byte is set.
pub open spec fn bit_set(s: u8, bit: u8) -> bool {
    s & (1u8 << bit) != 0
}

fn get_bit(s: u8, bit: u8) -> (r: bool)
    requires
        bit < 8,
    ensures
        r == bit_set(s, bit),
{
    s & (1u8 << bit) != 0
}

/// What the status register tells about the channel model: the `Busy` bit
/// marks a floating channel, `DataRequest` and `Error` report the selected
/// device, and an all-zero status marks an empty device position.
pub proof fn lemma_status_bits(ch: Channel)
    ensures
        bit_set(ch.spec_status(), 7) == !ch.present,
        bit_set(ch.spec_status(), 3) == (!ch.present || (ch.sel_dev().present && ch.drq())),
        bit_set(ch.spec_status(), 0) == (!ch.present || (ch.sel_dev().present && ch.error)),
        (ch.spec_status() == 0) == (ch.present && !ch.sel_dev().present),
        (ch.spec_status() == 0xFF || ch.spec_status() == 0x7F) == !ch.present,
{
    if !ch.present {
        assert(bit_set(0xFF, 7) && bit_set(0xFF, 3) && bit_set(0xFF, 0)) by (bit_vector);
    } else if !ch.sel_dev().present {
        assert(!bit_set(0, 7) && !bit_set(0, 3) && !bit_set(0, 0)) by (bit_vector);
    } else {
        let e: u8 = if ch.error {
            1
        } else {
            0
        };
        let d: u8 = if ch.drq() {
            8
        } else {
            0
        };
        assert(!bit_set((0x40 + e + d) as u8, 7) && bit_set((0x40 + e + d) as u8, 3) == (d == 8)
            && bit_set((0x40 + e + d) as u8, 0) == (e == 1) && (0x40 + e + d) as u8 != 0 && (0x40
            + e + d) as u8 != 0xFF && (0x40 + e + d) as u8 != 0x7F) by (bit_vector)
            requires
                (e == 0 || e == 1) && (d == 0 || d == 8),
        ;
    }
}

/// Low LBA byte of a 28-bit block address.
pub open spec fn lba_low_byte(block: u32) -> u8 {
    (block & 0xFF) as u8
}

/// Middle LBA byte of a 28-bit block address.
pub open spec fn lba_mid_byte(block: u32) -> u8 {
    ((block >> 8) & 0xFF) as u8
}

/// High LBA byte of a 28-bit block address.
pub open spec fn lba_high_byte(block: u32) -> u8 {
    ((block >> 16) & 0xFF) as u8
}

/// The drive/head register byte: bits 5 and 7 forced, bit 6 selects LBA
/// addressing, bit 4 picks master (0) or slave (1), and the low nibble
/// carries bits 24 to 27 of the block address.
pub open spec fn drive_select_byte(drive: u8, block: u32) -> u8 {
    0xE0u8 | ((drive & 1) << 4) | (((block >> 24) & 0xF) as u8)
}

/// The drive/head byte written when a drive is selected without a block
/// address: bits 5 and 7 forced, bit 4 the drive.
pub open spec fn plain_select_byte(drive: u8) -> u8 {
    0xA0u8 | (drive << 4)
}

proof fn lemma_plain_select(drive: u8)
    by (bit_vector)
    requires
        drive < 2,
    ensures
        ((0xA0u8 | (drive << 4)) & 0x10 == 0) == (drive == 0),
{
}

/// Encoding a 28-bit block address into the four command-block registers
/// and reassembling it gives the address back, and the drive bit lands in
/// bit 4 of the drive/head byte.
pub proof fn lemma_args_encode(drive: u8, block: u32)
    by (bit_vector)
    requires
        drive < 2,
        block < 0x10000000,
    ensures
        ((((0xE0u8 | ((drive & 1) << 4) | (((block >> 24) & 0xF) as u8)) & 0xF) as u32) << 24) | (
        ((((block >> 16) & 0xFF) as u8) as u32) << 16) | (((((block >> 8) & 0xFF) as u8) as u32)
            << 8) | (((block & 0xFF) as u8) as u32) == block,
        ((0xE0u8 | ((drive & 1) << 4) | (((block >> 24) & 0xF) as u8)) & 0x10 == 0) == (drive == 0),
{
}

/// Response of the identify protocol.  `Absent` means no device answered,
/// which is not an error.
pub enum IdentifyResponse {
    Ata(Vec<u16>),
    Atapi,
    Sata,
    Absent,
}

/// One controller channel with its identity: numeric id, the fixed port
/// bases it answers on, and its IRQ line (recorded, unused by polling).
pub struct Bus {
    pub id: u8,
    pub irq: u8,
    pub io_base: u16,
    pub ctrl_base: u16,
    pub chan: Channel,
}

/// The two poll conditions that drive selection needs: the channel
/// answers, and neither the currently selected position nor the one to
/// select keeps `DataRequest` raised.
pub open spec fn select_ok(ch: Channel, drive: u8) -> bool {
    &&& ch.present
    &&& !ch.sel_dev().present || !ch.drq()
    &&& !ch.dev_at(drive as int).present || !ch.drq()
}

/// When a command is settled without error: the selected device exists
/// and can do what the opcode asks.
pub open spec fn cmd_accepted(ch: Channel, op: u8) -> bool {
    &&& ch.present
    &&& ch.sel_dev().present
    &&& if op == OP_IDENTIFY {
        !ch.sel_dev().faulty
    } else if op == OP_READ || op == OP_WRITE {
        ch.sel_dev().ready_ata() && (ch.lba28() as int) < ch.sel_dev().blocks@.len()
    } else {
        false
    }
}

/// When a whole read or write of `block` on position `drive` succeeds:
/// the channel answers, no transfer is in flight, and a working ATA
/// device with that block is at the position.
pub open spec fn rw_ok(ch: Channel, drive: u8, block: u32) -> bool {
    &&& ch.present
    &&& ch.quiet()
    &&& ch.dev_at(drive as int).ready_ata()
    &&& (block as int) < ch.dev_at(drive as int).blocks@.len()
}

/// Both device positions of two channel states answer alike and the
/// channel is wired the same.
pub open spec fn same_devices(a: Channel, b: Channel) -> bool {
    &&& a.present == b.present
    &&& a.dev0 == b.dev0
    &&& a.dev1 == b.dev1
}

impl Bus {
    pub open spec fn wf(self) -> bool {
        self.chan.wf()
    }

    /// Identity fields two bus states share.
    pub open spec fn same_identity(self, other: Bus) -> bool {
        &&& self.id == other.id
        &&& self.irq == other.irq
        &&& self.io_base == other.io_base
        &&& self.ctrl_base == other.ctrl_base
    }

    pub fn new(id: u8, io_base: u16, ctrl_base: u16, irq: u8, chan: Channel) -> (b: Bus)
        ensures
            b.id == id && b.irq == irq && b.io_base == io_base && b.ctrl_base == ctrl_base,
            b.chan == chan,
    {
        Bus { id, irq, io_base, ctrl_base, chan }
    }

    /// Pure status poll through the alternate-status register, which does
    /// not clear the interrupt-request latch.
    fn status(&self) -> (r: u8)
        ensures
            r == self.chan.spec_status(),
    {
        self.chan.read_alt_status()
    }

    /// A floating bus reads as a stuck-high status byte: no controller is
    /// present at all.
    pub fn check_floating_bus(&self) -> (r: Result<(), ()>)
        ensures
            r.is_err() == (self.chan.spec_status() == 0xFF || self.chan.spec_status() == 0x7F),
    {
        match self.status() {
            0xFF => Err(()),
            0x7F => Err(()),
            _ => Ok(()),
        }
    }

    /// Reads the primary status register, clearing the interrupt-request
    /// latch; done once per issued command.
    fn clear_interrupt(&mut self) -> (r: u8)
        ensures
            r == old(self).chan.spec_status(),
            *final(self) == (Bus {
                chan: (Channel { irq_pending: false, ..old(self).chan }),
                ..*old(self)
            }),
    {
        self.chan.read_status()
    }

    fn lba_mid(&mut self) -> (r: u8)
        ensures
            r == old(self).chan.lba_mid,
            *final(self) == (Bus {
                chan: (Channel { sig_pending: false, ..old(self).chan }),
                ..*old(self)
            }),
    {
        self.chan.read_lba_mid()
    }

    fn lba_high(&mut self) -> (r: u8)
        ensures
            r == old(self).chan.lba_high,
            *final(self) == (Bus {
                chan: (Channel { sig_pending: false, ..old(self).chan }),
                ..*old(self)
            }),
    {
        self.chan.read_lba_high()
    }

    /// Whether the `Error` status bit is set.
    fn is_error(&self) -> (r: bool)
        ensures
            r == bit_set(self.chan.spec_status(), 0),
    {
        get_bit(self.status(), Status::Error.bit())
    }

    /// Busy-waits until the given status bit has the wanted value, at
    /// most `MAX_SPIN` reads.
    fn poll(&self, bit: Status, value: bool) -> (r: Result<(), ()>)
        ensures
            r.is_ok() == (bit_set(self.chan.spec_status(), bit.spec_bit()) == value),
    {
        let mut ok = get_bit(self.status(), bit.bit()) == value;
        let mut spins: u32 = 0;
        while !ok && spins < MAX_SPIN
            invariant
                ok == (bit_set(self.chan.spec_status(), bit.spec_bit()) == value),
            decreases MAX_SPIN - spins,
        {
            cpu_relax();
            ok = get_bit(self.status(), bit.bit()) == value;
            spins = spins + 1;
        }
        if ok {
            Ok(())
        } else {
            Err(())
        }
    }

    /// Selects a drive: waits until the channel is neither busy nor
    /// transferring, writes the drive-select byte, and waits again.
    pub fn select_drive(&mut self, drive: u8) -> (r: Result<(), ()>)
        requires
            old(self).wf(),
            drive < 2,
        ensures
            final(self).wf(),
            old(self).same_identity(*final(self)),
            final(self).chan == (Channel {
                drive_head: final(self).chan.drive_head,
                ..old(self).chan
            }),
            r.is_ok() == select_ok(old(self).chan, drive),
            r.is_ok() ==> final(self).chan == (Channel {
                drive_head: plain_select_byte(drive),
                ..old(self).chan
            }) && final(self).chan.sel() == drive as int,
    {
        proof {
            lemma_status_bits(old(self).chan);
        }
        self.poll(Status::Busy, false)?;
        self.poll(Status::DataRequest, false)?;
        // bit 4 -> device
        // bit 5 -> 1
        // bit 7 -> 1
        self.chan.write_drive_head(0xA0 | (drive << 4));
        proof {
            lemma_plain_select(drive);
            lemma_status_bits(self.chan);
        }
        self.poll(Status::Busy, false)?;
        self.poll(Status::DataRequest, false)?;
        Ok(())
    }

    /// Encodes the 28-bit block address into the LBA registers and the
    /// drive/head byte, and asks for a single-block transfer.
    pub fn write_command_args(&mut self, drive: u8, block: u32) -> (r: Result<(), ()>)
        requires
            old(self).wf(),
            drive < 2,
            block < 0x10000000,
        ensures
            final(self).wf(),
            old(self).same_identity(*final(self)),
            r.is_ok(),
            final(self).chan == (Channel {
                sector_count: 1,
                lba_low: lba_low_byte(block),
                lba_mid: lba_mid_byte(block),
                lba_high: lba_high_byte(block),
                drive_head: drive_select_byte(drive, block),
                ..old(self).chan
            }),
            final(self).chan.lba28() == block,
            final(self).chan.sel() == drive as int,
    {
        // drive/head byte: bit 4 -> device, bit 6 -> LBA addressing,
        // bits 5 and 7 -> always set
        self.chan.write_sector_count(1);
        self.chan.write_lba_low((block & 0xFF) as u8);
        self.chan.write_lba_mid(((block >> 8) & 0xFF) as u8);
        self.chan.write_lba_high(((block >> 16) & 0xFF) as u8);
        self.chan.write_drive_head(0xE0 | ((drive & 1) << 4) | (((block >> 24) & 0xF) as u8));
        proof {
            lemma_args_encode(drive, block);
        }
        Ok(())
    }

    /// Writes the opcode, clears the interrupt latch, rules out an absent
    /// device (status 0) and a command error, then waits for `Busy` to
    /// drop and `DataRequest` to rise.  The order of these steps must not
    /// change.
    pub fn write_command(&mut self, cmd: Command) -> (r: Result<(), ()>)
        requires
            old(self).wf(),
        ensures
            final(self).wf(),
            old(self).same_identity(*final(self)),
            same_devices(old(self).chan, final(self).chan),
            final(self).chan.issued@ == old(self).chan.issued@ + 1,
            !final(self).chan.irq_pending,
            final(self).chan.sector_count == old(self).chan.sector_count,
            final(self).chan.lba_low == old(self).chan.lba_low,
            final(self).chan.drive_head == old(self).chan.drive_head,
            final(self).chan.sel() == old(self).chan.sel(),
            r.is_ok() == cmd_accepted(old(self).chan, cmd.spec_opcode()),
            r.is_ok() ==> {
                let dev = old(self).chan.sel_dev();
                let lba = old(self).chan.lba28() as int;
                let post = final(self).chan;
                &&& !post.error
                &&& cmd.spec_opcode() == OP_READ ==> {
                    &&& post.dout@ == le_bytes_to_words(dev.disk()[lba])
                    &&& post.dpos == 0
                    &&& !post.wpending
                    &&& !post.sig_pending
                    &&& post.lba_mid == old(self).chan.lba_mid
                    &&& post.lba_high == old(self).chan.lba_high
                }
                &&& cmd.spec_opcode() == OP_WRITE ==> {
                    &&& post.wpending
                    &&& post.wsel as int == old(self).chan.sel()
                    &&& post.wlba == old(self).chan.lba28()
                    &&& post.din@.len() == 0
                    &&& post.dout@.len() == 0 && post.dpos == 0
                    &&& !post.sig_pending
                    &&& post.lba_mid == old(self).chan.lba_mid
                    &&& post.lba_high == old(self).chan.lba_high
                }
                &&& cmd.spec_opcode() == OP_IDENTIFY ==> {
                    &&& post.sig_pending
                    &&& post.lba_mid == signature_mid(dev.kind)
                    &&& post.lba_high == signature_high(dev.kind)
                    &&& post.dpos == 0
                    &&& dev.kind == DeviceKind::Ata ==> post.dout@ == dev.identify@
                    &&& dev.kind != DeviceKind::Ata ==> post.dout@.len() == 0
                    &&& !post.wpending
                }
            },
            r.is_err() ==> {
                &&& old(self).chan.present && !old(self).chan.sel_dev().present ==> final(
                self).chan.settled_clear() && final(self).chan.spec_status() == 0
                &&& old(self).chan.present && old(self).chan.sel_dev().present ==> final(
                self).chan.failed_clear() && final(self).chan.spec_status() != 0
                &&& !old(self).chan.present ==> final(self).chan.spec_status() == 0xFF
            },
    {
        let op = cmd.opcode();
        self.chan.write_command_reg(op);
        self.status();
        self.clear_interrupt();
        proof {
            lemma_status_bits(self.chan);
        }
        if self.status() == 0 {
            return Err(());
        }
        if self.is_error() {
            return Err(());
        }
        self.poll(Status::Busy, false)?;
        self.poll(Status::DataRequest, true)?;
        Ok(())
    }

    /// Selects the drive and writes the command arguments: the shared
    /// preparation of every PIO transfer.
    fn setup_pio(&mut self, drive: u8, block: u32) -> (r: Result<(), ()>)
        requires
            old(self).wf(),
            drive < 2,
            block < 0x10000000,
        ensures
            final(self).wf(),
            old(self).same_identity(*final(self)),
            r.is_ok() == select_ok(old(self).chan, drive),
            r.is_ok() ==> final(self).chan == (Channel {
                sector_count: 1,
                lba_low: lba_low_byte(block),
                lba_mid: lba_mid_byte(block),
                lba_high: lba_high_byte(block),
                drive_head: drive_select_byte(drive, block),
                ..old(self).chan
            }) && final(self).chan.lba28() == block && final(self).chan.sel() == drive as int,
            r.is_err() ==> final(self).chan == (Channel {
                drive_head: final(self).chan.drive_head,
                ..old(self).chan
            }),
    {
        self.select_drive(drive)?;
        self.write_command_args(drive, block)?;
        Ok(())
    }

    /// Reads one block into `buf`, 16 bits at a time through the data
    /// port.  After the transfer the `Error` bit is checked again; a late
    /// error fails the whole operation.
    pub fn read(&mut self, drive: u8, block: u32, buf: &mut Vec<u8>) -> (r: Result<(), ()>)
        requires
            old(self).wf(),
            drive < 2,
            block < 0x10000000,
            old(buf)@.len() == BLOCK_SIZE,
        ensures
            final(self).wf(),
            old(self).same_identity(*final(self)),
            same_devices(old(self).chan, final(self).chan),
            final(self).chan.issued@ <= old(self).chan.issued@ + 1,
            final(buf)@.len() == BLOCK_SIZE,
            r.is_ok() == rw_ok(old(self).chan, drive, block),
            r.is_ok() ==> {
                &&& final(buf)@ == old(self).chan.dev_at(drive as int).disk()[block as int]
                &&& final(self).chan.quiet()
                &&& !final(self).chan.error
                &&& final(self).chan.issued@ == old(self).chan.issued@ + 1
            },
    {
        self.setup_pio(drive, block)?;
        self.write_command(Command::Read)?;
        let ghost content = old(self).chan.dev_at(drive as int).disk()[block as int];
        proof {
            assert(self.chan.dout@ == le_bytes_to_words(content));
            assert(content.len() == 512);
        }
        let mut i: usize = 0;
        while i < BLOCK_WORDS
            invariant
                i <= BLOCK_WORDS,
                self.wf(),
                old(self).same_identity(*self),
                same_devices(old(self).chan, self.chan),
                self.chan.present,
                self.chan.sel() == drive as int,
                self.chan.dev_at(drive as int).present,
                self.chan.dout@ == le_bytes_to_words(content),
                content.len() == 512,
                self.chan.dpos == i,
                !self.chan.wpending,
                !self.chan.sig_pending,
                !self.chan.error,
                self.chan.issued@ == old(self).chan.issued@ + 1,
                buf@.len() == BLOCK_SIZE,
                buf@.take(2 * i as int) =~= words_to_le_bytes(self.chan.dout@).take(2 * i as int),
            decreases BLOCK_WORDS - i,
        {
            let w = self.chan.read_data();
            let (lo, hi) = split_word(w);
            buf.set(2 * i, lo);
            buf.set(2 * i + 1, hi);
            proof {
                assert(words_to_le_bytes(self.chan.dout@)[2 * i as int] == word_lo(
                    self.chan.dout@[i as int],
                ));
                assert(words_to_le_bytes(self.chan.dout@)[2 * i + 1] == word_hi(
                    self.chan.dout@[i as int],
                ));
                assert(buf@.take(2 * (i + 1) as int) =~= words_to_le_bytes(
                    self.chan.dout@,
                ).take(2 * (i + 1) as int));
            }
            i = i + 1;
        }
        proof {
            lemma_bytes_round_trip(content);
            assert(buf@ =~= buf@.take(512));
            assert(words_to_le_bytes(self.chan.dout@).take(512) =~= words_to_le_bytes(
                self.chan.dout@,
            ));
            assert(buf@ =~= words_to_le_bytes(le_bytes_to_words(content)));
            lemma_status_bits(self.chan);
        }
        if self.is_error() {
            Err(())
        } else {
            Ok(())
        }
    }

    /// Writes one block from `buf`, 16 bits at a time through the data
    /// port; the device commits the block with the last word.  A late
    /// `Error` fails the whole operation.
    pub fn write(&mut self, drive: u8, block: u32, buf: &Vec<u8>) -> (r: Result<(), ()>)
        requires
            old(self).wf(),
            drive < 2,
            block < 0x10000000,
            buf@.len() == BLOCK_SIZE,
        ensures
            final(self).wf(),
            old(self).same_identity(*final(self)),
            final(self).chan.present == old(self).chan.present,
            final(self).chan.issued@ <= old(self).chan.issued@ + 1,
            r.is_ok() == rw_ok(old(self).chan, drive, block),
            r.is_ok() ==> {
                let pre = old(self).chan.dev_at(drive as int);
                let post = final(self).chan.dev_at(drive as int);
                &&& post.disk() == pre.disk().update(block as int, buf@)
                &&& post.present == pre.present && post.kind == pre.kind && post.faulty
                    == pre.faulty
                &&& post.identify == pre.identify
                &&& post.blocks@.len() == pre.blocks@.len()
                &&& final(self).chan.dev_at(1 - drive as int) == old(self).chan.dev_at(
                    1 - drive as int,
                )
                &&& final(self).chan.quiet()
                &&& !final(self).chan.error
                &&& final(self).chan.issued@ == old(self).chan.issued@ + 1
            },
            r.is_err() ==> same_devices(old(self).chan, final(self).chan),
    {
        self.setup_pio(drive, block)?;
        self.write_command(Command::Write)?;
        let ghost words = le_bytes_to_words(buf@);
        let mut i: usize = 0;
        while i < BLOCK_WORDS
            invariant
                i <= BLOCK_WORDS,
                self.wf(),
                old(self).same_identity(*self),
                buf@.len() == BLOCK_SIZE,
                words == le_bytes_to_words(buf@),
                self.chan.present,
                self.chan.sel() == drive as int,
                self.chan.issued@ == old(self).chan.issued@ + 1,
                i < BLOCK_WORDS ==> {
                    &&& same_devices(old(self).chan, self.chan)
                    &&& self.chan.wpending
                    &&& self.chan.wsel as int == drive as int
                    &&& self.chan.wlba == block
                    &&& self.chan.din@ =~= words.take(i as int)
                    &&& self.chan.dpos >= self.chan.dout@.len()
                    &&& !self.chan.sig_pending
                    &&& !self.chan.error
                    &&& self.chan.dev_at(drive as int).ready_ata()
                    &&& (block as int) < self.chan.dev_at(drive as int).blocks@.len()
                },
                i == BLOCK_WORDS ==> {
                    let pre = old(self).chan.dev_at(drive as int);
                    let post = self.chan.dev_at(drive as int);
                    &&& post.disk() == pre.disk().update(block as int, buf@)
                    &&& post.present == pre.present && post.kind == pre.kind && post.faulty
                        == pre.faulty
                    &&& post.identify == pre.identify
                    &&& post.blocks@.len() == pre.blocks@.len()
                    &&& self.chan.dev_at(1 - drive as int) == old(self).chan.dev_at(
                        1 - drive as int,
                    )
                    &&& self.chan.present == old(self).chan.present
                    &&& self.chan.quiet()
                    &&& !self.chan.error
                    &&& self.chan.sel_dev().present
                },
            decreases BLOCK_WORDS - i,
        {
            proof {
                assert(2 * i + 1 < buf@.len());
            }
            let w = join_word(buf[2 * i], buf[2 * i + 1]);
            proof {
                assert(w == words[i as int]);
            }
            self.chan.write_data(w);
            proof {
                if i + 1 < BLOCK_WORDS {
                    assert(self.chan.din@ =~= words.take(i + 1));
                } else {
                    assert(words.take(i as int).push(w) =~= words);
                    lemma_bytes_round_trip(buf@);
                    assert(words_to_le_bytes(words) =~= buf@);
                }
            }
            i = i + 1;
        }
        proof {
            lemma_status_bits(self.chan);
        }
        if self.is_error() {
            Err(())
        } else {
            Ok(())
        }
    }

    /// Probes one drive-select position: floating channel means no
    /// device; a command refused with status 0 means no device; a
    /// recognized signature names the device type; anything else is an
    /// error.
    pub fn identify_drive(&mut self, drive: u8) -> (r: Result<IdentifyResponse, ()>)
        requires
            old(self).wf(),
            drive < 2,
        ensures
            final(self).wf(),
            old(self).same_identity(*final(self)),
            same_devices(old(self).chan, final(self).chan),
            final(self).chan.issued@ <= old(self).chan.issued@ + 1,
            old(self).chan.quiet() ==> final(self).chan.quiet(),
            !old(self).chan.present ==> r == Ok::<IdentifyResponse, ()>(IdentifyResponse::Absent)
                && final(self).chan == old(self).chan,
            old(self).chan.present && !select_ok(old(self).chan, drive) ==> r.is_err(),
            old(self).chan.present && select_ok(old(self).chan, drive) ==> {
                let dev = old(self).chan.dev_at(drive as int);
                &&& !dev.present ==> r == Ok::<IdentifyResponse, ()>(IdentifyResponse::Absent)
                    && final(self).chan.quiet()
                &&& dev.present && dev.faulty ==> r.is_err()
                &&& dev.present && !dev.faulty ==> {
                    &&& final(self).chan.quiet()
                    &&& dev.kind == DeviceKind::Ata ==> (r matches Ok(IdentifyResponse::Ata(p))
                        && p@ == dev.identify@)
                    &&& dev.kind == DeviceKind::Atapi ==> r == Ok::<IdentifyResponse, ()>(
                        IdentifyResponse::Atapi,
                    )
                    &&& dev.kind == DeviceKind::Sata ==> r == Ok::<IdentifyResponse, ()>(
                        IdentifyResponse::Sata,
                    )
                    &&& dev.kind == DeviceKind::Unknown ==> r.is_err()
                }
            },
    {
        if self.check_floating_bus().is_err() {
            proof {
                lemma_status_bits(self.chan);
            }
            return Ok(IdentifyResponse::Absent);
        }
        proof {
            lemma_status_bits(self.chan);
        }
        self.select_drive(drive)?;
        self.write_command_args(drive, 0)?;
        if self.write_command(Command::Identify).is_err() {
            proof {
                lemma_status_bits(self.chan);
            }
            if self.status() == 0 {
                return Ok(IdentifyResponse::Absent);
            } else {
                return Err(());
            }
        }
        let mid = self.lba_mid();
        let high = self.lba_high();
        match (mid, high) {
            (0x00, 0x00) => {
                let ghost payload = old(self).chan.dev_at(drive as int).identify@;
                let mut res: Vec<u16> = Vec::new();
                let mut i: usize = 0;
                while i < BLOCK_WORDS
                    invariant
                        i <= BLOCK_WORDS,
                        self.wf(),
                        old(self).same_identity(*self),
                        same_devices(old(self).chan, self.chan),
                        self.chan.issued@ == old(self).chan.issued@ + 1,
                        self.chan.dout@ == payload,
                        payload.len() == BLOCK_WORDS,
                        self.chan.dpos == i,
                        !self.chan.wpending,
                        !self.chan.sig_pending,
                        res@ =~= payload.take(i as int),
                    decreases BLOCK_WORDS - i,
                {
                    let w = self.chan.read_data();
                    res.push(w);
                    proof {
                        assert(res@ =~= payload.take(i + 1));
                    }
                    i = i + 1;
                }
                proof {
                    assert(res@ =~= payload);
                }
                Ok(IdentifyResponse::Ata(res))
            },
            (0x14, 0xEB) => Ok(IdentifyResponse::Atapi),
            (0x3C, 0xC3) => Ok(IdentifyResponse::Sata),
            (_, _) => Err(()),
        }
    }

    /// Pulses the soft-reset bit of the device-control register; made
    /// available for recovery, invoked by no operation here.
    pub fn reset(&mut self)
        requires
            old(self).wf(),
        ensures
            final(self).wf(),
            old(self).same_identity(*final(self)),
            same_devices(old(self).chan, final(self).chan),
            final(self).chan.quiet(),
            !final(self).chan.error,
            final(self).chan.issued == old(self).chan.issued,
    {
        proof {
            assert(4u8 & 4 != 0 && 0u8 & 4 == 0) by (bit_vector);
        }
        self.chan.write_control(4);  // srst
        self.chan.write_control(0);
    }
}

/// Relies on core::hint::spin_loop: a busy-wait scheduling hint with no
/// observable effect.
#[verifier::external_body]
fn cpu_relax() {
    core::hint::spin_loop()
}

/// Relies on String::push: appends one character at the end.
#[verifier::external_body]
fn push_char(s: &mut String, c: char)
    ensures
        final(s)@ == old(s)@.push(c),
{
    s.push(c)
}

/// Byte `i` of the IDENTIFY byte stream: the payload words byte-swapped,
/// high byte first.
pub open spec fn id_byte(ws: Seq<u16>, i: int) -> u8 {
    if i % 2 == 0 {
        word_hi(ws[i / 2])
    } else {
        word_lo(ws[i / 2])
    }
}

/// Bytes `lo..hi` of the IDENTIFY byte stream.
pub open spec fn id_bytes(ws: Seq<u16>, lo: int, hi: int) -> Seq<u8> {
    Seq::new((hi - lo) as nat, |j: int| id_byte(ws, lo + j))
}

/// Lenient text decoding of a device-reported byte: ASCII stays, anything
/// else becomes the replacement character.
pub open spec fn lenient_char(b: u8) -> char {
    if b < 0x80 {
        b as char
    } else {
        '\u{FFFD}'
    }
}

pub open spec fn lenient_chars(bs: Seq<u8>) -> Seq<char> {
    bs.map_values(|b: u8| lenient_char(b))
}

/// ASCII whitespace, which device identity strings are padded with.
pub open spec fn is_space(c: char) -> bool {
    c == ' ' || c == '\t' || c == '\n' || c == '\r'
}

pub open spec fn trim_front(s: Seq<char>) -> Seq<char>
    decreases s.len(),
{
    if s.len() > 0 && is_space(s[0]) {
        trim_front(s.drop_first())
    } else {
        s
    }
}

pub open spec fn trim_back(s: Seq<char>) -> Seq<char>
    decreases s.len(),
{
    if s.len() > 0 && is_space(s.last()) {
        trim_back(s.drop_last())
    } else {
        s
    }
}

/// The text with its whitespace padding removed on both sides.
pub open spec fn trimmed(s: Seq<char>) -> Seq<char> {
    trim_back(trim_front(s))
}

/// The identity string that IDENTIFY bytes `lo..hi` carry, decoded
/// leniently and trimmed.
pub open spec fn id_text(ws: Seq<u16>, lo: int, hi: int) -> Seq<char> {
    trimmed(lenient_chars(id_bytes(ws, lo, hi)))
}

proof fn lemma_trim_front_at(s: Seq<char>, i: int)
    requires
        0 <= i <= s.len(),
        forall|k: int| 0 <= k < i ==> is_space(s[k]),
        i < s.len() ==> !is_space(s[i]),
    ensures
        trim_front(s) == s.subrange(i, s.len() as int),
    decreases i,
{
    if i == 0 {
        assert(trim_front(s) =~= s.subrange(0, s.len() as int));
    } else {
        let s1 = s.drop_first();
        lemma_trim_front_at(s1, i - 1);
        assert(s1.subrange(i - 1, s1.len() as int) =~= s.subrange(i, s.len() as int));
    }
}

proof fn lemma_trim_back_at(s: Seq<char>, e: int)
    requires
        0 <= e <= s.len(),
        forall|k: int| e <= k < s.len() ==> is_space(s[k]),
        e > 0 ==> !is_space(s[e - 1]),
    ensures
        trim_back(s) == s.take(e),
    decreases s.len() - e,
{
    if e == s.len() {
        assert(trim_back(s) =~= s.take(e));
    } else {
        let s1 = s.drop_last();
        lemma_trim_back_at(s1, e);
        assert(s1.take(e) =~= s.take(e));
    }
}

fn is_space_char(c: char) -> (r: bool)
    ensures
        r == is_space(c),
{
    c == ' ' || c == '\t' || c == '\n' || c == '\r'
}

/// Decodes bytes `lo..hi` of an IDENTIFY payload into the trimmed
/// identity string they carry.
fn id_string(payload: &Vec<u16>, lo: usize, hi: usize) -> (r: String)
    requires
        payload@.len() == 256,
        lo <= hi,
        hi <= 512,
    ensures
        r@ == id_text(payload@, lo as int, hi as int),
{
    let ghost text = lenient_chars(id_bytes(payload@, lo as int, hi as int));
    let mut chars: Vec<char> = Vec::new();
    let mut i: usize = lo;
    while i < hi
        invariant
            lo <= i <= hi,
            hi <= 512,
            payload@.len() == 256,
            text == lenient_chars(id_bytes(payload@, lo as int, hi as int)),
            chars@ =~= text.take(i - lo),
        decreases hi - i,
    {
        let w = payload[i / 2];
        let b: u8 = if i % 2 == 0 {
            (w >> 8) as u8
        } else {
            (w & 0xFF) as u8
        };
        let c: char = if b < 0x80 {
            b as char
        } else {
            '\u{FFFD}'
        };
        proof {
            assert(b == id_byte(payload@, i as int));
            assert(text[i - lo] == lenient_char(id_byte(payload@, i as int)));
        }
        chars.push(c);
        proof {
            assert(chars@ =~= text.take(i + 1 - lo));
        }
        i = i + 1;
    }
    proof {
        assert(chars@ =~= text);
    }
    let n = chars.len();
    let mut start: usize = 0;
    while start < n && is_space_char(chars[start])
        invariant
            start <= n,
            n == chars@.len(),
            forall|k: int| 0 <= k < start ==> is_space(chars@[k]),
        decreases n - start,
    {
        start = start + 1;
    }
    let mut end: usize = n;
    while end > start && is_space_char(chars[end - 1])
        invariant
            start <= end <= n,
            n == chars@.len(),
            forall|k: int| end <= k < n ==> is_space(chars@[k]),
        decreases end,
    {
        end = end - 1;
    }
    let mut r = String::new();
    let mut j: usize = start;
    while j < end
        invariant
            start <= j <= end,
            end <= n,
            n == chars@.len(),
            r@ =~= chars@.subrange(start as int, j as int),
        decreases end - j,
    {
        push_char(&mut r, chars[j]);
        proof {
            assert(r@ =~= chars@.subrange(start as int, j + 1));
        }
        j = j + 1;
    }
    proof {
        lemma_trim_front_at(chars@, start as int);
        let t = chars@.subrange(start as int, n as int);
        lemma_trim_back_at(t, end - start);
        assert(t.take(end - start) =~= chars@.subrange(start as int, end as int));
        assert(r@ == trimmed(text));
    }
    r
}

proof fn lemma_block_count_join(a: u16, b: u16)
    by (bit_vector)
    ensures
        ((a as u32) | ((b as u32) << 16)) == (a as u32) + (b as u32) * 0x10000,
{
}

/// The fixed set of configured buses, created once at boot and handed to
/// every caller that does block I/O; callers serialize access to it.
pub struct BusRegistry {
    pub buses: Vec<Bus>,
}

impl BusRegistry {
    pub open spec fn wf(self) -> bool {
        forall|i: int| 0 <= i < self.buses@.len() ==> (#[trigger] self.buses@[i]).wf()
    }

    /// The device at drive-select position `dsk` of bus `bus`.
    pub open spec fn dev(self, bus: int, dsk: int) -> Device {
        self.buses@[bus].chan.dev_at(dsk)
    }

    /// The stored blocks of that device.
    pub open spec fn disk_at(self, bus: int, dsk: int) -> Seq<Seq<u8>> {
        self.dev(bus, dsk).disk()
    }
}

/// The buses are wired the same and every device answers commands the
/// same way; stored block contents may differ.
pub open spec fn same_shape(a: BusRegistry, b: BusRegistry) -> bool {
    &&& a.buses@.len() == b.buses@.len()
    &&& forall|i: int|
        0 <= i < a.buses@.len() ==> {
            &&& (#[trigger] a.buses@[i]).same_identity(b.buses@[i])
            &&& a.buses@[i].chan.present == b.buses@[i].chan.present
            &&& same_shape_dev(a.buses@[i].chan.dev0, b.buses@[i].chan.dev0)
            &&& same_shape_dev(a.buses@[i].chan.dev1, b.buses@[i].chan.dev1)
        }
}

/// Same presence, kind, fault state, IDENTIFY payload and capacity.
pub open spec fn same_shape_dev(a: Device, b: Device) -> bool {
    &&& a.present == b.present
    &&& a.kind == b.kind
    &&& a.faulty == b.faulty
    &&& a.identify@ == b.identify@
    &&& a.blocks@.len() == b.blocks@.len()
}

/// Every stored block of every device is unchanged.
pub open spec fn same_disks(a: BusRegistry, b: BusRegistry) -> bool {
    &&& a.buses@.len() == b.buses@.len()
    &&& forall|bus: int, dsk: int|
        0 <= bus < a.buses@.len() && 0 <= dsk < 2 ==> #[trigger] a.disk_at(bus, dsk) == b.disk_at(
            bus,
            dsk,
        )
}

/// A probe of (bus, dsk) yields a drive: the channel answers, nothing is
/// in flight on it, and a working ATA device sits at the position.
pub open spec fn slot_ata(reg: BusRegistry, bus: int, dsk: int) -> bool {
    &&& reg.buses@[bus].chan.present
    &&& reg.buses@[bus].chan.quiet()
    &&& reg.dev(bus, dsk).ready_ata()
}

/// The metadata a drive record carries is exactly what the IDENTIFY
/// payload of its slot reports.
pub open spec fn drive_matches(reg: BusRegistry, d: Drive) -> bool {
    let payload = reg.dev(d.bus as int, d.dsk as int).identify@;
    &&& d.blocks as int == Device::id_block_count(payload)
    &&& d.serial@ == id_text(payload, 20, 40)
    &&& d.model@ == id_text(payload, 54, 94)
}

/// Immutable metadata of one discovered drive: its (bus, drive-select)
/// address, capacity, and identity strings, fixed at discovery time.
#[derive(Clone, Debug)]
pub struct Drive {
    pub bus: u8,
    pub dsk: u8,
    pub blocks: u32,
    pub model: String,
    pub serial: String,
}

impl Drive {
    /// Probes one (bus, drive-select) address; only an ATA device yields
    /// a drive.  ATAPI and SATA devices, empty positions, and floating
    /// channels all yield nothing.
    pub fn open(registry: &mut BusRegistry, bus: u8, dsk: u8) -> (r: Option<Drive>)
        requires
            old(registry).wf(),
            (bus as int) < old(registry).buses@.len(),
            dsk < 2,
        ensures
            final(registry).wf(),
            final(registry).buses@.len() == old(registry).buses@.len(),
            same_shape(*old(registry), *final(registry)),
            same_disks(*old(registry), *final(registry)),
            forall|i: int|
                0 <= i < final(registry).buses@.len() && i != bus as int ==> final(registry).buses@[i] == old(
                    registry,
                ).buses@[i],
            old(registry).buses@[bus as int].chan.quiet() ==> final(registry).buses@[
                bus as int
            ].chan.quiet(),
            r.is_some() == slot_ata(*old(registry), bus as int, dsk as int),
            r matches Some(d) ==> d.bus == bus && d.dsk == dsk && drive_matches(*old(registry), d),
    {
        let b = &mut registry.buses[bus as usize];
        let probe = b.identify_drive(dsk);
        if let Ok(IdentifyResponse::Ata(payload)) = probe {
            let serial = id_string(&payload, 20, 40);
            let model = id_string(&payload, 54, 94);
            let w60 = payload[60];
            let w61 = payload[61];
            let blocks = (w60 as u32) | ((w61 as u32) << 16);
            proof {
                lemma_block_count_join(w60, w61);
            }
            Some(Drive { bus, dsk, blocks, model, serial })
        } else {
            None
        }
    }

    /// Fixed block size of every drive.
    pub fn block_size(&self) -> (r: u32)
        ensures
            r == BLOCK_SIZE,
    {
        BLOCK_SIZE as u32
    }

    /// Total addressable blocks, as the device reported them.
    pub fn block_count(&self) -> (r: u32)
        ensures
            r == self.blocks,
    {
        self.blocks
    }

    /// Size scaled for reporting: whole mebibytes under 1000 of them,
    /// else whole gibibytes.
    pub fn human_readable_size(&self) -> (r: (usize, String))
        ensures
            ({
                let bytes = self.blocks as int * BLOCK_SIZE as int;
                if bytes / 0x100000 < 1000 {
                    r.0 == bytes / 0x100000 && r.1@ == "MB"@
                } else {
                    r.0 == bytes / 0x40000000 && r.1@ == "GB"@
                }
            }),
    {
        let size = BLOCK_SIZE as u64;
        let count = self.blocks as u64;
        let bytes = size * count;
        proof {
            assert(bytes == self.blocks as int * BLOCK_SIZE as int) by (nonlinear_arith)
                requires
                    size == 512 && count == self.blocks && bytes == size * count,
            ;
            let b = bytes;
            assert(b >> 20 == b / 0x100000 && b >> 30 == b / 0x40000000 && b >> 20 <= b && b >> 30
                <= b) by (bit_vector);
            assert(b <= 512 * 0xFFFFFFFF) by (nonlinear_arith)
                requires
                    b == size * count && size == 512 && count <= 0xFFFFFFFF,
            ;
            assert(b >> 20 < 0x100000000 && b >> 30 < 0x100000000) by (bit_vector)
                requires
                    b <= 512 * 0xFFFFFFFF,
            ;
        }
        if bytes >> 20 < 1000 {
            ((bytes >> 20) as usize, "MB".to_owned())
        } else {
            ((bytes >> 30) as usize, "GB".to_owned())
        }
    }
}

/// The probe order of discovery, linearized: position `k` of the fixed
/// (bus 0, select 0), (bus 0, select 1), (bus 1, select 0),
/// (bus 1, select 1) walk.
pub open spec fn found_upto(reg: BusRegistry, k: int) -> Seq<(u8, u8)>
    decreases k,
{
    if k <= 0 {
        Seq::empty()
    } else {
        let prev = found_upto(reg, k - 1);
        if slot_ata(reg, (k - 1) / 2, (k - 1) % 2) {
            prev.push((((k - 1) / 2) as u8, ((k - 1) % 2) as u8))
        } else {
            prev
        }
    }
}

/// Probes both buses and both drive-select positions in the fixed order
/// (bus 0, select 0), (bus 0, select 1), (bus 1, select 0),
/// (bus 1, select 1); the result holds the drives found, in that order.
pub fn list_drives(registry: &mut BusRegistry) -> (r: Vec<Drive>)
    requires
        old(registry).wf(),
        old(registry).buses@.len() == 2,
        forall|i: int| 0 <= i < 2 ==> (#[trigger] old(registry).buses@[i]).chan.quiet(),
    ensures
        final(registry).wf(),
        final(registry).buses@.len() == 2,
        same_shape(*old(registry), *final(registry)),
        same_disks(*old(registry), *final(registry)),
        forall|i: int| 0 <= i < 2 ==> (#[trigger] final(registry).buses@[i]).chan.quiet(),
        r@.map_values(|d: Drive| (d.bus, d.dsk)) == found_upto(*old(registry), 4),
        forall|j: int|
            0 <= j < r@.len() ==> drive_matches(*old(registry), #[trigger] r@[j]) && slot_ata(
                *old(registry),
                r@[j].bus as int,
                r@[j].dsk as int,
            ) && r@[j].bus < 2 && r@[j].dsk < 2,
{
    let mut res: Vec<Drive> = Vec::new();
    let mut bus: u8 = 0;
    while bus < 2
        invariant
            bus <= 2,
            registry.wf(),
            registry.buses@.len() == 2,
            same_shape(*old(registry), *registry),
            same_disks(*old(registry), *registry),
            forall|i: int| 0 <= i < 2 ==> (#[trigger] registry.buses@[i]).chan.quiet(),
            forall|i: int| 0 <= i < 2 ==> (#[trigger] old(registry).buses@[i]).chan.quiet(),
            res@.map_values(|d: Drive| (d.bus, d.dsk)) =~= found_upto(*old(registry), 2 * bus),
            forall|j: int|
                0 <= j < res@.len() ==> drive_matches(*old(registry), #[trigger] res@[j])
                    && slot_ata(*old(registry), res@[j].bus as int, res@[j].dsk as int)
                    && res@[j].bus < 2 && res@[j].dsk < 2,
        decreases 2 - bus,
    {
        let mut dsk: u8 = 0;
        while dsk < 2
            invariant
                bus < 2,
                dsk <= 2,
                registry.wf(),
                registry.buses@.len() == 2,
                same_shape(*old(registry), *registry),
                same_disks(*old(registry), *registry),
                forall|i: int| 0 <= i < 2 ==> (#[trigger] registry.buses@[i]).chan.quiet(),
                forall|i: int| 0 <= i < 2 ==> (#[trigger] old(registry).buses@[i]).chan.quiet(),
                res@.map_values(|d: Drive| (d.bus, d.dsk)) =~= found_upto(
                    *old(registry),
                    2 * bus + dsk,
                ),
                forall|j: int|
                    0 <= j < res@.len() ==> drive_matches(*old(registry), #[trigger] res@[j])
                        && slot_ata(*old(registry), res@[j].bus as int, res@[j].dsk as int)
                        && res@[j].bus < 2 && res@[j].dsk < 2,
            decreases 2 - dsk,
        {
            let ghost pre = *registry;
            proof {
                assert(old(registry).buses@[bus as int].chan.quiet());
                assert(pre.buses@[bus as int].chan.quiet());
            }
            if let Some(drive) = Drive::open(registry, bus, dsk) {
                proof {
                    lemma_slot_shape(*old(registry), pre, bus as int, dsk as int);
                }
                res.push(drive);
            } else {
                proof {
                    lemma_slot_shape(*old(registry), pre, bus as int, dsk as int);
                }
            }
            proof {
                assert(res@.map_values(|d: Drive| (d.bus, d.dsk)) =~= found_upto(
                    *old(registry),
                    2 * bus + dsk + 1,
                ));
            }
            dsk = dsk + 1;
        }
        bus = bus + 1;
    }
    res
}

/// Two registries of the same shape whose channels are both settled agree
/// on which probes yield a drive, and on the drive metadata.
proof fn lemma_slot_shape(a: BusRegistry, b: BusRegistry, bus: int, dsk: int)
    requires
        same_shape(a, b),
        0 <= bus < a.buses@.len(),
        0 <= dsk < 2,
        a.buses@[bus].chan.quiet(),
        b.buses@[bus].chan.quiet(),
    ensures
        slot_ata(a, bus, dsk) == slot_ata(b, bus, dsk),
        a.dev(bus, dsk).identify@ == b.dev(bus, dsk).identify@,
{
}

/// Reads block `block` of drive `drive` on bus `bus` into `buf`.
pub fn read_ata(registry: &mut BusRegistry, bus: u8, drive: u8, block: u32, buf: &mut Vec<
    u8,
>) -> (r: Result<(), ()>)
    requires
        old(registry).wf(),
        (bus as int) < old(registry).buses@.len(),
        drive < 2,
        block < 0x10000000,
        old(buf)@.len() == BLOCK_SIZE,
    ensures
        final(registry).wf(),
        same_shape(*old(registry), *final(registry)),
        same_disks(*old(registry), *final(registry)),
        forall|i: int|
            0 <= i < final(registry).buses@.len() && i != bus as int ==> final(registry).buses@[i] == old(
                registry,
            ).buses@[i],
        final(buf)@.len() == BLOCK_SIZE,
        final(registry).buses@[bus as int].chan.issued@ <= old(registry).buses@[bus as int].chan.issued@
            + 1,
        r.is_ok() == rw_ok(old(registry).buses@[bus as int].chan, drive, block),
        r.is_ok() ==> final(buf)@ == old(registry).disk_at(bus as int, drive as int)[block as int]
            && final(registry).buses@[bus as int].chan.quiet(),
{
    registry.buses[bus as usize].read(drive, block, buf)
}

/// Writes `buf` to block `block` of drive `drive` on bus `bus`.
pub fn write_ata(registry: &mut BusRegistry, bus: u8, drive: u8, block: u32, buf: &Vec<u8>) -> (r:
    Result<(), ()>)
    requires
        old(registry).wf(),
        (bus as int) < old(registry).buses@.len(),
        drive < 2,
        block < 0x10000000,
        buf@.len() == BLOCK_SIZE,
    ensures
        final(registry).wf(),
        same_shape(*old(registry), *final(registry)),
        forall|i: int|
            0 <= i < final(registry).buses@.len() && i != bus as int ==> final(registry).buses@[i] == old(
                registry,
            ).buses@[i],
        final(registry).buses@[bus as int].chan.issued@ <= old(registry).buses@[bus as int].chan.issued@
            + 1,
        r.is_ok() == rw_ok(old(registry).buses@[bus as int].chan, drive, block),
        r.is_ok() ==> {
            &&& final(registry).disk_at(bus as int, drive as int) == old(registry).disk_at(
                bus as int,
                drive as int,
            ).update(block as int, buf@)
            &&& final(registry).dev(bus as int, 1 - drive as int) == old(registry).dev(
                bus as int,
                1 - drive as int,
            )
            &&& final(registry).buses@[bus as int].chan.quiet()
        },
        r.is_err() ==> same_disks(*old(registry), *final(registry)),
{
    registry.buses[bus as usize].write(drive, block, buf)
}

/// Builds the fixed two-channel legacy topology (primary at 0x1F0/0x3F6,
/// IRQ 14; secondary at 0x170/0x376, IRQ 15) over the given channels and
/// discovers the drives on it.
pub fn init(chan0: Channel, chan1: Channel) -> (r: (BusRegistry, Vec<Drive>))
    requires
        chan0.wf(),
        chan1.wf(),
        chan0.quiet(),
        chan1.quiet(),
    ensures
        r.0.wf(),
        r.0.buses@.len() == 2,
        r.0.buses@[0].id == 0 && r.0.buses@[0].io_base == 0x1F0 && r.0.buses@[0].ctrl_base == 0x3F6
            && r.0.buses@[0].irq == 14,
        r.0.buses@[1].id == 1 && r.0.buses@[1].io_base == 0x170 && r.0.buses@[1].ctrl_base == 0x376
            && r.0.buses@[1].irq == 15,
        same_shape_dev(r.0.dev(0, 0), chan0.dev0) && same_shape_dev(r.0.dev(0, 1), chan0.dev1),
        same_shape_dev(r.0.dev(1, 0), chan1.dev0) && same_shape_dev(r.0.dev(1, 1), chan1.dev1),
        r.0.disk_at(0, 0) == chan0.dev0.disk() && r.0.disk_at(0, 1) == chan0.dev1.disk(),
        r.0.disk_at(1, 0) == chan1.dev0.disk() && r.0.disk_at(1, 1) == chan1.dev1.disk(),
        r.0.buses@[0].chan.present == chan0.present && r.0.buses@[1].chan.present == chan1.present,
        forall|i: int| 0 <= i < 2 ==> (#[trigger] r.0.buses@[i]).chan.quiet(),
        forall|j: int|
            0 <= j < r.1@.len() ==> drive_matches(r.0, #[trigger] r.1@[j]) && slot_ata(
                r.0,
                r.1@[j].bus as int,
                r.1@[j].dsk as int,
            ),
        r.1@.map_values(|d: Drive| (d.bus, d.dsk)) == found_upto(r.0, 4),
{
    let mut buses: Vec<Bus> = Vec::new();
    buses.push(Bus::new(0, 0x1F0, 0x3F6, 14, chan0));
    buses.push(Bus::new(1, 0x170, 0x376, 15, chan1));
    let mut registry = BusRegistry { buses };
    let ghost reg0 = registry;
    proof {
        assert(reg0.buses@.len() == 2);
        assert(reg0.buses@[0].chan == chan0 && reg0.buses@[1].chan == chan1);
        assert(reg0.wf());
        assert(forall|i: int| 0 <= i < 2 ==> (#[trigger] reg0.buses@[i]).chan.quiet());
    }
    let drives = list_drives(&mut registry);
    proof {
        assert(reg0.buses@[0].same_identity(registry.buses@[0]));
        assert(reg0.buses@[1].same_identity(registry.buses@[1]));
        assert(same_shape_dev(reg0.buses@[0].chan.dev0, registry.buses@[0].chan.dev0));
        assert(same_shape_dev(reg0.buses@[0].chan.dev1, registry.buses@[0].chan.dev1));
        assert(same_shape_dev(reg0.buses@[1].chan.dev0, registry.buses@[1].chan.dev0));
        assert(same_shape_dev(reg0.buses@[1].chan.dev1, registry.buses@[1].chan.dev1));
        assert(registry.disk_at(0, 0) == reg0.disk_at(0, 0) && registry.disk_at(0, 1)
            == reg0.disk_at(0, 1));
        assert(registry.disk_at(1, 0) == reg0.disk_at(1, 0) && registry.disk_at(1, 1)
            == reg0.disk_at(1, 1));
        assert forall|k: int| 0 <= k <= 4 implies found_upto(reg0, k) == found_upto(
            registry,
            k,
        ) by {
            lemma_found_same(reg0, registry, k);
        }
        assert forall|j: int| 0 <= j < drives@.len() implies drive_matches(
            registry,
            #[trigger] drives@[j],
        ) && slot_ata(registry, drives@[j].bus as int, drives@[j].dsk as int) by {
            let d = drives@[j];
            assert(drive_matches(reg0, d));
            assert(slot_ata(reg0, d.bus as int, d.dsk as int));
            lemma_slot_shape(reg0, registry, d.bus as int, d.dsk as int);
        }
    }
    (registry, drives)
}

/// Round trip: writing a block and then reading the same block back
/// yields byte-identical content.  A successful `write_ata` stores
/// exactly the written bytes (its ensures), a successful `read_ata`
/// returns exactly the stored block (its ensures), and the store obeys
/// this law.
pub proof fn lemma_write_read_round_trip(disk: Seq<Seq<u8>>, block: int, data: Seq<u8>)
    requires
        0 <= block < disk.len(),
    ensures
        disk.update(block, data)[block] == data,
{
}

/// Idempotence of reads: a read leaves every stored block unchanged
/// (`read_ata` ensures `same_disks`), so two successful reads of the same
/// unmodified block return identical bytes.
pub proof fn lemma_read_idempotent(
    a: BusRegistry,
    b: BusRegistry,
    bus: int,
    dsk: int,
    block: int,
    first: Seq<u8>,
    second: Seq<u8>,
)
    requires
        same_disks(a, b),
        0 <= bus < a.buses@.len(),
        0 <= dsk < 2,
        first == a.disk_at(bus, dsk)[block],
        second == b.disk_at(bus, dsk)[block],
    ensures
        first == second,
{
}

/// A device position that reports the `Error` status bit on its commands
/// never completes a read or a write, whatever the block: the success
/// condition of `read_ata` and `write_ata` rules it out, and neither
/// retries (they issue at most one command).
pub proof fn lemma_faulty_fails(ch: Channel, drive: u8, block: u32)
    requires
        ch.dev_at(drive as int).faulty,
    ensures
        !rw_ok(ch, drive, block),
{
}

proof fn lemma_found_same(a: BusRegistry, b: BusRegistry, k: int)
    requires
        same_shape(a, b),
        a.buses@.len() == 2,
        forall|i: int| 0 <= i < 2 ==> (#[trigger] a.buses@[i]).chan.quiet(),
        forall|i: int| 0 <= i < 2 ==> (#[trigger] b.buses@[i]).chan.quiet(),
        k <= 4,
    ensures
        found_upto(a, k) == found_upto(b, k),
    decreases k,
{
    if k > 0 {
        lemma_found_same(a, b, k - 1);
        lemma_slot_shape(a, b, (k - 1) / 2, (k - 1) % 2);
    }
}

} // verus!
