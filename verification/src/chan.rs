//! Model of one ATA controller channel: the command-block and control-block
//! registers, the two drive-select positions behind them, and the device
//! behaviour that answers register reads and writes.
//!
//! The model is synchronous: a device settles a command the moment the
//! opcode is written, so the `Busy` status bit is only ever seen on a
//! floating channel.  After an IDENTIFY command the model keeps the
//! `DataRequest` bit raised until the host has read back a signature
//! register, so that the signature hand-over is part of the observable
//! protocol; reading block data or sending block data raises it as long
//! as words remain to move.
use vstd::prelude::*;

use crate::device::Device;
use crate::device::DeviceKind;
use crate::words::le_bytes_to_words;
use crate::words::words_to_le_bytes;
use crate::words::join_word;
use crate::words::split_word;

verus! {

/// Command opcodes the channel model answers.
pub const OP_READ: u8 = 0x20;

pub const OP_WRITE: u8 = 0x30;

pub const OP_IDENTIFY: u8 = 0xEC;

/// Words of data that one block transfer moves.
pub const BLOCK_WORDS: usize = 256;

/// One controller channel with its two device positions.
///
/// `present == false` models a floating channel: no controller answers and
/// every status read returns 0xFF.
pub struct Channel {
    pub present: bool,
    pub dev0: Device,
    pub dev1: Device,
    /// Command-block registers as last written.
    pub sector_count: u8,
    pub lba_low: u8,
    pub lba_mid: u8,
    pub lba_high: u8,
    pub drive_head: u8,
    /// Device-control register as last written.
    pub control: u8,
    /// Interrupt-request latch; reading the primary status register
    /// clears it, reading the alternate status register does not.
    pub irq_pending: bool,
    /// `Error` status bit of the last settled command.
    pub error: bool,
    /// Words the device still presents on the data port, next at `dpos`.
    pub dout: Vec<u16>,
    pub dpos: usize,
    /// Words received so far for an accepted block write.
    pub din: Vec<u16>,
    /// Target position and block of the accepted write.
    pub wsel: u8,
    pub wlba: u32,
    pub wpending: bool,
    /// Signature hand-over after IDENTIFY is still open.
    pub sig_pending: bool,
    /// How many commands were ever issued on this channel.
    pub issued: Ghost<nat>,
}

impl Channel {
    /// Drive-select position that bit 4 of the drive/head register names.
    pub open spec fn sel(self) -> int {
        if self.drive_head & 0x10 == 0 {
            0
        } else {
            1
        }
    }

    /// The device at position `i` (0 = master, 1 = slave).
    pub open spec fn dev_at(self, i: int) -> Device {
        if i == 0 {
            self.dev0
        } else {
            self.dev1
        }
    }

    /// The currently selected device.
    pub open spec fn sel_dev(self) -> Device {
        self.dev_at(self.sel())
    }

    /// The 28-bit logical block address the command-block registers hold.
    pub open spec fn lba28(self) -> u32 {
        (((self.drive_head & 0xF) as u32) << 24) | ((self.lba_high as u32) << 16) | ((
        self.lba_mid as u32) << 8) | (self.lba_low as u32)
    }

    /// The `DataRequest` condition: data words remain to be read, an
    /// accepted write still wants words, or an IDENTIFY signature
    /// hand-over is open.
    pub open spec fn drq(self) -> bool {
        ||| self.dpos < self.dout@.len()
        ||| (self.wpending && self.din@.len() < BLOCK_WORDS)
        ||| self.sig_pending
    }

    /// No transfer is in flight on the channel.
    pub open spec fn quiet(self) -> bool {
        &&& self.dpos >= self.dout@.len()
        &&& !self.wpending
        &&& !self.sig_pending
    }

    /// Well-formedness: both devices are well-formed, the data cursor
    /// stays in range, and an accepted write names a writable block of a
    /// ready device.
    pub open spec fn wf(self) -> bool {
        &&& self.dev0.wf()
        &&& self.dev1.wf()
        &&& self.dpos <= self.dout@.len()
        &&& self.wsel < 2
        &&& self.wpending ==> {
            &&& self.din@.len() < BLOCK_WORDS
            &&& self.dev_at(self.wsel as int).ready_ata()
            &&& (self.wlba as int) < self.dev_at(self.wsel as int).blocks@.len()
        }
    }

    /// Value of the status and alternate-status registers.
    pub open spec fn spec_status(self) -> u8 {
        if !self.present {
            0xFF
        } else if !self.sel_dev().present {
            0
        } else {
            let e: u8 = if self.error {
                1
            } else {
                0
            };
            let d: u8 = if self.drq() {
                8
            } else {
                0
            };
            (0x40 + e + d) as u8
        }
    }

    /// A fresh channel: registers cleared, no transfer in flight, drive 0
    /// selected.
    pub fn new(present: bool, dev0: Device, dev1: Device) -> (c: Channel)
        ensures
            c.present == present,
            c.dev0 == dev0,
            c.dev1 == dev1,
            c.sector_count == 0 && c.lba_low == 0 && c.lba_mid == 0 && c.lba_high == 0,
            c.drive_head == 0xA0u8,
            c.control == 0,
            !c.irq_pending,
            !c.error,
            c.quiet(),
            c.issued@ == 0,
            dev0.wf() && dev1.wf() ==> c.wf(),
    {
        let c = Channel {
            present,
            dev0,
            dev1,
            sector_count: 0,
            lba_low: 0,
            lba_mid: 0,
            lba_high: 0,
            drive_head: 0xA0,
            control: 0,
            irq_pending: false,
            error: false,
            dout: Vec::new(),
            dpos: 0,
            din: Vec::new(),
            wsel: 0,
            wlba: 0,
            wpending: false,
            sig_pending: false,
            issued: Ghost(0nat),
        };
        c
    }

    /// Reading the alternate status register: pure, leaves the
    /// interrupt-request latch alone.
    pub fn read_alt_status(&self) -> (r: u8)
        ensures
            r == self.spec_status(),
    {
        self.compute_status()
    }

    /// Reading the primary status register clears the interrupt-request
    /// latch as a side effect.
    pub fn read_status(&mut self) -> (r: u8)
        ensures
            r == old(self).spec_status(),
            *final(self) == (Channel { irq_pending: false, ..*old(self) }),
    {
        self.irq_pending = false;
        self.compute_status()
    }

    fn compute_status(&self) -> (r: u8)
        ensures
            r == self.spec_status(),
    {
        if !self.present {
            return 0xFF;
        }
        let d = self.sel_ref();
        if !d.present {
            return 0;
        }
        let e: u8 = if self.error {
            1
        } else {
            0
        };
        let q: u8 = if self.dpos < self.dout.len() || (self.wpending && self.din.len()
            < BLOCK_WORDS) || self.sig_pending {
            8
        } else {
            0
        };
        0x40 + e + q
    }

    fn sel_ref(&self) -> (d: &Device)
        ensures
            *d == self.sel_dev(),
    {
        if self.drive_head & 0x10 == 0 {
            &self.dev0
        } else {
            &self.dev1
        }
    }

    /// Reading the LBA-mid register closes an open signature hand-over.
    pub fn read_lba_mid(&mut self) -> (r: u8)
        ensures
            r == old(self).lba_mid,
            *final(self) == (Channel { sig_pending: false, ..*old(self) }),
    {
        self.sig_pending = false;
        self.lba_mid
    }

    /// Reading the LBA-high register closes an open signature hand-over.
    pub fn read_lba_high(&mut self) -> (r: u8)
        ensures
            r == old(self).lba_high,
            *final(self) == (Channel { sig_pending: false, ..*old(self) }),
    {
        self.sig_pending = false;
        self.lba_high
    }

    pub fn write_sector_count(&mut self, v: u8)
        ensures
            *final(self) == (Channel { sector_count: v, ..*old(self) }),
    {
        self.sector_count = v;
    }

    pub fn write_lba_low(&mut self, v: u8)
        ensures
            *final(self) == (Channel { lba_low: v, ..*old(self) }),
    {
        self.lba_low = v;
    }

    pub fn write_lba_mid(&mut self, v: u8)
        ensures
            *final(self) == (Channel { lba_mid: v, ..*old(self) }),
    {
        self.lba_mid = v;
    }

    pub fn write_lba_high(&mut self, v: u8)
        ensures
            *final(self) == (Channel { lba_high: v, ..*old(self) }),
    {
        self.lba_high = v;
    }

    pub fn write_drive_head(&mut self, v: u8)
        ensures
            *final(self) == (Channel { drive_head: v, ..*old(self) }),
    {
        self.drive_head = v;
    }

    /// Writing the device-control register; bit 2 is soft reset, which
    /// settles the channel and clears any error.
    pub fn write_control(&mut self, v: u8)
        ensures
            final(self).control == v,
            final(self).present == old(self).present,
            final(self).dev0 == old(self).dev0 && final(self).dev1 == old(self).dev1,
            final(self).sector_count == old(self).sector_count,
            final(self).lba_low == old(self).lba_low && final(self).lba_mid == old(self).lba_mid,
            final(self).lba_high == old(self).lba_high,
            final(self).drive_head == old(self).drive_head,
            final(self).irq_pending == old(self).irq_pending,
            final(self).issued == old(self).issued,
            v & 4 != 0 ==> !final(self).error && final(self).quiet(),
            v & 4 == 0 ==> *final(self) == (Channel { control: v, ..*old(self) }),
            old(self).wf() ==> final(self).wf(),
    {
        if v & 4 != 0 {
            self.error = false;
            self.dout.clear();
            self.dpos = 0;
            self.din.clear();
            self.wpending = false;
            self.sig_pending = false;
        }
        self.control = v;
    }

    /// Reading the data port: the next pending word, or 0 when the device
    /// has nothing to present.
    pub fn read_data(&mut self) -> (w: u16)
        ensures
            old(self).dpos < old(self).dout@.len() ==> {
                &&& w == old(self).dout@[old(self).dpos as int]
                &&& *final(self) == (Channel { dpos: (old(self).dpos + 1) as usize, ..*old(self) })
            },
            old(self).dpos >= old(self).dout@.len() ==> *final(self) == *old(self) && w == 0,
            old(self).wf() ==> final(self).wf(),
    {
        if self.dpos < self.dout.len() {
            let w = self.dout[self.dpos];
            self.dpos = self.dpos + 1;
            w
        } else {
            0
        }
    }

    /// Writing the data port: an accepted block write takes the word;
    /// when the 256th word arrives the device commits the block.
    pub fn write_data(&mut self, w: u16)
        requires
            old(self).wf(),
        ensures
            final(self).wf(),
            !old(self).wpending ==> *final(self) == *old(self),
            old(self).wpending && old(self).din@.len() + 1 < BLOCK_WORDS ==> *final(self) == (
            Channel { din: final(self).din, ..*old(self) }) && final(self).din@ == old(
                self,
            ).din@.push(w),
            old(self).wpending && old(self).din@.len() + 1 == BLOCK_WORDS ==> commit_post(
                *old(self),
                *final(self),
                w,
            ),
    {
        if self.wpending {
            self.din.push(w);
            if self.din.len() == BLOCK_WORDS {
                let blk = words_bytes_vec(&self.din);
                let lba = self.wlba as usize;
                proof {
                    assert(blk@.len() == 512);
                }
                if self.wsel == 0 {
                    self.dev0.blocks.set(lba, blk);
                    proof {
                        assert(self.dev0.disk() =~= old(self).dev0.disk().update(
                            old(self).wlba as int,
                            words_to_le_bytes(old(self).din@.push(w)),
                        ));
                    }
                } else {
                    self.dev1.blocks.set(lba, blk);
                    proof {
                        assert(self.dev1.disk() =~= old(self).dev1.disk().update(
                            old(self).wlba as int,
                            words_to_le_bytes(old(self).din@.push(w)),
                        ));
                    }
                }
                self.wpending = false;
                self.din.clear();
            }
        }
    }

    /// Writing the command register: the selected device settles the
    /// command at once.  Read and Write load or accept one block when the
    /// device is a working ATA drive and the block address is on the
    /// disk; IDENTIFY opens the signature hand-over; anything else, an
    /// address off the disk, or a faulty device raises `Error`.
    pub fn write_command_reg(&mut self, op: u8)
        requires
            old(self).wf(),
        ensures
            final(self).wf(),
            final(self).issued@ == old(self).issued@ + 1,
            final(self).irq_pending == true,
            final(self).present == old(self).present,
            final(self).dev0 == old(self).dev0 && final(self).dev1 == old(self).dev1,
            final(self).sector_count == old(self).sector_count,
            final(self).lba_low == old(self).lba_low,
            final(self).drive_head == old(self).drive_head,
            final(self).control == old(self).control,
            final(self).sel() == old(self).sel(),
            !(old(self).present && old(self).sel_dev().present && !old(self).sel_dev().faulty && op
                == OP_IDENTIFY) ==> final(self).lba_mid == old(self).lba_mid && final(
            self).lba_high == old(self).lba_high,
            !old(self).present ==> {
                &&& final(self).error == old(self).error
                &&& final(self).dout == old(self).dout && final(self).dpos == old(self).dpos
                &&& final(self).din == old(self).din
                &&& final(self).wpending == old(self).wpending
                &&& final(self).sig_pending == old(self).sig_pending
                &&& final(self).wsel == old(self).wsel && final(self).wlba == old(self).wlba
            },
            old(self).present && !old(self).sel_dev().present ==> final(self).settled_clear(),
            old(self).present && old(self).sel_dev().present ==> {
                let dev = old(self).sel_dev();
                let lba = old(self).lba28() as int;
                &&& (op == OP_READ && dev.ready_ata() && lba < dev.blocks@.len()) ==> {
                    &&& !final(self).error
                    &&& final(self).dout@ == le_bytes_to_words(dev.disk()[lba])
                    &&& final(self).dpos == 0
                    &&& !final(self).wpending
                    &&& !final(self).sig_pending
                }
                &&& (op == OP_WRITE && dev.ready_ata() && lba < dev.blocks@.len()) ==> {
                    &&& !final(self).error
                    &&& final(self).wpending
                    &&& final(self).wsel as int == old(self).sel()
                    &&& final(self).wlba == old(self).lba28()
                    &&& final(self).din@.len() == 0
                    &&& final(self).dout@.len() == 0 && final(self).dpos == 0
                    &&& !final(self).sig_pending
                }
                &&& (op == OP_IDENTIFY && !dev.faulty) ==> {
                    &&& !final(self).error
                    &&& final(self).sig_pending
                    &&& final(self).lba_mid == signature_mid(dev.kind)
                    &&& final(self).lba_high == signature_high(dev.kind)
                    &&& final(self).dpos == 0
                    &&& dev.kind == DeviceKind::Ata ==> final(self).dout@ == dev.identify@
                    &&& dev.kind != DeviceKind::Ata ==> final(self).dout@.len() == 0
                    &&& !final(self).wpending
                }
                &&& !((op == OP_READ || op == OP_WRITE) && dev.ready_ata() && lba
                    < dev.blocks@.len()) && !(op == OP_IDENTIFY && !dev.faulty) ==> final(
                self).failed_clear()
            },
    {
        self.issued = Ghost(self.issued@ + 1);
        self.irq_pending = true;
        if !self.present {
            return ;
        }
        let selected: u8 = if self.drive_head & 0x10 == 0 {
            0
        } else {
            1
        };
        let dev_present = self.sel_ref().present;
        if !dev_present {
            self.clear_transfer(false);
            return ;
        }
        if op == OP_READ || op == OP_WRITE {
            let d = self.sel_ref();
            let ready = d.present && d.kind == DeviceKind::Ata && !d.faulty;
            let lba = self.lba28_reg();
            let in_range = ready && (lba as usize) < self.sel_ref().blocks.len();
            if !in_range {
                self.clear_transfer(true);
                return ;
            }
            if op == OP_READ {
                let ws = if selected == 0 {
                    block_words(&self.dev0.blocks[lba as usize])
                } else {
                    block_words(&self.dev1.blocks[lba as usize])
                };
                self.dout = ws;
                self.dpos = 0;
                self.din.clear();
                self.wpending = false;
                self.sig_pending = false;
                self.error = false;
            } else {
                self.dout = Vec::new();
                self.dpos = 0;
                self.din = Vec::new();
                self.wsel = selected;
                self.wlba = lba;
                self.wpending = true;
                self.sig_pending = false;
                self.error = false;
            }
        } else if op == OP_IDENTIFY {
            let d = self.sel_ref();
            if d.faulty {
                self.clear_transfer(true);
                return ;
            }
            let kind = self.sel_ref().kind;
            let ws = if kind == DeviceKind::Ata {
                if selected == 0 {
                    self.dev0.identify.clone()
                } else {
                    self.dev1.identify.clone()
                }
            } else {
                Vec::new()
            };
            self.dout = ws;
            self.dpos = 0;
            self.din.clear();
            self.wpending = false;
            self.sig_pending = true;
            self.error = false;
            self.lba_mid = signature_mid_of(kind);
            self.lba_high = signature_high_of(kind);
        } else {
            self.clear_transfer(true);
        }
    }

    /// No transfer in flight and no error: the state an absent device
    /// position presents.
    pub open spec fn settled_clear(self) -> bool {
        &&& !self.error
        &&& self.dout@.len() == 0 && self.dpos == 0
        &&& self.din@.len() == 0
        &&& !self.wpending
        &&& !self.sig_pending
    }

    /// No transfer in flight, `Error` raised: a rejected command.
    pub open spec fn failed_clear(self) -> bool {
        &&& self.error
        &&& self.dout@.len() == 0 && self.dpos == 0
        &&& self.din@.len() == 0
        &&& !self.wpending
        &&& !self.sig_pending
    }

    fn clear_transfer(&mut self, error: bool)
        ensures
            *final(self) == (Channel {
                error,
                dout: final(self).dout,
                dpos: 0,
                din: final(self).din,
                wpending: false,
                sig_pending: false,
                ..*old(self)
            }),
            final(self).dout@.len() == 0,
            final(self).din@.len() == 0,
    {
        self.dout.clear();
        self.dpos = 0;
        self.din.clear();
        self.wpending = false;
        self.sig_pending = false;
        self.error = error;
    }

    fn lba28_reg(&self) -> (r: u32)
        ensures
            r == self.lba28(),
    {
        (((self.drive_head & 0xF) as u32) << 24) | ((self.lba_high as u32) << 16) | ((
        self.lba_mid as u32) << 8) | (self.lba_low as u32)
    }
}

/// How a channel looks after the 256th word of an accepted write: the
/// target device holds the committed block, everything else stands.
pub open spec fn commit_post(pre: Channel, post: Channel, w: u16) -> bool {
    let committed = words_to_le_bytes(pre.din@.push(w));
    let tgt = pre.dev_at(pre.wsel as int);
    let newdev = post.dev_at(pre.wsel as int);
    &&& post.wpending == false
    &&& post.din@.len() == 0
    &&& post.dout == pre.dout && post.dpos == pre.dpos
    &&& post.sig_pending == pre.sig_pending
    &&& post.error == pre.error
    &&& post.present == pre.present
    &&& post.sector_count == pre.sector_count
    &&& post.lba_low == pre.lba_low
    &&& post.lba_mid == pre.lba_mid
    &&& post.lba_high == pre.lba_high
    &&& post.drive_head == pre.drive_head
    &&& post.control == pre.control
    &&& post.irq_pending == pre.irq_pending
    &&& post.issued == pre.issued
    &&& post.wsel == pre.wsel && post.wlba == pre.wlba
    &&& newdev.disk() == tgt.disk().update(pre.wlba as int, committed)
    &&& newdev.present == tgt.present && newdev.kind == tgt.kind && newdev.faulty == tgt.faulty
    &&& newdev.identify == tgt.identify
    &&& newdev.blocks@.len() == tgt.blocks@.len()
    &&& post.dev_at(1 - pre.wsel as int) == pre.dev_at(1 - pre.wsel as int)
}

/// LBA-mid signature byte a device kind reports after IDENTIFY.
pub open spec fn signature_mid(kind: DeviceKind) -> u8 {
    match kind {
        DeviceKind::Ata => 0x00,
        DeviceKind::Atapi => 0x14,
        DeviceKind::Sata => 0x3C,
        DeviceKind::Unknown => 0x55,
    }
}

/// LBA-high signature byte a device kind reports after IDENTIFY.
pub open spec fn signature_high(kind: DeviceKind) -> u8 {
    match kind {
        DeviceKind::Ata => 0x00,
        DeviceKind::Atapi => 0xEB,
        DeviceKind::Sata => 0xC3,
        DeviceKind::Unknown => 0xAA,
    }
}

fn signature_mid_of(kind: DeviceKind) -> (r: u8)
    ensures
        r == signature_mid(kind),
{
    match kind {
        DeviceKind::Ata => 0x00,
        DeviceKind::Atapi => 0x14,
        DeviceKind::Sata => 0x3C,
        DeviceKind::Unknown => 0x55,
    }
}

fn signature_high_of(kind: DeviceKind) -> (r: u8)
    ensures
        r == signature_high(kind),
{
    match kind {
        DeviceKind::Ata => 0x00,
        DeviceKind::Atapi => 0xEB,
        DeviceKind::Sata => 0xC3,
        DeviceKind::Unknown => 0xAA,
    }
}

/// The word stream a block's bytes put on the data port.
fn block_words(blk: &Vec<u8>) -> (r: Vec<u16>)
    requires
        blk@.len() % 2 == 0,
    ensures
        r@ == le_bytes_to_words(blk@),
{
    let mut r: Vec<u16> = Vec::new();
    let n = blk.len() / 2;
    let mut i: usize = 0;
    while i < n
        invariant
            i <= n,
            n == blk@.len() / 2,
            blk@.len() % 2 == 0,
            blk@.len() <= usize::MAX,
            r@ =~= le_bytes_to_words(blk@).take(i as int),
        decreases n - i,
    {
        proof {
            assert(2 * i + 1 < blk@.len()) by {
                assert(n * 2 == blk@.len());
            }
        }
        let w = join_word(blk[2 * i], blk[2 * i + 1]);
        r.push(w);
        proof {
            assert(r@ =~= le_bytes_to_words(blk@).take(i + 1));
        }
        i = i + 1;
    }
    proof {
        assert(le_bytes_to_words(blk@).take(n as int) =~= le_bytes_to_words(blk@));
    }
    r
}

/// The byte contents that a received word stream forms, little-endian.
fn words_bytes_vec(ws: &Vec<u16>) -> (r: Vec<u8>)
    ensures
        r@ == words_to_le_bytes(ws@),
{
    let mut r: Vec<u8> = Vec::new();
    let n = ws.len();
    let mut i: usize = 0;
    while i < n
        invariant
            i <= n,
            n == ws@.len(),
            r@ =~= words_to_le_bytes(ws@).take(2 * i as int),
        decreases n - i,
    {
        let (lo, hi) = split_word(ws[i]);
        r.push(lo);
        r.push(hi);
        proof {
            assert(r@ =~= words_to_le_bytes(ws@).take(2 * (i + 1) as int));
        }
        i = i + 1;
    }
    proof {
        assert(words_to_le_bytes(ws@).take(2 * n as int) =~= words_to_le_bytes(ws@));
    }
    r
}

} // verus!
