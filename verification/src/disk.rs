//! The block device, modelled as an in-memory sector store.
//!
//! A device is a flat byte buffer addressed in whole 512-byte sectors; its
//! abstract value is that byte sequence.  Transfers are synchronous and
//! all-or-nothing: a read or write either moves the full `count` sectors or
//! fails without touching anything, mirroring a sector-granular device
//! driver's contract.  `count` is carried as a `u16`, so one transfer moves
//! at most 65535 sectors.

use vstd::prelude::*;

use crate::FsError;
use crate::SECTOR_BYTES;

verus! {

/// True when sectors `[sector, sector + count)` lie entirely inside a device
/// of `disk.len()` bytes, so a transfer of that range can succeed.
pub open spec fn transfer_fits(disk: Seq<u8>, sector: u64, count: u16) -> bool {
    (sector + count) * (SECTOR_BYTES as int) <= disk.len()
}

/// The device contents after writing `source` at byte offset
/// `sector * SECTOR_BYTES`: bytes inside the written window come from
/// `source`, all others are unchanged.
pub open spec fn splice_bytes(disk: Seq<u8>, sector: u64, source: Seq<u8>) -> Seq<u8> {
    Seq::new(
        disk.len(),
        |k: int|
            if sector * (SECTOR_BYTES as int) <= k < sector * (SECTOR_BYTES as int)
                + source.len() {
                source[k - sector * (SECTOR_BYTES as int)]
            } else {
                disk[k]
            },
    )
}

/// An in-memory block device holding whole 512-byte sectors.
pub struct Disk {
    bytes: Vec<u8>,
}

impl View for Disk {
    type V = Seq<u8>;

    closed spec fn view(&self) -> Seq<u8> {
        self.bytes@
    }
}

impl Disk {
    /// Builds a device over the given byte image.
    pub fn new(bytes: Vec<u8>) -> (d: Disk)
        ensures
            d@ == bytes@,
    {
        Disk { bytes }
    }

    /// The device size in bytes.
    pub fn size(&self) -> (n: usize)
        ensures
            n == self@.len(),
    {
        self.bytes.len()
    }

    /// Reads `count` sectors starting at `sector`.  Succeeds exactly when
    /// the whole range lies on the device, and then returns its bytes.
    pub fn read(&self, sector: u64, count: u16) -> (r: Result<Vec<u8>, FsError>)
        ensures
            r is Ok <==> transfer_fits(self@, sector, count),
            r matches Ok(buf) ==> buf@ == self@.subrange(
                sector * (SECTOR_BYTES as int),
                (sector + count) * (SECTOR_BYTES as int),
            ),
    {
        let span: u128 = sector as u128 + count as u128;
        proof {
            assert(span * 512 <= u128::MAX) by (nonlinear_arith)
                requires
                    span <= 0xffff_ffff_ffff_ffffu128 + 0xffffu128,
            ;
        }
        let end: u128 = span * 512;
        if end > self.bytes.len() as u128 {
            return Err(FsError::IoError);
        }
        let start: usize = (sector as u128 * 512) as usize;
        let total: usize = (count as usize) * SECTOR_BYTES;
        let mut buf: Vec<u8> = Vec::new();
        let mut i: usize = 0;
        while i < total
            invariant
                i <= total,
                start + total <= self.bytes@.len(),
                self.bytes@.len() <= usize::MAX,
                start == sector * (SECTOR_BYTES as int),
                total == count * (SECTOR_BYTES as int),
                buf@ == self@.subrange(start as int, start + i),
            decreases total - i,
        {
            buf.push(self.bytes[start + i]);
            i += 1;
            proof {
                assert(buf@ =~= self@.subrange(start as int, start + i));
            }
        }
        Ok(buf)
    }

    /// Writes `source` as `count` sectors starting at `sector`.  Succeeds
    /// exactly when the range lies on the device and `source` holds exactly
    /// `count` sectors' worth of bytes; a failed write leaves the device
    /// untouched.
    pub fn write(&mut self, sector: u64, count: u16, source: &[u8]) -> (r: Result<(), FsError>)
        ensures
            r is Ok <==> transfer_fits(old(self)@, sector, count) && source@.len() == count
                * (SECTOR_BYTES as int),
            r is Ok ==> final(self)@ == splice_bytes(old(self)@, sector, source@),
            r is Err ==> r == Err::<(), FsError>(FsError::IoError) && final(self)@ == old(self)@,
    {
        let span: u128 = sector as u128 + count as u128;
        proof {
            assert(span * 512 <= u128::MAX) by (nonlinear_arith)
                requires
                    span <= 0xffff_ffff_ffff_ffffu128 + 0xffffu128,
            ;
        }
        let end: u128 = span * 512;
        if end > self.bytes.len() as u128 {
            return Err(FsError::IoError);
        }
        let total: usize = (count as usize) * SECTOR_BYTES;
        if source.len() != total {
            return Err(FsError::IoError);
        }
        let start: usize = (sector as u128 * 512) as usize;
        let mut i: usize = 0;
        while i < total
            invariant
                i <= total,
                start + total <= self.bytes@.len(),
                self.bytes@.len() <= usize::MAX,
                start == sector * (SECTOR_BYTES as int),
                total == count * (SECTOR_BYTES as int),
                source@.len() == total,
                self.bytes@.len() == old(self)@.len(),
                forall|k: int|
                    0 <= k < self.bytes@.len() ==> self.bytes@[k] == (if start <= k < start + i {
                        source@[k - start]
                    } else {
                        old(self)@[k]
                    }),
            decreases total - i,
        {
            let b: u8 = source[i];
            self.bytes[start + i] = b;
            i += 1;
        }
        proof {
            assert(self.bytes@ =~= splice_bytes(old(self)@, sector, source@));
        }
        Ok(())
    }
}

} // verus!
