//! The boot code of a cartridge ROM and the entry point it implies.
//!
//! A ROM starts with a header and a boot stage. Which boot stage it carries
//! is told by a checksum, and the boot stage decides what the entry point in
//! the header means.

use vstd::prelude::*;
use vstd::string::*;
use vstd::slice::slice_subrange;
use crate::words::wrap32;

verus! {

/// What is known of one boot stage.
pub struct CICInfo {
    /// The checksum of the boot stage, 0 for one that is not known.
    pub checksum: u32,
    /// The chip's name in NTSC regions, `"-"` where there is none.
    pub ntsc_name: &'static str,
    /// The chip's name in PAL regions, `"-"` where there is none.
    pub pal_name: &'static str,
    /// What the boot stage adds to the entry point it is told, or, from
    /// `0x8000_0000` on, the entry point it uses whatever it is told.
    pub entrypoint_offset: u32,
}

/// The boot stage with the checksum `crc`; for a checksum that is not known,
/// a nameless one that leaves the entry point alone.
pub open spec fn known_cic(crc: u32) -> CICInfo {
    if crc == 0xD1F2_D592 {
        CICInfo { checksum: crc, ntsc_name: "6102", pal_name: "7101", entrypoint_offset: 0 }
    } else if crc == 0x27DF_61E2 {
        CICInfo { checksum: crc, ntsc_name: "6103", pal_name: "7103", entrypoint_offset: 0x10_0000 }
    } else if crc == 0x229F_516C {
        CICInfo { checksum: crc, ntsc_name: "6105", pal_name: "7105", entrypoint_offset: 0 }
    } else if crc == 0xA0DD_69F7 {
        CICInfo { checksum: crc, ntsc_name: "6106", pal_name: "7106", entrypoint_offset: 0x20_0000 }
    } else if crc == 0x0013_579C {
        CICInfo { checksum: crc, ntsc_name: "6101", pal_name: "-", entrypoint_offset: 0 }
    } else if crc == 0xDAB4_42CD {
        CICInfo { checksum: crc, ntsc_name: "-", pal_name: "7102", entrypoint_offset: 0x8000_0480 }
    } else {
        CICInfo { checksum: 0, ntsc_name: "unk", pal_name: "unk", entrypoint_offset: 0 }
    }
}

/// The display name made of a chip's two regional names: both, or the one
/// there is.
pub open spec fn joined_name(ntsc: Seq<char>, pal: Seq<char>) -> Seq<char> {
    if ntsc == "-"@ {
        pal
    } else if pal == "-"@ {
        ntsc
    } else {
        ntsc + " / "@ + pal
    }
}

/// The address of the first word behind a boot stage with the offset
/// `offset`, given the entry point `header` that the ROM header names.
pub open spec fn corrected_entrypoint(offset: u32, header: u32) -> u32 {
    if offset >= 0x8000_0000 {
        offset
    } else {
        wrap32(header - offset)
    }
}

/// The CRC-32/CKSUM checksum of `data`, as the `crc` crate computes it.
pub uninterp spec fn crc32_cksum(data: Seq<u8>) -> u32;

/// `crc::Crc::<u32>::checksum` under the algorithm `crc::CRC_32_CKSUM`. The
/// checksum depends on the bytes alone.
#[verifier::external_body]
fn checksum_cksum(data: &[u8]) -> (sum: u32)
    ensures
        sum == crc32_cksum(data@),
{
    crc::Crc::<u32>::new(&crc::CRC_32_CKSUM).checksum(data)
}

/// Whether two string slices hold the same text.
fn same_text(a: &str, b: &str) -> (r: bool)
    ensures
        r == (a@ == b@),
{
    String::from_str(a) == String::from_str(b)
}

impl CICInfo {
    /// Puts together what is known of a boot stage.
    pub fn new(
        checksum: u32,
        ntsc_name: &'static str,
        pal_name: &'static str,
        entrypoint_offset: u32,
    ) -> (info: CICInfo)
        ensures
            info == (CICInfo { checksum, ntsc_name, pal_name, entrypoint_offset }),
    {
        CICInfo { checksum, ntsc_name, pal_name, entrypoint_offset }
    }

    /// Looks a boot stage up by its checksum.
    pub fn get_from_crc(crc: u32) -> (info: CICInfo)
        ensures
            info == known_cic(crc),
    {
        if crc == 0xD1F2_D592 {
            CICInfo::new(0xD1F2_D592, "6102", "7101", 0x00_0000)
        } else if crc == 0x27DF_61E2 {
            CICInfo::new(0x27DF_61E2, "6103", "7103", 0x10_0000)
        } else if crc == 0x229F_516C {
            CICInfo::new(0x229F_516C, "6105", "7105", 0x00_0000)
        } else if crc == 0xA0DD_69F7 {
            CICInfo::new(0xA0DD_69F7, "6106", "7106", 0x20_0000)
        } else if crc == 0x0013_579C {
            CICInfo::new(0x0013_579C, "6101", "-", 0x00_0000)
        } else if crc == 0xDAB4_42CD {
            CICInfo::new(0xDAB4_42CD, "-", "7102", 0x8000_0480)
        } else {
            CICInfo::new(0, "unk", "unk", 0x00_0000)
        }
    }

    /// The chip's display name: `"NTSC / PAL"`, or the one name it has.
    pub fn name(&self) -> (text: String)
        ensures
            text@ == joined_name(self.ntsc_name@, self.pal_name@),
    {
        if same_text(self.ntsc_name, "-") {
            String::from_str(self.pal_name)
        } else if same_text(self.pal_name, "-") {
            String::from_str(self.ntsc_name)
        } else {
            String::from_str(self.ntsc_name).concat(" / ").concat(self.pal_name)
        }
    }

    /// What the boot stage adds to the entry point, or the entry point it
    /// uses.
    pub fn entrypoint_offset(&self) -> (offset: u32)
        ensures
            offset == self.entrypoint_offset,
    {
        self.entrypoint_offset
    }

    /// The address of the first word behind the boot stage, given the entry
    /// point that the header names. Most boot stages subtract their offset
    /// from it; one ignores it and uses an address of its own.
    pub fn correct_entrypoint(&self, header_entrypoint: u32) -> (entry: u32)
        ensures
            entry == corrected_entrypoint(self.entrypoint_offset, header_entrypoint),
    {
        let offset: u32 = self.entrypoint_offset();
        if offset >= 0x8000_0000 {
            offset
        } else {
            header_entrypoint.wrapping_sub(offset)
        }
    }
}

/// Where the boot stage lies in a ROM.
pub const IPL3_START: usize = 0x40;

/// Where the boot stage ends in a ROM.
pub const IPL3_END: usize = 0x1000;

/// Tells which boot stage a ROM carries, by the checksum of the bytes from
/// `IPL3_START` up to `IPL3_END`.
pub fn identify(reader: &Vec<u8>) -> (info: CICInfo)
    requires
        reader@.len() >= IPL3_END,
    ensures
        info == known_cic(crc32_cksum(reader@.subrange(IPL3_START as int, IPL3_END as int))),
{
    let ipl3 = slice_subrange(reader.as_slice(), IPL3_START, IPL3_END);
    let hash: u32 = checksum_cksum(ipl3);
    CICInfo::get_from_crc(hash)
}

} // verus!
