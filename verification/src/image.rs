//! The part of the input file that is searched, and the address it is
//! mapped to.

use vstd::prelude::*;
use vstd::slice::slice_subrange;
use crate::config::{Config, Endian};
use crate::ipl3::{corrected_entrypoint, crc32_cksum, identify, known_cic, IPL3_END, IPL3_START};
use crate::words::{words_from_bytes, words_of};

verus! {

/// Where the code of a cartridge ROM starts: behind header and boot stage.
pub const ROM_CODE_START: usize = 0x1000;

/// Where the search in a cartridge ROM ends: one megabyte into the code.
pub const ROM_CODE_END: usize = 0x10_1000;

/// Where a ROM header names the entry point.
pub const ENTRYPOINT_START: usize = 0x8;

/// The image that is searched.
pub struct Image {
    /// The instruction words.
    pub words: Vec<u32>,
    /// Byte offset of the first word in the input file.
    pub start: usize,
    /// Address of the first word.
    pub base_address: u32,
}

/// The bytes of the input file that are searched, as a range of offsets: of
/// a ROM the first megabyte of code, of a binary blob everything. A ROM too
/// short to hold that much has no such range.
pub open spec fn search_range(binary: bool, len: int) -> Option<(int, int)> {
    if binary {
        Some((0, len))
    } else if len >= ROM_CODE_END {
        Some((ROM_CODE_START as int, ROM_CODE_END as int))
    } else {
        None
    }
}

/// The entry point that the header of the ROM `file` names.
pub open spec fn header_entrypoint(file: Seq<u8>, endian: Endian) -> u32 {
    words_of(file.subrange(ENTRYPOINT_START as int, ENTRYPOINT_START + 4), endian)[0]
}

/// The address of the first word searched. For a binary blob it is the one
/// configured, if one is. For a ROM it follows from the entry point in the
/// header and from the boot stage, which the checksum of its bytes tells.
pub open spec fn image_base(config: Config, file: Seq<u8>) -> Option<u32> {
    if config.binary {
        config.vram
    } else if file.len() >= IPL3_END {
        Some(
            corrected_entrypoint(
                known_cic(
                    crc32_cksum(file.subrange(IPL3_START as int, IPL3_END as int)),
                ).entrypoint_offset,
                header_entrypoint(file, config.endian),
            ),
        )
    } else {
        None
    }
}

/// Picks the part of the input file that is searched.
pub fn blob_region(config: &Config, len: usize) -> (range: Option<(usize, usize)>)
    ensures
        match search_range(config.binary, len as int) {
            Some((from, to)) => range == Some((from as usize, to as usize)),
            None => range is None,
        },
{
    if config.binary {
        Some((0, len))
    } else if len >= ROM_CODE_END {
        Some((ROM_CODE_START, ROM_CODE_END))
    } else {
        None
    }
}

/// Finds the address of the first word searched.
pub fn base_address(config: &Config, romfile: &Vec<u8>) -> (base: Option<u32>)
    ensures
        base == image_base(*config, romfile@),
{
    if config.binary {
        config.vram
    } else if romfile.len() >= IPL3_END {
        let cic_info = identify(romfile);
        let mut entrypoint_word: Vec<u32> = Vec::new();
        words_from_bytes(
            config,
            slice_subrange(romfile.as_slice(), ENTRYPOINT_START, ENTRYPOINT_START + 4),
            &mut entrypoint_word,
        );
        Some(cic_info.correct_entrypoint(entrypoint_word[0]))
    } else {
        None
    }
}

/// Reads the image out of the input file: its words in the configured byte
/// order, where it starts in the file, and the address it is mapped to.
/// There is none for a ROM shorter than the part to search, nor for a binary
/// blob without a configured address.
pub fn read_image(config: &Config, romfile: &Vec<u8>) -> (image: Option<Image>)
    ensures
        match (search_range(config.binary, romfile@.len() as int), image_base(*config, romfile@)) {
            (Some((from, to)), Some(base)) => image is Some && image->Some_0.start == from
                && image->Some_0.base_address == base && image->Some_0.words@ == words_of(
                romfile@.subrange(from, to),
                config.endian,
            ),
            _ => image is None,
        },
        image is Some ==> 4 * image->Some_0.words@.len() + image->Some_0.start <= usize::MAX,
{
    let (start, end) = match blob_region(config, romfile.len()) {
        Some(range) => range,
        None => {
            return None;
        },
    };
    let base = match base_address(config, romfile) {
        Some(base) => base,
        None => {
            return None;
        },
    };
    let mut words: Vec<u32> = Vec::new();
    words_from_bytes(config, slice_subrange(romfile.as_slice(), start, end), &mut words);
    Some(Image { words, start, base_address: base })
}

} // verus!
