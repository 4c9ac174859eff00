//! Stencils: what of an object's code survives linking.
//!
//! The rough stencil keeps the primary opcode of every instruction. The
//! precise stencil keeps every bit but those a relocation lets the linker
//! rewrite, and remembers the rewritten bits as they stand in the object.

use vstd::prelude::*;
use crate::config::Config;
use crate::objfile::{ObjectFile, RelocKind, RelocationView};
use crate::words::{words_from_bytes, words_of};

verus! {

/// Every bit of a word.
pub const FULL_MASK: u32 = 0xFFFF_FFFF;

/// The primary opcode, which the rough stencil keeps.
pub const ROUGH_MASK: u32 = 0xFC00_0000;

/// What a jump keeps under a 26-bit relocation: the opcode.
pub const J_TYPE_MASK: u32 = 0xFC00_0000;

/// What an immediate instruction keeps under a 16-bit relocation: the opcode
/// and both register fields.
pub const I_TYPE_MASK: u32 = 0xFFFF_0000;

/// One word of a precise stencil.
#[derive(Clone, Copy, Debug, PartialEq, Eq, Structural)]
pub struct PreciseStencil {
    /// The bits a fitting image word has under `mask`.
    pub word: u32,
    /// The bits of the object's word outside `mask`.
    pub addend: u32,
    /// The bits that must agree.
    pub mask: u32,
}

/// Why no stencil can be built.
#[derive(Clone, Copy, Debug, PartialEq, Eq, Structural)]
pub enum StencilError {
    /// The code is not a whole number of words.
    PartialWord,
    /// A relocation is of a kind whose effect on the code is not known.
    UnsupportedRelocation,
    /// A relocation patches a word past the end of the code.
    RelocationOutOfRange,
}

/// The rough stencil of `words`.
pub open spec fn rough_stencil(words: Seq<u32>) -> Seq<u32> {
    Seq::new(words.len(), |i: int| words[i] & ROUGH_MASK)
}

/// Some relocation of kind `J26` patches word `idx`.
pub open spec fn j_hit(relocs: Seq<RelocationView>, idx: int) -> bool {
    exists|k: int|
        0 <= k < relocs.len() && (#[trigger] relocs[k]).word_index() == idx && relocs[k].kind
            == RelocKind::J26
}

/// Some relocation of kind `Hi16` or `Lo16` patches word `idx`.
pub open spec fn i_hit(relocs: Seq<RelocationView>, idx: int) -> bool {
    exists|k: int|
        0 <= k < relocs.len() && (#[trigger] relocs[k]).word_index() == idx && (relocs[k].kind
            == RelocKind::Hi16 || relocs[k].kind == RelocKind::Lo16)
}

/// The stencil entry of the word `w`, given whether a `J26` relocation
/// patches it and whether a `Hi16` or `Lo16` relocation does.
///
/// The mask is the narrowest that a relocation of the word asks for, and the
/// whole word where there is none. The addend holds the bits that every
/// relocation of the word gives up, and nothing where there is none.
pub open spec fn stencil_entry(w: u32, jump: bool, immediate: bool) -> PreciseStencil {
    let mask = if jump {
        J_TYPE_MASK
    } else if immediate {
        I_TYPE_MASK
    } else {
        FULL_MASK
    };
    let addend = if immediate {
        w & !I_TYPE_MASK
    } else if jump {
        w & !J_TYPE_MASK
    } else {
        0u32
    };
    PreciseStencil { word: w & mask, addend, mask }
}

/// The precise stencil of `words` under the relocations `relocs`.
pub open spec fn precise_stencil(words: Seq<u32>, relocs: Seq<RelocationView>) -> Seq<
    PreciseStencil,
> {
    Seq::new(
        words.len(),
        |i: int| stencil_entry(words[i], j_hit(relocs, i), i_hit(relocs, i)),
    )
}

/// Some relocation is of an unsupported kind.
pub open spec fn has_unsupported(relocs: Seq<RelocationView>) -> bool {
    exists|k: int| 0 <= k < relocs.len() && (#[trigger] relocs[k]).kind == RelocKind::Unsupported
}

/// Some relocation patches a word that `count` words do not hold.
pub open spec fn has_out_of_range(relocs: Seq<RelocationView>, count: int) -> bool {
    exists|k: int| 0 <= k < relocs.len() && (#[trigger] relocs[k]).word_index() >= count
}

/// Why `bytes` with `relocs` have no stencil, if they have none.
pub open spec fn stencil_failure(bytes: Seq<u8>, relocs: Seq<RelocationView>) -> Option<
    StencilError,
> {
    if bytes.len() % 4 != 0 {
        Some(StencilError::PartialWord)
    } else if has_unsupported(relocs) {
        Some(StencilError::UnsupportedRelocation)
    } else if has_out_of_range(relocs, bytes.len() as int / 4) {
        Some(StencilError::RelocationOutOfRange)
    } else {
        None
    }
}

/// Appends the words of `input` to `output` and reduces every word of
/// `output` to its primary opcode. Code that is not a whole number of words
/// is refused, and `output` is then left as it was.
pub fn make_rough_stencil(config: &Config, input: &[u8], output: &mut Vec<u32>) -> (r: Result<
    (),
    StencilError,
>)
    ensures
        input@.len() % 4 == 0 ==> r is Ok && final(output)@ == rough_stencil(
            old(output)@ + words_of(input@, config.endian),
        ),
        input@.len() % 4 != 0 ==> r == Err::<(), StencilError>(StencilError::PartialWord)
            && final(output)@ == old(output)@,
{
    if input.len() % 4 != 0 {
        return Err(StencilError::PartialWord);
    }
    words_from_bytes(config, input, output);
    let ghost all = output@;
    let count: usize = output.len();
    let mut i: usize = 0;
    while i < count
        invariant
            i <= count,
            count == all.len(),
            output@.len() == count,
            forall|k: int| 0 <= k < i ==> output@[k] == all[k] & ROUGH_MASK,
            forall|k: int| i <= k < count ==> output@[k] == all[k],
        decreases count - i,
    {
        let masked: u32 = output[i] & ROUGH_MASK;
        output.set(i, masked);
        i = i + 1;
    }
    assert(output@ =~= rough_stencil(all));
    Ok(())
}

/// The entry of the word `w` while relocations are still being applied: as
/// `stencil_entry`, but a word that nothing patched yet carries itself as
/// addend.
spec fn entry_in_progress(w: u32, jump: bool, immediate: bool) -> PreciseStencil {
    let done = stencil_entry(w, jump, immediate);
    PreciseStencil {
        word: done.word,
        addend: if jump || immediate {
            done.addend
        } else {
            w
        },
        mask: done.mask,
    }
}

/// Narrows an entry to the bits that `keep` retains.
spec fn narrowed(e: PreciseStencil, keep: u32) -> PreciseStencil {
    PreciseStencil { word: e.word & keep, addend: e.addend & !keep, mask: e.mask & keep }
}

/// How the three masks combine.
proof fn lemma_mask_algebra(w: u32)
    by (bit_vector)
    ensures
        (w & 0xFFFF_FFFFu32) & 0xFC00_0000u32 == w & 0xFC00_0000u32,
        (w & 0xFFFF_FFFFu32) & 0xFFFF_0000u32 == w & 0xFFFF_0000u32,
        (w & 0xFC00_0000u32) & 0xFC00_0000u32 == w & 0xFC00_0000u32,
        (w & 0xFC00_0000u32) & 0xFFFF_0000u32 == w & 0xFC00_0000u32,
        (w & 0xFFFF_0000u32) & 0xFC00_0000u32 == w & 0xFC00_0000u32,
        (w & 0xFFFF_0000u32) & 0xFFFF_0000u32 == w & 0xFFFF_0000u32,
        (w & !0xFC00_0000u32) & !0xFC00_0000u32 == w & !0xFC00_0000u32,
        (w & !0xFC00_0000u32) & !0xFFFF_0000u32 == w & !0xFFFF_0000u32,
        (w & !0xFFFF_0000u32) & !0xFC00_0000u32 == w & !0xFFFF_0000u32,
        (w & !0xFFFF_0000u32) & !0xFFFF_0000u32 == w & !0xFFFF_0000u32,
        w & !0xFFFF_FFFFu32 == 0u32,
        w & 0xFFFF_FFFFu32 == w,
        0xFFFF_FFFFu32 & 0xFC00_0000u32 == 0xFC00_0000u32,
        0xFFFF_FFFFu32 & 0xFFFF_0000u32 == 0xFFFF_0000u32,
        0xFC00_0000u32 & 0xFC00_0000u32 == 0xFC00_0000u32,
        0xFC00_0000u32 & 0xFFFF_0000u32 == 0xFC00_0000u32,
        0xFFFF_0000u32 & 0xFC00_0000u32 == 0xFC00_0000u32,
        0xFFFF_0000u32 & 0xFFFF_0000u32 == 0xFFFF_0000u32,
{
}

/// Applying one more relocation to a word moves its entry on as the
/// closed form says.
proof fn lemma_narrow_entry(w: u32, jump: bool, immediate: bool)
    ensures
        narrowed(entry_in_progress(w, jump, immediate), J_TYPE_MASK) == entry_in_progress(
            w,
            true,
            immediate,
        ),
        narrowed(entry_in_progress(w, jump, immediate), I_TYPE_MASK) == entry_in_progress(
            w,
            jump,
            true,
        ),
        narrowed(
            entry_in_progress(w, jump, immediate),
            entry_in_progress(w, jump, immediate).mask,
        ).addend == stencil_entry(w, jump, immediate).addend,
{
    lemma_mask_algebra(w);
}

/// Which relocations patch a word, one relocation further on.
proof fn lemma_hit_step(relocs: Seq<RelocationView>, k: int, idx: int)
    requires
        0 <= k < relocs.len(),
    ensures
        j_hit(relocs.take(k + 1), idx) == (j_hit(relocs.take(k), idx) || (relocs[k].word_index()
            == idx && relocs[k].kind == RelocKind::J26)),
        i_hit(relocs.take(k + 1), idx) == (i_hit(relocs.take(k), idx) || (relocs[k].word_index()
            == idx && (relocs[k].kind == RelocKind::Hi16 || relocs[k].kind == RelocKind::Lo16))),
{
    let shorter = relocs.take(k);
    let longer = relocs.take(k + 1);
    assert(longer[k] == relocs[k]);
    assert forall|n: int| 0 <= n < k implies longer[n] == #[trigger] shorter[n] by {}
    if j_hit(shorter, idx) {
        let n = choose|n: int|
            0 <= n < shorter.len() && (#[trigger] shorter[n]).word_index() == idx
                && shorter[n].kind == RelocKind::J26;
        assert(longer[n].word_index() == idx);
    }
    if i_hit(shorter, idx) {
        let n = choose|n: int|
            0 <= n < shorter.len() && (#[trigger] shorter[n]).word_index() == idx && (
            shorter[n].kind == RelocKind::Hi16 || shorter[n].kind == RelocKind::Lo16);
        assert(longer[n].word_index() == idx);
    }
    if j_hit(longer, idx) {
        let n = choose|n: int|
            0 <= n < longer.len() && (#[trigger] longer[n]).word_index() == idx && longer[n].kind
                == RelocKind::J26;
        if n < k {
            assert(shorter[n].word_index() == idx);
        }
    }
    if i_hit(longer, idx) {
        let n = choose|n: int|
            0 <= n < longer.len() && (#[trigger] longer[n]).word_index() == idx && (
            longer[n].kind == RelocKind::Hi16 || longer[n].kind == RelocKind::Lo16);
        if n < k {
            assert(shorter[n].word_index() == idx);
        }
    }
}

/// Builds the precise stencil of the code `input` under the relocations that
/// `obj_file` lists for its `.text` section.
///
/// Every word starts out kept whole. A `J26` relocation reduces the word it
/// patches to its opcode, a `Hi16` or `Lo16` relocation to its upper half; the
/// bits given up are kept as the entry's addend. No stencil is built for code
/// that is not a whole number of words, nor where a relocation is of another
/// kind or patches a word that the code does not have.
pub fn make_precise_stencil(config: &Config, obj_file: &ObjectFile, input: &[u8]) -> (r: Result<
    Vec<PreciseStencil>,
    StencilError,
>)
    ensures
        match stencil_failure(input@, obj_file@.text_relocations()) {
            Some(e) => r == Err::<Vec<PreciseStencil>, StencilError>(e),
            None => r is Ok && r->Ok_0@ == precise_stencil(
                words_of(input@, config.endian),
                obj_file@.text_relocations(),
            ),
        },
{
    if input.len() % 4 != 0 {
        return Err(StencilError::PartialWord);
    }
    let mut words: Vec<u32> = Vec::new();
    words_from_bytes(config, input, &mut words);
    let count: usize = words.len();
    assert(words@ == words_of(input@, config.endian));
    let ghost relocs = obj_file@.text_relocations();
    let mut output: Vec<PreciseStencil> = Vec::new();
    let mut i: usize = 0;
    while i < count
        invariant
            i <= count,
            count == words@.len(),
            output@.len() == i,
            forall|n: int|
                0 <= n < i ==> output@[n] == entry_in_progress(words@[n], false, false),
        decreases count - i,
    {
        let w: u32 = words[i];
        output.push(PreciseStencil { word: w, addend: w, mask: FULL_MASK });
        proof {
            lemma_mask_algebra(w);
        }
        i = i + 1;
    }
    let mut out_of_range = false;
    match &obj_file.text {
        Some(section) => {
            let total: usize = section.relocations.len();
            let mut k: usize = 0;
            assert forall|n: int| 0 <= n < count implies output@[n] == entry_in_progress(
                words@[n],
                j_hit(relocs.take(0), n),
                i_hit(relocs.take(0), n),
            ) by {}
            while k < total
                invariant
                    k <= total,
                    total == relocs.len(),
                    relocs == section@.relocations,
                    relocs == obj_file@.text_relocations(),
                    count == words@.len(),
                    count == input@.len() / 4,
                    input@.len() % 4 == 0,
                    output@.len() == count,
                    forall|n: int|
                        0 <= n < k ==> (#[trigger] relocs[n]).kind != RelocKind::Unsupported,
                    out_of_range == has_out_of_range(relocs.take(k as int), count as int),
                    forall|n: int|
                        0 <= n < count ==> output@[n] == entry_in_progress(
                            #[trigger] words@[n],
                            j_hit(relocs.take(k as int), n),
                            i_hit(relocs.take(k as int), n),
                        ),
                decreases total - k,
            {
                let reloc = &section.relocations[k];
                assert(relocs[k as int] == reloc@);
                let keep: u32 = match reloc.kind {
                    RelocKind::J26 => J_TYPE_MASK,
                    RelocKind::Hi16 => I_TYPE_MASK,
                    RelocKind::Lo16 => I_TYPE_MASK,
                    RelocKind::Unsupported => {
                        assert(relocs[k as int].kind == RelocKind::Unsupported);
                        return Err(StencilError::UnsupportedRelocation);
                    },
                };
                let ghost before = output@;
                let position: u64 = reloc.offset / 4;
                if position < count as u64 {
                    let index: usize = position as usize;
                    let e = output[index];
                    output.set(
                        index,
                        PreciseStencil {
                            word: e.word & keep,
                            addend: e.addend & !keep,
                            mask: e.mask & keep,
                        },
                    );
                } else {
                    out_of_range = true;
                }
                proof {
                    let shorter = relocs.take(k as int);
                    let longer = relocs.take(k + 1);
                    assert(longer[k as int] == relocs[k as int]);
                    assert forall|n: int| 0 <= n < k implies longer[n]
                        == #[trigger] shorter[n] by {}
                    if has_out_of_range(shorter, count as int) {
                        let n = choose|n: int|
                            0 <= n < shorter.len() && (#[trigger] shorter[n]).word_index()
                                >= count;
                        assert(longer[n].word_index() >= count);
                    }
                    if has_out_of_range(longer, count as int) {
                        let n = choose|n: int|
                            0 <= n < longer.len() && (#[trigger] longer[n]).word_index()
                                >= count;
                        if n < k {
                            assert(shorter[n].word_index() >= count);
                        }
                    }
                    assert forall|n: int| 0 <= n < count implies output@[n]
                        == entry_in_progress(
                        #[trigger] words@[n],
                        j_hit(longer, n),
                        i_hit(longer, n),
                    ) by {
                        lemma_hit_step(relocs, k as int, n);
                        lemma_narrow_entry(words@[n], j_hit(shorter, n), i_hit(shorter, n));
                        assert(before[n] == entry_in_progress(
                            words@[n],
                            j_hit(shorter, n),
                            i_hit(shorter, n),
                        ));
                    }
                }
                k = k + 1;
            }
            assert(relocs.take(total as int) == relocs);
        },
        None => {
            assert(relocs.take(0) == relocs);
        },
    }
    assert(!has_unsupported(relocs));
    if out_of_range {
        return Err(StencilError::RelocationOutOfRange);
    }
    let mut i: usize = 0;
    while i < count
        invariant
            i <= count,
            count == words@.len(),
            output@.len() == count,
            forall|n: int|
                0 <= n < i ==> output@[n] == stencil_entry(
                    #[trigger] words@[n],
                    j_hit(relocs, n),
                    i_hit(relocs, n),
                ),
            forall|n: int|
                i <= n < count ==> output@[n] == entry_in_progress(
                    #[trigger] words@[n],
                    j_hit(relocs, n),
                    i_hit(relocs, n),
                ),
        decreases count - i,
    {
        let e = output[i];
        proof {
            lemma_narrow_entry(words@[i as int], j_hit(relocs, i as int), i_hit(relocs, i as int));
        }
        output.set(i, PreciseStencil { word: e.word, addend: e.addend & !e.mask, mask: e.mask });
        i = i + 1;
    }
    assert(output@ =~= precise_stencil(words@, relocs));
    Ok(output)
}

/// Word `idx` is patched both as a jump and as an immediate, and the two
/// relocations disagree on which of its bits are given up.
pub open spec fn doubly_patched(words: Seq<u32>, relocs: Seq<RelocationView>, idx: int) -> bool {
    j_hit(relocs, idx) && i_hit(relocs, idx) && words[idx] & 0x03FF_0000u32 != 0
}

/// A stencil has one entry for each word of the code.
pub proof fn lemma_stencil_lengths(words: Seq<u32>, relocs: Seq<RelocationView>)
    ensures
        rough_stencil(words).len() == words.len(),
        precise_stencil(words, relocs).len() == words.len(),
{
}

/// Under its mask, a stencil entry is the word of the code it was made from.
pub proof fn lemma_stencil_word(words: Seq<u32>, relocs: Seq<RelocationView>, idx: int)
    requires
        0 <= idx < words.len(),
    ensures
        words[idx] & precise_stencil(words, relocs)[idx].mask == precise_stencil(
            words,
            relocs,
        )[idx].word,
{
}

/// Outside its mask, a stencil entry's addend is the word of the code it was
/// made from, for every word that is not patched in two ways at once.
pub proof fn lemma_stencil_addend(words: Seq<u32>, relocs: Seq<RelocationView>, idx: int)
    requires
        0 <= idx < words.len(),
        !doubly_patched(words, relocs, idx),
    ensures
        words[idx] & !precise_stencil(words, relocs)[idx].mask == precise_stencil(
            words,
            relocs,
        )[idx].addend,
{
    let w = words[idx];
    assert(w & !0xFFFF_FFFFu32 == 0u32) by (bit_vector);
    assert(w & 0x03FF_0000u32 == 0 ==> w & !0xFC00_0000u32 == w & !0xFFFF_0000u32)
        by (bit_vector);
}

/// Every stencil mask keeps the primary opcode.
pub proof fn lemma_mask_keeps_opcode(words: Seq<u32>, relocs: Seq<RelocationView>, idx: int)
    requires
        0 <= idx < words.len(),
    ensures
        precise_stencil(words, relocs)[idx].mask & ROUGH_MASK == ROUGH_MASK,
{
    assert(0xFFFF_FFFFu32 & 0xFC00_0000u32 == 0xFC00_0000u32) by (bit_vector);
    assert(0xFFFF_0000u32 & 0xFC00_0000u32 == 0xFC00_0000u32) by (bit_vector);
    assert(0xFC00_0000u32 & 0xFC00_0000u32 == 0xFC00_0000u32) by (bit_vector);
}

} // verus!
