//! Finding the places of an image where a stencil fits.
//!
//! A rough scan over the primary opcodes yields candidates; the precise
//! stencil then decides on each of them.

use vstd::prelude::*;
use vstd::slice::slice_subrange;
use crate::objfile::RelocationView;
use crate::stencil::{
    lemma_mask_keeps_opcode,
    precise_stencil,
    rough_stencil,
    PreciseStencil,
    ROUGH_MASK,
};

verus! {

/// The primary opcodes of `v`, from word `i` on, are those of `pattern`.
pub open spec fn rough_fits(v: Seq<u32>, pattern: Seq<u32>, i: int) -> bool {
    &&& 0 <= i
    &&& i + pattern.len() <= v.len()
    &&& forall|j: int| 0 <= j < pattern.len() ==> v[i + j] & ROUGH_MASK == #[trigger] pattern[j]
}

/// The byte offsets of the words before word `n` at which `pattern` fits
/// roughly, in ascending order.
pub open spec fn rough_hits_below(v: Seq<u32>, pattern: Seq<u32>, n: int) -> Seq<usize>
    decreases n,
{
    if n <= 0 {
        Seq::empty()
    } else {
        let earlier = rough_hits_below(v, pattern, n - 1);
        if rough_fits(v, pattern, n - 1) {
            earlier.push((4 * (n - 1)) as usize)
        } else {
            earlier
        }
    }
}

/// The byte offsets of all words of `v` at which `pattern` fits roughly, in
/// ascending order.
pub open spec fn rough_hits(v: Seq<u32>, pattern: Seq<u32>) -> Seq<usize> {
    rough_hits_below(v, pattern, v.len() - pattern.len() + 1)
}

/// Each word of `v` agrees with the stencil under the stencil's mask.
pub open spec fn precise_fits(v: Seq<u32>, stencil: Seq<PreciseStencil>) -> bool {
    &&& v.len() == stencil.len()
    &&& forall|j: int|
        0 <= j < stencil.len() ==> v[j] & (#[trigger] stencil[j]).mask == stencil[j].word
}

/// The stencil fits the words of `v` from word `i` on.
pub open spec fn precise_fits_at(v: Seq<u32>, stencil: Seq<PreciseStencil>, i: int) -> bool {
    &&& 0 <= i
    &&& i + stencil.len() <= v.len()
    &&& precise_fits(v.subrange(i, i + stencil.len()), stencil)
}

/// Those of the candidates `rough` at which the stencil fits, each moved by
/// `start`; their order is kept.
pub open spec fn precise_hits(
    v: Seq<u32>,
    rough: Seq<usize>,
    stencil: Seq<PreciseStencil>,
    start: int,
) -> Seq<usize>
    decreases rough.len(),
{
    if rough.len() == 0 {
        Seq::empty()
    } else {
        let earlier = precise_hits(v, rough.drop_last(), stencil, start);
        if precise_fits_at(v, stencil, rough.last() as int / 4) {
            earlier.push((rough.last() + start) as usize)
        } else {
            earlier
        }
    }
}

/// What `rough_hits_below` holds: the offset of every fitting word before
/// word `n`, nothing else, in strictly ascending order.
pub proof fn lemma_rough_hits_below(v: Seq<u32>, pattern: Seq<u32>, n: int)
    requires
        4 * (n - 1) <= usize::MAX,
    ensures
        forall|i: int|
            0 <= i < n && rough_fits(v, pattern, i) ==> rough_hits_below(v, pattern, n).contains(
                #[trigger] ((4 * i) as usize),
            ),
        forall|k: int|
            0 <= k < rough_hits_below(v, pattern, n).len() ==> {
                let x = #[trigger] rough_hits_below(v, pattern, n)[k];
                x % 4 == 0 && x / 4 < n && rough_fits(v, pattern, x as int / 4)
            },
        forall|a: int, b: int|
            0 <= a < b < rough_hits_below(v, pattern, n).len() ==> rough_hits_below(
                v,
                pattern,
                n,
            )[a] < rough_hits_below(v, pattern, n)[b],
    decreases n,
{
    if n > 0 {
        lemma_rough_hits_below(v, pattern, n - 1);
        let earlier = rough_hits_below(v, pattern, n - 1);
        let all = rough_hits_below(v, pattern, n);
        if rough_fits(v, pattern, n - 1) {
            let x = (4 * (n - 1)) as usize;
            assert(all == earlier.push(x));
            assert(all[earlier.len() as int] == x);
            assert forall|i: int| 0 <= i < n && rough_fits(v, pattern, i) implies all.contains(
                #[trigger] ((4 * i) as usize),
            ) by {
                if i < n - 1 {
                    let k = choose|k: int| 0 <= k < earlier.len() && earlier[k] == (4 * i) as usize;
                    assert(all[k] == (4 * i) as usize);
                }
            }
        } else {
            assert(all == earlier);
        }
    }
}

/// A word at which the pattern fits is among the hits, however long the
/// image is.
pub proof fn lemma_rough_hit_kept(v: Seq<u32>, pattern: Seq<u32>, n: int, i: int)
    requires
        0 <= i < n,
        rough_fits(v, pattern, i),
    ensures
        rough_hits_below(v, pattern, n).contains((4 * i) as usize),
    decreases n,
{
    let earlier = rough_hits_below(v, pattern, n - 1);
    let all = rough_hits_below(v, pattern, n);
    if i == n - 1 {
        assert(all[earlier.len() as int] == (4 * i) as usize);
    } else {
        lemma_rough_hit_kept(v, pattern, n - 1, i);
        let k = choose|k: int| 0 <= k < earlier.len() && earlier[k] == (4 * i) as usize;
        assert(all[k] == earlier[k]);
    }
}

/// The rough scan finds code where it stands: where the words of `image`
/// from word `k` on are the words of `code`, the offset of word `k` is among
/// the hits for the rough stencil of `code`.
pub proof fn lemma_rough_self_match(image: Seq<u32>, code: Seq<u32>, k: int)
    requires
        0 <= k,
        k + code.len() <= image.len(),
        image.subrange(k, k + code.len()) == code,
    ensures
        rough_hits(image, rough_stencil(code)).contains((4 * k) as usize),
{
    let pattern = rough_stencil(code);
    assert forall|j: int| 0 <= j < pattern.len() implies image[k + j] & ROUGH_MASK
        == #[trigger] pattern[j] by {
        assert(image.subrange(k, k + code.len())[j] == image[k + j]);
    }
    lemma_rough_hit_kept(image, pattern, image.len() - pattern.len() + 1, k);
}

/// Scans `v` for `pattern`, comparing primary opcodes only, and returns the
/// byte offset of every word at which the pattern fits, in ascending order.
/// A pattern longer than `v` fits nowhere; the empty pattern fits everywhere,
/// also behind the last word.
pub fn naive_wordsearch(v: &[u32], pattern: &[u32]) -> (results: Vec<usize>)
    requires
        4 * v@.len() <= usize::MAX,
    ensures
        results@ == rough_hits(v@, pattern@),
{
    let mut results: Vec<usize> = Vec::new();
    if pattern.len() > v.len() {
        return results;
    }
    let last: usize = v.len() - pattern.len();
    let mut i: usize = 0;
    while i <= last
        invariant
            i <= last + 1,
            last == v@.len() - pattern@.len(),
            4 * v@.len() <= usize::MAX,
            results@ == rough_hits_below(v@, pattern@, i as int),
        decreases last + 1 - i,
    {
        let mut matches = true;
        let mut j: usize = 0;
        while j < pattern.len()
            invariant
                j <= pattern@.len(),
                i + pattern@.len() <= v@.len() <= usize::MAX,
                matches == (forall|n: int|
                    0 <= n < j ==> v@[i + n] & ROUGH_MASK == #[trigger] pattern@[n]),
            decreases pattern@.len() - j,
        {
            let masked_word: u32 = v[i + j] & ROUGH_MASK;
            if masked_word != pattern[j] {
                matches = false;
            }
            j = j + 1;
        }
        assert(matches == rough_fits(v@, pattern@, i as int));
        if matches {
            results.push(i * 4);
        }
        i = i + 1;
    }
    results
}

/// Whether the words `v` fit the stencil: whether each of them agrees with the
/// stencil's word under the stencil's mask.
pub fn precise_check(v: &[u32], stencil: &[PreciseStencil]) -> (fits: bool)
    requires
        v@.len() == stencil@.len(),
    ensures
        fits == precise_fits(v@, stencil@),
{
    let mut i: usize = 0;
    while i < stencil.len()
        invariant
            i <= stencil@.len(),
            v@.len() == stencil@.len(),
            forall|j: int| 0 <= j < i ==> v@[j] & (#[trigger] stencil@[j]).mask == stencil@[j].word,
        decreases stencil@.len() - i,
    {
        if v[i] & stencil[i].mask != stencil[i].word {
            return false;
        }
        i = i + 1;
    }
    true
}

/// Checks the candidates of the rough scan against the precise stencil and
/// returns those that stand, each moved by `start`, the byte offset of the
/// first image word in its file.
pub fn precise_wordsearch(
    rom_words: &[u32],
    rough_results: &Vec<usize>,
    stencil: &[PreciseStencil],
    start: usize,
) -> (results: Vec<usize>)
    requires
        forall|k: int| 0 <= k < rough_results@.len() ==> rough_results@[k] + start <= usize::MAX,
    ensures
        results@ == precise_hits(rom_words@, rough_results@, stencil@, start as int),
{
    let mut results: Vec<usize> = Vec::new();
    let mut k: usize = 0;
    while k < rough_results.len()
        invariant
            k <= rough_results@.len(),
            forall|n: int|
                0 <= n < rough_results@.len() ==> rough_results@[n] + start <= usize::MAX,
            results@ == precise_hits(
                rom_words@,
                rough_results@.take(k as int),
                stencil@,
                start as int,
            ),
        decreases rough_results@.len() - k,
    {
        let result: usize = rough_results[k];
        let index: usize = result / 4;
        let mut fits = false;
        if index <= rom_words.len() && stencil.len() <= rom_words.len() - index {
            fits = precise_check(slice_subrange(rom_words, index, index + stencil.len()), stencil);
        }
        assert(fits == precise_fits_at(rom_words@, stencil@, result as int / 4));
        if fits {
            results.push(result + start);
        }
        assert(rough_results@.take(k + 1).drop_last() == rough_results@.take(k as int));
        k = k + 1;
    }
    assert(rough_results@.take(k as int) == rough_results@);
    results
}

/// The offsets at which the code `code` with the relocations `relocs` is
/// found in `image`: the outcome of the rough scan followed by the precise
/// check, each offset moved by `start`.
pub open spec fn match_offsets(
    image: Seq<u32>,
    code: Seq<u32>,
    relocs: Seq<RelocationView>,
    start: int,
) -> Seq<usize> {
    precise_hits(
        image,
        rough_hits(image, rough_stencil(code)),
        precise_stencil(code, relocs),
        start,
    )
}

/// What `precise_hits` holds: every candidate at which the stencil fits, and
/// nothing else.
pub proof fn lemma_precise_hits(
    v: Seq<u32>,
    rough: Seq<usize>,
    stencil: Seq<PreciseStencil>,
    start: int,
)
    requires
        0 <= start,
        forall|k: int| 0 <= k < rough.len() ==> rough[k] + start <= usize::MAX,
    ensures
        forall|k: int|
            0 <= k < rough.len() && precise_fits_at(v, stencil, (#[trigger] rough[k]) as int / 4)
                ==> precise_hits(v, rough, stencil, start).contains((rough[k] + start) as usize),
        forall|n: int|
            0 <= n < precise_hits(v, rough, stencil, start).len() ==> {
                let x = #[trigger] precise_hits(v, rough, stencil, start)[n];
                x >= start && rough.contains((x - start) as usize) && precise_fits_at(
                    v,
                    stencil,
                    (x - start) / 4,
                )
            },
    decreases rough.len(),
{
    if rough.len() > 0 {
        let shorter = rough.drop_last();
        lemma_precise_hits(v, shorter, stencil, start);
        let earlier = precise_hits(v, shorter, stencil, start);
        let all = precise_hits(v, rough, stencil, start);
        let last = rough.last();
        assert forall|k: int|
            0 <= k < rough.len() && precise_fits_at(
                v,
                stencil,
                (#[trigger] rough[k]) as int / 4,
            ) implies all.contains((rough[k] + start) as usize) by {
            if k < rough.len() - 1 {
                assert(shorter[k] == rough[k]);
                let n = choose|n: int|
                    0 <= n < earlier.len() && earlier[n] == (rough[k] + start) as usize;
                assert(all[n] == earlier[n]);
            } else {
                assert(all[earlier.len() as int] == (last + start) as usize);
            }
        }
        assert forall|n: int| 0 <= n < all.len() implies {
            let x = #[trigger] all[n];
            x >= start && rough.contains((x - start) as usize) && precise_fits_at(
                v,
                stencil,
                (x - start) / 4,
            )
        } by {
            let x = all[n];
            if n < earlier.len() {
                assert(all[n] == earlier[n]);
                let k = choose|k: int| 0 <= k < shorter.len() && shorter[k] == (x - start) as usize;
                assert(rough[k] == shorter[k]);
            } else {
                assert(x == (last + start) as usize);
                assert(rough[rough.len() - 1] == last);
            }
        }
    }
}

/// Where a precise stencil fits, the rough stencil of the same code fits too.
pub proof fn lemma_precise_implies_rough(
    image: Seq<u32>,
    code: Seq<u32>,
    relocs: Seq<RelocationView>,
    k: int,
)
    requires
        precise_fits_at(image, precise_stencil(code, relocs), k),
    ensures
        rough_fits(image, rough_stencil(code), k),
{
    let stencil = precise_stencil(code, relocs);
    let window = image.subrange(k, k + stencil.len());
    assert forall|j: int| 0 <= j < rough_stencil(code).len() implies image[k + j] & ROUGH_MASK
        == #[trigger] rough_stencil(code)[j] by {
        lemma_mask_keeps_opcode(code, relocs, j);
        let x = image[k + j];
        let y = code[j];
        let m = stencil[j].mask;
        assert(window[j] == x);
        assert(x & m == y & m);
        assert((x & m == y & m) && (m & 0xFC00_0000u32 == 0xFC00_0000u32) ==> x & 0xFC00_0000u32
            == y & 0xFC00_0000u32) by (bit_vector);
    }
}

/// The offsets reported are those of the words at which the precise stencil
/// fits, each moved by `start`.
pub proof fn lemma_match_offsets(
    image: Seq<u32>,
    code: Seq<u32>,
    relocs: Seq<RelocationView>,
    start: int,
    k: int,
)
    requires
        0 <= start,
        0 <= k <= image.len(),
        4 * image.len() + start <= usize::MAX,
    ensures
        match_offsets(image, code, relocs, start).contains((4 * k + start) as usize)
            <==> precise_fits_at(image, precise_stencil(code, relocs), k),
{
    let pattern = rough_stencil(code);
    let stencil = precise_stencil(code, relocs);
    let rough = rough_hits(image, pattern);
    let bound = image.len() - pattern.len() + 1;
    lemma_rough_hits_below(image, pattern, bound);
    assert forall|n: int| 0 <= n < rough.len() implies rough[n] + start <= usize::MAX by {
        let x = rough[n];
        assert(x % 4 == 0 && x / 4 < bound);
    }
    lemma_precise_hits(image, rough, stencil, start);
    let hits = match_offsets(image, code, relocs, start);
    if precise_fits_at(image, stencil, k) {
        lemma_precise_implies_rough(image, code, relocs, k);
        assert(rough.contains((4 * k) as usize));
        let n = choose|n: int| 0 <= n < rough.len() && rough[n] == (4 * k) as usize;
        assert(precise_fits_at(image, stencil, rough[n] as int / 4));
    }
    if hits.contains((4 * k + start) as usize) {
        let n = choose|n: int| 0 <= n < hits.len() && hits[n] == (4 * k + start) as usize;
        let x = hits[n];
        assert((x - start) / 4 == k);
    }
}

/// The offsets reported ascend: no place is reported twice, and an earlier
/// place before a later one.
pub proof fn lemma_match_offsets_ascend(
    image: Seq<u32>,
    code: Seq<u32>,
    relocs: Seq<RelocationView>,
    start: int,
)
    requires
        0 <= start,
        4 * image.len() + start <= usize::MAX,
    ensures
        forall|a: int, b: int|
            0 <= a < b < match_offsets(image, code, relocs, start).len() ==> match_offsets(
                image,
                code,
                relocs,
                start,
            )[a] < match_offsets(image, code, relocs, start)[b],
{
    let pattern = rough_stencil(code);
    let rough = rough_hits(image, pattern);
    let bound = image.len() - pattern.len() + 1;
    lemma_rough_hits_below(image, pattern, bound);
    assert forall|n: int| 0 <= n < rough.len() implies rough[n] + start <= usize::MAX by {
        let x = rough[n];
        assert(x % 4 == 0 && x / 4 < bound);
    }
    lemma_precise_hits_ascend(image, rough, precise_stencil(code, relocs), start);
}

/// Candidates that ascend are kept in their order.
pub proof fn lemma_precise_hits_ascend(
    v: Seq<u32>,
    rough: Seq<usize>,
    stencil: Seq<PreciseStencil>,
    start: int,
)
    requires
        0 <= start,
        forall|k: int| 0 <= k < rough.len() ==> rough[k] + start <= usize::MAX,
        forall|a: int, b: int| 0 <= a < b < rough.len() ==> rough[a] < rough[b],
    ensures
        forall|a: int, b: int|
            0 <= a < b < precise_hits(v, rough, stencil, start).len() ==> precise_hits(
                v,
                rough,
                stencil,
                start,
            )[a] < precise_hits(v, rough, stencil, start)[b],
    decreases rough.len(),
{
    if rough.len() > 0 {
        let shorter = rough.drop_last();
        let earlier = precise_hits(v, shorter, stencil, start);
        let all = precise_hits(v, rough, stencil, start);
        assert(forall|k: int| 0 <= k < shorter.len() ==> shorter[k] == rough[k]);
        lemma_precise_hits_ascend(v, shorter, stencil, start);
        lemma_precise_hits(v, shorter, stencil, start);
        assert forall|a: int, b: int| 0 <= a < b < all.len() implies all[a] < all[b] by {
            if b < earlier.len() {
                assert(all[a] == earlier[a] && all[b] == earlier[b]);
            } else {
                let x = earlier[a];
                assert(all[a] == x);
                assert(all[b] == (rough.last() + start) as usize);
                let k = choose|k: int| 0 <= k < shorter.len() && shorter[k] == (x - start) as usize;
                assert(rough[k] < rough[rough.len() - 1]);
            }
        }
    }
}

/// Code that stands in the image as it stands in the object is found where
/// it stands.
pub proof fn lemma_self_match(
    image: Seq<u32>,
    code: Seq<u32>,
    relocs: Seq<RelocationView>,
    start: int,
    k: int,
)
    requires
        0 <= start,
        0 <= k,
        k + code.len() <= image.len(),
        4 * image.len() + start <= usize::MAX,
        image.subrange(k, k + code.len()) == code,
    ensures
        match_offsets(image, code, relocs, start).contains((4 * k + start) as usize),
{
    assert forall|j: int| 0 <= j < code.len() implies image[k + j] == (code[j] & precise_stencil(
        code,
        relocs,
    )[j].mask) | (#[trigger] code[j] & !precise_stencil(code, relocs)[j].mask) by {
        let c = code[j];
        let m = precise_stencil(code, relocs)[j].mask;
        assert(image.subrange(k, k + code.len())[j] == image[k + j]);
        assert((c & m) | (c & !m) == c) by (bit_vector);
    }
    lemma_relocation_invariance(image, code, relocs, code, start, k);
}

/// Code is found wherever the image differs from it only in bits that its
/// stencil masks out: image words that keep the code's bits under the mask and
/// take any bits of `patch` outside it.
pub proof fn lemma_relocation_invariance(
    image: Seq<u32>,
    code: Seq<u32>,
    relocs: Seq<RelocationView>,
    patch: Seq<u32>,
    start: int,
    k: int,
)
    requires
        0 <= start,
        0 <= k,
        k + code.len() <= image.len(),
        4 * image.len() + start <= usize::MAX,
        patch.len() == code.len(),
        forall|j: int|
            0 <= j < code.len() ==> image[k + j] == (code[j] & precise_stencil(
                code,
                relocs,
            )[j].mask) | (#[trigger] patch[j] & !precise_stencil(code, relocs)[j].mask),
    ensures
        match_offsets(image, code, relocs, start).contains((4 * k + start) as usize),
{
    let stencil = precise_stencil(code, relocs);
    let window = image.subrange(k, k + stencil.len());
    assert forall|j: int| 0 <= j < stencil.len() implies window[j] & (#[trigger] stencil[j]).mask
        == stencil[j].word by {
        let c = code[j];
        let m = stencil[j].mask;
        let p = patch[j];
        let x = image[k + j];
        assert(x == (code[j] & m) | (p & !m));
        assert(((c & m) | (p & !m)) & m == c & m) by (bit_vector);
    }
    lemma_match_offsets(image, code, relocs, start, k);
}

/// A stencil no longer fits once a bit under one of its masks is flipped.
pub proof fn lemma_flipped_bit_misses(
    image: Seq<u32>,
    stencil: Seq<PreciseStencil>,
    k: int,
    j: int,
    bit: u32,
)
    requires
        precise_fits_at(image, stencil, k),
        0 <= j < stencil.len(),
        bit < 32,
        (1u32 << bit) & stencil[j].mask != 0,
    ensures
        !precise_fits_at(image.update(k + j, image[k + j] ^ (1u32 << bit)), stencil, k),
{
    let x = image[k + j];
    let m = stencil[j].mask;
    let changed = image.update(k + j, x ^ (1u32 << bit));
    assert(image.subrange(k, k + stencil.len())[j] == x);
    assert(changed.subrange(k, k + stencil.len())[j] == x ^ (1u32 << bit));
    assert(bit < 32 && (1u32 << bit) & m != 0 ==> (x ^ (1u32 << bit)) & m != x & m)
        by (bit_vector);
}

/// No false match: where code is found, it is no longer found once a bit of
/// the image that lies under the stencil's mask is flipped.
pub proof fn lemma_no_false_match(
    image: Seq<u32>,
    code: Seq<u32>,
    relocs: Seq<RelocationView>,
    start: int,
    k: int,
    j: int,
    bit: u32,
)
    requires
        0 <= start,
        0 <= k <= image.len(),
        4 * image.len() + start <= usize::MAX,
        match_offsets(image, code, relocs, start).contains((4 * k + start) as usize),
        0 <= j < code.len(),
        bit < 32,
        (1u32 << bit) & precise_stencil(code, relocs)[j].mask != 0,
    ensures
        !match_offsets(
            image.update(k + j, image[k + j] ^ (1u32 << bit)),
            code,
            relocs,
            start,
        ).contains((4 * k + start) as usize),
{
    let changed = image.update(k + j, image[k + j] ^ (1u32 << bit));
    lemma_match_offsets(image, code, relocs, start, k);
    lemma_flipped_bit_misses(image, precise_stencil(code, relocs), k, j, bit);
    lemma_match_offsets(changed, code, relocs, start, k);
}

} // verus!
