//! The search for one object: whether it can be searched for at all, where
//! it fits, and which symbols it gives at the places where it fits.

use vstd::prelude::*;
use vstd::slice::slice_subrange;
use crate::config::{Config, Endian};
use crate::matcher::{
    lemma_precise_hits,
    lemma_rough_hits_below,
    match_offsets,
    naive_wordsearch,
    precise_fits_at,
    precise_wordsearch,
    rough_hits,
};
use crate::objfile::{ObjectFile, ObjectFileView};
use crate::stencil::{
    has_out_of_range,
    make_precise_stencil,
    make_rough_stencil,
    precise_stencil,
    rough_stencil,
    stencil_failure,
    PreciseStencil,
    StencilError,
};
use crate::symbols::{
    function_symbols,
    given_up,
    merge_symbols,
    merged_symbols,
    parse_symtab_functions,
    recover,
    recover_symbols,
    views,
    Symbol,
    SymbolView,
};
use crate::words::{words_from_bytes, words_of};

verus! {

/// Why an object was left out of the search.
#[derive(Clone, Copy, Debug, PartialEq, Eq, Structural)]
pub enum SkipReason {
    /// It has no `.text` section.
    NoText,
    /// Its `.text` section is empty.
    EmptyText,
    /// Its `.text` section holds zeros only.
    ZeroText,
    /// No stencil can be built for it.
    Unsupported(StencilError),
}

/// What the search for one object came to.
pub struct ObjectMatch {
    /// Set where the object was left out; it then counts neither as found
    /// nor as not found.
    pub skipped: Option<SkipReason>,
    /// Byte offsets, in the image file, of the places where the object fits,
    /// in ascending order.
    pub offsets: Vec<usize>,
    /// Size of the object's code in bytes.
    pub text_size: usize,
    /// The symbols of all places where the object fits.
    pub symbols: Vec<Symbol>,
    /// The relocations that gave no symbol for want of their other half:
    /// for each the offset of the place where the object fits and the place
    /// that the relocation has in the object's list.
    pub dropped: Vec<(usize, usize)>,
}

/// An `ObjectMatch` as a mathematical value.
pub struct ObjectMatchView {
    pub skipped: Option<SkipReason>,
    pub offsets: Seq<usize>,
    pub text_size: usize,
    pub symbols: Seq<SymbolView>,
    pub dropped: Seq<(usize, usize)>,
}

impl View for ObjectMatch {
    type V = ObjectMatchView;

    open spec fn view(&self) -> ObjectMatchView {
        ObjectMatchView {
            skipped: self.skipped,
            offsets: self.offsets@,
            text_size: self.text_size,
            symbols: views(self.symbols@),
            dropped: self.dropped@,
        }
    }
}

/// Every word is zero.
pub open spec fn all_zero(words: Seq<u32>) -> bool {
    forall|i: int| 0 <= i < words.len() ==> words[i] == 0
}

/// Why the object is left out of the search in `image`, if it is.
///
/// An object whose opcodes are met nowhere in the image is not left out, it
/// is not found: for such an object no precise stencil is asked for.
pub open spec fn object_skip(obj: ObjectFileView, endian: Endian, image: Seq<u32>) -> Option<
    SkipReason,
> {
    match obj.text {
        None => Some(SkipReason::NoText),
        Some(section) => {
            let words = words_of(section.data, endian);
            if section.data.len() == 0 {
                Some(SkipReason::EmptyText)
            } else if all_zero(words) {
                Some(SkipReason::ZeroText)
            } else if section.data.len() % 4 != 0 {
                Some(SkipReason::Unsupported(StencilError::PartialWord))
            } else if rough_hits(image, rough_stencil(words)).len() == 0 {
                None
            } else {
                match stencil_failure(section.data, section.relocations) {
                    Some(e) => Some(SkipReason::Unsupported(e)),
                    None => None,
                }
            }
        },
    }
}

/// The byte offsets at which the object fits in `image`, each moved by
/// `start`; none for an object that is left out.
pub open spec fn object_offsets(
    obj: ObjectFileView,
    endian: Endian,
    image: Seq<u32>,
    start: int,
) -> Seq<usize> {
    if object_skip(obj, endian, image) is Some {
        Seq::empty()
    } else {
        match_offsets(image, words_of(obj.text_bytes(), endian), obj.text_relocations(), start)
    }
}

/// The symbols of the object where its code starts at word `index` of
/// `image`: those of its symbol table joined with those recovered from its
/// relocations.
pub open spec fn hit_symbols(
    obj: ObjectFileView,
    stem: Seq<char>,
    stencil: Seq<PreciseStencil>,
    image: Seq<u32>,
    base: u32,
    index: int,
) -> Seq<SymbolView> {
    merged_symbols(
        function_symbols(obj.symbols, stem, base, index),
        recover(
            obj.text_relocations(),
            stencil,
            image.subrange(index, index + stencil.len()),
            stem,
        ).done,
    )
}

/// The symbols of the object at all the places `hits`, place after place.
pub open spec fn symbols_of_hits(
    obj: ObjectFileView,
    stem: Seq<char>,
    stencil: Seq<PreciseStencil>,
    image: Seq<u32>,
    base: u32,
    start: int,
    hits: Seq<usize>,
) -> Seq<SymbolView>
    decreases hits.len(),
{
    if hits.len() == 0 {
        Seq::empty()
    } else {
        symbols_of_hits(obj, stem, stencil, image, base, start, hits.drop_last()) + hit_symbols(
            obj,
            stem,
            stencil,
            image,
            base,
            (hits.last() - start) / 4,
        )
    }
}

/// The symbols that the object contributes: those of every place where it
/// fits, unless its name alone marks it as ambiguous.
pub open spec fn object_symbols(
    obj: ObjectFileView,
    stem: Seq<char>,
    endian: Endian,
    image: Seq<u32>,
    base: u32,
    start: int,
    ambiguous_by_name: bool,
) -> Seq<SymbolView> {
    if ambiguous_by_name {
        Seq::empty()
    } else {
        symbols_of_hits(
            obj,
            stem,
            precise_stencil(words_of(obj.text_bytes(), endian), obj.text_relocations()),
            image,
            base,
            start,
            object_offsets(obj, endian, image, start),
        )
    }
}

/// The relocations of the object that give no symbol, where its code starts
/// at word `index` of `image` and at the byte offset `offset` of the image
/// file, for want of their other half.
pub open spec fn hit_dropped(
    obj: ObjectFileView,
    stem: Seq<char>,
    stencil: Seq<PreciseStencil>,
    image: Seq<u32>,
    offset: usize,
    index: int,
) -> Seq<(usize, usize)> {
    given_up(
        recover(
            obj.text_relocations(),
            stencil,
            image.subrange(index, index + stencil.len()),
            stem,
        ),
    ).map_values(|place: usize| (offset, place))
}

/// The relocations of the object that give no symbol at the places `hits`,
/// place after place.
pub open spec fn dropped_of_hits(
    obj: ObjectFileView,
    stem: Seq<char>,
    stencil: Seq<PreciseStencil>,
    image: Seq<u32>,
    start: int,
    hits: Seq<usize>,
) -> Seq<(usize, usize)>
    decreases hits.len(),
{
    if hits.len() == 0 {
        Seq::empty()
    } else {
        dropped_of_hits(obj, stem, stencil, image, start, hits.drop_last()) + hit_dropped(
            obj,
            stem,
            stencil,
            image,
            hits.last(),
            (hits.last() - start) / 4,
        )
    }
}

/// The relocations that give no symbol at any of the places where the
/// object fits; none for an object whose name alone marks it as ambiguous.
pub open spec fn object_dropped(
    obj: ObjectFileView,
    stem: Seq<char>,
    endian: Endian,
    image: Seq<u32>,
    start: int,
    ambiguous_by_name: bool,
) -> Seq<(usize, usize)> {
    if ambiguous_by_name {
        Seq::empty()
    } else {
        dropped_of_hits(
            obj,
            stem,
            precise_stencil(words_of(obj.text_bytes(), endian), obj.text_relocations()),
            image,
            start,
            object_offsets(obj, endian, image, start),
        )
    }
}

/// What the search for the object in `image` comes to.
pub open spec fn object_match(
    obj: ObjectFileView,
    stem: Seq<char>,
    endian: Endian,
    image: Seq<u32>,
    base: u32,
    start: int,
    ambiguous_by_name: bool,
) -> ObjectMatchView {
    ObjectMatchView {
        skipped: object_skip(obj, endian, image),
        offsets: object_offsets(obj, endian, image, start),
        text_size: obj.text_bytes().len() as usize,
        symbols: object_symbols(obj, stem, endian, image, base, start, ambiguous_by_name),
        dropped: object_dropped(obj, stem, endian, image, start, ambiguous_by_name),
    }
}

/// Whether every word is zero.
fn only_zeros(words: &Vec<u32>) -> (r: bool)
    ensures
        r == all_zero(words@),
{
    let mut i: usize = 0;
    while i < words.len()
        invariant
            i <= words@.len(),
            forall|n: int| 0 <= n < i ==> words@[n] == 0,
        decreases words@.len() - i,
    {
        if words[i] != 0 {
            return false;
        }
        i = i + 1;
    }
    true
}

/// An object that is left out.
fn left_out(reason: SkipReason, text_size: usize) -> (m: ObjectMatch)
    ensures
        m.skipped == Some(reason),
        m.offsets@ == Seq::<usize>::empty(),
        m.text_size == text_size,
        views(m.symbols@) == Seq::<SymbolView>::empty(),
        m.dropped@ == Seq::<(usize, usize)>::empty(),
{
    let m = ObjectMatch {
        skipped: Some(reason),
        offsets: Vec::new(),
        text_size,
        symbols: Vec::new(),
        dropped: Vec::new(),
    };
    assert(views(m.symbols@) =~= Seq::<SymbolView>::empty());
    m
}

/// Searches the image for one object.
///
/// `rom_words` are the words of the image, the first of them at byte offset
/// `start` of the image file and at the address `base_address`. An object
/// without code, or with code that is all zero, is left out. The image is
/// then scanned for the object's opcodes; where they are met, the precise
/// stencil is built, and an object that has none is left out. The offsets of
/// the places where the stencil fits are returned, and for each place the
/// object's symbols and the relocations that gave none, unless
/// `ambiguous_by_name` is set.
pub fn match_object(
    config: &Config,
    rom_words: &[u32],
    start: usize,
    base_address: u32,
    obj_file: &ObjectFile,
    file_stem: &str,
    ambiguous_by_name: bool,
) -> (found: ObjectMatch)
    requires
        4 * rom_words@.len() + start <= usize::MAX,
    ensures
        found@ == object_match(
            obj_file@,
            file_stem@,
            config.endian,
            rom_words@,
            base_address,
            start as int,
            ambiguous_by_name,
        ),
{
    let section = match &obj_file.text {
        None => {
            return left_out(SkipReason::NoText, 0);
        },
        Some(section) => section,
    };
    let text_size: usize = section.data.len();
    if text_size == 0 {
        return left_out(SkipReason::EmptyText, text_size);
    }
    let mut words: Vec<u32> = Vec::new();
    words_from_bytes(config, section.data.as_slice(), &mut words);
    assert(words@ == words_of(section.data@, config.endian));
    if only_zeros(&words) {
        return left_out(SkipReason::ZeroText, text_size);
    }
    let mut rough: Vec<u32> = Vec::new();
    match make_rough_stencil(config, section.data.as_slice(), &mut rough) {
        Err(e) => {
            return left_out(SkipReason::Unsupported(e), text_size);
        },
        Ok(_) => {},
    }
    assert(Seq::<u32>::empty() + words@ == words@);
    let rough_results = naive_wordsearch(rom_words, rough.as_slice());
    let mut symbols: Vec<Symbol> = Vec::new();
    assert(views(symbols@) =~= Seq::<SymbolView>::empty());
    let mut dropped: Vec<(usize, usize)> = Vec::new();
    if rough_results.len() == 0 {
        return ObjectMatch { skipped: None, offsets: Vec::new(), text_size, symbols, dropped };
    }
    let stencil = match make_precise_stencil(config, obj_file, section.data.as_slice()) {
        Err(e) => {
            return left_out(SkipReason::Unsupported(e), text_size);
        },
        Ok(stencil) => stencil,
    };
    proof {
        lemma_rough_hits_below(rom_words@, rough@, rom_words@.len() - rough@.len() + 1);
        assert forall|k: int| 0 <= k < rough_results@.len() implies rough_results@[k] + start
            <= usize::MAX by {
            let x = rough_results@[k];
            assert(x % 4 == 0 && x / 4 < rom_words@.len() - rough@.len() + 1);
        }
        lemma_precise_hits(rom_words@, rough_results@, stencil@, start as int);
    }
    let offsets = precise_wordsearch(rom_words, &rough_results, stencil.as_slice(), start);
    if ambiguous_by_name {
        return ObjectMatch { skipped: None, offsets, text_size, symbols, dropped };
    }
    let ghost relocs = obj_file@.text_relocations();
    let mut n: usize = 0;
    while n < offsets.len()
        invariant
            n <= offsets@.len(),
            4 * rom_words@.len() + start <= usize::MAX,
            relocs == obj_file@.text_relocations(),
            !has_out_of_range(relocs, stencil@.len() as int),
            forall|i: int|
                0 <= i < offsets@.len() ==> {
                    let x = #[trigger] offsets@[i];
                    x >= start && precise_fits_at(rom_words@, stencil@, (x - start) / 4)
                },
            views(symbols@) == symbols_of_hits(
                obj_file@,
                file_stem@,
                stencil@,
                rom_words@,
                base_address,
                start as int,
                offsets@.take(n as int),
            ),
            dropped@ == dropped_of_hits(
                obj_file@,
                file_stem@,
                stencil@,
                rom_words@,
                start as int,
                offsets@.take(n as int),
            ),
        decreases offsets@.len() - n,
    {
        let hit: usize = offsets[n];
        let index: usize = (hit - start) / 4;
        let window = slice_subrange(rom_words, index, index + stencil.len());
        assert forall|k: int| 0 <= k < relocs.len() implies (#[trigger] relocs[k]).word_index()
            < window@.len() by {}
        let table = parse_symtab_functions(obj_file, file_stem, base_address, index);
        let recovered = recover_symbols(obj_file, file_stem, &stencil, window);
        let mut here = merge_symbols(table, recovered.symbols);
        let ghost before = symbols@;
        let ghost added = here@;
        symbols.append(&mut here);
        let ghost noted = dropped@;
        let mut i: usize = 0;
        while i < recovered.dropped.len()
            invariant
                i <= recovered.dropped@.len(),
                dropped@ == noted + recovered.dropped@.take(i as int).map_values(
                    |place: usize| (hit, place),
                ),
            decreases recovered.dropped@.len() - i,
        {
            dropped.push((hit, recovered.dropped[i]));
            i = i + 1;
            assert(recovered.dropped@.take(i as int) == recovered.dropped@.take(i - 1).push(
                recovered.dropped@[i - 1],
            ));
        }
        proof {
            assert(recovered.dropped@.take(i as int) == recovered.dropped@);
            assert(views(symbols@) =~= views(before) + views(added));
            assert(offsets@.take(n + 1).drop_last() == offsets@.take(n as int));
        }
        n = n + 1;
    }
    assert(offsets@.take(n as int) == offsets@);
    ObjectMatch { skipped: None, offsets, text_size, symbols, dropped }
}

} // verus!
