//! Telling apart objects that fit at the same place, by applying their
//! relocations with the symbols already known.
//!
//! Crude so far: only relocations against symbols are handled, and addends
//! in the relocation entries are not.

use vstd::prelude::*;
use vstd::string::*;
use crate::objfile::{ObjectFile, RelocKind, RelocTarget, RelocTargetView, RelocationView};
use crate::stencil::{PreciseStencil, I_TYPE_MASK, J_TYPE_MASK};
use crate::symbols::{views, Symbol, SymbolView, J_OPCODE};
use crate::words::{reduce, wrap32};

verus! {

/// The first of `symbols`, from the `from`-th on, that goes by `name`.
pub open spec fn first_named_from(symbols: Seq<SymbolView>, name: Seq<char>, from: int) -> Option<
    SymbolView,
>
    decreases symbols.len() - from,
{
    if from < 0 || from >= symbols.len() {
        None
    } else if symbols[from].name == name {
        Some(symbols[from])
    } else {
        first_named_from(symbols, name, from + 1)
    }
}

/// The first of `symbols` that goes by `name`.
pub open spec fn first_named(symbols: Seq<SymbolView>, name: Seq<char>) -> Option<SymbolView> {
    first_named_from(symbols, name, 0)
}

/// The stencil word `word` once a relocation of kind `kind` against a symbol
/// at `address` is applied: the word narrowed to the bits it shares with what
/// the relocation puts into the instruction.
pub open spec fn relocated_word(word: u32, kind: RelocKind, address: u32, addend: u32) -> u32 {
    match kind {
        RelocKind::J26 => word & (wrap32((address >> 2) + addend) & !J_TYPE_MASK),
        RelocKind::Hi16 => word & ((wrap32(address + (address & 0x8000)) >> 16) & !I_TYPE_MASK),
        RelocKind::Lo16 => word & (address & !I_TYPE_MASK),
        RelocKind::Unsupported => word,
    }
}

/// Whether a relocation is one that cannot be applied: it patches a word the
/// stencil does not have, it is not against a symbol, or it is the jump of a
/// `j` against a known symbol.
pub open spec fn cannot_apply(
    r: RelocationView,
    stencil: Seq<PreciseStencil>,
    symbols: Seq<SymbolView>,
) -> bool {
    r.word_index() >= stencil.len() || match r.target {
        RelocTargetView::Symbol { name, .. } => first_named(symbols, name) is Some && r.kind
            == RelocKind::J26 && stencil[r.word_index()].word & J_TYPE_MASK == J_OPCODE,
        _ => true,
    }
}

/// Some relocation cannot be applied.
pub open spec fn has_inapplicable(
    relocs: Seq<RelocationView>,
    stencil: Seq<PreciseStencil>,
    symbols: Seq<SymbolView>,
) -> bool {
    exists|k: int| 0 <= k < relocs.len() && cannot_apply(#[trigger] relocs[k], stencil, symbols)
}

/// The words after one more relocation: the word it patches is relocated if
/// its symbol is known, and left alone if not.
pub open spec fn relocate_step(
    words: Seq<u32>,
    r: RelocationView,
    stencil: Seq<PreciseStencil>,
    symbols: Seq<SymbolView>,
) -> Seq<u32> {
    match r.target {
        RelocTargetView::Symbol { name, .. } => match first_named(symbols, name) {
            Some(symbol) => words.update(
                r.word_index(),
                relocated_word(
                    words[r.word_index()],
                    r.kind,
                    symbol.address,
                    stencil[r.word_index()].addend,
                ),
            ),
            None => words,
        },
        _ => words,
    }
}

/// The stencil's words after all of `relocs` are applied, in their order.
pub open spec fn relocated(
    relocs: Seq<RelocationView>,
    stencil: Seq<PreciseStencil>,
    symbols: Seq<SymbolView>,
) -> Seq<u32>
    decreases relocs.len(),
{
    if relocs.len() == 0 {
        Seq::new(stencil.len(), |i: int| stencil[i].word)
    } else {
        relocate_step(
            relocated(relocs.drop_last(), stencil, symbols),
            relocs.last(),
            stencil,
            symbols,
        )
    }
}

/// Looks up the first symbol that goes by `name` and returns its address.
fn address_of(symbols: &[Symbol], name: &String) -> (address: Option<u32>)
    ensures
        match first_named(views(symbols@), name@) {
            Some(symbol) => address == Some(symbol.address),
            None => address is None,
        },
{
    let ghost all = views(symbols@);
    let mut i: usize = 0;
    while i < symbols.len()
        invariant
            i <= symbols@.len(),
            all == views(symbols@),
            first_named(all, name@) == first_named_from(all, name@, i as int),
        decreases symbols@.len() - i,
    {
        if symbols[i].name == *name {
            return Some(symbols[i].address);
        }
        i = i + 1;
    }
    None
}

/// Computes `relocated_word`.
fn relocate_word(word: u32, kind: RelocKind, address: u32, addend: u32) -> (r: u32)
    ensures
        r == relocated_word(word, kind, address, addend),
{
    match kind {
        RelocKind::J26 => word & (reduce((address >> 2) as u64 + addend as u64) & !J_TYPE_MASK),
        RelocKind::Hi16 => word & ((reduce(address as u64 + (address & 0x8000) as u64) >> 16)
            & !I_TYPE_MASK),
        RelocKind::Lo16 => word & (address & !I_TYPE_MASK),
        RelocKind::Unsupported => word,
    }
}

/// Applies the relocations of the object's `.text` section to the words of
/// its stencil, with the addresses of the symbols given.
///
/// Nothing is returned for an object without a `.text` section, nor where a
/// relocation cannot be applied.
pub fn relocate(obj_file: &ObjectFile, stencil: &[PreciseStencil], symbols: &[Symbol]) -> (r:
    Option<Vec<u32>>)
    ensures
        match obj_file@.text {
            Some(section) => if has_inapplicable(section.relocations, stencil@, views(symbols@)) {
                r is None
            } else {
                r is Some && r->Some_0@ == relocated(
                    section.relocations,
                    stencil@,
                    views(symbols@),
                )
            },
            None => r is None,
        },
{
    let section = match &obj_file.text {
        Some(section) => section,
        None => {
            return None;
        },
    };
    let ghost relocs = section@.relocations;
    let ghost known = views(symbols@);
    let mut output: Vec<u32> = Vec::new();
    let mut i: usize = 0;
    while i < stencil.len()
        invariant
            i <= stencil@.len(),
            output@.len() == i,
            forall|n: int| 0 <= n < i ==> output@[n] == stencil@[n].word,
        decreases stencil@.len() - i,
    {
        output.push(stencil[i].word);
        i = i + 1;
    }
    assert(output@ =~= relocated(relocs.take(0), stencil@, known));
    let mut k: usize = 0;
    while k < section.relocations.len()
        invariant
            k <= relocs.len(),
            obj_file.text == Some(*section),
            relocs == section@.relocations,
            known == views(symbols@),
            output@.len() == stencil@.len(),
            forall|n: int| 0 <= n < k ==> !cannot_apply(#[trigger] relocs[n], stencil@, known),
            output@ == relocated(relocs.take(k as int), stencil@, known),
        decreases relocs.len() - k,
    {
        let reloc = &section.relocations[k];
        proof {
            assert(relocs[k as int] == reloc@);
            assert(relocs.take(k + 1).drop_last() == relocs.take(k as int));
            assert(relocs.take(k + 1).last() == relocs[k as int]);
        }
        let position: u64 = reloc.offset / 4;
        if position >= stencil.len() as u64 {
            assert(cannot_apply(relocs[k as int], stencil@, known));
            return None;
        }
        let index: usize = position as usize;
        match &reloc.target {
            RelocTarget::Symbol { name, size: _, defined: _ } => {
                match address_of(symbols, name) {
                    Some(address) => {
                        let is_jump = match reloc.kind {
                            RelocKind::J26 => true,
                            _ => false,
                        };
                        if is_jump && stencil[index].word & J_TYPE_MASK == J_OPCODE {
                            assert(cannot_apply(relocs[k as int], stencil@, known));
                            return None;
                        }
                        let word: u32 = relocate_word(
                            output[index],
                            reloc.kind,
                            address,
                            stencil[index].addend,
                        );
                        output.set(index, word);
                    },
                    None => {},
                }
            },
            _ => {
                assert(cannot_apply(relocs[k as int], stencil@, known));
                return None;
            },
        }
        k = k + 1;
    }
    assert(relocs.take(k as int) == relocs);
    Some(output)
}

} // verus!
