//! Symbols and their addresses.
//!
//! Where an object's code has been found in the image, the linker's work can
//! be undone: the bits it wrote into a relocated instruction give the address
//! of the symbol that the relocation names. Addresses are 32 bits wide, and
//! all arithmetic on them wraps.

use vstd::prelude::*;
use vstd::string::*;
use crate::order::{lemma_inserted_at, lemma_ranked, ranked, Ranked};
use crate::objfile::{
    ObjectFile,
    ObjectSymbolView,
    RelocKind,
    RelocTarget,
    RelocTargetView,
    RelocationView,
    SymbolKind,
};
use crate::stencil::{PreciseStencil, I_TYPE_MASK, J_TYPE_MASK};
use crate::words::{reduce, wrap32};

verus! {

/// A named address.
#[derive(Debug, PartialEq, Eq)]
pub struct Symbol {
    pub name: String,
    pub address: u32,
    /// Size in bytes, 0 where it is not known.
    pub size: u32,
    /// Stem of the object that the symbol was recovered from.
    pub filename: String,
    /// Whether that object defines the symbol.
    pub defined: bool,
    /// Whether the address is whole: `false` for a high half that still waits
    /// for its low half.
    pub complete: bool,
}

impl Clone for Symbol {
    fn clone(&self) -> (copy: Symbol)
        ensures
            copy@ == self@,
    {
        Symbol {
            name: self.name.clone(),
            address: self.address,
            size: self.size,
            filename: self.filename.clone(),
            defined: self.defined,
            complete: self.complete,
        }
    }
}

/// A `Symbol` as a mathematical value.
pub struct SymbolView {
    pub name: Seq<char>,
    pub address: u32,
    pub size: u32,
    pub filename: Seq<char>,
    pub defined: bool,
    pub complete: bool,
}

impl View for Symbol {
    type V = SymbolView;

    open spec fn view(&self) -> SymbolView {
        SymbolView {
            name: self.name@,
            address: self.address,
            size: self.size,
            filename: self.filename@,
            defined: self.defined,
            complete: self.complete,
        }
    }
}

/// The symbols of `s` as mathematical values.
pub open spec fn views(s: Seq<Symbol>) -> Seq<SymbolView> {
    s.map_values(|x: Symbol| x@)
}

/// The address space a jump reaches: the segment that the image is mapped to.
pub const HIGH_BITS: u32 = 0x8000_0000;

/// The primary opcode of `j`, a jump that names no function.
pub const J_OPCODE: u32 = 0x0800_0000;

/// The address that the jump `w` goes to, less the addend `add` that the
/// object's own instruction carried.
pub open spec fn jump_address(w: u32, add: u32) -> u32 {
    wrap32((HIGH_BITS | ((w & !J_TYPE_MASK) << 2)) - add)
}

/// The high half of an address as the instruction `w` loads it, less the
/// addend `add` that the object's own instruction carried.
pub open spec fn high_address(w: u32, add: u32) -> u32 {
    wrap32(((w & !I_TYPE_MASK) << 16) - (add << 16))
}

/// The address whose high half is `high` and whose low half the instruction
/// `w` adds. The low half is a signed number: where its top bit is set, the
/// high half was loaded one too large, which is taken back. The relocation's
/// own addend `r_addend` and the addend `add` of the object's instruction
/// come off.
pub open spec fn whole_address(high: u32, w: u32, r_addend: i64, add: u32) -> u32 {
    let low = w & !I_TYPE_MASK;
    wrap32(high + low - ((low & 0x8000) << 1) - (r_addend as u32) - add)
}

/// The name a relocation's target goes by.
pub open spec fn target_name(target: RelocTargetView) -> Seq<char> {
    match target {
        RelocTargetView::Symbol { name, .. } => name,
        RelocTargetView::Section { name, .. } => name,
        RelocTargetView::Unknown => "Unknown"@,
    }
}

/// The size of a relocation's target, 0 where it has none.
pub open spec fn target_size(target: RelocTargetView) -> u32 {
    match target {
        RelocTargetView::Symbol { size, .. } => size,
        RelocTargetView::Section { size, .. } => size,
        RelocTargetView::Unknown => 0,
    }
}

/// Whether the object defines a relocation's target; a section always is.
pub open spec fn target_defined(target: RelocTargetView) -> bool {
    match target {
        RelocTargetView::Symbol { defined, .. } => defined,
        RelocTargetView::Section { .. } => true,
        RelocTargetView::Unknown => false,
    }
}

/// The symbol that a relocation yields, at the address given.
pub open spec fn target_symbol(
    target: RelocTargetView,
    filename: Seq<char>,
    address: u32,
    complete: bool,
) -> SymbolView {
    SymbolView {
        name: target_name(target),
        address,
        size: target_size(target),
        filename,
        defined: target_defined(target),
        complete,
    }
}

/// How far symbol recovery has come.
pub struct Recovery {
    /// The symbols whose address is whole.
    pub done: Seq<SymbolView>,
    /// The high half that the next `Lo16` relocation would complete, if any,
    /// with the place that the relocation which opened it has in the list.
    pub pending: Option<(SymbolView, usize)>,
    /// The places, in the list, of the relocations that gave nothing for
    /// want of their other half.
    pub dropped: Seq<usize>,
}

/// The relocations that gave nothing for want of their other half, once the
/// high half that is still open is given up too.
pub open spec fn given_up(state: Recovery) -> Seq<usize> {
    match state.pending {
        Some((_, opened)) => state.dropped.push(opened),
        None => state.dropped,
    }
}

/// Recovery after one more relocation `r`, the `index`-th of the list, which
/// patches the image word `w` whose stencil entry holds the addend `add`.
///
/// A `J26` relocation on anything but a `j` yields a symbol at once. A `Hi16`
/// relocation opens a symbol. Either gives up a symbol that was still open.
/// A `Lo16` relocation closes the open symbol and yields it; with none open
/// it is dropped. A symbol that is never closed is never yielded.
pub open spec fn recover_step(
    state: Recovery,
    r: RelocationView,
    index: usize,
    w: u32,
    add: u32,
    filename: Seq<char>,
) -> Recovery {
    match r.kind {
        RelocKind::J26 => if w & J_TYPE_MASK == J_OPCODE {
            state
        } else {
            Recovery {
                done: state.done.push(
                    target_symbol(r.target, filename, jump_address(w, add), true),
                ),
                pending: None,
                dropped: given_up(state),
            }
        },
        RelocKind::Hi16 => Recovery {
            done: state.done,
            pending: Some(
                (target_symbol(r.target, filename, high_address(w, add), false), index),
            ),
            dropped: given_up(state),
        },
        RelocKind::Lo16 => match state.pending {
            Some((open, _)) => Recovery {
                done: state.done.push(
                    SymbolView {
                        name: open.name,
                        address: whole_address(open.address, w, r.addend, add),
                        size: open.size,
                        filename: open.filename,
                        defined: open.defined,
                        complete: true,
                    },
                ),
                pending: None,
                dropped: state.dropped,
            },
            None => Recovery {
                done: state.done,
                pending: None,
                dropped: state.dropped.push(index),
            },
        },
        RelocKind::Unsupported => state,
    }
}

/// Recovery after all of `relocs`, in their order, against the image words
/// `words` and the stencil that fits them.
pub open spec fn recover(
    relocs: Seq<RelocationView>,
    stencil: Seq<PreciseStencil>,
    words: Seq<u32>,
    filename: Seq<char>,
) -> Recovery
    decreases relocs.len(),
{
    if relocs.len() == 0 {
        Recovery { done: Seq::empty(), pending: None, dropped: Seq::empty() }
    } else {
        let r = relocs.last();
        recover_step(
            recover(relocs.drop_last(), stencil, words, filename),
            r,
            (relocs.len() - 1) as usize,
            words[r.word_index()],
            stencil[r.word_index()].addend,
            filename,
        )
    }
}

/// Computes `jump_address`.
fn recover_jump(w: u32, add: u32) -> (a: u32)
    ensures
        a == jump_address(w, add),
{
    let target: u32 = HIGH_BITS | ((w & !J_TYPE_MASK) << 2);
    reduce(target as u64 + 0x1_0000_0000 - add as u64)
}

/// Computes `high_address`.
fn recover_high(w: u32, add: u32) -> (a: u32)
    ensures
        a == high_address(w, add),
{
    let half: u32 = (w & !I_TYPE_MASK) << 16;
    let less: u32 = add << 16;
    reduce(half as u64 + 0x1_0000_0000 - less as u64)
}

/// Computes `whole_address`.
fn recover_whole(high: u32, w: u32, r_addend: i64, add: u32) -> (a: u32)
    ensures
        a == whole_address(high, w, r_addend, add),
{
    let low: u32 = w & !I_TYPE_MASK;
    let carry: u32 = (low & 0x8000) << 1;
    let own: u32 = #[verifier::truncate] (r_addend as u32);
    reduce(high as u64 + low as u64 + 0x3_0000_0000 - carry as u64 - own as u64 - add as u64)
}

/// Builds the symbol that a relocation yields, at the address given.
fn symbol_of_target(target: &RelocTarget, filename: &str, address: u32, complete: bool) -> (s:
    Symbol)
    ensures
        s@ == target_symbol(target@, filename@, address, complete),
{
    match target {
        RelocTarget::Symbol { name, size, defined } => Symbol {
            name: name.clone(),
            address,
            size: *size,
            filename: String::from_str(filename),
            defined: *defined,
            complete,
        },
        RelocTarget::Section { name, size } => Symbol {
            name: name.clone(),
            address,
            size: *size,
            filename: String::from_str(filename),
            defined: true,
            complete,
        },
        RelocTarget::Unknown => Symbol {
            name: String::from_str("Unknown"),
            address,
            size: 0,
            filename: String::from_str(filename),
            defined: false,
            complete,
        },
    }
}

/// What symbol recovery gives for one place where an object was found.
pub struct Recovered {
    /// The symbols whose address is whole.
    pub symbols: Vec<Symbol>,
    /// The places, in the list of relocations, of those that gave nothing
    /// for want of their other half.
    pub dropped: Vec<usize>,
}

/// Recovers symbol addresses from a place where the object's code was found,
/// and tells which relocations gave nothing for want of their other half.
///
/// `rom_words` are the image words at that place and `stencil` the precise
/// stencil that fits them. The relocations of the object's `.text` section
/// are gone through in their order; what each of them yields is stated by
/// `recover_step`. Only symbols whose address is whole are returned.
pub fn recover_symbols(
    obj_file: &ObjectFile,
    filename: &str,
    stencil: &Vec<PreciseStencil>,
    rom_words: &[u32],
) -> (recovered: Recovered)
    requires
        stencil@.len() == rom_words@.len(),
        forall|k: int|
            0 <= k < obj_file@.text_relocations().len() ==> (
            #[trigger] obj_file@.text_relocations()[k]).word_index() < rom_words@.len(),
    ensures
        views(recovered.symbols@) == recover(
            obj_file@.text_relocations(),
            stencil@,
            rom_words@,
            filename@,
        ).done,
        recovered.dropped@ == given_up(
            recover(obj_file@.text_relocations(), stencil@, rom_words@, filename@),
        ),
{
    let mut symbols: Vec<Symbol> = Vec::new();
    let mut dropped: Vec<usize> = Vec::new();
    let mut pending: Option<(Symbol, usize)> = None;
    let ghost relocs = obj_file@.text_relocations();
    match &obj_file.text {
        Some(section) => {
            let total: usize = section.relocations.len();
            let mut k: usize = 0;
            assert(relocs == section@.relocations);
            assert(views(symbols@) == Seq::<SymbolView>::empty());
            while k < total
                invariant
                    k <= total,
                    total == relocs.len(),
                    relocs == section@.relocations,
                    stencil@.len() == rom_words@.len(),
                    forall|n: int|
                        0 <= n < relocs.len() ==> (#[trigger] relocs[n]).word_index()
                            < rom_words@.len(),
                    views(symbols@) == recover(
                        relocs.take(k as int),
                        stencil@,
                        rom_words@,
                        filename@,
                    ).done,
                    dropped@ == recover(
                        relocs.take(k as int),
                        stencil@,
                        rom_words@,
                        filename@,
                    ).dropped,
                    match pending {
                        Some((open, opened)) => recover(
                            relocs.take(k as int),
                            stencil@,
                            rom_words@,
                            filename@,
                        ).pending == Some((open@, opened)),
                        None => recover(
                            relocs.take(k as int),
                            stencil@,
                            rom_words@,
                            filename@,
                        ).pending is None,
                    },
                decreases total - k,
            {
                let reloc = &section.relocations[k];
                assert(relocs[k as int] == reloc@);
                assert(relocs[k as int].word_index() < rom_words@.len());
                let index: usize = (reloc.offset / 4) as usize;
                let w: u32 = rom_words[index];
                let add: u32 = stencil[index].addend;
                let ghost before = symbols@;
                assert(relocs.take(k + 1).drop_last() == relocs.take(k as int));
                match reloc.kind {
                    RelocKind::J26 => {
                        if w & J_TYPE_MASK != J_OPCODE {
                            let found = symbol_of_target(
                                &reloc.target,
                                filename,
                                recover_jump(w, add),
                                true,
                            );
                            symbols.push(found);
                            match &pending {
                                Some((_, opened)) => {
                                    dropped.push(*opened);
                                },
                                None => {},
                            }
                            pending = None;
                            assert(views(symbols@) == views(before).push(found@));
                        }
                    },
                    RelocKind::Hi16 => {
                        match &pending {
                            Some((_, opened)) => {
                                dropped.push(*opened);
                            },
                            None => {},
                        }
                        pending = Some(
                            (
                                symbol_of_target(
                                    &reloc.target,
                                    filename,
                                    recover_high(w, add),
                                    false,
                                ),
                                k,
                            ),
                        );
                    },
                    RelocKind::Lo16 => {
                        let open = pending;
                        pending = None;
                        match open {
                            Some((half, _)) => {
                                let found = Symbol {
                                    name: half.name,
                                    address: recover_whole(half.address, w, reloc.addend, add),
                                    size: half.size,
                                    filename: half.filename,
                                    defined: half.defined,
                                    complete: true,
                                };
                                symbols.push(found);
                                assert(views(symbols@) == views(before).push(found@));
                            },
                            None => {
                                dropped.push(k);
                            },
                        }
                    },
                    RelocKind::Unsupported => {},
                }
                k = k + 1;
            }
            assert(relocs.take(total as int) == relocs);
        },
        None => {
            assert(views(symbols@) == Seq::<SymbolView>::empty());
        },
    }
    match pending {
        Some((_, opened)) => {
            dropped.push(opened);
        },
        None => {},
    }
    Recovered { symbols, dropped }
}

/// Recovers symbol addresses from a place where the object's code was found:
/// the symbols that `recover_symbols` gives.
pub fn parse_relocated(
    obj_file: &ObjectFile,
    filename: &str,
    stencil: &Vec<PreciseStencil>,
    rom_words: &[u32],
) -> (symbols: Vec<Symbol>)
    requires
        stencil@.len() == rom_words@.len(),
        forall|k: int|
            0 <= k < obj_file@.text_relocations().len() ==> (
            #[trigger] obj_file@.text_relocations()[k]).word_index() < rom_words@.len(),
    ensures
        views(symbols@) == recover(
            obj_file@.text_relocations(),
            stencil@,
            rom_words@,
            filename@,
        ).done,
{
    recover_symbols(obj_file, filename, stencil, rom_words).symbols
}

/// The immediate of the `lui` that loads the address `a`: its upper half,
/// one more where the lower half, read as a signed number, is negative.
pub open spec fn high_half(a: u32) -> u32 {
    (((a + 0x8000) / 0x1_0000) % 0x1_0000) as u32
}

/// The immediate of the instruction that completes the address `a`: its
/// lower half.
pub open spec fn low_half(a: u32) -> u32 {
    (a % 0x1_0000) as u32
}

/// Joining the two halves that an address was split into gives the address
/// back: for every address `a`, an instruction `upper` that carries its high
/// half and an instruction `lower` that carries its low half.
pub proof fn lemma_halves_rejoin(a: u32, upper: u32, lower: u32)
    requires
        upper & 0xFFFFu32 == high_half(a),
        lower & 0xFFFFu32 == low_half(a),
    ensures
        whole_address(high_address(upper, 0), lower, 0, 0) == a,
{
    let h = upper & 0xFFFFu32;
    let l = lower & 0xFFFFu32;
    assert(!0xFFFF_0000u32 == 0xFFFFu32) by (bit_vector);
    assert(0u32 << 16 == 0u32) by (bit_vector);
    assert(h <= 0xFFFFu32 ==> (h << 16) == h * 0x1_0000) by (bit_vector);
    assert(l <= 0xFFFFu32 ==> ((l & 0x8000) << 1) == (if l >= 0x8000u32 {
        0x1_0000u32
    } else {
        0u32
    })) by (bit_vector);
    assert(high_address(upper, 0) == h * 0x1_0000);
}

/// Recovery undoes the split of an address: from a `lui` that was linked
/// against the address `a` and the instruction after it that adds the low
/// half, with a `Hi16` and a `Lo16` relocation and no addends, exactly one
/// symbol is recovered, at `a`.
pub proof fn lemma_hi_lo_round_trip(
    a: u32,
    upper: u32,
    lower: u32,
    hi: RelocationView,
    lo: RelocationView,
    stencil: Seq<PreciseStencil>,
    filename: Seq<char>,
)
    requires
        upper & 0xFFFFu32 == high_half(a),
        lower & 0xFFFFu32 == low_half(a),
        hi.kind == RelocKind::Hi16,
        hi.offset == 0,
        lo.kind == RelocKind::Lo16,
        lo.offset == 4,
        lo.addend == 0,
        stencil.len() == 2,
        stencil[0].addend == 0,
        stencil[1].addend == 0,
    ensures
        recover(seq![hi, lo], stencil, seq![upper, lower], filename).done == seq![
            target_symbol(hi.target, filename, a, true),
        ],
        given_up(recover(seq![hi, lo], stencil, seq![upper, lower], filename)) == Seq::<
            usize,
        >::empty(),
{
    let relocs = seq![hi, lo];
    let words = seq![upper, lower];
    lemma_halves_rejoin(a, upper, lower);
    assert(relocs.drop_last() == seq![hi]);
    assert(seq![hi].drop_last() == Seq::<RelocationView>::empty());
    let first = recover(seq![hi], stencil, words, filename);
    assert(first == recover_step(
        recover(Seq::<RelocationView>::empty(), stencil, words, filename),
        hi,
        0,
        upper,
        0,
        filename,
    ));
    assert(first.done == Seq::<SymbolView>::empty());
    let second = recover(relocs, stencil, words, filename);
    assert(second == recover_step(first, lo, 1, lower, 0, filename));
    assert(second.done == seq![target_symbol(hi.target, filename, a, true)]);
}

/// Whether a symbol table entry is a function that the object defines.
pub open spec fn is_function_definition(sym: ObjectSymbolView) -> bool {
    sym.kind == SymbolKind::Text && sym.is_definition
}

/// The symbol that a symbol table entry gives where the object's code starts
/// at word `index` of an image whose first word has the address `base`.
pub open spec fn lifted_symbol(
    sym: ObjectSymbolView,
    filename: Seq<char>,
    base: u32,
    index: int,
) -> SymbolView {
    SymbolView {
        name: sym.name,
        address: wrap32(base + 4 * index + sym.address),
        size: sym.size,
        filename,
        defined: sym.is_definition,
        complete: true,
    }
}

/// The functions that a symbol table defines, each lifted to its address in
/// the image, in the table's order.
pub open spec fn function_symbols(
    table: Seq<ObjectSymbolView>,
    filename: Seq<char>,
    base: u32,
    index: int,
) -> Seq<SymbolView> {
    table.filter(|sym: ObjectSymbolView| is_function_definition(sym)).map_values(
        |sym: ObjectSymbolView| lifted_symbol(sym, filename, base, index),
    )
}

/// Reads the functions that the object defines out of its symbol table and
/// gives each the address it has where the object's code starts at word
/// `index` of an image whose first word has the address `base_address`.
pub fn parse_symtab_functions(
    obj_file: &ObjectFile,
    filename: &str,
    base_address: u32,
    index: usize,
) -> (symbols: Vec<Symbol>)
    ensures
        views(symbols@) == function_symbols(
            obj_file@.symbols,
            filename@,
            base_address,
            index as int,
        ),
{
    let mut symbols: Vec<Symbol> = Vec::new();
    let ghost table = obj_file@.symbols;
    let ghost wanted = |sym: ObjectSymbolView| is_function_definition(sym);
    let ghost lift = |sym: ObjectSymbolView|
        lifted_symbol(sym, filename@, base_address, index as int);
    let start: u64 = (index as u64 % 0x1_0000_0000) * 4 + base_address as u64;
    let mut k: usize = 0;
    assert(table.take(0).filter(wanted) == Seq::<ObjectSymbolView>::empty()) by {
        reveal(Seq::filter);
    }
    assert(views(symbols@) == table.take(0).filter(wanted).map_values(lift));
    while k < obj_file.symbols.len()
        invariant
            k <= table.len(),
            table == obj_file@.symbols,
            wanted == |sym: ObjectSymbolView| is_function_definition(sym),
            lift == |sym: ObjectSymbolView|
                lifted_symbol(sym, filename@, base_address, index as int),
            start == (index as int % 0x1_0000_0000) * 4 + base_address,
            views(symbols@) == table.take(k as int).filter(wanted).map_values(lift),
        decreases table.len() - k,
    {
        let sym = &obj_file.symbols[k];
        let ghost before = symbols@;
        proof {
            assert(table[k as int] == sym@);
            reveal(Seq::filter);
            assert(table.take(k + 1).drop_last() == table.take(k as int));
        }
        let is_text = match sym.kind {
            SymbolKind::Text => true,
            SymbolKind::Other => false,
        };
        if is_text && sym.is_definition {
            let found = Symbol {
                name: sym.name.clone(),
                address: reduce(start + sym.address as u64),
                size: sym.size,
                filename: String::from_str(filename),
                defined: sym.is_definition,
                complete: true,
            };
            symbols.push(found);
            assert(found@ == lift(table[k as int]));
            assert(views(symbols@) == views(before).push(found@));
            assert(table.take(k + 1).filter(wanted).map_values(lift) == table.take(
                k as int,
            ).filter(wanted).map_values(lift).push(lift(table[k as int])));
        }
        k = k + 1;
    }
    assert(table.take(k as int) == table);
    symbols
}

/// The order of the symbol list: by address, and among symbols at one
/// address the larger first.
pub open spec fn ordered(a: SymbolView, b: SymbolView) -> bool {
    a.address < b.address || (a.address == b.address && a.size >= b.size)
}

/// Every symbol of `s` stands before the symbols behind it.
pub open spec fn is_sorted(s: Seq<SymbolView>) -> bool {
    forall|i: int, j: int| 0 <= i < j < s.len() ==> ordered(s[i], s[j])
}

/// The rank of a symbol puts the lower address first and, at one address,
/// the larger size.
impl Ranked for SymbolView {
    open spec fn rank(&self) -> int {
        self.address * 0x1_0000_0000 + (0xFFFF_FFFF - self.size)
    }
}

/// The symbols of `s` in order. Symbols that the order does not tell apart
/// keep the order they have in `s`.
pub open spec fn sorted(s: Seq<SymbolView>) -> Seq<SymbolView> {
    ranked(s)
}

/// Two symbols count as one: they have the same address and, where names
/// count, the same name.
pub open spec fn same_key(a: SymbolView, b: SymbolView, by_name: bool) -> bool {
    a.address == b.address && (by_name ==> a.name == b.name)
}

/// `s` holds a symbol that counts as one with `x`.
pub open spec fn holds_key(s: Seq<SymbolView>, x: SymbolView, by_name: bool) -> bool {
    exists|i: int| 0 <= i < s.len() && same_key(#[trigger] s[i], x, by_name)
}

/// `s` without the symbols that count as one with a symbol before them.
pub open spec fn without_repeats(s: Seq<SymbolView>, by_name: bool) -> Seq<SymbolView>
    decreases s.len(),
{
    if s.len() == 0 {
        s
    } else {
        let earlier = without_repeats(s.drop_last(), by_name);
        if holds_key(earlier, s.last(), by_name) {
            earlier
        } else {
            earlier.push(s.last())
        }
    }
}

/// No two symbols of `s` count as one.
pub open spec fn no_repeats(s: Seq<SymbolView>, by_name: bool) -> bool {
    forall|i: int, j: int| 0 <= i < j < s.len() ==> !same_key(s[i], s[j], by_name)
}

/// The rank of a symbol is its place in the order.
pub proof fn lemma_rank_is_order(a: SymbolView, b: SymbolView)
    ensures
        ordered(a, b) <==> a.rank() <= b.rank(),
{
}

/// Sorting yields a sorted sequence of the same symbols.
pub proof fn lemma_sorted(s: Seq<SymbolView>)
    ensures
        is_sorted(sorted(s)),
        sorted(s).len() == s.len(),
        sorted(s).to_multiset() == s.to_multiset(),
{
    lemma_ranked(s);
    assert forall|i: int, j: int| 0 <= i < j < sorted(s).len() implies ordered(
        sorted(s)[i],
        sorted(s)[j],
    ) by {
        lemma_rank_is_order(sorted(s)[i], sorted(s)[j]);
    }
}

/// What `without_repeats` leaves: no two symbols that count as one, a symbol
/// for every symbol that was there, and nothing that was not there; the
/// symbols left stand in the order they stood in.
pub proof fn lemma_without_repeats(s: Seq<SymbolView>, by_name: bool)
    ensures
        no_repeats(without_repeats(s, by_name), by_name),
        forall|i: int|
            0 <= i < s.len() ==> holds_key(without_repeats(s, by_name), #[trigger] s[i], by_name),
        forall|i: int|
            0 <= i < without_repeats(s, by_name).len() ==> s.contains(
                #[trigger] without_repeats(s, by_name)[i],
            ),
        is_sorted(s) ==> is_sorted(without_repeats(s, by_name)),
    decreases s.len(),
{
    let r = without_repeats(s, by_name);
    if s.len() > 0 {
        let shorter = s.drop_last();
        let earlier = without_repeats(shorter, by_name);
        lemma_without_repeats(shorter, by_name);
        assert(forall|i: int| 0 <= i < shorter.len() ==> shorter[i] == s[i]);
        if is_sorted(s) {
            assert(is_sorted(shorter));
        }
        assert forall|i: int| 0 <= i < r.len() implies s.contains(#[trigger] r[i]) by {
            if i < earlier.len() {
                assert(r[i] == earlier[i]);
                let m = choose|m: int| 0 <= m < shorter.len() && shorter[m] == earlier[i];
                assert(s[m] == r[i]);
            } else {
                assert(r[i] == s[s.len() - 1]);
            }
        }
        assert forall|i: int| 0 <= i < s.len() implies holds_key(r, #[trigger] s[i], by_name) by {
            if i < s.len() - 1 {
                assert(holds_key(earlier, shorter[i], by_name));
                let m = choose|m: int|
                    0 <= m < earlier.len() && same_key(#[trigger] earlier[m], shorter[i], by_name);
                assert(same_key(r[m], s[i], by_name));
            } else if holds_key(earlier, s.last(), by_name) {
            } else {
                assert(same_key(r[r.len() - 1], s[i], by_name));
            }
        }
        if !holds_key(earlier, s.last(), by_name) {
            assert forall|i: int, j: int| 0 <= i < j < r.len() implies !same_key(
                r[i],
                r[j],
                by_name,
            ) by {
                if j == r.len() - 1 {
                    assert(r[i] == earlier[i]);
                } else {
                    assert(r[i] == earlier[i] && r[j] == earlier[j]);
                }
            }
            if is_sorted(s) {
                assert forall|i: int, j: int| 0 <= i < j < r.len() implies ordered(r[i], r[j]) by {
                    if j == r.len() - 1 {
                        assert(r[i] == earlier[i]);
                        let m = choose|m: int| 0 <= m < shorter.len() && shorter[m] == earlier[i];
                        assert(ordered(s[m], s[s.len() - 1]));
                    } else {
                        assert(r[i] == earlier[i] && r[j] == earlier[j]);
                    }
                }
            }
        }
    }
}

/// Whether `a` may stand before `b` in the symbol list.
fn stands_before(a: &Symbol, b: &Symbol) -> (r: bool)
    ensures
        r == ordered(a@, b@),
{
    a.address < b.address || (a.address == b.address && a.size >= b.size)
}

/// Whether `a` and `b` count as one symbol.
fn counts_as(a: &Symbol, b: &Symbol, by_name: bool) -> (r: bool)
    ensures
        r == same_key(a@, b@, by_name),
{
    a.address == b.address && (!by_name || a.name == b.name)
}

/// Sorts symbols by address; among symbols at one address the larger come
/// first. Symbols of one address and size keep their order.
pub fn sort_symbols(symbols: &Vec<Symbol>) -> (result: Vec<Symbol>)
    ensures
        views(result@) == sorted(views(symbols@)),
        is_sorted(views(result@)),
        views(result@).to_multiset() == views(symbols@).to_multiset(),
{
    let mut result: Vec<Symbol> = Vec::new();
    let ghost all = views(symbols@);
    let mut k: usize = 0;
    assert(views(result@) == sorted(all.take(0)));
    while k < symbols.len()
        invariant
            k <= symbols@.len(),
            all == views(symbols@),
            views(result@) == sorted(all.take(k as int)),
        decreases symbols@.len() - k,
    {
        let x = symbols[k].clone();
        let ghost before = result@;
        let mut pos: usize = result.len();
        while pos > 0 && !stands_before(&result[pos - 1], &x)
            invariant
                pos <= result@.len(),
                forall|i: int|
                    pos <= i < result@.len() ==> !ordered(#[trigger] views(result@)[i], x@),
            decreases pos,
        {
            pos = pos - 1;
        }
        proof {
            assert(pos > 0 ==> ordered(views(before)[pos - 1], x@));
            assert forall|i: int| pos <= i < views(before).len() implies (
            #[trigger] views(before)[i]).rank() > x@.rank() by {
                assert(!ordered(views(result@)[i], x@));
            }
            lemma_inserted_at(views(before), x@, pos as int);
            assert(all.take(k + 1).drop_last() == all.take(k as int));
            assert(all.take(k + 1).last() == x@);
        }
        result.insert(pos, x);
        assert(views(result@) =~= views(before).insert(pos as int, x@));
        k = k + 1;
    }
    proof {
        assert(all.take(k as int) == all);
        lemma_sorted(all);
    }
    result
}

/// Drops every symbol that counts as one with a symbol before it: one at the
/// same address and, if `by_name` is set, of the same name.
pub fn dedup_symbols(symbols: &Vec<Symbol>, by_name: bool) -> (result: Vec<Symbol>)
    ensures
        views(result@) == without_repeats(views(symbols@), by_name),
        no_repeats(views(result@), by_name),
        is_sorted(views(symbols@)) ==> is_sorted(views(result@)),
{
    let mut result: Vec<Symbol> = Vec::new();
    let ghost all = views(symbols@);
    let mut k: usize = 0;
    assert(views(result@) == without_repeats(all.take(0), by_name));
    while k < symbols.len()
        invariant
            k <= symbols@.len(),
            all == views(symbols@),
            views(result@) == without_repeats(all.take(k as int), by_name),
        decreases symbols@.len() - k,
    {
        let x = &symbols[k];
        let ghost before = result@;
        let mut held = false;
        let mut i: usize = 0;
        while i < result.len()
            invariant
                i <= result@.len(),
                held == holds_key(views(result@).take(i as int), x@, by_name),
            decreases result@.len() - i,
        {
            if counts_as(&result[i], x, by_name) {
                held = true;
            }
            proof {
                let shorter = views(result@).take(i as int);
                let longer = views(result@).take(i + 1);
                assert(longer[i as int] == result@[i as int]@);
                assert forall|n: int| 0 <= n < i implies longer[n] == #[trigger] shorter[n] by {}
                if holds_key(shorter, x@, by_name) {
                    let n = choose|n: int|
                        0 <= n < shorter.len() && same_key(#[trigger] shorter[n], x@, by_name);
                    assert(same_key(longer[n], x@, by_name));
                }
                if holds_key(longer, x@, by_name) {
                    let n = choose|n: int|
                        0 <= n < longer.len() && same_key(#[trigger] longer[n], x@, by_name);
                    if n < i {
                        assert(same_key(shorter[n], x@, by_name));
                    }
                }
            }
            i = i + 1;
        }
        proof {
            assert(views(result@).take(i as int) == views(result@));
            assert(all.take(k + 1).drop_last() == all.take(k as int));
            assert(all.take(k + 1).last() == x@);
        }
        if !held {
            let copy = x.clone();
            result.push(copy);
            assert(views(result@) =~= views(before).push(x@));
        }
        k = k + 1;
    }
    proof {
        assert(all.take(k as int) == all);
        lemma_without_repeats(all, by_name);
    }
    result
}

/// The symbols of one place where an object was found: those of its symbol
/// table followed by those recovered from its relocations, sorted, and of
/// the symbols at one address only the first, which is the largest.
pub open spec fn merged_symbols(table: Seq<SymbolView>, recovered: Seq<SymbolView>) -> Seq<
    SymbolView,
> {
    without_repeats(sorted(table + recovered), false)
}

/// The symbol list of a run: all symbols sorted, and of the symbols with one
/// name and address only the first, which is the largest.
pub open spec fn final_symbols(all: Seq<SymbolView>) -> Seq<SymbolView> {
    without_repeats(sorted(all), true)
}

/// The symbol list of a run is sorted by address, at one address by
/// descending size, and holds no name twice at one address; every symbol
/// that went in is still there under its name and address.
pub proof fn lemma_final_symbols(all: Seq<SymbolView>)
    ensures
        is_sorted(final_symbols(all)),
        no_repeats(final_symbols(all), true),
        forall|i: int|
            0 <= i < all.len() ==> holds_key(final_symbols(all), #[trigger] all[i], true),
        forall|i: int|
            0 <= i < final_symbols(all).len() ==> all.contains(#[trigger] final_symbols(all)[i]),
{
    broadcast use vstd::seq_lib::group_to_multiset_ensures;

    lemma_sorted(all);
    lemma_without_repeats(sorted(all), true);
    let s = sorted(all);
    let r = final_symbols(all);
    assert forall|i: int| 0 <= i < all.len() implies holds_key(r, #[trigger] all[i], true) by {
        assert(all.to_multiset().count(all[i]) > 0);
        assert(s.contains(all[i]));
        let m = choose|m: int| 0 <= m < s.len() && s[m] == all[i];
        assert(holds_key(r, s[m], true));
    }
    assert forall|i: int| 0 <= i < r.len() implies all.contains(#[trigger] r[i]) by {
        assert(s.contains(r[i]));
        assert(s.to_multiset().count(r[i]) > 0);
    }
}

/// Joins the symbols of an object's symbol table with those recovered from
/// its relocations, for one place where the object was found.
pub fn merge_symbols(table: Vec<Symbol>, recovered: Vec<Symbol>) -> (result: Vec<Symbol>)
    ensures
        views(result@) == merged_symbols(views(table@), views(recovered@)),
{
    let mut all = table;
    let mut rest = recovered;
    let ghost first = all@;
    let ghost second = rest@;
    all.append(&mut rest);
    assert(views(all@) =~= views(first) + views(second));
    let in_order = sort_symbols(&all);
    dedup_symbols(&in_order, false)
}

/// Puts the symbols of a run in their final order and drops repeats.
pub fn finish_symbols(all: &Vec<Symbol>) -> (result: Vec<Symbol>)
    ensures
        views(result@) == final_symbols(views(all@)),
        is_sorted(views(result@)),
        no_repeats(views(result@), true),
{
    let in_order = sort_symbols(all);
    dedup_symbols(&in_order, true)
}

} // verus!
