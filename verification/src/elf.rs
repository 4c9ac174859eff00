//! Reading relocatable objects with the `object` crate.
//!
//! The crate parses the file; what it finds is taken over as plain values,
//! and the object is put together from those. Files of every format that the
//! crate reads are taken, though only ELF relocations of the three kinds that
//! the matcher knows are supported.

use object::{Object, ObjectSection, ObjectSymbol as _, ObjectSymbolTable};
use vstd::prelude::*;
use vstd::string::*;
use crate::objfile::{
    ObjectFile,
    ObjectFileView,
    ObjectSymbol,
    ObjectSymbolView,
    RelocKind,
    RelocTarget,
    RelocTargetView,
    Relocation,
    RelocationView,
    SymbolKind,
    TextSection,
    TextSectionView,
};

verus! {

/// The ELF relocation type of a 26-bit jump target.
pub const R_MIPS_26: u32 = 4;

/// The ELF relocation type of the high half of an address.
pub const R_MIPS_HI16: u32 = 5;

/// The ELF relocation type of the low half of an address.
pub const R_MIPS_LO16: u32 = 6;

/// What a relocation is against, as the file states it.
#[derive(Clone, Copy, Debug, PartialEq, Eq, Structural)]
pub enum RawTarget {
    /// The symbol with this index in the symbol table.
    Symbol(usize),
    /// The section with this index.
    Section(usize),
    /// Neither.
    Absolute,
}

/// A relocation as the file states it.
#[derive(Clone, Copy, Debug, PartialEq, Eq, Structural)]
pub struct RawRelocation {
    /// Byte offset of the patched place within its section.
    pub offset: u64,
    /// The ELF relocation type, where the relocation has no meaning that all
    /// architectures share.
    pub elf_type: Option<u32>,
    pub target: RawTarget,
    pub addend: i64,
}

/// A section as the file states it.
#[derive(Clone, Debug, PartialEq, Eq)]
pub struct RawSection {
    /// The section's index.
    pub index: usize,
    /// The section's name, where it can be read.
    pub name: Option<String>,
    pub size: u64,
}

/// A `RawSection` as a mathematical value.
pub struct RawSectionView {
    pub index: usize,
    pub name: Option<Seq<char>>,
    pub size: u64,
}

impl View for RawSection {
    type V = RawSectionView;

    open spec fn view(&self) -> RawSectionView {
        RawSectionView {
            index: self.index,
            name: match self.name {
                Some(name) => Some(name@),
                None => None,
            },
            size: self.size,
        }
    }
}

/// The sections of `list` as mathematical values.
pub open spec fn section_views(list: Seq<RawSection>) -> Seq<RawSectionView> {
    list.map_values(|s: RawSection| s@)
}

/// A symbol table entry as the file states it.
#[derive(Clone, Debug, PartialEq, Eq)]
pub struct RawSymbol {
    /// The entry's index in the symbol table.
    pub index: usize,
    /// The entry's name, where it can be read.
    pub name: Option<String>,
    pub kind: SymbolKind,
    pub address: u64,
    pub size: u64,
    pub is_definition: bool,
}

/// A `RawSymbol` as a mathematical value.
pub struct RawSymbolView {
    pub index: usize,
    pub name: Option<Seq<char>>,
    pub kind: SymbolKind,
    pub address: u64,
    pub size: u64,
    pub is_definition: bool,
}

impl View for RawSymbol {
    type V = RawSymbolView;

    open spec fn view(&self) -> RawSymbolView {
        RawSymbolView {
            index: self.index,
            name: match self.name {
                Some(name) => Some(name@),
                None => None,
            },
            kind: self.kind,
            address: self.address,
            size: self.size,
            is_definition: self.is_definition,
        }
    }
}

/// The entries of `table` as mathematical values.
pub open spec fn raw_views(table: Seq<RawSymbol>) -> Seq<RawSymbolView> {
    table.map_values(|s: RawSymbol| s@)
}

/// Why a file is not taken as an object.
#[derive(Clone, Copy, Debug, PartialEq, Eq, Structural)]
pub enum LoadError {
    /// The file is not an object file that can be read.
    Unreadable,
    /// The bytes of the `.text` section cannot be read.
    TextUnreadable,
    /// A relocation is against a symbol that the symbol table does not hold.
    UnknownSymbol,
    /// The name of a symbol that is needed cannot be read: of one that a
    /// relocation is against, or of a function that the object defines.
    UnnamedSymbol,
    /// A relocation is against a section that the file does not hold.
    UnknownSection,
    /// The name of a section that a relocation is against cannot be read.
    UnnamedSection,
}

/// Whether `object::File::parse` accepts the bytes `file`.
pub uninterp spec fn elf_readable(file: Seq<u8>) -> bool;

/// The bytes of the section `name` that the `object` crate finds in `file`:
/// `None` where there is no such section, `Some(None)` where its bytes cannot
/// be read.
pub uninterp spec fn elf_section(file: Seq<u8>, name: Seq<char>) -> Option<Option<Seq<u8>>>;

/// The relocations that the `object` crate lists for the section `name` of
/// `file`, in its order; none where there is no such section.
pub uninterp spec fn elf_relocations(file: Seq<u8>, name: Seq<char>) -> Seq<RawRelocation>;

/// The symbol table that the `object` crate finds in `file`, if it finds one.
pub uninterp spec fn elf_symbols(file: Seq<u8>) -> Option<Seq<RawSymbolView>>;

/// The sections that the `object` crate lists for `file`, in its order; none
/// where the file cannot be read.
pub uninterp spec fn elf_sections(file: Seq<u8>) -> Seq<RawSectionView>;

/// `object::File::parse`: whether the file parses as an object file, which
/// depends on its bytes alone.
#[verifier::external_body]
fn file_parses(file: &[u8]) -> (ok: bool)
    ensures
        ok == elf_readable(file@),
{
    object::File::parse(file).is_ok()
}

/// `object::Object::section_by_name`, and `object::ObjectSection::data` of
/// the section found: the bytes of the section, copied. What comes back
/// depends on the file and the name alone.
#[verifier::external_body]
fn read_section(file: &[u8], name: &str) -> (data: Option<Option<Vec<u8>>>)
    ensures
        match data {
            Some(Some(bytes)) => elf_section(file@, name@) == Some(Some(bytes@)),
            Some(None) => elf_section(file@, name@) == Some(None::<Seq<u8>>),
            None => elf_section(file@, name@) is None,
        },
{
    let obj = object::File::parse(file).ok()?;
    let section = obj.section_by_name(name)?;
    Some(section.data().ok().map(|bytes| bytes.to_vec()))
}

/// `object::ObjectSection::relocations` of the section that
/// `object::Object::section_by_name` finds: each relocation with its offset,
/// and of what `object::Relocation` tells with `kind`, `target` and `addend`
/// the ELF type, the index of the symbol or section that the relocation is
/// against, and the addend. What comes back depends on the file and the name
/// alone.
#[verifier::external_body]
fn read_relocations(file: &[u8], name: &str) -> (relocations: Vec<RawRelocation>)
    ensures
        relocations@ == elf_relocations(file@, name@),
{
    let Ok(obj) = object::File::parse(file) else { return Vec::new() };
    let Some(section) = obj.section_by_name(name) else { return Vec::new() };
    section.relocations().map(|(offset, r)| RawRelocation {
        offset,
        elf_type: match r.kind() { object::RelocationKind::Elf(t) => Some(t), _ => None },
        target: match r.target() {
            object::RelocationTarget::Symbol(i) => RawTarget::Symbol(i.0),
            object::RelocationTarget::Section(i) => RawTarget::Section(i.0),
            _ => RawTarget::Absolute,
        },
        addend: r.addend(),
    }).collect()
}

/// `object::Object::sections`: each section with what `object::ObjectSection`
/// tells of it with `index`, `name` and `size`. What comes back depends on
/// the file alone.
#[verifier::external_body]
fn read_sections(file: &[u8]) -> (sections: Vec<RawSection>)
    ensures
        section_views(sections@) == elf_sections(file@),
{
    let Ok(obj) = object::File::parse(file) else { return Vec::new() };
    obj.sections().map(|s| RawSection {
        index: s.index().0,
        name: s.name().ok().map(|n| n.to_string()),
        size: s.size(),
    }).collect()
}

/// `object::Object::symbol_table` and `object::ObjectSymbolTable::symbols`:
/// each entry with what `object::ObjectSymbol` tells of it with `index`,
/// `name`, `kind`, `address`, `size` and `is_definition`. What comes back
/// depends on the file alone.
#[verifier::external_body]
fn read_symbols(file: &[u8]) -> (table: Option<Vec<RawSymbol>>)
    ensures
        match table {
            Some(entries) => elf_symbols(file@) == Some(raw_views(entries@)),
            None => elf_symbols(file@) is None,
        },
{
    let obj = object::File::parse(file).ok()?;
    let table = obj.symbol_table()?;
    Some(table.symbols().map(|s| RawSymbol {
        index: s.index().0,
        name: s.name().ok().map(|n| n.to_string()),
        kind: match s.kind() {
            object::SymbolKind::Text => SymbolKind::Text,
            _ => SymbolKind::Other,
        },
        address: s.address(),
        size: s.size(),
        is_definition: s.is_definition(),
    }).collect())
}

/// The kind of a relocation with the ELF type given.
pub open spec fn kind_of(elf_type: Option<u32>) -> RelocKind {
    match elf_type {
        Some(t) => if t == R_MIPS_26 {
            RelocKind::J26
        } else if t == R_MIPS_HI16 {
            RelocKind::Hi16
        } else if t == R_MIPS_LO16 {
            RelocKind::Lo16
        } else {
            RelocKind::Unsupported
        },
        None => RelocKind::Unsupported,
    }
}

/// The first entry of `table`, from the `from`-th on, with the index `index`.
pub open spec fn entry_from(table: Seq<RawSymbolView>, index: usize, from: int) -> Option<
    RawSymbolView,
>
    decreases table.len() - from,
{
    if from < 0 || from >= table.len() {
        None
    } else if table[from].index == index {
        Some(table[from])
    } else {
        entry_from(table, index, from + 1)
    }
}

/// The first section of `list`, from the `from`-th on, with the index
/// `index`.
pub open spec fn section_from(list: Seq<RawSectionView>, index: usize, from: int) -> Option<
    RawSectionView,
>
    decreases list.len() - from,
{
    if from < 0 || from >= list.len() {
        None
    } else if list[from].index == index {
        Some(list[from])
    } else {
        section_from(list, index, from + 1)
    }
}

/// What a relocation refers to: the symbol of the index given, with its name,
/// size and whether it is defined; the section of the index given, with its
/// name and size; or nothing known where the relocation is against neither.
pub open spec fn target_of(
    target: RawTarget,
    table: Seq<RawSymbolView>,
    sections: Seq<RawSectionView>,
) -> Result<RelocTargetView, LoadError> {
    match target {
        RawTarget::Absolute => Ok(RelocTargetView::Unknown),
        RawTarget::Symbol(index) => match entry_from(table, index, 0) {
            None => Err(LoadError::UnknownSymbol),
            Some(entry) => match entry.name {
                None => Err(LoadError::UnnamedSymbol),
                Some(name) => Ok(
                    RelocTargetView::Symbol {
                        name,
                        size: entry.size as u32,
                        defined: entry.is_definition,
                    },
                ),
            },
        },
        RawTarget::Section(index) => match section_from(sections, index, 0) {
            None => Err(LoadError::UnknownSection),
            Some(section) => match section.name {
                None => Err(LoadError::UnnamedSection),
                Some(name) => Ok(RelocTargetView::Section { name, size: section.size as u32 }),
            },
        },
    }
}

/// The relocations `raw` with their kinds and their targets looked up, or
/// what is wrong with the first of them that has something wrong.
pub open spec fn relocations_of(
    raw: Seq<RawRelocation>,
    table: Seq<RawSymbolView>,
    sections: Seq<RawSectionView>,
) -> Result<Seq<RelocationView>, LoadError>
    decreases raw.len(),
{
    if raw.len() == 0 {
        Ok(Seq::empty())
    } else {
        match relocations_of(raw.drop_last(), table, sections) {
            Err(e) => Err(e),
            Ok(earlier) => match target_of(raw.last().target, table, sections) {
                Err(e) => Err(e),
                Ok(target) => Ok(
                    earlier.push(
                        RelocationView {
                            offset: raw.last().offset,
                            kind: kind_of(raw.last().elf_type),
                            target,
                            addend: raw.last().addend,
                        },
                    ),
                ),
            },
        }
    }
}

/// The entries of a symbol table with their addresses and sizes cut to 32
/// bits. An entry whose name cannot be read is left out, unless it is a
/// function that the object defines: the name of such a one is needed, and
/// there are no symbols then.
pub open spec fn symbols_of(table: Seq<RawSymbolView>) -> Result<Seq<ObjectSymbolView>, LoadError>
    decreases table.len(),
{
    if table.len() == 0 {
        Ok(Seq::empty())
    } else {
        match symbols_of(table.drop_last()) {
            Err(e) => Err(e),
            Ok(earlier) => match table.last().name {
                None => if table.last().kind == SymbolKind::Text && table.last().is_definition {
                    Err(LoadError::UnnamedSymbol)
                } else {
                    Ok(earlier)
                },
                Some(name) => Ok(
                    earlier.push(
                        ObjectSymbolView {
                            name,
                            kind: table.last().kind,
                            address: table.last().address as u32,
                            size: table.last().size as u32,
                            is_definition: table.last().is_definition,
                        },
                    ),
                ),
            },
        }
    }
}

/// The symbol table to work with: the one found, or an empty one.
pub open spec fn table_or_empty(table: Option<Seq<RawSymbolView>>) -> Seq<RawSymbolView> {
    match table {
        Some(entries) => entries,
        None => Seq::empty(),
    }
}

/// The object that the parts read from a file make up, or why they make up
/// none: the file cannot be read, the bytes of its `.text` section cannot be
/// read, or something is wrong with a relocation or with a symbol.
pub open spec fn assembled(
    readable: bool,
    text: Option<Option<Seq<u8>>>,
    relocations: Seq<RawRelocation>,
    table: Option<Seq<RawSymbolView>>,
    sections: Seq<RawSectionView>,
) -> Result<ObjectFileView, LoadError> {
    if !readable {
        Err(LoadError::Unreadable)
    } else {
        match text {
            Some(None) => Err(LoadError::TextUnreadable),
            Some(Some(data)) => match relocations_of(
                relocations,
                table_or_empty(table),
                sections,
            ) {
                Err(e) => Err(e),
                Ok(relocs) => match symbols_of(table_or_empty(table)) {
                    Err(e) => Err(e),
                    Ok(symbols) => Ok(
                        ObjectFileView {
                            text: Some(TextSectionView { data, relocations: relocs }),
                            symbols,
                        },
                    ),
                },
            },
            None => match symbols_of(table_or_empty(table)) {
                Err(e) => Err(e),
                Ok(symbols) => Ok(ObjectFileView { text: None, symbols }),
            },
        }
    }
}

/// The parts of a `.text` section as mathematical values.
pub open spec fn text_view(text: Option<Option<Vec<u8>>>) -> Option<Option<Seq<u8>>> {
    match text {
        Some(Some(bytes)) => Some(Some(bytes@)),
        Some(None) => Some(None),
        None => None,
    }
}

/// A symbol table as a mathematical value.
pub open spec fn table_view(table: Option<Vec<RawSymbol>>) -> Option<Seq<RawSymbolView>> {
    match table {
        Some(entries) => Some(raw_views(entries@)),
        None => None,
    }
}

/// Tells the kind of a relocation from its ELF type.
fn relocation_kind(elf_type: Option<u32>) -> (kind: RelocKind)
    ensures
        kind == kind_of(elf_type),
{
    match elf_type {
        Some(t) => if t == R_MIPS_26 {
            RelocKind::J26
        } else if t == R_MIPS_HI16 {
            RelocKind::Hi16
        } else if t == R_MIPS_LO16 {
            RelocKind::Lo16
        } else {
            RelocKind::Unsupported
        },
        None => RelocKind::Unsupported,
    }
}

/// Looks up the symbol that a relocation is against.
#[verifier::loop_isolation(false)]
fn resolve_symbol(index: usize, table: &Vec<RawSymbol>) -> (target: Result<RelocTarget, LoadError>)
    ensures
        match target_of(RawTarget::Symbol(index), raw_views(table@), Seq::empty()) {
            Ok(t) => target is Ok && target->Ok_0@ == t,
            Err(e) => target is Err && target->Err_0 == e,
        },
{
    let ghost all = raw_views(table@);
    let mut i: usize = 0;
    while i < table.len()
        invariant
            i <= table@.len(),
            all == raw_views(table@),
            entry_from(all, index, 0) == entry_from(all, index, i as int),
        decreases table@.len() - i,
    {
        let entry = &table[i];
        assert(all[i as int] == entry@);
        if entry.index == index {
            return match &entry.name {
                None => Err(LoadError::UnnamedSymbol),
                Some(name) => Ok(
                    RelocTarget::Symbol {
                        name: name.clone(),
                        size: #[verifier::truncate] (entry.size as u32),
                        defined: entry.is_definition,
                    },
                ),
            };
        }
        i = i + 1;
    }
    Err(LoadError::UnknownSymbol)
}

/// Looks up the section that a relocation is against.
#[verifier::loop_isolation(false)]
fn resolve_section(index: usize, sections: &Vec<RawSection>) -> (target: Result<
    RelocTarget,
    LoadError,
>)
    ensures
        match target_of(RawTarget::Section(index), Seq::empty(), section_views(sections@)) {
            Ok(t) => target is Ok && target->Ok_0@ == t,
            Err(e) => target is Err && target->Err_0 == e,
        },
{
    let ghost all = section_views(sections@);
    let mut i: usize = 0;
    while i < sections.len()
        invariant
            i <= sections@.len(),
            all == section_views(sections@),
            section_from(all, index, 0) == section_from(all, index, i as int),
        decreases sections@.len() - i,
    {
        let section = &sections[i];
        assert(all[i as int] == section@);
        if section.index == index {
            return match &section.name {
                None => Err(LoadError::UnnamedSection),
                Some(name) => Ok(
                    RelocTarget::Section {
                        name: name.clone(),
                        size: #[verifier::truncate] (section.size as u32),
                    },
                ),
            };
        }
        i = i + 1;
    }
    Err(LoadError::UnknownSection)
}

/// Looks up what a relocation refers to.
fn resolve_target(target: RawTarget, table: &Vec<RawSymbol>, sections: &Vec<RawSection>) -> (r:
    Result<RelocTarget, LoadError>)
    ensures
        match target_of(target, raw_views(table@), section_views(sections@)) {
            Ok(t) => r is Ok && r->Ok_0@ == t,
            Err(e) => r is Err && r->Err_0 == e,
        },
{
    match target {
        RawTarget::Symbol(index) => resolve_symbol(index, table),
        RawTarget::Section(index) => resolve_section(index, sections),
        RawTarget::Absolute => Ok(RelocTarget::Unknown),
    }
}

/// Puts an object together from the parts read from a file.
///
/// `readable` tells whether the file could be read as an object file at
/// all, `text` holds its `.text` section, `relocations` the relocations of
/// that section, `table` its symbol table and `sections` its sections.
/// Relocations of the ELF types 4, 5 and 6 are jumps, high halves and low
/// halves; all others are unsupported. A relocation against a symbol or a
/// section refers to the entry of that index. Addresses and sizes are cut to
/// 32 bits.
#[verifier::loop_isolation(false)]
pub fn assemble_object(
    readable: bool,
    text: Option<Option<Vec<u8>>>,
    relocations: &Vec<RawRelocation>,
    table: Option<Vec<RawSymbol>>,
    sections: &Vec<RawSection>,
) -> (object: Result<ObjectFile, LoadError>)
    ensures
        match assembled(
            readable,
            text_view(text),
            relocations@,
            table_view(table),
            section_views(sections@),
        ) {
            Ok(v) => object is Ok && object->Ok_0@ == v,
            Err(e) => object is Err && object->Err_0 == e,
        },
{
    if !readable {
        return Err(LoadError::Unreadable);
    }
    let entries: Vec<RawSymbol> = match table {
        Some(entries) => entries,
        None => Vec::new(),
    };
    let ghost all = raw_views(entries@);
    let ghost listed = section_views(sections@);
    assert(all =~= table_or_empty(table_view(table)));
    let section = match text {
        Some(None) => {
            return Err(LoadError::TextUnreadable);
        },
        Some(Some(data)) => {
            let mut relocs: Vec<Relocation> = Vec::new();
            let mut k: usize = 0;
            assert(relocations@.take(0) == Seq::<RawRelocation>::empty());
            assert(relocs@.map_values(|r: Relocation| r@) =~= Seq::<RelocationView>::empty());
            while k < relocations.len()
                invariant
                    k <= relocations@.len(),
                    all == raw_views(entries@),
                    relocations_of(relocations@.take(k as int), all, listed) == Ok::<
                        Seq<RelocationView>,
                        LoadError,
                    >(relocs@.map_values(|r: Relocation| r@)),
                decreases relocations@.len() - k,
            {
                let raw = &relocations[k];
                let ghost before = relocs@;
                proof {
                    assert(relocations@.take(k + 1).drop_last() == relocations@.take(k as int));
                    assert(relocations@.take(k + 1).last() == *raw);
                }
                let target = match resolve_target(raw.target, &entries, sections) {
                    Ok(target) => target,
                    Err(e) => {
                        proof {
                            lemma_relocations_fail(relocations@, all, listed, k + 1);
                        }
                        return Err(e);
                    },
                };
                let reloc = Relocation {
                    offset: raw.offset,
                    kind: relocation_kind(raw.elf_type),
                    target,
                    addend: raw.addend,
                };
                relocs.push(reloc);
                assert(relocs@.map_values(|r: Relocation| r@) =~= before.map_values(
                    |r: Relocation| r@,
                ).push(reloc@));
                k = k + 1;
            }
            assert(relocations@.take(k as int) == relocations@);
            Some(TextSection { data, relocations: relocs })
        },
        None => None,
    };
    let mut symbols: Vec<ObjectSymbol> = Vec::new();
    let mut i: usize = 0;
    assert(all.take(0) == Seq::<RawSymbolView>::empty());
    assert(symbols@.map_values(|s: ObjectSymbol| s@) =~= Seq::<ObjectSymbolView>::empty());
    while i < entries.len()
        invariant
            i <= entries@.len(),
            all == raw_views(entries@),
            symbols_of(all.take(i as int)) == Ok::<Seq<ObjectSymbolView>, LoadError>(
                symbols@.map_values(|s: ObjectSymbol| s@),
            ),
        decreases entries@.len() - i,
    {
        let entry = &entries[i];
        let ghost before = symbols@;
        proof {
            assert(all.take(i + 1).drop_last() == all.take(i as int));
            assert(all.take(i + 1).last() == entry@);
        }
        match &entry.name {
            Some(name) => {
                let symbol = ObjectSymbol {
                    name: name.clone(),
                    kind: entry.kind,
                    address: #[verifier::truncate] (entry.address as u32),
                    size: #[verifier::truncate] (entry.size as u32),
                    is_definition: entry.is_definition,
                };
                symbols.push(symbol);
                assert(symbols@.map_values(|s: ObjectSymbol| s@) =~= before.map_values(
                    |s: ObjectSymbol| s@,
                ).push(symbol@));
            },
            None => {
                let is_function = match entry.kind {
                    SymbolKind::Text => true,
                    SymbolKind::Other => false,
                };
                if is_function && entry.is_definition {
                    proof {
                        lemma_symbols_fail(all, i + 1);
                    }
                    return Err(LoadError::UnnamedSymbol);
                }
            },
        }
        i = i + 1;
    }
    assert(all.take(i as int) == all);
    Ok(ObjectFile { text: section, symbols })
}

/// What is wrong with the first relocations stays wrong with all of them.
proof fn lemma_relocations_fail(
    raw: Seq<RawRelocation>,
    table: Seq<RawSymbolView>,
    sections: Seq<RawSectionView>,
    n: int,
)
    requires
        0 <= n <= raw.len(),
        relocations_of(raw.take(n), table, sections) is Err,
    ensures
        relocations_of(raw, table, sections) == relocations_of(raw.take(n), table, sections),
    decreases raw.len() - n,
{
    if n < raw.len() {
        assert(raw.take(n + 1).drop_last() == raw.take(n));
        lemma_relocations_fail(raw, table, sections, n + 1);
    } else {
        assert(raw.take(n) == raw);
    }
}

/// What is wrong with the first symbols stays wrong with all of them.
proof fn lemma_symbols_fail(table: Seq<RawSymbolView>, n: int)
    requires
        0 <= n <= table.len(),
        symbols_of(table.take(n)) is Err,
    ensures
        symbols_of(table) == symbols_of(table.take(n)),
    decreases table.len() - n,
{
    if n < table.len() {
        assert(table.take(n + 1).drop_last() == table.take(n));
        lemma_symbols_fail(table, n + 1);
    } else {
        assert(table.take(n) == table);
    }
}

/// Reads an object out of the bytes of its file: its `.text` section with
/// the relocations of that section, each with the symbol or section it is
/// against, and its symbol table.
pub fn load_object(file: &[u8]) -> (object: Result<ObjectFile, LoadError>)
    ensures
        match assembled(
            elf_readable(file@),
            elf_section(file@, ".text"@),
            elf_relocations(file@, ".text"@),
            elf_symbols(file@),
            elf_sections(file@),
        ) {
            Ok(v) => object is Ok && object->Ok_0@ == v,
            Err(e) => object is Err && object->Err_0 == e,
        },
{
    let readable = file_parses(file);
    let text = read_section(file, ".text");
    let relocations = read_relocations(file, ".text");
    let table = read_symbols(file);
    let sections = read_sections(file);
    assemble_object(readable, text, &relocations, table, &sections)
}

} // verus!
