//! A relocatable object as the matcher reads it: the bytes of its `.text`
//! section, the relocations that apply to them, and its symbol table.

use vstd::prelude::*;

verus! {

/// What a relocation asks the linker to patch into an instruction.
#[derive(Clone, Copy, Debug, PartialEq, Eq, Structural)]
pub enum RelocKind {
    /// The 26-bit word target of a `j` or `jal`.
    J26,
    /// The high half of an address, loaded by `lui`.
    Hi16,
    /// The low half of an address, added by the instruction after the `lui`.
    Lo16,
    /// Any other relocation; objects that carry one are not matched.
    Unsupported,
}

/// What a relocation refers to.
#[derive(Clone, Debug, PartialEq, Eq)]
pub enum RelocTarget {
    /// An entry of the symbol table.
    Symbol { name: String, size: u32, defined: bool },
    /// A whole section.
    Section { name: String, size: u32 },
    /// Nothing that has a name.
    Unknown,
}

/// One relocation of the `.text` section.
#[derive(Clone, Debug, PartialEq, Eq)]
pub struct Relocation {
    /// Byte offset of the patched instruction within `.text`.
    pub offset: u64,
    pub kind: RelocKind,
    pub target: RelocTarget,
    /// The addend stored with the relocation, apart from the instruction.
    pub addend: i64,
}

/// The kinds of symbol the matcher tells apart.
#[derive(Clone, Copy, Debug, PartialEq, Eq, Structural)]
pub enum SymbolKind {
    /// A function.
    Text,
    /// Anything else.
    Other,
}

/// One entry of an object's symbol table.
#[derive(Clone, Debug, PartialEq, Eq)]
pub struct ObjectSymbol {
    pub name: String,
    pub kind: SymbolKind,
    /// Address relative to the start of the symbol's section.
    pub address: u32,
    pub size: u32,
    pub is_definition: bool,
}

/// The `.text` section of an object.
#[derive(Clone, Debug, PartialEq, Eq)]
pub struct TextSection {
    pub data: Vec<u8>,
    /// The relocations of the section, in the order the object lists them.
    pub relocations: Vec<Relocation>,
}

/// A relocatable object.
#[derive(Clone, Debug, PartialEq, Eq)]
pub struct ObjectFile {
    /// `None` where the object has no `.text` section.
    pub text: Option<TextSection>,
    pub symbols: Vec<ObjectSymbol>,
}

/// A `RelocTarget` as a mathematical value.
pub enum RelocTargetView {
    Symbol { name: Seq<char>, size: u32, defined: bool },
    Section { name: Seq<char>, size: u32 },
    Unknown,
}

/// A `Relocation` as a mathematical value.
pub struct RelocationView {
    pub offset: u64,
    pub kind: RelocKind,
    pub target: RelocTargetView,
    pub addend: i64,
}

/// An `ObjectSymbol` as a mathematical value.
pub struct ObjectSymbolView {
    pub name: Seq<char>,
    pub kind: SymbolKind,
    pub address: u32,
    pub size: u32,
    pub is_definition: bool,
}

/// A `TextSection` as a mathematical value.
pub struct TextSectionView {
    pub data: Seq<u8>,
    pub relocations: Seq<RelocationView>,
}

/// An `ObjectFile` as a mathematical value.
pub struct ObjectFileView {
    pub text: Option<TextSectionView>,
    pub symbols: Seq<ObjectSymbolView>,
}

impl View for RelocTarget {
    type V = RelocTargetView;

    open spec fn view(&self) -> RelocTargetView {
        match *self {
            RelocTarget::Symbol { name, size, defined } => RelocTargetView::Symbol {
                name: name@,
                size,
                defined,
            },
            RelocTarget::Section { name, size } => RelocTargetView::Section { name: name@, size },
            RelocTarget::Unknown => RelocTargetView::Unknown,
        }
    }
}

impl View for Relocation {
    type V = RelocationView;

    open spec fn view(&self) -> RelocationView {
        RelocationView {
            offset: self.offset,
            kind: self.kind,
            target: self.target@,
            addend: self.addend,
        }
    }
}

impl View for ObjectSymbol {
    type V = ObjectSymbolView;

    open spec fn view(&self) -> ObjectSymbolView {
        ObjectSymbolView {
            name: self.name@,
            kind: self.kind,
            address: self.address,
            size: self.size,
            is_definition: self.is_definition,
        }
    }
}

impl View for TextSection {
    type V = TextSectionView;

    open spec fn view(&self) -> TextSectionView {
        TextSectionView {
            data: self.data@,
            relocations: self.relocations@.map_values(|r: Relocation| r@),
        }
    }
}

impl View for ObjectFile {
    type V = ObjectFileView;

    open spec fn view(&self) -> ObjectFileView {
        ObjectFileView {
            text: match self.text {
                Some(section) => Some(section@),
                None => None,
            },
            symbols: self.symbols@.map_values(|s: ObjectSymbol| s@),
        }
    }
}

impl RelocationView {
    /// Index of the instruction word that the relocation patches.
    pub open spec fn word_index(self) -> int {
        self.offset as int / 4
    }
}

impl ObjectFileView {
    /// The relocations of `.text`; none where there is no such section.
    pub open spec fn text_relocations(self) -> Seq<RelocationView> {
        match self.text {
            Some(section) => section.relocations,
            None => Seq::empty(),
        }
    }

    /// The bytes of `.text`; none where there is no such section.
    pub open spec fn text_bytes(self) -> Seq<u8> {
        match self.text {
            Some(section) => section.data,
            None => Seq::empty(),
        }
    }
}

} // verus!
