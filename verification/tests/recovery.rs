use stencil_matcher::config::{Config, Endian};
use stencil_matcher::objfile::{
    ObjectFile, ObjectSymbol, RelocKind, RelocTarget, Relocation, SymbolKind, TextSection,
};
use stencil_matcher::stencil::{make_precise_stencil, PreciseStencil};
use stencil_matcher::symbols::{
    dedup_symbols, finish_symbols, merge_symbols, parse_relocated, parse_symtab_functions,
    recover_symbols, sort_symbols, Symbol,
};

fn big() -> Config {
    Config {
        rompath: String::new(),
        objects_dir: String::new(),
        endian: Endian::Big,
        binary: true,
        vram: None,
        rom_start: None,
        libultra: false,
        splat_output: false,
        verbosity: false,
        disambiguate: false,
    }
}

fn bytes_of(words: &[u32]) -> Vec<u8> {
    let mut bytes = Vec::new();
    for w in words {
        bytes.extend_from_slice(&w.to_be_bytes());
    }
    bytes
}

fn named(name: &str) -> RelocTarget {
    RelocTarget::Symbol { name: name.to_string(), size: 0x20, defined: true }
}

fn rel(offset: u64, kind: RelocKind, target: RelocTarget, addend: i64) -> Relocation {
    Relocation { offset, kind, target, addend }
}

fn with_relocations(words: &[u32], relocations: Vec<Relocation>) -> ObjectFile {
    ObjectFile {
        text: Some(TextSection { data: bytes_of(words), relocations }),
        symbols: Vec::new(),
    }
}

fn stencil_of(obj: &ObjectFile) -> Vec<PreciseStencil> {
    let data = obj.text.as_ref().unwrap().data.clone();
    make_precise_stencil(&big(), obj, &data).unwrap()
}

fn sym(name: &str, address: u32, size: u32) -> Symbol {
    Symbol {
        name: name.to_string(),
        address,
        size,
        filename: "o".to_string(),
        defined: true,
        complete: true,
    }
}

fn keys(symbols: &[Symbol]) -> Vec<(&str, u32, u32)> {
    symbols.iter().map(|s| (s.name.as_str(), s.address, s.size)).collect()
}

#[test]
fn scenario_jal_gives_a_symbol() {
    let obj = with_relocations(&[0x0C00_0000], vec![rel(0, RelocKind::J26, named("bar"), 0)]);
    let symbols = parse_relocated(&obj, "ex", &stencil_of(&obj), &[0x0C00_0800]);
    assert_eq!(
        symbols,
        vec![Symbol {
            name: "bar".to_string(),
            address: 0x8000_2000,
            size: 0x20,
            filename: "ex".to_string(),
            defined: true,
            complete: true,
        }]
    );
}

#[test]
fn scenario_j_gives_no_symbol() {
    let obj = with_relocations(&[0x0800_0000], vec![rel(0, RelocKind::J26, named("loop"), 0)]);
    let symbols = parse_relocated(&obj, "ex", &stencil_of(&obj), &[0x0800_0800]);
    assert!(symbols.is_empty());
}

#[test]
fn jump_addend_comes_off() {
    let obj = with_relocations(&[0x0C00_0010], vec![rel(0, RelocKind::J26, named("bar"), 0)]);
    let stencil = stencil_of(&obj);
    assert_eq!(stencil[0].addend, 0x10);
    let symbols = parse_relocated(&obj, "ex", &stencil, &[0x0C00_0800]);
    assert_eq!(symbols[0].address, 0x8000_1FF0);
}

#[test]
fn jump_reaches_the_top_of_the_segment() {
    let obj = with_relocations(&[0x0C00_0000], vec![rel(0, RelocKind::J26, named("bar"), 0)]);
    let symbols = parse_relocated(&obj, "ex", &stencil_of(&obj), &[0x0FFF_FFFF]);
    assert_eq!(symbols[0].address, 0x8FFF_FFFC);
}

#[test]
fn halves_with_addends() {
    let obj = with_relocations(
        &[0x3C01_0001, 0x2421_0010],
        vec![rel(0, RelocKind::Hi16, named("v"), 0), rel(4, RelocKind::Lo16, named("v"), 4)],
    );
    let symbols = parse_relocated(&obj, "ex", &stencil_of(&obj), &[0x3C01_8001, 0x2421_9234]);
    assert_eq!(symbols.len(), 1);
    assert_eq!(symbols[0].address, 0x7FFF_9220);
    assert_eq!(symbols[0].name, "v");
    assert!(symbols[0].complete);
}

#[test]
fn negative_relocation_addend_is_added() {
    let obj = with_relocations(
        &[0x3C01_0000, 0x2421_0000],
        vec![rel(0, RelocKind::Hi16, named("v"), 0), rel(4, RelocKind::Lo16, named("v"), -8)],
    );
    let symbols = parse_relocated(&obj, "ex", &stencil_of(&obj), &[0x3C01_8000, 0x2421_0100]);
    assert_eq!(symbols[0].address, 0x8000_0108);
}

#[test]
fn halves_rejoin_to_the_address_they_were_split_from() {
    let obj = with_relocations(
        &[0x3C01_0000, 0x2421_0000],
        vec![rel(0, RelocKind::Hi16, named("v"), 0), rel(4, RelocKind::Lo16, named("v"), 0)],
    );
    let stencil = stencil_of(&obj);
    let addresses = [
        0u32,
        1,
        0x7FFF,
        0x8000,
        0xFFFF,
        0x1_0000,
        0x8000_0000,
        0x8000_1234,
        0x8000_8000,
        0x8012_FFFF,
        0xFFFF_7FFF,
        0xFFFF_8000,
        0xFFFF_FFFF,
    ];
    for a in addresses {
        let hi = (a.wrapping_add(0x8000) >> 16) & 0xFFFF;
        let lo = a & 0xFFFF;
        let blob = [0x3C01_0000 | hi, 0x2421_0000 | lo];
        let symbols = parse_relocated(&obj, "ex", &stencil, &blob);
        assert_eq!(symbols.len(), 1);
        assert_eq!(symbols[0].address, a);
    }
}

#[test]
fn low_half_without_high_half_is_dropped() {
    let obj = with_relocations(&[0x2421_0000], vec![rel(0, RelocKind::Lo16, named("v"), 0)]);
    assert!(parse_relocated(&obj, "ex", &stencil_of(&obj), &[0x2421_1234]).is_empty());
}

#[test]
fn only_the_first_low_half_binds() {
    let obj = with_relocations(
        &[0x3C01_0000, 0x2421_0000, 0x8C22_0000],
        vec![
            rel(0, RelocKind::Hi16, named("v"), 0),
            rel(4, RelocKind::Lo16, named("v"), 0),
            rel(8, RelocKind::Lo16, named("v"), 0),
        ],
    );
    let symbols =
        parse_relocated(&obj, "ex", &stencil_of(&obj), &[0x3C01_8000, 0x2421_0010, 0x8C22_0020]);
    assert_eq!(symbols.len(), 1);
    assert_eq!(symbols[0].address, 0x8000_0010);
}

#[test]
fn high_half_left_open_is_dropped() {
    let obj = with_relocations(
        &[0x3C01_0000, 0x3C02_0000, 0x2442_0000, 0x3C03_0000],
        vec![
            rel(0, RelocKind::Hi16, named("a"), 0),
            rel(4, RelocKind::Hi16, named("b"), 0),
            rel(8, RelocKind::Lo16, named("b"), 0),
            rel(12, RelocKind::Hi16, named("c"), 0),
        ],
    );
    let symbols = parse_relocated(
        &obj,
        "ex",
        &stencil_of(&obj),
        &[0x3C01_8000, 0x3C02_8001, 0x2442_0004, 0x3C03_8002],
    );
    assert_eq!(symbols.len(), 1);
    assert_eq!(symbols[0].name, "b");
    assert_eq!(symbols[0].address, 0x8001_0004);
}

#[test]
fn jal_closes_an_open_high_half_and_j_does_not() {
    let relocations = vec![
        rel(0, RelocKind::Hi16, named("v"), 0),
        rel(4, RelocKind::J26, named("f"), 0),
        rel(8, RelocKind::Lo16, named("v"), 0),
    ];
    let obj = with_relocations(&[0x3C01_0000, 0x0C00_0000, 0x2421_0000], relocations.clone());
    let symbols =
        parse_relocated(&obj, "ex", &stencil_of(&obj), &[0x3C01_8000, 0x0C00_0800, 0x2421_0004]);
    assert_eq!(symbols.len(), 1);
    assert_eq!(symbols[0].name, "f");
    let obj = with_relocations(&[0x3C01_0000, 0x0800_0000, 0x2421_0000], relocations);
    let symbols =
        parse_relocated(&obj, "ex", &stencil_of(&obj), &[0x3C01_8000, 0x0800_0800, 0x2421_0004]);
    assert_eq!(symbols.len(), 1);
    assert_eq!(symbols[0].name, "v");
    assert_eq!(symbols[0].address, 0x8000_0004);
}

#[test]
fn targets_give_name_size_and_definition() {
    let obj = with_relocations(
        &[0x0C00_0000, 0x0C00_0000, 0x0C00_0000],
        vec![
            rel(
                0,
                RelocKind::J26,
                RelocTarget::Symbol { name: "f".to_string(), size: 12, defined: false },
                0,
            ),
            rel(4, RelocKind::J26, RelocTarget::Section { name: ".text".to_string(), size: 64 }, 0),
            rel(8, RelocKind::J26, RelocTarget::Unknown, 0),
        ],
    );
    let symbols =
        parse_relocated(&obj, "ex", &stencil_of(&obj), &[0x0C00_0001, 0x0C00_0002, 0x0C00_0003]);
    let seen: Vec<(&str, u32, u32, bool)> =
        symbols.iter().map(|s| (s.name.as_str(), s.address, s.size, s.defined)).collect();
    assert_eq!(
        seen,
        vec![
            ("f", 0x8000_0004, 12, false),
            (".text", 0x8000_0008, 64, true),
            ("Unknown", 0x8000_000C, 0, false)
        ]
    );
}

#[test]
fn unsupported_relocations_give_no_symbol() {
    let obj = with_relocations(
        &[0x0C00_0000, 0x0C00_0000],
        vec![
            rel(0, RelocKind::Unsupported, named("g"), 0),
            rel(4, RelocKind::J26, named("f"), 0),
        ],
    );
    let stencil = vec![
        PreciseStencil { word: 0x0C00_0000, addend: 0, mask: 0xFFFF_FFFF },
        PreciseStencil { word: 0x0C00_0000, addend: 0, mask: 0xFC00_0000 },
    ];
    let symbols = parse_relocated(&obj, "ex", &stencil, &[0x0C00_0000, 0x0C00_0040]);
    assert_eq!(symbols.len(), 1);
    assert_eq!(symbols[0].name, "f");
    assert_eq!(symbols[0].address, 0x8000_0100);
}

#[test]
fn object_without_text_has_nothing_to_recover() {
    let obj = ObjectFile { text: None, symbols: Vec::new() };
    assert!(parse_relocated(&obj, "ex", &Vec::new(), &[]).is_empty());
}

#[test]
fn symbol_table_functions_are_lifted() {
    let obj = ObjectFile {
        text: None,
        symbols: vec![
            ObjectSymbol {
                name: "first".to_string(),
                kind: SymbolKind::Text,
                address: 0,
                size: 0x10,
                is_definition: true,
            },
            ObjectSymbol {
                name: "data".to_string(),
                kind: SymbolKind::Other,
                address: 4,
                size: 4,
                is_definition: true,
            },
            ObjectSymbol {
                name: "elsewhere".to_string(),
                kind: SymbolKind::Text,
                address: 0,
                size: 0,
                is_definition: false,
            },
            ObjectSymbol {
                name: "second".to_string(),
                kind: SymbolKind::Text,
                address: 0x10,
                size: 8,
                is_definition: true,
            },
        ],
    };
    let symbols = parse_symtab_functions(&obj, "ex", 0x8000_0400, 3);
    assert_eq!(
        symbols,
        vec![
            Symbol {
                name: "first".to_string(),
                address: 0x8000_040C,
                size: 0x10,
                filename: "ex".to_string(),
                defined: true,
                complete: true,
            },
            Symbol {
                name: "second".to_string(),
                address: 0x8000_041C,
                size: 8,
                filename: "ex".to_string(),
                defined: true,
                complete: true,
            },
        ]
    );
    let wrapped = parse_symtab_functions(&obj, "ex", 0xFFFF_FFF0, 4);
    assert_eq!(wrapped[0].address, 0);
    assert_eq!(wrapped[1].address, 0x10);
}

#[test]
fn sorting_goes_by_address_then_by_descending_size() {
    let input = vec![
        sym("c", 0x30, 1),
        sym("a_small", 0x10, 2),
        sym("b", 0x20, 0),
        sym("a_large", 0x10, 8),
        sym("a_twin", 0x10, 2),
        sym("first", 0, 0),
    ];
    let sorted = sort_symbols(&input);
    assert_eq!(
        keys(&sorted),
        vec![
            ("first", 0, 0),
            ("a_large", 0x10, 8),
            ("a_small", 0x10, 2),
            ("a_twin", 0x10, 2),
            ("b", 0x20, 0),
            ("c", 0x30, 1)
        ]
    );
    assert!(sort_symbols(&Vec::new()).is_empty());
}

#[test]
fn repeats_are_dropped_by_address_or_by_name_and_address() {
    let input = vec![
        sym("a", 0x10, 8),
        sym("b", 0x10, 4),
        sym("a", 0x10, 2),
        sym("a", 0x20, 2),
        sym("b", 0x10, 1),
    ];
    assert_eq!(
        keys(&dedup_symbols(&input, true)),
        vec![("a", 0x10, 8), ("b", 0x10, 4), ("a", 0x20, 2)]
    );
    assert_eq!(keys(&dedup_symbols(&input, false)), vec![("a", 0x10, 8), ("a", 0x20, 2)]);
}

#[test]
fn final_symbols_are_sorted_and_hold_no_name_twice_at_an_address() {
    let input = vec![
        sym("z", 0x40, 0),
        sym("a", 0x10, 2),
        sym("b", 0x10, 4),
        sym("a", 0x10, 8),
        sym("a", 0x00, 8),
        sym("b", 0x10, 4),
        sym("z", 0x40, 0),
    ];
    let done = finish_symbols(&input);
    assert_eq!(
        keys(&done),
        vec![("a", 0, 8), ("a", 0x10, 8), ("b", 0x10, 4), ("z", 0x40, 0)]
    );
    for pair in done.windows(2) {
        assert!(
            pair[0].address < pair[1].address
                || (pair[0].address == pair[1].address && pair[0].size >= pair[1].size)
        );
    }
    for (i, a) in done.iter().enumerate() {
        for b in &done[i + 1..] {
            assert!(!(a.name == b.name && a.address == b.address));
        }
    }
}

#[test]
fn merging_keeps_the_largest_symbol_of_an_address() {
    let table = vec![sym("entry", 0x100, 0x40), sym("alias", 0x100, 0x40), sym("next", 0x140, 8)];
    let recovered = vec![sym("callee", 0x200, 0), sym("entry", 0x100, 0x80)];
    let merged = merge_symbols(table, recovered);
    assert_eq!(
        keys(&merged),
        vec![("entry", 0x100, 0x80), ("next", 0x140, 8), ("callee", 0x200, 0)]
    );
}

#[test]
fn relocations_without_their_other_half_are_told() {
    let obj = with_relocations(
        &[0x2421_0000, 0x3C01_0000, 0x3C02_0000, 0x2442_0000, 0x8C43_0000, 0x3C03_0000,
            0x0C00_0000, 0x0800_0000, 0x3C04_0000],
        vec![
            rel(0, RelocKind::Lo16, named("early"), 0),
            rel(4, RelocKind::Hi16, named("a"), 0),
            rel(8, RelocKind::Hi16, named("b"), 0),
            rel(12, RelocKind::Lo16, named("b"), 0),
            rel(16, RelocKind::Lo16, named("b"), 0),
            rel(20, RelocKind::Hi16, named("c"), 0),
            rel(24, RelocKind::J26, named("f"), 0),
            rel(28, RelocKind::J26, named("loop"), 0),
            rel(32, RelocKind::Hi16, named("d"), 0),
        ],
    );
    let blob = [0x2421_0004, 0x3C01_8000, 0x3C02_8001, 0x2442_0008, 0x8C43_000C, 0x3C03_8002,
        0x0C00_0400, 0x0800_0500, 0x3C04_8003];
    let recovered = recover_symbols(&obj, "ex", &stencil_of(&obj), &blob);
    let seen: Vec<(&str, u32)> =
        recovered.symbols.iter().map(|s| (s.name.as_str(), s.address)).collect();
    assert_eq!(seen, vec![("b", 0x8001_0008), ("f", 0x8000_1000)]);
    assert_eq!(recovered.dropped, vec![0, 1, 4, 5, 8]);
    assert_eq!(parse_relocated(&obj, "ex", &stencil_of(&obj), &blob), recovered.symbols);
}

#[test]
fn a_whole_pair_drops_nothing() {
    let obj = with_relocations(
        &[0x3C01_0000, 0x0800_0000, 0x2421_0000],
        vec![
            rel(0, RelocKind::Hi16, named("v"), 0),
            rel(4, RelocKind::J26, named("loop"), 0),
            rel(8, RelocKind::Lo16, named("v"), 0),
        ],
    );
    let recovered =
        recover_symbols(&obj, "ex", &stencil_of(&obj), &[0x3C01_8000, 0x0800_0001, 0x2421_0004]);
    assert_eq!(recovered.symbols.len(), 1);
    assert!(recovered.dropped.is_empty());
}
