use std::path::PathBuf;

use stencil_matcher::config::{Config, Endian};
use stencil_matcher::matcher::{naive_wordsearch, precise_check, precise_wordsearch};
use stencil_matcher::objfile::{
    ObjectFile, ObjectSymbol, RelocKind, RelocTarget, Relocation, SymbolKind, TextSection,
};
use stencil_matcher::report::{analyse, search, Candidate, Report};
use stencil_matcher::search::{match_object, SkipReason};
use stencil_matcher::stencil::{
    make_precise_stencil, make_rough_stencil, PreciseStencil, StencilError,
};
use stencil_matcher::words::words_from_bytes;

fn config(endian: Endian, binary: bool) -> Config {
    Config {
        rompath: String::new(),
        objects_dir: String::new(),
        endian,
        binary,
        vram: Some(0x8000_0000),
        rom_start: None,
        libultra: false,
        splat_output: false,
        verbosity: false,
        disambiguate: false,
    }
}

fn be_bytes(words: &[u32]) -> Vec<u8> {
    let mut bytes = Vec::new();
    for w in words {
        bytes.extend_from_slice(&w.to_be_bytes());
    }
    bytes
}

fn symbol_target(name: &str) -> RelocTarget {
    RelocTarget::Symbol { name: name.to_string(), size: 0, defined: false }
}

fn reloc(offset: u64, kind: RelocKind, name: &str) -> Relocation {
    Relocation { offset, kind, target: symbol_target(name), addend: 0 }
}

fn object(words: &[u32], relocations: Vec<Relocation>) -> ObjectFile {
    ObjectFile {
        text: Some(TextSection { data: be_bytes(words), relocations }),
        symbols: Vec::new(),
    }
}

fn hi_lo_object() -> ObjectFile {
    object(
        &[0x3C01_0000, 0x2421_0000],
        vec![reloc(0, RelocKind::Hi16, "foo"), reloc(4, RelocKind::Lo16, "foo")],
    )
}

fn hi_lo_blob(first: u32) -> Vec<u32> {
    let mut blob = vec![0u32; 8];
    blob.push(first);
    blob.push(0x2421_1234);
    blob.extend_from_slice(&[0u32; 8]);
    blob
}

fn candidate(stem: &str, object: ObjectFile) -> Candidate {
    Candidate { stem: stem.to_string(), path: PathBuf::from(format!("{}.o", stem)), object }
}

#[test]
fn test() {
    let test_file = vec![];

    let test_pattern = vec![];

    let test_results = naive_wordsearch(&test_file, &test_pattern);
    assert_eq!(test_results, [0]);
}

#[test]
fn words_are_read_in_either_byte_order() {
    let bytes = [0x12u8, 0x34, 0x56, 0x78, 0x9A, 0xBC, 0xDE, 0xF0];
    let mut big = Vec::new();
    words_from_bytes(&config(Endian::Big, true), &bytes, &mut big);
    assert_eq!(big, vec![0x1234_5678, 0x9ABC_DEF0]);
    let mut little = Vec::new();
    words_from_bytes(&config(Endian::Little, true), &bytes, &mut little);
    assert_eq!(little, vec![0x7856_3412, 0xF0DE_BC9A]);
}

#[test]
fn words_append_and_drop_a_partial_word() {
    let mut out = vec![7u32];
    words_from_bytes(&config(Endian::Big, true), &[0, 0, 0, 1, 0xFF, 0xFF], &mut out);
    assert_eq!(out, vec![7, 1]);
    let mut none = Vec::new();
    words_from_bytes(&config(Endian::Big, true), &[1, 2, 3], &mut none);
    assert!(none.is_empty());
}

#[test]
fn rough_stencil_keeps_opcodes() {
    let mut out = Vec::new();
    let r = make_rough_stencil(
        &config(Endian::Big, true),
        &be_bytes(&[0x3C01_8000, 0x0C00_0800, 0xFFFF_FFFF]),
        &mut out,
    );
    assert_eq!(r, Ok(()));
    assert_eq!(out, vec![0x3C00_0000, 0x0C00_0000, 0xFC00_0000]);
}

#[test]
fn rough_stencil_masks_what_was_there() {
    let mut out = vec![0x1234_5678u32];
    let r = make_rough_stencil(&config(Endian::Big, true), &be_bytes(&[0x2421_1234]), &mut out);
    assert_eq!(r, Ok(()));
    assert_eq!(out, vec![0x1000_0000, 0x2400_0000]);
}

#[test]
fn rough_stencil_refuses_a_partial_word() {
    let mut out = vec![0x1234_5678u32];
    let r = make_rough_stencil(&config(Endian::Big, true), &[1, 2, 3, 4, 5], &mut out);
    assert_eq!(r, Err(StencilError::PartialWord));
    assert_eq!(out, vec![0x1234_5678]);
}

#[test]
fn precise_stencil_of_each_kind() {
    let obj = object(
        &[0x0C12_3456, 0x3C01_ABCD, 0x2421_1234, 0x0320_F809],
        vec![
            reloc(0, RelocKind::J26, "f"),
            reloc(4, RelocKind::Hi16, "g"),
            reloc(8, RelocKind::Lo16, "g"),
        ],
    );
    let data = obj.text.as_ref().unwrap().data.clone();
    let stencil = make_precise_stencil(&config(Endian::Big, true), &obj, &data).unwrap();
    assert_eq!(
        stencil,
        vec![
            PreciseStencil { word: 0x0C00_0000, addend: 0x0012_3456, mask: 0xFC00_0000 },
            PreciseStencil { word: 0x3C01_0000, addend: 0x0000_ABCD, mask: 0xFFFF_0000 },
            PreciseStencil { word: 0x2421_0000, addend: 0x0000_1234, mask: 0xFFFF_0000 },
            PreciseStencil { word: 0x0320_F809, addend: 0, mask: 0xFFFF_FFFF },
        ]
    );
}

#[test]
fn stencil_entries_split_their_words() {
    let words = [0x0C12_3456u32, 0x3C01_ABCD, 0x2421_1234, 0x0320_F809, 0xDEAD_BEEF];
    let obj = object(
        &words,
        vec![
            reloc(0, RelocKind::J26, "f"),
            reloc(4, RelocKind::Hi16, "g"),
            reloc(8, RelocKind::Lo16, "g"),
            reloc(16, RelocKind::Lo16, "h"),
            reloc(17, RelocKind::Lo16, "h"),
        ],
    );
    let data = obj.text.as_ref().unwrap().data.clone();
    let stencil = make_precise_stencil(&config(Endian::Big, true), &obj, &data).unwrap();
    assert_eq!(stencil.len(), words.len());
    for (w, s) in words.iter().zip(stencil.iter()) {
        assert_eq!(w & s.mask, s.word);
        assert_eq!(w & !s.mask, s.addend);
    }
}

#[test]
fn doubly_patched_word_keeps_the_smaller_addend() {
    let obj = object(
        &[0x0FFF_FFFF],
        vec![reloc(0, RelocKind::J26, "f"), reloc(0, RelocKind::Lo16, "g")],
    );
    let data = obj.text.as_ref().unwrap().data.clone();
    let stencil = make_precise_stencil(&config(Endian::Big, true), &obj, &data).unwrap();
    assert_eq!(
        stencil,
        vec![PreciseStencil { word: 0x0C00_0000, addend: 0x0000_FFFF, mask: 0xFC00_0000 }]
    );
}

#[test]
fn precise_stencil_little_endian() {
    let obj = ObjectFile {
        text: Some(TextSection {
            data: vec![0x34, 0x12, 0x01, 0x3C],
            relocations: vec![reloc(0, RelocKind::Hi16, "g")],
        }),
        symbols: Vec::new(),
    };
    let data = obj.text.as_ref().unwrap().data.clone();
    let stencil = make_precise_stencil(&config(Endian::Little, true), &obj, &data).unwrap();
    assert_eq!(
        stencil,
        vec![PreciseStencil { word: 0x3C01_0000, addend: 0x1234, mask: 0xFFFF_0000 }]
    );
}

#[test]
fn precise_stencil_errors() {
    let cfg = config(Endian::Big, true);
    let obj = object(&[0x3C01_0000], vec![reloc(0, RelocKind::Unsupported, "got")]);
    let data = obj.text.as_ref().unwrap().data.clone();
    assert_eq!(
        make_precise_stencil(&cfg, &obj, &data),
        Err(StencilError::UnsupportedRelocation)
    );
    let far = object(&[0x3C01_0000], vec![reloc(4, RelocKind::Hi16, "g")]);
    assert_eq!(
        make_precise_stencil(&cfg, &far, &data),
        Err(StencilError::RelocationOutOfRange)
    );
    let both = object(
        &[0x3C01_0000],
        vec![reloc(8, RelocKind::Hi16, "g"), reloc(0, RelocKind::Unsupported, "got")],
    );
    assert_eq!(
        make_precise_stencil(&cfg, &both, &data),
        Err(StencilError::UnsupportedRelocation)
    );
    assert_eq!(
        make_precise_stencil(&cfg, &obj, &[0, 0, 0]),
        Err(StencilError::PartialWord)
    );
}

#[test]
fn rough_search_finds_every_place_in_order() {
    let v = [0x3C01_0000u32, 0x2421_0000, 0x3C1F_FFFF, 0x27FF_FFFF, 0x3C00_0000];
    assert_eq!(naive_wordsearch(&v, &[0x3C00_0000, 0x2400_0000]), vec![0, 8]);
    assert_eq!(naive_wordsearch(&v, &[0x3C00_0000]), vec![0, 8, 16]);
    assert_eq!(naive_wordsearch(&v, &[0x0C00_0000]), Vec::<usize>::new());
}

#[test]
fn rough_search_with_edge_patterns() {
    let v = [1u32, 2, 3];
    assert_eq!(naive_wordsearch(&v, &[]), vec![0, 4, 8, 12]);
    assert_eq!(naive_wordsearch(&v, &[0, 0, 0, 0]), Vec::<usize>::new());
    assert_eq!(naive_wordsearch(&v, &[0, 0, 0]), vec![0]);
    assert_eq!(naive_wordsearch(&[], &[0]), Vec::<usize>::new());
}

#[test]
fn precise_check_goes_by_the_mask() {
    let stencil = [
        PreciseStencil { word: 0x3C01_0000, addend: 0, mask: 0xFFFF_0000 },
        PreciseStencil { word: 0x0320_F809, addend: 0, mask: 0xFFFF_FFFF },
    ];
    assert!(precise_check(&[0x3C01_8000, 0x0320_F809], &stencil));
    assert!(!precise_check(&[0x3C00_8000, 0x0320_F809], &stencil));
    assert!(!precise_check(&[0x3C01_8000, 0x0320_F808], &stencil));
    assert!(precise_check(&[], &[]));
}

#[test]
fn precise_search_keeps_fitting_candidates_and_moves_them() {
    let stencil = [PreciseStencil { word: 0x3C01_0000, addend: 0, mask: 0xFFFF_0000 }];
    let v = [0x3C01_1111u32, 0x3C02_0000, 0x3C01_2222];
    assert_eq!(precise_wordsearch(&v, &vec![0, 4, 8], &stencil, 0x1000), vec![0x1000, 0x1008]);
    assert_eq!(precise_wordsearch(&v, &vec![8, 12, 400], &stencil, 0), vec![8]);
}

#[test]
fn self_match_is_reported() {
    let code = [0x3C01_0000u32, 0x2421_0000, 0x0C00_0000, 0x0320_F809];
    let obj = object(
        &code,
        vec![
            reloc(0, RelocKind::Hi16, "g"),
            reloc(4, RelocKind::Lo16, "g"),
            reloc(8, RelocKind::J26, "f"),
        ],
    );
    let mut blob = vec![0x1111_1111u32; 5];
    blob.extend_from_slice(&code);
    blob.extend_from_slice(&[0x2222_2222u32; 3]);
    let found = match_object(&config(Endian::Big, true), &blob, 0, 0x8000_0000, &obj, "o", false);
    assert_eq!(found.skipped, None);
    assert_eq!(found.offsets, vec![20]);
}

#[test]
fn rewritten_relocated_bits_still_match() {
    let code = [0x3C01_0000u32, 0x2421_0000, 0x0C00_0000, 0x0320_F809];
    let obj = object(
        &code,
        vec![
            reloc(0, RelocKind::Hi16, "g"),
            reloc(4, RelocKind::Lo16, "g"),
            reloc(8, RelocKind::J26, "f"),
        ],
    );
    let blob = [0u32, 0x3C01_FFFF, 0x2421_8001, 0x0FFF_FFFF, 0x0320_F809];
    let found = match_object(&config(Endian::Big, true), &blob, 0, 0x8000_0000, &obj, "o", false);
    assert_eq!(found.offsets, vec![4]);
}

#[test]
fn flipped_kept_bit_drops_the_match() {
    let code = [0x3C01_0000u32, 0x2421_0000, 0x0C00_0000, 0x0320_F809];
    let obj = object(
        &code,
        vec![
            reloc(0, RelocKind::Hi16, "g"),
            reloc(4, RelocKind::Lo16, "g"),
            reloc(8, RelocKind::J26, "f"),
        ],
    );
    let cfg = config(Endian::Big, true);
    let masks = [0xFFFF_0000u32, 0xFFFF_0000, 0xFC00_0000, 0xFFFF_FFFF];
    for j in 0..4 {
        for bit in 0..32 {
            let mut blob = vec![0x1111_1111u32];
            blob.extend_from_slice(&code);
            blob[1 + j] ^= 1u32 << bit;
            let found = match_object(&cfg, &blob, 0, 0x8000_0000, &obj, "o", false);
            let kept = masks[j] & (1u32 << bit) != 0;
            assert_eq!(found.offsets.contains(&4), !kept);
        }
    }
}

#[test]
fn scenario_hi_lo_pair_is_found() {
    let cfg = config(Endian::Big, true);
    let blob = hi_lo_blob(0x3C01_8000);
    let report =
        search(&cfg, &blob, 0, 0x8000_0000, vec![candidate("ex", hi_lo_object())], &Vec::new());
    assert_eq!(report.files_found.len(), 1);
    assert_eq!(report.files_found[0].stem, "ex");
    assert_eq!(report.files_found[0].path, PathBuf::from("ex.o"));
    assert_eq!(report.files_found[0].text_start, 32);
    assert_eq!(report.files_found[0].text_size, 8);
    assert!(report.files_not_found.is_empty());
    assert!(report.files_ambiguous.is_empty());
    assert!(report.ambiguous_addresses.is_empty());
    assert_eq!(report.symbols.len(), 1);
    assert_eq!(report.symbols[0].name, "foo");
    assert_eq!(report.symbols[0].address, 0x8000_1234);
    assert_eq!(report.symbols[0].filename, "ex");
    assert!(report.symbols[0].complete);
}

#[test]
fn scenario_flipped_register_bit_is_not_found() {
    let cfg = config(Endian::Big, true);
    let blob = hi_lo_blob(0x3C00_8000);
    let report =
        search(&cfg, &blob, 0, 0x8000_0000, vec![candidate("ex", hi_lo_object())], &Vec::new());
    assert!(report.files_found.is_empty());
    assert_eq!(report.files_not_found, vec!["ex".to_string()]);
    assert!(report.symbols.is_empty());
}

#[test]
fn scenario_flipped_immediate_bit_is_still_found() {
    let cfg = config(Endian::Big, true);
    let blob = hi_lo_blob(0x3C01_8001);
    let report =
        search(&cfg, &blob, 0, 0x8000_0000, vec![candidate("ex", hi_lo_object())], &Vec::new());
    assert_eq!(report.files_found.len(), 1);
    assert_eq!(report.symbols[0].address, 0x8001_1234);
}

#[test]
fn scenario_identical_objects_share_an_address() {
    let cfg = config(Endian::Big, true);
    let blob = hi_lo_blob(0x3C01_8000);
    let report = search(
        &cfg,
        &blob,
        0,
        0x8000_0000,
        vec![candidate("one", hi_lo_object()), candidate("two", hi_lo_object())],
        &Vec::new(),
    );
    assert_eq!(report.files_found.len(), 2);
    assert_eq!(report.files_found[0].stem, "one");
    assert_eq!(report.files_found[1].stem, "two");
    assert_eq!(report.files_found[0].text_start, 32);
    assert_eq!(report.files_found[1].text_start, 32);
    assert_eq!(report.ambiguous_addresses, vec![32]);
}

#[test]
fn scenario_unsupported_relocation_leaves_the_object_out() {
    let cfg = config(Endian::Big, true);
    let blob = hi_lo_blob(0x3C01_8000);
    let obj = object(
        &[0x3C01_0000, 0x2421_0000],
        vec![reloc(0, RelocKind::Unsupported, "got"), reloc(4, RelocKind::Lo16, "foo")],
    );
    let found = match_object(&cfg, &blob, 0, 0x8000_0000, &obj, "ex", false);
    assert_eq!(found.skipped, Some(SkipReason::Unsupported(StencilError::UnsupportedRelocation)));
    assert!(found.offsets.is_empty());
    let report = search(&cfg, &blob, 0, 0x8000_0000, vec![candidate("ex", obj)], &Vec::new());
    assert!(report.files_found.is_empty());
    assert!(report.files_ambiguous.is_empty());
    assert!(report.files_not_found.is_empty());
    assert!(report.symbols.is_empty());
    assert_eq!(
        report.files_skipped,
        vec![("ex".to_string(), SkipReason::Unsupported(StencilError::UnsupportedRelocation))]
    );
}

#[test]
fn skipped_objects() {
    let cfg = config(Endian::Big, true);
    let blob = hi_lo_blob(0x3C01_8000);
    let none = ObjectFile { text: None, symbols: Vec::new() };
    assert_eq!(
        match_object(&cfg, &blob, 0, 0, &none, "a", false).skipped,
        Some(SkipReason::NoText)
    );
    let empty = object(&[], Vec::new());
    assert_eq!(
        match_object(&cfg, &blob, 0, 0, &empty, "a", false).skipped,
        Some(SkipReason::EmptyText)
    );
    let zero = object(&[0, 0, 0], Vec::new());
    let found = match_object(&cfg, &blob, 0, 0, &zero, "a", false);
    assert_eq!(found.skipped, Some(SkipReason::ZeroText));
    assert_eq!(found.text_size, 12);
    let short = ObjectFile {
        text: Some(TextSection { data: vec![1, 2], relocations: Vec::new() }),
        symbols: Vec::new(),
    };
    assert_eq!(
        match_object(&cfg, &blob, 0, 0, &short, "a", false).skipped,
        Some(SkipReason::ZeroText)
    );
    let partial = ObjectFile {
        text: Some(TextSection { data: vec![0x3C, 1, 0, 0, 9], relocations: Vec::new() }),
        symbols: Vec::new(),
    };
    assert_eq!(
        match_object(&cfg, &blob, 0, 0, &partial, "a", false).skipped,
        Some(SkipReason::Unsupported(StencilError::PartialWord))
    );
    let far = object(&[0x3C01_0000], vec![reloc(400, RelocKind::Hi16, "g")]);
    assert_eq!(
        match_object(&cfg, &blob, 0, 0, &far, "a", false).skipped,
        Some(SkipReason::Unsupported(StencilError::RelocationOutOfRange))
    );
}

#[test]
fn unsupported_object_without_rough_hit_is_not_found() {
    let cfg = config(Endian::Big, true);
    let blob = [0u32; 4];
    let obj = object(&[0x3C01_0000], vec![reloc(0, RelocKind::Unsupported, "got")]);
    let found = match_object(&cfg, &blob, 0, 0, &obj, "a", false);
    assert_eq!(found.skipped, None);
    assert!(found.offsets.is_empty());
}

#[test]
fn ambiguous_objects_are_listed_by_first_offset() {
    let cfg = config(Endian::Big, true);
    let blob = [0x0320_F809u32, 0, 0x03E0_0008, 0x0320_F809, 0x03E0_0008];
    let a = object(&[0x0320_F809], Vec::new());
    let b = object(&[0x03E0_0008], Vec::new());
    let report = search(
        &cfg,
        &blob,
        0x100,
        0,
        vec![candidate("late", b), candidate("early", a)],
        &Vec::new(),
    );
    assert_eq!(
        report.files_ambiguous,
        vec![
            ("early".to_string(), vec![0x100, 0x10C]),
            ("late".to_string(), vec![0x108, 0x110])
        ]
    );
    assert!(report.files_found.is_empty());
    assert!(report.files_not_found.is_empty());
}

#[test]
fn found_files_are_sorted_by_offset_and_keep_their_order() {
    let cfg = config(Endian::Big, true);
    let blob = [0x0320_F809u32, 0x03E0_0008, 0x2402_0001];
    let report = search(
        &cfg,
        &blob,
        0,
        0,
        vec![
            candidate("c", object(&[0x2402_0001], Vec::new())),
            candidate("a2", object(&[0x0320_F809, 0x03E0_0008], Vec::new())),
            candidate("b", object(&[0x03E0_0008], Vec::new())),
            candidate("a1", object(&[0x0320_F809], Vec::new())),
        ],
        &Vec::new(),
    );
    let stems: Vec<&str> = report.files_found.iter().map(|f| f.stem.as_str()).collect();
    assert_eq!(stems, vec!["a2", "a1", "b", "c"]);
    assert_eq!(report.ambiguous_addresses, vec![0]);
}

#[test]
fn symbols_of_table_and_relocations_are_merged() {
    let cfg = config(Endian::Big, true);
    let mut obj = hi_lo_object();
    obj.symbols = vec![
        ObjectSymbol {
            name: "entry".to_string(),
            kind: SymbolKind::Text,
            address: 4,
            size: 4,
            is_definition: true,
        },
        ObjectSymbol {
            name: "data".to_string(),
            kind: SymbolKind::Other,
            address: 0,
            size: 4,
            is_definition: true,
        },
        ObjectSymbol {
            name: "extern".to_string(),
            kind: SymbolKind::Text,
            address: 0,
            size: 0,
            is_definition: false,
        },
    ];
    let blob = hi_lo_blob(0x3C01_8000);
    let found = match_object(&cfg, &blob, 0x1000, 0x8000_0400, &obj, "ex", false);
    assert_eq!(found.offsets, vec![0x1020]);
    let seen: Vec<(&str, u32)> =
        found.symbols.iter().map(|s| (s.name.as_str(), s.address)).collect();
    assert_eq!(seen, vec![("entry", 0x8000_0424), ("foo", 0x8000_1234)]);
    let by_name = match_object(&cfg, &blob, 0x1000, 0x8000_0400, &obj, "ex", true);
    assert_eq!(by_name.offsets, vec![0x1020]);
    assert!(by_name.symbols.is_empty());
}

#[test]
fn names_listed_as_ambiguous_give_no_symbols() {
    let cfg = config(Endian::Big, true);
    let blob = hi_lo_blob(0x3C01_8000);
    let report = search(
        &cfg,
        &blob,
        0,
        0x8000_0000,
        vec![candidate("ex", hi_lo_object())],
        &vec!["other".to_string(), "ex".to_string()],
    );
    assert_eq!(report.files_found.len(), 1);
    assert!(report.symbols.is_empty());
}

#[test]
fn record_goes_by_the_number_of_places() {
    let cfg = config(Endian::Big, true);
    let blob = hi_lo_blob(0x3C01_8000);
    let mut report = Report::new();
    let skipped = ObjectFile { text: None, symbols: Vec::new() };
    report.record(
        "none",
        PathBuf::from("none.o"),
        match_object(&cfg, &blob, 0, 0, &skipped, "none", false),
    );
    assert!(report.files_found.is_empty() && report.files_not_found.is_empty());
    assert_eq!(report.files_skipped, vec![("none".to_string(), SkipReason::NoText)]);
    report.record(
        "ex",
        PathBuf::from("ex.o"),
        match_object(&cfg, &blob, 0, 0x8000_0000, &hi_lo_object(), "ex", false),
    );
    let missing = object(&[0x0C00_0000], Vec::new());
    report.record(
        "miss",
        PathBuf::from("miss.o"),
        match_object(&cfg, &blob, 0, 0, &missing, "miss", false),
    );
    assert_eq!(report.files_found.len(), 1);
    assert_eq!(report.files_not_found, vec!["miss".to_string()]);
    assert_eq!(report.symbols.len(), 1);
    report.finish();
    assert!(report.ambiguous_addresses.is_empty());
}

#[test]
fn analyse_a_binary_blob() {
    let mut cfg = config(Endian::Big, true);
    cfg.vram = Some(0x8000_0000);
    let file = be_bytes(&hi_lo_blob(0x3C01_8000));
    let report =
        analyse(&cfg, &file, vec![candidate("ex", hi_lo_object())], &Vec::new()).unwrap();
    assert_eq!(report.files_found.len(), 1);
    assert_eq!(report.files_found[0].text_start, 32);
    cfg.vram = None;
    assert!(analyse(&cfg, &file, Vec::new(), &Vec::new()).is_none());
}

#[test]
fn analysis_is_repeatable() {
    let cfg = config(Endian::Big, true);
    let file = be_bytes(&hi_lo_blob(0x3C01_8000));
    let run = || {
        let report = analyse(
            &cfg,
            &file,
            vec![candidate("one", hi_lo_object()), candidate("two", hi_lo_object())],
            &Vec::new(),
        )
        .unwrap();
        (
            report.files_found,
            report.files_ambiguous,
            report.files_not_found,
            report.files_skipped,
            report.ambiguous_addresses,
            report.symbols,
            report.anomalies,
        )
    };
    assert_eq!(run(), run());
}

#[test]
fn dropped_relocations_are_kept_with_their_place() {
    let cfg = config(Endian::Big, true);
    let obj = object(
        &[0x3C01_0000, 0x2421_0000, 0x2421_0000],
        vec![
            reloc(0, RelocKind::Hi16, "v"),
            reloc(4, RelocKind::Lo16, "v"),
            reloc(8, RelocKind::Lo16, "v"),
        ],
    );
    let blob = [0x3C01_8000u32, 0x2421_0004, 0x2421_0008, 0, 0x3C01_8001, 0x2421_0000, 0x2421_0000];
    let found = match_object(&cfg, &blob, 0x100, 0, &obj, "ex", false);
    assert_eq!(found.offsets, vec![0x100, 0x110]);
    assert_eq!(found.dropped, vec![(0x100, 2), (0x110, 2)]);
    let by_name = match_object(&cfg, &blob, 0x100, 0, &obj, "ex", true);
    assert!(by_name.dropped.is_empty());
    let report = search(&cfg, &blob, 0x100, 0, vec![candidate("ex", obj)], &Vec::new());
    assert_eq!(
        report.anomalies,
        vec![("ex".to_string(), 0x100, 2), ("ex".to_string(), 0x110, 2)]
    );
}

#[test]
fn twins_among_other_objects_are_both_found() {
    let cfg = config(Endian::Big, true);
    let blob = hi_lo_blob(0x3C01_8000);
    let report = search(
        &cfg,
        &blob,
        0x40,
        0x8000_0000,
        vec![
            candidate("absent", object(&[0x0C00_0000], Vec::new())),
            candidate("one", hi_lo_object()),
            candidate("tail", object(&[0x2421_1234], Vec::new())),
            candidate("two", hi_lo_object()),
            candidate("none", ObjectFile { text: None, symbols: Vec::new() }),
        ],
        &Vec::new(),
    );
    let found: Vec<(&str, usize, usize)> = report
        .files_found
        .iter()
        .map(|f| (f.stem.as_str(), f.text_start, f.text_size))
        .collect();
    assert_eq!(found, vec![("one", 0x60, 8), ("two", 0x60, 8), ("tail", 0x64, 4)]);
    assert_eq!(report.ambiguous_addresses, vec![0x60]);
    assert_eq!(report.files_not_found, vec!["absent".to_string()]);
    assert!(report.files_ambiguous.is_empty());
    assert_eq!(report.files_skipped, vec![("none".to_string(), SkipReason::NoText)]);
}
