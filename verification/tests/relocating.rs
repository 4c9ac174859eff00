use stencil_matcher::disambiguate::relocate;
use stencil_matcher::objfile::{ObjectFile, RelocKind, RelocTarget, Relocation, TextSection};
use stencil_matcher::stencil::PreciseStencil;
use stencil_matcher::symbols::Symbol;

fn known(name: &str, address: u32) -> Symbol {
    Symbol {
        name: name.to_string(),
        address,
        size: 0,
        filename: "o".to_string(),
        defined: true,
        complete: true,
    }
}

fn against(offset: u64, kind: RelocKind, name: &str) -> Relocation {
    Relocation {
        offset,
        kind,
        target: RelocTarget::Symbol { name: name.to_string(), size: 0, defined: false },
        addend: 0,
    }
}

fn with(relocations: Vec<Relocation>) -> ObjectFile {
    ObjectFile { text: Some(TextSection { data: Vec::new(), relocations }), symbols: Vec::new() }
}

fn whole(word: u32, addend: u32) -> PreciseStencil {
    PreciseStencil { word, addend, mask: 0xFFFF_FFFF }
}

#[test]
fn relocating_narrows_the_patched_words() {
    let stencil = [
        whole(0x0FFF_FFFF, 0x0000_0001),
        whole(0x3C01_FFFF, 0),
        whole(0x2421_FFFF, 0),
        whole(0x0320_F809, 0),
        whole(0xFFFF_FFFF, 0),
    ];
    let obj = with(vec![
        against(0, RelocKind::J26, "f"),
        against(4, RelocKind::Hi16, "v"),
        against(8, RelocKind::Lo16, "v"),
        against(12, RelocKind::Lo16, "nobody"),
        against(16, RelocKind::Unsupported, "v"),
    ]);
    let symbols = [known("v", 0x8012_9234), known("f", 0x8000_2000), known("v", 0)];
    assert_eq!(
        relocate(&obj, &stencil, &symbols),
        Some(vec![0x0000_0801, 0x0000_8013, 0x0000_9234, 0x0320_F809, 0xFFFF_FFFF])
    );
}

#[test]
fn relocating_twice_narrows_twice() {
    let stencil = [whole(0x2421_FFFF, 0)];
    let obj = with(vec![against(0, RelocKind::Lo16, "a"), against(0, RelocKind::Lo16, "b")]);
    let symbols = [known("a", 0x0000_FF0F), known("b", 0x0000_0FF0)];
    assert_eq!(relocate(&obj, &stencil, &symbols), Some(vec![0x0000_0F00]));
}

#[test]
fn high_half_wraps() {
    let stencil = [whole(0xFFFF_FFFF, 0)];
    let obj = with(vec![against(0, RelocKind::Hi16, "top")]);
    assert_eq!(relocate(&obj, &stencil, &[known("top", 0xFFFF_8000)]), Some(vec![0]));
    assert_eq!(relocate(&obj, &stencil, &[known("top", 0xFFFF_7FFF)]), Some(vec![0xFFFF]));
}

#[test]
fn what_cannot_be_relocated() {
    let stencil = [whole(0x0800_0000, 0), whole(0x0C00_0000, 0)];
    let symbols = [known("f", 0x8000_2000)];
    assert_eq!(relocate(&ObjectFile { text: None, symbols: Vec::new() }, &stencil, &symbols), None);
    assert_eq!(relocate(&with(vec![against(8, RelocKind::J26, "f")]), &stencil, &symbols), None);
    assert_eq!(relocate(&with(vec![against(0, RelocKind::J26, "f")]), &stencil, &symbols), None);
    assert_eq!(
        relocate(&with(vec![against(0, RelocKind::J26, "other")]), &stencil, &symbols),
        Some(vec![0x0800_0000, 0x0C00_0000])
    );
    assert_eq!(
        relocate(&with(vec![against(0, RelocKind::Lo16, "f")]), &stencil, &symbols),
        Some(vec![0x0000_0000, 0x0C00_0000])
    );
    let unnamed = Relocation {
        offset: 4,
        kind: RelocKind::J26,
        target: RelocTarget::Unknown,
        addend: 0,
    };
    assert_eq!(relocate(&with(vec![unnamed]), &stencil, &symbols), None);
    let section = Relocation {
        offset: 4,
        kind: RelocKind::J26,
        target: RelocTarget::Section { name: ".text".to_string(), size: 8 },
        addend: 0,
    };
    assert_eq!(relocate(&with(vec![section]), &stencil, &symbols), None);
    assert_eq!(relocate(&with(Vec::new()), &stencil, &symbols), Some(vec![0x0800_0000, 0x0C00_0000]));
}
