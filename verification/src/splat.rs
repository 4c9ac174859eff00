//! The layout listing: the found objects as lines of a segment list, with
//! fillers for the gaps between them, and the symbols as assignments.

use vstd::prelude::*;
use vstd::string::*;
use crate::config::Config;
use crate::report::{holds_offset, listed, texts, FoundFile, FoundFileView};
use crate::symbols::{Symbol, SymbolView};

verus! {

/// The upper-case hexadecimal digit of the value `d`.
pub open spec fn upper_hex_digit(d: int) -> char {
    if d == 0 {
        '0'
    } else if d == 1 {
        '1'
    } else if d == 2 {
        '2'
    } else if d == 3 {
        '3'
    } else if d == 4 {
        '4'
    } else if d == 5 {
        '5'
    } else if d == 6 {
        '6'
    } else if d == 7 {
        '7'
    } else if d == 8 {
        '8'
    } else if d == 9 {
        '9'
    } else if d == 10 {
        'A'
    } else if d == 11 {
        'B'
    } else if d == 12 {
        'C'
    } else if d == 13 {
        'D'
    } else if d == 14 {
        'E'
    } else {
        'F'
    }
}

/// The digits of `n` in upper-case hexadecimal, without leading zeros.
pub open spec fn upper_hex_digits(n: nat) -> Seq<char>
    decreases n,
{
    if n < 16 {
        seq![upper_hex_digit(n as int)]
    } else {
        upper_hex_digits(n / 16).push(upper_hex_digit((n % 16) as int))
    }
}

/// `n` as it is printed: `0x` and its upper-case hexadecimal digits.
pub open spec fn hex_text(n: nat) -> Seq<char> {
    "0x"@ + upper_hex_digits(n)
}

/// One upper-case hexadecimal digit as text.
fn digit_text(d: u64) -> (text: &'static str)
    requires
        d < 16,
    ensures
        text@ == seq![upper_hex_digit(d as int)],
{
    proof {
        reveal_strlit("0");
        reveal_strlit("1");
        reveal_strlit("2");
        reveal_strlit("3");
        reveal_strlit("4");
        reveal_strlit("5");
        reveal_strlit("6");
        reveal_strlit("7");
        reveal_strlit("8");
        reveal_strlit("9");
        reveal_strlit("A");
        reveal_strlit("B");
        reveal_strlit("C");
        reveal_strlit("D");
        reveal_strlit("E");
        reveal_strlit("F");
    }
    let text = if d == 0 {
        "0"
    } else if d == 1 {
        "1"
    } else if d == 2 {
        "2"
    } else if d == 3 {
        "3"
    } else if d == 4 {
        "4"
    } else if d == 5 {
        "5"
    } else if d == 6 {
        "6"
    } else if d == 7 {
        "7"
    } else if d == 8 {
        "8"
    } else if d == 9 {
        "9"
    } else if d == 10 {
        "A"
    } else if d == 11 {
        "B"
    } else if d == 12 {
        "C"
    } else if d == 13 {
        "D"
    } else if d == 14 {
        "E"
    } else {
        "F"
    };
    assert(text@ =~= seq![upper_hex_digit(d as int)]);
    text
}

/// Appends the upper-case hexadecimal digits of `n` to `text`.
fn push_hex_digits(text: &mut String, n: u64)
    ensures
        final(text)@ == old(text)@ + upper_hex_digits(n as nat),
    decreases n,
{
    if n >= 16 {
        push_hex_digits(text, n / 16);
    }
    text.append(digit_text(n % 16));
    assert(text@ =~= old(text)@ + upper_hex_digits(n as nat));
}

/// Appends `n` as it is printed, `0x` and upper-case hexadecimal digits.
pub fn push_hex(text: &mut String, n: u64)
    ensures
        final(text)@ == old(text)@ + hex_text(n as nat),
{
    text.append("0x");
    push_hex_digits(text, n);
    assert(text@ =~= old(text)@ + hex_text(n as nat));
}

/// One line of the segment list.
pub enum YamlLine {
    /// A stretch of the image that no found object covers, left as assembly.
    Gap { offset: usize },
    /// A found object.
    File {
        /// The byte offset at which the object's code starts.
        offset: usize,
        /// Whether the object was written in assembly by hand.
        handwritten: bool,
        stem: String,
        /// Whether the object's code is of a form that many objects share.
        common_form: bool,
        /// Whether another found object starts at the same offset.
        ambiguous: bool,
    },
}

/// A `YamlLine` as a mathematical value.
pub enum YamlLineView {
    Gap { offset: usize },
    File { offset: usize, handwritten: bool, stem: Seq<char>, common_form: bool, ambiguous: bool },
}

impl View for YamlLine {
    type V = YamlLineView;

    open spec fn view(&self) -> YamlLineView {
        match *self {
            YamlLine::Gap { offset } => YamlLineView::Gap { offset },
            YamlLine::File {
                offset,
                handwritten,
                stem,
                common_form,
                ambiguous,
            } => YamlLineView::File { offset, handwritten, stem: stem@, common_form, ambiguous },
        }
    }
}

/// What the segment list is drawn up with.
pub struct Names {
    /// The objects written in assembly by hand.
    pub handwritten: Vec<String>,
    /// The objects whose code is of a form that many objects share.
    pub generic: Vec<String>,
}

/// Where the code of a ROM starts, and with it the filler before the first
/// found object: `0x1000` unless configured.
pub open spec fn listing_start(config: Config) -> int {
    match config.rom_start {
        Some(start) => start as int,
        None => 0x1000,
    }
}

/// Where the code before the `k`-th found object ends: at the end of the
/// object before it, and before the first object at the start of the image,
/// which for a binary blob is 0.
pub open spec fn end_before(found: Seq<FoundFileView>, config: Config, k: int) -> int {
    if k > 0 {
        found[k - 1].text_start + found[k - 1].text_size
    } else if config.binary {
        0
    } else {
        listing_start(config)
    }
}

/// The lines of the `k`-th found object: a filler if the code before it ends
/// short of it, and the object itself.
pub open spec fn lines_of(
    found: Seq<FoundFileView>,
    ambiguous_addresses: Seq<usize>,
    config: Config,
    names: Names,
    k: int,
) -> Seq<YamlLineView> {
    let entry = found[k];
    let gap = end_before(found, config, k);
    let line = YamlLineView::File {
        offset: entry.text_start,
        handwritten: texts(names.handwritten@).contains(entry.stem),
        stem: entry.stem,
        common_form: texts(names.generic@).contains(entry.stem),
        ambiguous: ambiguous_addresses.contains(entry.text_start),
    };
    if gap < entry.text_start {
        seq![YamlLineView::Gap { offset: gap as usize }, line]
    } else {
        seq![line]
    }
}

/// The lines of the first `k` found objects.
pub open spec fn lines_before(
    found: Seq<FoundFileView>,
    ambiguous_addresses: Seq<usize>,
    config: Config,
    names: Names,
    k: int,
) -> Seq<YamlLineView>
    decreases k,
{
    if k <= 0 {
        Seq::empty()
    } else {
        lines_before(found, ambiguous_addresses, config, names, k - 1) + lines_of(
            found,
            ambiguous_addresses,
            config,
            names,
            k - 1,
        )
    }
}

/// Whether all offsets of the listing can be told: whether no object ends
/// past the largest offset there is.
pub open spec fn listing_fits(found: Seq<FoundFileView>) -> bool {
    forall|k: int|
        0 <= k < found.len() ==> (#[trigger] found[k]).text_start + found[k].text_size
            <= usize::MAX
}

/// The lines of a `YamlLine` sequence as mathematical values.
pub open spec fn line_views(lines: Seq<YamlLine>) -> Seq<YamlLineView> {
    lines.map_values(|l: YamlLine| l@)
}

/// The found objects as mathematical values.
pub open spec fn found_views(found: Seq<FoundFile>) -> Seq<FoundFileView> {
    found.map_values(|f: FoundFile| f@)
}

/// Draws up the segment list for the found objects, which are taken in the
/// order given: for each a line, and before it a filler where the code
/// before it ends short of it. Each object is listed at the offset at which
/// its code starts. No list is drawn up where the end of an object would not
/// fit the machine's word.
pub fn yaml_entries(
    config: &Config,
    found_files: &[FoundFile],
    ambiguous_addresses: &[usize],
    names: &Names,
) -> (lines: Option<Vec<YamlLine>>)
    ensures
        listing_fits(found_views(found_files@)) ==> lines is Some && line_views(
            lines->Some_0@,
        ) == lines_before(
            found_views(found_files@),
            ambiguous_addresses@,
            *config,
            *names,
            found_files@.len() as int,
        ),
        !listing_fits(found_views(found_files@)) ==> lines is None,
{
    let rom_start: usize = match config.rom_start {
        Some(start) => start as usize,
        None => 0x1000,
    };
    let mut previous_file_text_end: usize = if !config.binary {
        rom_start
    } else {
        0
    };
    let ghost found = found_views(found_files@);
    let mut lines: Vec<YamlLine> = Vec::new();
    let mut k: usize = 0;
    assert(line_views(lines@) =~= lines_before(found, ambiguous_addresses@, *config, *names, 0));
    while k < found_files.len()
        invariant
            k <= found_files@.len(),
            found == found_views(found_files@),
            rom_start == listing_start(*config),
            previous_file_text_end == end_before(found, *config, k as int),
            forall|n: int|
                0 <= n < k ==> (#[trigger] found[n]).text_start + found[n].text_size
                    <= usize::MAX,
            line_views(lines@) == lines_before(
                found,
                ambiguous_addresses@,
                *config,
                *names,
                k as int,
            ),
        decreases found_files@.len() - k,
    {
        let entry = &found_files[k];
        assert(found[k as int] == entry@);
        if entry.text_start > usize::MAX - entry.text_size {
            return None;
        }
        let ghost before = lines@;
        if previous_file_text_end < entry.text_start {
            lines.push(YamlLine::Gap { offset: previous_file_text_end });
        }
        let line = YamlLine::File {
            offset: entry.text_start,
            handwritten: listed(&names.handwritten, &entry.stem),
            stem: entry.stem.clone(),
            common_form: listed(&names.generic, &entry.stem),
            ambiguous: holds_offset(ambiguous_addresses, entry.text_start),
        };
        lines.push(line);
        assert(line_views(lines@) =~= line_views(before) + lines_of(
            found,
            ambiguous_addresses@,
            *config,
            *names,
            k as int,
        ));
        previous_file_text_end = entry.text_start + entry.text_size;
        k = k + 1;
    }
    Some(lines)
}

/// The text of a line of the segment list.
pub open spec fn yaml_text(line: YamlLineView) -> Seq<char> {
    match line {
        YamlLineView::Gap { offset } => "    - ["@ + hex_text(offset as nat) + ", asm]"@,
        YamlLineView::File { offset, handwritten, stem, common_form, ambiguous } => {
            (if ambiguous {
                "# "@
            } else {
                Seq::<char>::empty()
            }) + "    - ["@ + hex_text(offset as nat) + (if handwritten {
                ", hasm, "@
            } else {
                ", c, "@
            }) + stem + "]"@ + (if common_form && ambiguous {
                " # common form,ambiguous"@
            } else if common_form {
                " # common form"@
            } else if ambiguous {
                " # ambiguous"@
            } else {
                Seq::<char>::empty()
            })
        },
    }
}

/// Writes a line of the segment list out as text.
pub fn yaml_line(line: &YamlLine) -> (text: String)
    ensures
        text@ == yaml_text(line@),
{
    let mut text = String::new();
    match line {
        YamlLine::Gap { offset } => {
            text.append("    - [");
            push_hex(&mut text, *offset as u64);
            text.append(", asm]");
            assert(text@ =~= yaml_text(line@));
        },
        YamlLine::File { offset, handwritten, stem, common_form, ambiguous } => {
            if *ambiguous {
                text.append("# ");
            }
            text.append("    - [");
            push_hex(&mut text, *offset as u64);
            if *handwritten {
                text.append(", hasm, ");
            } else {
                text.append(", c, ");
            }
            text.append(stem.as_str());
            text.append("]");
            if *common_form && *ambiguous {
                text.append(" # common form,ambiguous");
            } else if *common_form {
                text.append(" # common form");
            } else if *ambiguous {
                text.append(" # ambiguous");
            }
            assert(text@ =~= yaml_text(line@));
        },
    }
    text
}

/// Whether a name is that of a section: whether it starts with a dot.
pub open spec fn names_section(name: Seq<char>) -> bool {
    name.len() > 0 && name[0] == '.'
}

/// The assignment that gives a symbol its address. A section is commented
/// out and told apart by its object's name.
pub open spec fn symbol_text(symbol: SymbolView) -> Seq<char> {
    if names_section(symbol.name) {
        "// "@ + symbol.filename + symbol.name + "+0x0 = "@ + hex_text(symbol.address as nat)
            + "; // size:"@ + hex_text(symbol.size as nat)
    } else {
        symbol.name + " = "@ + hex_text(symbol.address as nat) + "; // size:"@ + hex_text(
            symbol.size as nat,
        )
    }
}

/// Writes the assignment that gives a symbol its address.
pub fn symbol_addr_line(entry: &Symbol) -> (text: String)
    ensures
        text@ == symbol_text(entry@),
{
    let mut text = String::new();
    let name = entry.name.as_str();
    if name.unicode_len() > 0 && name.get_char(0) == '.' {
        text.append("// ");
        text.append(entry.filename.as_str());
        text.append(name);
        text.append("+0x0 = ");
    } else {
        text.append(name);
        text.append(" = ");
    }
    push_hex(&mut text, entry.address as u64);
    text.append("; // size:");
    push_hex(&mut text, entry.size as u64);
    assert(text@ =~= symbol_text(entry@));
    text
}

/// Writes the segment list for the found objects, line by line, for
/// printing. Nothing is written where the end of an object would not fit the
/// machine's word.
pub fn print_yaml(
    config: &Config,
    found_files: &[FoundFile],
    ambiguous_addresses: &[usize],
    names: &Names,
) -> (text: Option<Vec<String>>)
    ensures
        listing_fits(found_views(found_files@)) ==> text is Some && texts(
            text->Some_0@,
        ) == lines_before(
            found_views(found_files@),
            ambiguous_addresses@,
            *config,
            *names,
            found_files@.len() as int,
        ).map_values(|line: YamlLineView| yaml_text(line)),
        !listing_fits(found_views(found_files@)) ==> text is None,
{
    let lines = match yaml_entries(config, found_files, ambiguous_addresses, names) {
        Some(lines) => lines,
        None => {
            return None;
        },
    };
    let mut text: Vec<String> = Vec::new();
    let mut i: usize = 0;
    while i < lines.len()
        invariant
            i <= lines@.len(),
            text@.len() == i,
            forall|n: int| 0 <= n < i ==> (#[trigger] text@[n])@ == yaml_text(lines@[n]@),
        decreases lines@.len() - i,
    {
        text.push(yaml_line(&lines[i]));
        i = i + 1;
    }
    assert(texts(text@) =~= line_views(lines@).map_values(
        |line: YamlLineView| yaml_text(line),
    ));
    Some(text)
}

/// Writes the assignments that give the symbols their addresses, one line
/// for each symbol, for printing.
pub fn print_symbol_addrs(symbols: &[Symbol]) -> (text: Vec<String>)
    ensures
        texts(text@) == symbols@.map_values(|entry: Symbol| symbol_text(entry@)),
{
    let mut text: Vec<String> = Vec::new();
    let mut i: usize = 0;
    while i < symbols.len()
        invariant
            i <= symbols@.len(),
            text@.len() == i,
            forall|n: int| 0 <= n < i ==> (#[trigger] text@[n])@ == symbol_text(symbols@[n]@),
        decreases symbols@.len() - i,
    {
        text.push(symbol_addr_line(&symbols[i]));
        i = i + 1;
    }
    assert(texts(text@) =~= symbols@.map_values(|entry: Symbol| symbol_text(entry@)));
    text
}

} // verus!
