//! Searching for one object after the other and keeping the account: which
//! objects were found and where, which fit at several places, which were not
//! found, which were left out, and which symbols were recovered.

use std::path::PathBuf;
use vstd::prelude::*;
use vstd::string::*;
use crate::config::{Config, Endian};
use crate::image::{image_base, read_image, search_range};
use crate::objfile::{ObjectFile, ObjectFileView};
use crate::order::{
    in_order,
    inserted,
    lemma_inserted,
    lemma_inserted_at,
    lemma_inserted_holds,
    Ranked,
};
use crate::search::{match_object, object_match, ObjectMatch, ObjectMatchView, SkipReason};
use crate::symbols::{
    final_symbols,
    finish_symbols,
    is_sorted,
    lemma_final_symbols,
    no_repeats,
    views,
    Symbol,
    SymbolView,
};
use crate::words::words_of;

verus! {
/// `std::path::PathBuf`, which is carried along and never looked into.
#[verifier::external_type_specification]
#[verifier::external_body]
pub struct ExPathBuf(PathBuf);

/// An object that fits at exactly one place of the image.
#[derive(Debug, PartialEq)]
pub struct FoundFile {
    /// The object's file name without its extension.
    pub stem: String,
    /// Where the object was read from.
    pub path: PathBuf,
    /// Byte offset, in the image file, at which the object's code starts.
    pub text_start: usize,
    /// Size of the object's code in bytes.
    pub text_size: usize,
}

/// A `FoundFile` as a mathematical value.
pub struct FoundFileView {
    pub stem: Seq<char>,
    pub path: PathBuf,
    pub text_start: usize,
    pub text_size: usize,
}

impl View for FoundFile {
    type V = FoundFileView;

    open spec fn view(&self) -> FoundFileView {
        FoundFileView {
            stem: self.stem@,
            path: self.path,
            text_start: self.text_start,
            text_size: self.text_size,
        }
    }
}

/// Found objects are listed by the offset of their code.
impl Ranked for FoundFileView {
    open spec fn rank(&self) -> int {
        self.text_start as int
    }
}

/// Objects that fit at several places, each a name with its offsets, are
/// listed by the first of the offsets.
impl Ranked for (Seq<char>, Seq<usize>) {
    open spec fn rank(&self) -> int {
        if self.1.len() > 0 {
            self.1[0] as int
        } else {
            0
        }
    }
}

/// The account of a search.
pub struct Report {
    /// The objects that fit at exactly one place, by ascending offset.
    pub files_found: Vec<FoundFile>,
    /// The objects that fit at several places, each with the offsets of the
    /// places, by ascending first offset.
    pub files_ambiguous: Vec<(String, Vec<usize>)>,
    /// The objects that fit nowhere.
    pub files_not_found: Vec<String>,
    /// The objects that were left out of the search, each with the reason.
    pub files_skipped: Vec<(String, SkipReason)>,
    /// The offsets at which more than one found object starts.
    pub ambiguous_addresses: Vec<usize>,
    /// The symbols recovered.
    pub symbols: Vec<Symbol>,
    /// The relocations that gave no symbol for want of their other half:
    /// for each the object, the offset of the place where the object fits
    /// and the place that the relocation has in the object's list.
    pub anomalies: Vec<(String, usize, usize)>,
}

/// A `Report` as a mathematical value.
pub struct ReportView {
    pub found: Seq<FoundFileView>,
    pub ambiguous: Seq<(Seq<char>, Seq<usize>)>,
    pub not_found: Seq<Seq<char>>,
    pub skipped: Seq<(Seq<char>, SkipReason)>,
    pub ambiguous_addresses: Seq<usize>,
    pub symbols: Seq<SymbolView>,
    pub anomalies: Seq<(Seq<char>, usize, usize)>,
}

impl View for Report {
    type V = ReportView;

    open spec fn view(&self) -> ReportView {
        ReportView {
            found: self.files_found@.map_values(|f: FoundFile| f@),
            ambiguous: self.files_ambiguous@.map_values(|a: (String, Vec<usize>)| (a.0@, a.1@)),
            not_found: self.files_not_found@.map_values(|n: String| n@),
            skipped: self.files_skipped@.map_values(|s: (String, SkipReason)| (s.0@, s.1)),
            ambiguous_addresses: self.ambiguous_addresses@,
            symbols: views(self.symbols@),
            anomalies: self.anomalies@.map_values(|a: (String, usize, usize)| (a.0@, a.1, a.2)),
        }
    }
}

/// An object to look for.
pub struct Candidate {
    /// The object's file name without its extension.
    pub stem: String,
    /// Where the object was read from.
    pub path: PathBuf,
    pub object: ObjectFile,
}

/// A `Candidate` as a mathematical value.
pub struct CandidateView {
    pub stem: Seq<char>,
    pub path: PathBuf,
    pub object: ObjectFileView,
}

impl View for Candidate {
    type V = CandidateView;

    open spec fn view(&self) -> CandidateView {
        CandidateView { stem: self.stem@, path: self.path, object: self.object@ }
    }
}

/// The candidates of `s` as mathematical values.
pub open spec fn candidate_views(s: Seq<Candidate>) -> Seq<CandidateView> {
    s.map_values(|c: Candidate| c@)
}

/// The names of `s` as mathematical values.
pub open spec fn texts(s: Seq<String>) -> Seq<Seq<char>> {
    s.map_values(|n: String| n@)
}

/// The report before anything is recorded.
pub open spec fn empty_report() -> ReportView {
    ReportView {
        found: Seq::empty(),
        ambiguous: Seq::empty(),
        not_found: Seq::empty(),
        skipped: Seq::empty(),
        ambiguous_addresses: Seq::empty(),
        symbols: Seq::empty(),
        anomalies: Seq::empty(),
    }
}

/// The report after the outcome of one more object is recorded.
///
/// An object that was left out is noted with the reason, and nothing else
/// is kept of it. Any other object goes by the number of places where it
/// fits: with none to the objects not found, with one to the objects found,
/// with more to the ambiguous objects. Its symbols are appended, and so are
/// its relocations that gave none.
pub open spec fn recorded(
    report: ReportView,
    stem: Seq<char>,
    path: PathBuf,
    found: ObjectMatchView,
) -> ReportView {
    let symbols = report.symbols + found.symbols;
    let anomalies = report.anomalies + found.dropped.map_values(
        |d: (usize, usize)| (stem, d.0, d.1),
    );
    if found.skipped is Some {
        ReportView { skipped: report.skipped.push((stem, found.skipped->Some_0)), ..report }
    } else if found.offsets.len() == 0 {
        ReportView { not_found: report.not_found.push(stem), symbols, anomalies, ..report }
    } else if found.offsets.len() == 1 {
        ReportView {
            found: inserted(
                report.found,
                FoundFileView {
                    stem,
                    path,
                    text_start: found.offsets[0],
                    text_size: found.text_size,
                },
            ),
            symbols,
            anomalies,
            ..report
        }
    } else {
        ReportView {
            ambiguous: inserted(report.ambiguous, (stem, found.offsets)),
            symbols,
            anomalies,
            ..report
        }
    }
}

/// Of the offsets `starts`, those that occur more than once, each listed
/// once, where it occurs for the second time.
pub open spec fn collisions(starts: Seq<usize>) -> Seq<usize>
    decreases starts.len(),
{
    if starts.len() == 0 {
        Seq::empty()
    } else {
        let earlier = collisions(starts.drop_last());
        let x = starts.last();
        if starts.drop_last().contains(x) && !earlier.contains(x) {
            earlier.push(x)
        } else {
            earlier
        }
    }
}

/// The offsets at which the found objects start.
pub open spec fn starts_of(found: Seq<FoundFileView>) -> Seq<usize> {
    found.map_values(|f: FoundFileView| f.text_start)
}

/// The report once the search is over: the offsets shared by several found
/// objects are named, and the symbols are sorted and freed of repeats.
pub open spec fn finished(report: ReportView) -> ReportView {
    ReportView {
        ambiguous_addresses: collisions(starts_of(report.found)),
        symbols: final_symbols(report.symbols),
        ..report
    }
}

/// The report of the search for `candidates`, one after the other, before it
/// is closed. Candidates named in `ambiguous_names` contribute no symbols.
pub open spec fn searched(
    candidates: Seq<CandidateView>,
    endian: Endian,
    image: Seq<u32>,
    base: u32,
    start: int,
    ambiguous_names: Seq<Seq<char>>,
) -> ReportView
    decreases candidates.len(),
{
    if candidates.len() == 0 {
        empty_report()
    } else {
        let c = candidates.last();
        recorded(
            searched(candidates.drop_last(), endian, image, base, start, ambiguous_names),
            c.stem,
            c.path,
            object_match(
                c.object,
                c.stem,
                endian,
                image,
                base,
                start,
                ambiguous_names.contains(c.stem),
            ),
        )
    }
}

/// The report of the search of the input file `file` for `candidates`; none
/// where the file yields no image to search.
pub open spec fn analysed(
    config: Config,
    file: Seq<u8>,
    candidates: Seq<CandidateView>,
    ambiguous_names: Seq<Seq<char>>,
) -> Option<ReportView> {
    match (search_range(config.binary, file.len() as int), image_base(config, file)) {
        (Some((from, to)), Some(base)) => Some(
            finished(
                searched(
                    candidates,
                    config.endian,
                    words_of(file.subrange(from, to), config.endian),
                    base,
                    from,
                    ambiguous_names,
                ),
            ),
        ),
        _ => None,
    }
}

/// Whether `v` holds the offset `x`.
pub fn holds_offset(v: &[usize], x: usize) -> (r: bool)
    ensures
        r == v@.contains(x),
{
    let mut i: usize = 0;
    while i < v.len()
        invariant
            i <= v@.len(),
            forall|n: int| 0 <= n < i ==> v@[n] != x,
        decreases v@.len() - i,
    {
        if v[i] == x {
            return true;
        }
        i = i + 1;
    }
    false
}

/// Whether `stem` is one of `names`.
pub fn listed(names: &Vec<String>, stem: &String) -> (r: bool)
    ensures
        r == texts(names@).contains(stem@),
{
    let mut i: usize = 0;
    while i < names.len()
        invariant
            i <= names@.len(),
            forall|n: int| 0 <= n < i ==> (#[trigger] texts(names@)[n]) != stem@,
        decreases names@.len() - i,
    {
        if names[i] == *stem {
            assert(texts(names@)[i as int] == stem@);
            return true;
        }
        i = i + 1;
    }
    false
}

impl Report {
    /// A report with nothing in it.
    pub fn new() -> (report: Report)
        ensures
            report@ == empty_report(),
    {
        let report = Report {
            files_found: Vec::new(),
            files_ambiguous: Vec::new(),
            files_not_found: Vec::new(),
            files_skipped: Vec::new(),
            ambiguous_addresses: Vec::new(),
            symbols: Vec::new(),
            anomalies: Vec::new(),
        };
        assert(report@.found =~= Seq::empty());
        assert(report@.ambiguous =~= Seq::empty());
        assert(report@.not_found =~= Seq::empty());
        assert(report@.skipped =~= Seq::empty());
        assert(report@.symbols =~= Seq::empty());
        assert(report@.anomalies =~= Seq::empty());
        report
    }

    /// Records what the search for the object `file_stem`, read from `path`,
    /// came to.
    pub fn record(&mut self, file_stem: &str, path: PathBuf, found: ObjectMatch)
        ensures
            final(self)@ == recorded(old(self)@, file_stem@, path, found@),
    {
        let ghost before = *self;
        let stem = String::from_str(file_stem);
        match found.skipped {
            Some(reason) => {
                self.files_skipped.push((stem, reason));
                assert(self@.skipped =~= before@.skipped.push((file_stem@, reason)));
                return ;
            },
            None => {},
        }
        let ObjectMatch { skipped: _, offsets, text_size, symbols, dropped } = found;
        let mut symbols = symbols;
        let ghost added = symbols@;
        self.symbols.append(&mut symbols);
        assert(views(self.symbols@) =~= views(before.symbols@) + views(added));
        let mut i: usize = 0;
        while i < dropped.len()
            invariant
                i <= dropped@.len(),
                self.files_found == before.files_found,
                self.files_ambiguous == before.files_ambiguous,
                self.files_not_found == before.files_not_found,
                self.files_skipped == before.files_skipped,
                self.ambiguous_addresses == before.ambiguous_addresses,
                views(self.symbols@) == views(before.symbols@) + views(added),
                self@.anomalies == before@.anomalies + dropped@.take(i as int).map_values(
                    |d: (usize, usize)| (file_stem@, d.0, d.1),
                ),
            decreases dropped@.len() - i,
        {
            let ghost noted = self@.anomalies;
            let (offset, place) = dropped[i];
            self.anomalies.push((String::from_str(file_stem), offset, place));
            assert(self@.anomalies =~= noted.push((file_stem@, offset, place)));
            i = i + 1;
            assert(dropped@.take(i as int) == dropped@.take(i - 1).push(dropped@[i - 1]));
        }
        assert(dropped@.take(i as int) == dropped@);
        if offsets.len() == 0 {
            self.files_not_found.push(stem);
            assert(self@.not_found =~= before@.not_found.push(file_stem@));
        } else if offsets.len() == 1 {
            let text_start: usize = offsets[0];
            let entry = FoundFile { stem, path, text_start, text_size };
            let mut pos: usize = self.files_found.len();
            while pos > 0 && self.files_found[pos - 1].text_start > text_start
                invariant
                    pos <= self.files_found@.len(),
                    self.files_found == before.files_found,
                    forall|i: int|
                        pos <= i < self.files_found@.len() ==> (
                        #[trigger] before@.found[i]).rank() > text_start,
                decreases pos,
            {
                pos = pos - 1;
            }
            proof {
                assert(pos > 0 ==> before@.found[pos - 1].rank() <= text_start);
                lemma_inserted_at(before@.found, entry@, pos as int);
            }
            self.files_found.insert(pos, entry);
            assert(self@.found =~= before@.found.insert(pos as int, entry@));
        } else {
            let first: usize = offsets[0];
            let ghost entry = (file_stem@, offsets@);
            let mut pos: usize = self.files_ambiguous.len();
            while pos > 0 && (self.files_ambiguous[pos - 1].1.len() > 0
                && self.files_ambiguous[pos - 1].1[0] > first)
                invariant
                    pos <= self.files_ambiguous@.len(),
                    self.files_ambiguous == before.files_ambiguous,
                    forall|i: int|
                        pos <= i < self.files_ambiguous@.len() ==> (
                        #[trigger] before@.ambiguous[i]).rank() > first,
                decreases pos,
            {
                pos = pos - 1;
            }
            proof {
                assert(entry.rank() == first);
                assert(pos > 0 ==> before@.ambiguous[pos - 1].rank() <= first);
                lemma_inserted_at(before@.ambiguous, entry, pos as int);
            }
            self.files_ambiguous.insert(pos, (stem, offsets));
            assert(self@.ambiguous =~= before@.ambiguous.insert(pos as int, entry));
        }
    }

    /// Closes the account: names the offsets at which several found objects
    /// start, and puts the symbols in their final order, without repeats.
    pub fn finish(&mut self)
        ensures
            final(self)@ == finished(old(self)@),
    {
        let ghost before = *self;
        let ghost starts = starts_of(before@.found);
        let mut shared: Vec<usize> = Vec::new();
        let mut seen: Vec<usize> = Vec::new();
        let mut k: usize = 0;
        assert(seen@ == starts.take(0));
        while k < self.files_found.len()
            invariant
                k <= self.files_found@.len(),
                *self == before,
                starts == starts_of(before@.found),
                seen@ == starts.take(k as int),
                shared@ == collisions(starts.take(k as int)),
            decreases self.files_found@.len() - k,
        {
            let x: usize = self.files_found[k].text_start;
            proof {
                assert(starts.take(k + 1).drop_last() == starts.take(k as int));
                assert(starts.take(k + 1).last() == x);
            }
            if holds_offset(seen.as_slice(), x) && !holds_offset(shared.as_slice(), x) {
                shared.push(x);
            }
            seen.push(x);
            assert(seen@ == starts.take(k + 1));
            k = k + 1;
        }
        assert(starts.take(k as int) == starts);
        self.ambiguous_addresses = shared;
        self.symbols = finish_symbols(&self.symbols);
    }
}

/// Searches the image for every candidate, in the order given, and returns
/// the closed report.
///
/// `rom_words` are the words of the image, the first of them at byte offset
/// `start` of the image file and at the address `base_address`.
pub fn search(
    config: &Config,
    rom_words: &[u32],
    start: usize,
    base_address: u32,
    candidates: Vec<Candidate>,
    ambiguous_names: &Vec<String>,
) -> (report: Report)
    requires
        4 * rom_words@.len() + start <= usize::MAX,
    ensures
        report@ == finished(
            searched(
                candidate_views(candidates@),
                config.endian,
                rom_words@,
                base_address,
                start as int,
                texts(ambiguous_names@),
            ),
        ),
{
    let mut report = Report::new();
    let mut rest = candidates;
    let ghost given = rest@;
    let ghost all = candidate_views(given);
    let ghost mut k: int = 0;
    assert(all.take(0) == Seq::<CandidateView>::empty());
    while rest.len() > 0
        invariant
            4 * rom_words@.len() + start <= usize::MAX,
            0 <= k <= all.len(),
            all == candidate_views(given),
            rest@ == given.skip(k),
            report@ == searched(
                all.take(k),
                config.endian,
                rom_words@,
                base_address,
                start as int,
                texts(ambiguous_names@),
            ),
        decreases rest@.len(),
    {
        let Candidate { stem, path, object } = rest.remove(0);
        proof {
            assert(all.take(k + 1).drop_last() == all.take(k));
            assert(all.take(k + 1).last() == all[k]);
            assert(all[k] == given[k]@);
            assert(rest@ == given.skip(k + 1));
        }
        let by_name = listed(ambiguous_names, &stem);
        let found = match_object(
            config,
            rom_words,
            start,
            base_address,
            &object,
            stem.as_str(),
            by_name,
        );
        report.record(stem.as_str(), path, found);
        proof {
            k = k + 1;
        }
    }
    assert(all.take(k) == all);
    report.finish();
    report
}

/// Searches an input file for every candidate and returns the closed
/// report; none where the file yields no image to search.
///
/// The report is a function of what is handed in: of the configuration, the
/// bytes of the file, the candidates in their order and the names.
pub fn analyse(
    config: &Config,
    romfile: &Vec<u8>,
    candidates: Vec<Candidate>,
    ambiguous_names: &Vec<String>,
) -> (report: Option<Report>)
    ensures
        match analysed(*config, romfile@, candidate_views(candidates@), texts(ambiguous_names@)) {
            Some(expected) => report is Some && report->Some_0@ == expected,
            None => report is None,
        },
{
    match read_image(config, romfile) {
        Some(image) => Some(
            search(
                config,
                image.words.as_slice(),
                image.start,
                image.base_address,
                candidates,
                ambiguous_names,
            ),
        ),
        None => None,
    }
}

/// The same input gives the same report: whatever two searches of one file
/// for the same candidates return is equal.
pub proof fn lemma_same_input_same_report(
    config: Config,
    file: Seq<u8>,
    candidates: Seq<CandidateView>,
    ambiguous_names: Seq<Seq<char>>,
    first: Option<ReportView>,
    second: Option<ReportView>,
)
    requires
        first == analysed(config, file, candidates, ambiguous_names),
        second == analysed(config, file, candidates, ambiguous_names),
    ensures
        first == second,
{
}

/// What `collisions` holds: the offsets that occur at two places of
/// `starts`, and no offset twice.
pub proof fn lemma_collisions(starts: Seq<usize>)
    ensures
        forall|a: usize|
            collisions(starts).contains(a) <==> exists|i: int, j: int|
                0 <= i < j < starts.len() && #[trigger] starts[i] == a && #[trigger] starts[j] == a,
        forall|m: int, n: int|
            0 <= m < n < collisions(starts).len() ==> collisions(starts)[m] != collisions(
                starts,
            )[n],
    decreases starts.len(),
{
    let all = collisions(starts);
    if starts.len() > 0 {
        let shorter = starts.drop_last();
        let earlier = collisions(shorter);
        let x = starts.last();
        lemma_collisions(shorter);
        assert(forall|i: int| 0 <= i < shorter.len() ==> shorter[i] == starts[i]);
        assert forall|a: usize| all.contains(a) implies exists|i: int, j: int|
            0 <= i < j < starts.len() && #[trigger] starts[i] == a && #[trigger] starts[j]
                == a by {
            let m = choose|m: int| 0 <= m < all.len() && all[m] == a;
            if m < earlier.len() {
                assert(earlier[m] == a);
                assert(earlier.contains(a));
                let (i, j) = choose|i: int, j: int|
                    0 <= i < j < shorter.len() && #[trigger] shorter[i] == a
                        && #[trigger] shorter[j] == a;
                assert(starts[i] == a && starts[j] == a);
            } else {
                assert(a == x);
                let i = choose|i: int| 0 <= i < shorter.len() && shorter[i] == x;
                assert(starts[i] == a && starts[starts.len() - 1] == a);
            }
        }
        assert forall|a: usize|
            (exists|i: int, j: int|
                0 <= i < j < starts.len() && #[trigger] starts[i] == a && #[trigger] starts[j]
                    == a) implies all.contains(a) by {
            let (i, j) = choose|i: int, j: int|
                0 <= i < j < starts.len() && #[trigger] starts[i] == a && #[trigger] starts[j]
                    == a;
            if j < starts.len() - 1 {
                assert(shorter[i] == a && shorter[j] == a);
                assert(earlier.contains(a));
                let m = choose|m: int| 0 <= m < earlier.len() && earlier[m] == a;
                assert(all[m] == a);
            } else {
                assert(shorter[i] == x);
                assert(shorter.contains(x));
                if earlier.contains(x) {
                    let m = choose|m: int| 0 <= m < earlier.len() && earlier[m] == x;
                    assert(all[m] == a);
                } else {
                    assert(all[earlier.len() as int] == x);
                }
            }
        }
        assert forall|m: int, n: int| 0 <= m < n < all.len() implies all[m] != all[n] by {
            if n < earlier.len() {
                assert(all[m] == earlier[m] && all[n] == earlier[n]);
            } else {
                assert(all[m] == earlier[m]);
                assert(earlier.contains(earlier[m]));
            }
        }
    }
}

/// The offsets that several objects share come in ascending order where the
/// objects do.
pub proof fn lemma_collisions_ascend(starts: Seq<usize>)
    requires
        forall|i: int, j: int| 0 <= i < j < starts.len() ==> starts[i] <= starts[j],
    ensures
        forall|m: int, n: int|
            0 <= m < n < collisions(starts).len() ==> collisions(starts)[m] < collisions(
                starts,
            )[n],
        forall|m: int|
            0 <= m < collisions(starts).len() ==> starts.contains(#[trigger] collisions(starts)[m]),
    decreases starts.len(),
{
    let all = collisions(starts);
    if starts.len() > 0 {
        let shorter = starts.drop_last();
        let earlier = collisions(shorter);
        let x = starts.last();
        lemma_collisions_ascend(shorter);
        assert(forall|i: int| 0 <= i < shorter.len() ==> shorter[i] == starts[i]);
        assert forall|m: int| 0 <= m < all.len() implies starts.contains(#[trigger] all[m]) by {
            if m < earlier.len() {
                assert(all[m] == earlier[m]);
                let i = choose|i: int| 0 <= i < shorter.len() && shorter[i] == earlier[m];
                assert(starts[i] == all[m]);
            } else {
                assert(starts[starts.len() - 1] == all[m]);
            }
        }
        assert forall|m: int, n: int| 0 <= m < n < all.len() implies all[m] < all[n] by {
            if n < earlier.len() {
                assert(all[m] == earlier[m] && all[n] == earlier[n]);
            } else {
                assert(all[m] == earlier[m]);
                assert(all[n] == x);
                assert(earlier.contains(earlier[m]));
                let i = choose|i: int| 0 <= i < shorter.len() && shorter[i] == earlier[m];
                assert(starts[i] <= starts[starts.len() - 1]);
            }
        }
    }
}

/// While objects are recorded, the objects found stay in the order of their
/// offsets and the ambiguous objects in the order of their first offsets.
pub proof fn lemma_recorded_in_order(
    report: ReportView,
    stem: Seq<char>,
    path: PathBuf,
    found: ObjectMatchView,
)
    requires
        in_order(report.found),
        in_order(report.ambiguous),
    ensures
        in_order(recorded(report, stem, path, found).found),
        in_order(recorded(report, stem, path, found).ambiguous),
{
    if found.skipped is None && found.offsets.len() == 1 {
        lemma_inserted(
            report.found,
            FoundFileView {
                stem,
                path,
                text_start: found.offsets[0],
                text_size: found.text_size,
            },
        );
    } else if found.skipped is None && found.offsets.len() > 1 {
        lemma_inserted(report.ambiguous, (stem, found.offsets));
    }
}

/// Before a report is closed its lists are in order already.
pub proof fn lemma_searched_in_order(
    candidates: Seq<CandidateView>,
    endian: Endian,
    image: Seq<u32>,
    base: u32,
    start: int,
    ambiguous_names: Seq<Seq<char>>,
)
    ensures
        in_order(searched(candidates, endian, image, base, start, ambiguous_names).found),
        in_order(searched(candidates, endian, image, base, start, ambiguous_names).ambiguous),
    decreases candidates.len(),
{
    if candidates.len() > 0 {
        let c = candidates.last();
        lemma_searched_in_order(
            candidates.drop_last(),
            endian,
            image,
            base,
            start,
            ambiguous_names,
        );
        lemma_recorded_in_order(
            searched(candidates.drop_last(), endian, image, base, start, ambiguous_names),
            c.stem,
            c.path,
            object_match(
                c.object,
                c.stem,
                endian,
                image,
                base,
                start,
                ambiguous_names.contains(c.stem),
            ),
        );
    }
}

/// The order of a report: the objects found are listed by ascending offset,
/// the ambiguous objects by ascending first offset, the shared offsets
/// ascend, and the symbols are sorted by address, at one address by
/// descending size, with no name twice at one address.
pub proof fn lemma_report_order(
    candidates: Seq<CandidateView>,
    endian: Endian,
    image: Seq<u32>,
    base: u32,
    start: int,
    ambiguous_names: Seq<Seq<char>>,
)
    ensures
        ({
            let report = finished(
                searched(candidates, endian, image, base, start, ambiguous_names),
            );
            &&& in_order(report.found)
            &&& in_order(report.ambiguous)
            &&& forall|m: int, n: int|
                0 <= m < n < report.ambiguous_addresses.len() ==> report.ambiguous_addresses[m]
                    < report.ambiguous_addresses[n]
            &&& is_sorted(report.symbols)
            &&& no_repeats(report.symbols, true)
        }),
{
    let before = searched(candidates, endian, image, base, start, ambiguous_names);
    lemma_searched_in_order(candidates, endian, image, base, start, ambiguous_names);
    lemma_final_symbols(before.symbols);
    let starts = starts_of(before.found);
    assert forall|i: int, j: int| 0 <= i < j < starts.len() implies starts[i] <= starts[j] by {
        assert(before.found[i].rank() <= before.found[j].rank());
    }
    lemma_collisions_ascend(starts);
}

/// What the search for the `m`-th candidate comes to.
pub open spec fn outcome(
    candidates: Seq<CandidateView>,
    m: int,
    endian: Endian,
    image: Seq<u32>,
    base: u32,
    start: int,
    ambiguous_names: Seq<Seq<char>>,
) -> ObjectMatchView {
    object_match(
        candidates[m].object,
        candidates[m].stem,
        endian,
        image,
        base,
        start,
        ambiguous_names.contains(candidates[m].stem),
    )
}

/// How an object stands by the number of places where it fits: 0 for one
/// that fits nowhere, 1 for one that fits at one place, 2 for one that fits
/// at several.
pub open spec fn standing(found: ObjectMatchView) -> int {
    if found.offsets.len() == 0 {
        0
    } else if found.offsets.len() == 1 {
        1
    } else {
        2
    }
}

/// The `m`-th candidate goes by the name `stem`, was not left out and stands
/// as `class` says.
pub open spec fn stands_as(
    candidates: Seq<CandidateView>,
    m: int,
    endian: Endian,
    image: Seq<u32>,
    base: u32,
    start: int,
    ambiguous_names: Seq<Seq<char>>,
    stem: Seq<char>,
    class: int,
) -> bool {
    let found = outcome(candidates, m, endian, image, base, start, ambiguous_names);
    candidates[m].stem == stem && found.skipped is None && standing(found) == class
}

/// Some candidate goes by the name `stem`, was not left out and stands as
/// `class` says.
pub open spec fn some_stands_as(
    candidates: Seq<CandidateView>,
    endian: Endian,
    image: Seq<u32>,
    base: u32,
    start: int,
    ambiguous_names: Seq<Seq<char>>,
    stem: Seq<char>,
    class: int,
) -> bool {
    exists|m: int|
        0 <= m < candidates.len() && #[trigger] stands_as(
            candidates,
            m,
            endian,
            image,
            base,
            start,
            ambiguous_names,
            stem,
            class,
        )
}

/// No two candidates go by the same name.
pub open spec fn distinct_stems(candidates: Seq<CandidateView>) -> bool {
    forall|i: int, j: int|
        0 <= i < j < candidates.len() ==> candidates[i].stem != candidates[j].stem
}

/// The entry of the list of found objects for the `m`-th candidate, where
/// it fits at exactly one place.
pub open spec fn found_entry(
    candidates: Seq<CandidateView>,
    m: int,
    endian: Endian,
    image: Seq<u32>,
    base: u32,
    start: int,
    ambiguous_names: Seq<Seq<char>>,
) -> FoundFileView {
    let found = outcome(candidates, m, endian, image, base, start, ambiguous_names);
    FoundFileView {
        stem: candidates[m].stem,
        path: candidates[m].path,
        text_start: found.offsets[0],
        text_size: found.text_size,
    }
}

/// A candidate that fits at exactly one place is among the objects found,
/// at that place.
pub proof fn lemma_found_is_listed(
    candidates: Seq<CandidateView>,
    endian: Endian,
    image: Seq<u32>,
    base: u32,
    start: int,
    ambiguous_names: Seq<Seq<char>>,
    m: int,
)
    requires
        0 <= m < candidates.len(),
        outcome(candidates, m, endian, image, base, start, ambiguous_names).skipped is None,
        outcome(candidates, m, endian, image, base, start, ambiguous_names).offsets.len() == 1,
    ensures
        searched(candidates, endian, image, base, start, ambiguous_names).found.contains(
            found_entry(candidates, m, endian, image, base, start, ambiguous_names),
        ),
    decreases candidates.len(),
{
    let shorter = candidates.drop_last();
    let before = searched(shorter, endian, image, base, start, ambiguous_names);
    let last = candidates.len() - 1;
    let found = outcome(candidates, last, endian, image, base, start, ambiguous_names);
    let entry = found_entry(candidates, m, endian, image, base, start, ambiguous_names);
    if found.skipped is None && found.offsets.len() == 1 {
        lemma_inserted_holds(
            before.found,
            found_entry(candidates, last, endian, image, base, start, ambiguous_names),
        );
    }
    if m < last {
        assert(shorter[m] == candidates[m]);
        lemma_found_is_listed(shorter, endian, image, base, start, ambiguous_names, m);
        assert(before.found.contains(entry));
    }
}

/// Every entry of a report's three lists is there for a candidate of its
/// name that was not left out and fits at as many places as the list says.
pub proof fn lemma_listed_for_a_reason(
    candidates: Seq<CandidateView>,
    endian: Endian,
    image: Seq<u32>,
    base: u32,
    start: int,
    ambiguous_names: Seq<Seq<char>>,
)
    ensures
        forall|n: int|
            0 <= n < searched(
                candidates,
                endian,
                image,
                base,
                start,
                ambiguous_names,
            ).not_found.len() ==> some_stands_as(
                candidates,
                endian,
                image,
                base,
                start,
                ambiguous_names,
                #[trigger] searched(
                    candidates,
                    endian,
                    image,
                    base,
                    start,
                    ambiguous_names,
                ).not_found[n],
                0,
            ),
        forall|n: int|
            0 <= n < searched(
                candidates,
                endian,
                image,
                base,
                start,
                ambiguous_names,
            ).found.len() ==> some_stands_as(
                candidates,
                endian,
                image,
                base,
                start,
                ambiguous_names,
                (#[trigger] searched(
                    candidates,
                    endian,
                    image,
                    base,
                    start,
                    ambiguous_names,
                ).found[n]).stem,
                1,
            ),
        forall|n: int|
            0 <= n < searched(
                candidates,
                endian,
                image,
                base,
                start,
                ambiguous_names,
            ).ambiguous.len() ==> some_stands_as(
                candidates,
                endian,
                image,
                base,
                start,
                ambiguous_names,
                (#[trigger] searched(
                    candidates,
                    endian,
                    image,
                    base,
                    start,
                    ambiguous_names,
                ).ambiguous[n]).0,
                2,
            ),
    decreases candidates.len(),
{
    if candidates.len() > 0 {
        let shorter = candidates.drop_last();
        let before = searched(shorter, endian, image, base, start, ambiguous_names);
        let after = searched(candidates, endian, image, base, start, ambiguous_names);
        let last = candidates.len() - 1;
        let c = candidates[last];
        let found = outcome(candidates, last, endian, image, base, start, ambiguous_names);
        lemma_listed_for_a_reason(shorter, endian, image, base, start, ambiguous_names);
        lemma_searched_in_order(shorter, endian, image, base, start, ambiguous_names);
        assert forall|stem: Seq<char>, class: int|
            some_stands_as(
                shorter,
                endian,
                image,
                base,
                start,
                ambiguous_names,
                stem,
                class,
            ) implies some_stands_as(
            candidates,
            endian,
            image,
            base,
            start,
            ambiguous_names,
            stem,
            class,
        ) by {
            let m = choose|m: int|
                0 <= m < shorter.len() && #[trigger] stands_as(
                    shorter,
                    m,
                    endian,
                    image,
                    base,
                    start,
                    ambiguous_names,
                    stem,
                    class,
                );
            assert(shorter[m] == candidates[m]);
            assert(stands_as(
                candidates,
                m,
                endian,
                image,
                base,
                start,
                ambiguous_names,
                stem,
                class,
            ));
        }
        if found.skipped is None {
            assert(stands_as(
                candidates,
                last,
                endian,
                image,
                base,
                start,
                ambiguous_names,
                c.stem,
                standing(found),
            ));
        }
        assert forall|n: int| 0 <= n < after.not_found.len() implies some_stands_as(
            candidates,
            endian,
            image,
            base,
            start,
            ambiguous_names,
            #[trigger] after.not_found[n],
            0,
        ) by {
            if n < before.not_found.len() {
                assert(after.not_found[n] == before.not_found[n]);
            }
        }
        let entry = FoundFileView {
            stem: c.stem,
            path: c.path,
            text_start: found.offsets[0],
            text_size: found.text_size,
        };
        lemma_inserted(before.found, entry);
        lemma_inserted(before.ambiguous, (c.stem, found.offsets));
        assert forall|n: int| 0 <= n < after.found.len() implies some_stands_as(
            candidates,
            endian,
            image,
            base,
            start,
            ambiguous_names,
            (#[trigger] after.found[n]).stem,
            1,
        ) by {
            if after.found[n] != entry || !(found.skipped is None && found.offsets.len() == 1) {
                assert(before.found.contains(after.found[n]));
                let k = choose|k: int|
                    0 <= k < before.found.len() && before.found[k] == after.found[n];
                assert(some_stands_as(
                    shorter,
                    endian,
                    image,
                    base,
                    start,
                    ambiguous_names,
                    before.found[k].stem,
                    1,
                ));
            }
        }
        assert forall|n: int| 0 <= n < after.ambiguous.len() implies some_stands_as(
            candidates,
            endian,
            image,
            base,
            start,
            ambiguous_names,
            (#[trigger] after.ambiguous[n]).0,
            2,
        ) by {
            if after.ambiguous[n] != (c.stem, found.offsets) || !(found.skipped is None
                && found.offsets.len() > 1) {
                assert(before.ambiguous.contains(after.ambiguous[n]));
                let k = choose|k: int|
                    0 <= k < before.ambiguous.len() && before.ambiguous[k] == after.ambiguous[n];
                assert(some_stands_as(
                    shorter,
                    endian,
                    image,
                    base,
                    start,
                    ambiguous_names,
                    before.ambiguous[k].0,
                    2,
                ));
            }
        }
    }
}

/// Two candidates with the same content, one of which fits at exactly one
/// place, are both found at that place, and the place is told as shared.
/// Where no two candidates go by the same name, neither of the two stands
/// among the objects not found or among the ambiguous ones.
pub proof fn lemma_twins_are_both_found(
    candidates: Seq<CandidateView>,
    endian: Endian,
    image: Seq<u32>,
    base: u32,
    start: int,
    ambiguous_names: Seq<Seq<char>>,
    a: int,
    b: int,
)
    requires
        0 <= a < candidates.len(),
        0 <= b < candidates.len(),
        a != b,
        distinct_stems(candidates),
        candidates[a].object == candidates[b].object,
        outcome(candidates, a, endian, image, base, start, ambiguous_names).skipped is None,
        outcome(candidates, a, endian, image, base, start, ambiguous_names).offsets.len() == 1,
    ensures
        ({
            let report = finished(
                searched(candidates, endian, image, base, start, ambiguous_names),
            );
            let place = outcome(
                candidates,
                a,
                endian,
                image,
                base,
                start,
                ambiguous_names,
            ).offsets[0];
            let first = found_entry(candidates, a, endian, image, base, start, ambiguous_names);
            let second = found_entry(candidates, b, endian, image, base, start, ambiguous_names);
            &&& first.text_start == place
            &&& second.text_start == place
            &&& report.found.contains(first)
            &&& report.found.contains(second)
            &&& report.ambiguous_addresses.contains(place)
            &&& !report.not_found.contains(candidates[a].stem)
            &&& !report.not_found.contains(candidates[b].stem)
            &&& forall|n: int|
                0 <= n < report.ambiguous.len() ==> (#[trigger] report.ambiguous[n]).0
                    != candidates[a].stem && report.ambiguous[n].0 != candidates[b].stem
        }),
{
    let before = searched(candidates, endian, image, base, start, ambiguous_names);
    let report = finished(before);
    let of_a = outcome(candidates, a, endian, image, base, start, ambiguous_names);
    let of_b = outcome(candidates, b, endian, image, base, start, ambiguous_names);
    let place = of_a.offsets[0];
    let first = found_entry(candidates, a, endian, image, base, start, ambiguous_names);
    let second = found_entry(candidates, b, endian, image, base, start, ambiguous_names);
    assert(of_b.offsets == of_a.offsets);
    assert(of_b.skipped == of_a.skipped);
    assert(candidates[a].stem != candidates[b].stem) by {
        if a < b {
            assert(candidates[a].stem != candidates[b].stem);
        } else {
            assert(candidates[b].stem != candidates[a].stem);
        }
    }
    lemma_found_is_listed(candidates, endian, image, base, start, ambiguous_names, a);
    lemma_found_is_listed(candidates, endian, image, base, start, ambiguous_names, b);
    lemma_listed_for_a_reason(candidates, endian, image, base, start, ambiguous_names);
    let starts = starts_of(before.found);
    lemma_collisions(starts);
    let i = choose|i: int| 0 <= i < before.found.len() && before.found[i] == first;
    let j = choose|j: int| 0 <= j < before.found.len() && before.found[j] == second;
    assert(starts[i] == place && starts[j] == place);
    assert(i != j);
    assert(collisions(starts).contains(place)) by {
        if i < j {
            assert(starts[i] == place && starts[j] == place);
        } else {
            assert(starts[j] == place && starts[i] == place);
        }
    }
    assert forall|stem: Seq<char>, class: int|
        (stem == candidates[a].stem || stem == candidates[b].stem) && class
            != 1 implies !some_stands_as(
            candidates,
            endian,
            image,
            base,
            start,
            ambiguous_names,
            stem,
            class,
        ) by {
        if some_stands_as(candidates, endian, image, base, start, ambiguous_names, stem, class) {
            let m = choose|m: int|
                0 <= m < candidates.len() && #[trigger] stands_as(
                    candidates,
                    m,
                    endian,
                    image,
                    base,
                    start,
                    ambiguous_names,
                    stem,
                    class,
                );
            let twin = if stem == candidates[a].stem {
                a
            } else {
                b
            };
            if m < twin {
                assert(candidates[m].stem != candidates[twin].stem);
            } else if twin < m {
                assert(candidates[twin].stem != candidates[m].stem);
            }
            assert(m == twin);
        }
    }
    assert forall|n: int| 0 <= n < report.not_found.len() implies (
    #[trigger] report.not_found[n]) != candidates[a].stem && report.not_found[n]
        != candidates[b].stem by {
        assert(some_stands_as(
            candidates,
            endian,
            image,
            base,
            start,
            ambiguous_names,
            before.not_found[n],
            0,
        ));
    }
    assert forall|n: int| 0 <= n < report.ambiguous.len() implies (
    #[trigger] report.ambiguous[n]).0 != candidates[a].stem && report.ambiguous[n].0
        != candidates[b].stem by {
        assert(some_stands_as(
            candidates,
            endian,
            image,
            base,
            start,
            ambiguous_names,
            before.ambiguous[n].0,
            2,
        ));
    }
}

} // verus!
