//! Matching files against the catalog by size and digest.
//!
//! A file is identified by its size and its digest together. The roms of
//! the system that agree in both and have no file yet are its candidates;
//! what becomes of the file depends on how many there are.

use crate::catalog::{
    lemma_candidate_member, lemma_no_candidate, romfile_with_id, view_of, Catalog, CatalogView,
};
use crate::model::{views, HashAlgorithm, Rom, RomView, Romfile, RomfileView, System};
use crate::path::{file_name, file_name_of};
use crate::text::same_text;
use vstd::prelude::*;

verus! {

/// A member of a container, with the size and digest that identify it.
#[derive(Debug, PartialEq, Eq)]
pub struct ContainerEntry {
    pub name: String,
    pub size: u64,
    pub hash: String,
}

/// The view of [`ContainerEntry`]: the same record over mathematical values.
pub struct ContainerEntryView {
    pub name: Seq<char>,
    pub size: u64,
    pub hash: Seq<char>,
}

impl View for ContainerEntry {
    type V = ContainerEntryView;

    open spec fn view(&self) -> ContainerEntryView {
        ContainerEntryView { name: self.name@, size: self.size, hash: self.hash@ }
    }
}

impl Clone for ContainerEntry {
    fn clone(&self) -> (copy: Self)
        ensures
            copy == *self,
    {
        ContainerEntry { name: self.name.clone(), size: self.size, hash: self.hash.clone() }
    }
}

/// What the catalog says of one file.
#[derive(Debug, PartialEq, Eq)]
pub enum Resolution {
    /// The file is this rom.
    Matched(Rom),
    /// The file may be any of these roms, and its name does not settle which.
    Ambiguous(Vec<Rom>),
    /// No rom agrees with the file in size and digest.
    NoMatch,
    /// The rom that the file would be has this file already.
    AlreadyFiled(Romfile),
}

/// The view of [`Resolution`].
pub enum ResolutionView {
    Matched(RomView),
    Ambiguous(Seq<RomView>),
    NoMatch,
    AlreadyFiled(RomfileView),
}

impl View for Resolution {
    type V = ResolutionView;

    open spec fn view(&self) -> ResolutionView {
        match self {
            Resolution::Matched(rom) => ResolutionView::Matched(rom@),
            Resolution::Ambiguous(roms) => ResolutionView::Ambiguous(views(roms@)),
            Resolution::NoMatch => ResolutionView::NoMatch,
            Resolution::AlreadyFiled(romfile) => ResolutionView::AlreadyFiled(romfile@),
        }
    }
}

/// The candidates that bear exactly the given name, in order.
pub open spec fn named(candidates: Seq<RomView>, name: Seq<char>) -> Seq<RomView>
    decreases candidates.len(),
{
    if candidates.len() == 0 {
        Seq::empty()
    } else {
        let rest = named(candidates.drop_last(), name);
        if candidates.last().name == name {
            rest.push(candidates.last())
        } else {
            rest
        }
    }
}

/// What a single surviving candidate resolves to: itself, or the romfile
/// that it is bound to. A candidate bound to a romfile that is not recorded
/// cannot be claimed.
pub open spec fn settled(romfiles: Seq<RomfileView>, rom: RomView) -> ResolutionView {
    match rom.romfile_id {
        None => ResolutionView::Matched(rom),
        Some(id) => match romfile_with_id(romfiles, id) {
            Some(romfile) => ResolutionView::AlreadyFiled(romfile),
            None => ResolutionView::NoMatch,
        },
    }
}

/// The resolution of a file from its candidates: none is no match, one is
/// settled, and among several the one that alone bears the file's name is
/// settled; otherwise the file stays ambiguous.
pub open spec fn classified(
    romfiles: Seq<RomfileView>,
    candidates: Seq<RomView>,
    name: Option<Seq<char>>,
) -> ResolutionView {
    if candidates.len() == 0 {
        ResolutionView::NoMatch
    } else if candidates.len() == 1 {
        settled(romfiles, candidates[0])
    } else {
        match name {
            Some(n) => if named(candidates, n).len() == 1 {
                settled(romfiles, named(candidates, n)[0])
            } else {
                ResolutionView::Ambiguous(candidates)
            },
            None => ResolutionView::Ambiguous(candidates),
        }
    }
}

/// The resolution of a file called `name`, of `size` bytes and with digest
/// `hash`, against the roms of a system that are neither filed nor claimed.
pub open spec fn resolution_of(
    catalog: CatalogView,
    claimed: Seq<i64>,
    name: Seq<char>,
    size: u64,
    hash: Seq<char>,
    system_id: i64,
    algorithm: HashAlgorithm,
) -> ResolutionView {
    classified(
        catalog.romfiles,
        catalog.candidates(claimed, size, hash, system_id, algorithm),
        file_name_of(name),
    )
}

/// The rom that a choice among candidates stands for.
pub open spec fn picked(candidates: Seq<RomView>, choice: Option<usize>) -> Option<RomView> {
    match choice {
        Some(i) => if i < candidates.len() {
            Some(candidates[i as int])
        } else {
            None
        },
        None => None,
    }
}

/// Whether `outcome` is a rom that a file with this resolution may be given:
/// the matched rom and no other, one of the candidates or none where the
/// file is ambiguous, and none otherwise.
pub open spec fn follows(resolution: ResolutionView, outcome: Option<RomView>) -> bool {
    match resolution {
        ResolutionView::Matched(rom) => outcome == Some(rom),
        ResolutionView::Ambiguous(candidates) => outcome is None || candidates.contains(outcome->0),
        ResolutionView::NoMatch => outcome is None,
        ResolutionView::AlreadyFiled(_) => outcome is None,
    }
}

/// Each of the candidates that bear a name is one of the candidates.
pub proof fn lemma_named_member(candidates: Seq<RomView>, name: Seq<char>, k: int)
    requires
        0 <= k < named(candidates, name).len(),
    ensures
        candidates.contains(named(candidates, name)[k]),
        named(candidates, name)[k].name == name,
    decreases candidates.len(),
{
    let rest = named(candidates.drop_last(), name);
    if k < rest.len() {
        lemma_named_member(candidates.drop_last(), name, k);
        let i = choose|i: int|
            0 <= i < candidates.drop_last().len() && candidates.drop_last()[i] == rest[k];
        assert(candidates[i] == rest[k]);
    } else {
        assert(candidates[candidates.len() - 1] == candidates.last());
    }
}

/// A rom that a file may be given is a rom of the catalog that the file
/// can claim: it has no file yet, it is not claimed, it belongs to the
/// system, and it agrees with the file in size and in digest.
pub proof fn lemma_outcome_is_candidate(
    catalog: CatalogView,
    claimed: Seq<i64>,
    name: Seq<char>,
    size: u64,
    hash: Seq<char>,
    system_id: i64,
    algorithm: HashAlgorithm,
    rom: RomView,
)
    requires
        follows(resolution_of(catalog, claimed, name, size, hash, system_id, algorithm), Some(rom)),
    ensures
        catalog.roms.contains(rom),
        catalog.is_candidate(rom, claimed, size, hash, system_id, algorithm),
{
    let candidates = catalog.candidates(claimed, size, hash, system_id, algorithm);
    let resolution = resolution_of(catalog, claimed, name, size, hash, system_id, algorithm);
    let k = match resolution {
        ResolutionView::Matched(_) => {
            if candidates.len() == 1 {
                0
            } else {
                let survivors = named(candidates, file_name_of(name)->0);
                lemma_named_member(candidates, file_name_of(name)->0, 0);
                choose|k: int| 0 <= k < candidates.len() && candidates[k] == survivors[0]
            }
        },
        _ => choose|k: int| 0 <= k < candidates.len() && candidates[k] == rom,
    };
    assert(candidates[k] == rom);
    lemma_candidate_member(
        catalog,
        catalog.roms.len() as int,
        claimed,
        size,
        hash,
        system_id,
        algorithm,
        k,
    );
}

/// A file is matched only to a rom that agrees with it in size and in
/// digest: agreement in one of the two is no match. Where no rom of the
/// catalog agrees in both, the file has no match.
pub proof fn lemma_match_is_exact(
    catalog: CatalogView,
    claimed: Seq<i64>,
    name: Seq<char>,
    size: u64,
    hash: Seq<char>,
    system_id: i64,
    algorithm: HashAlgorithm,
)
    ensures
        match resolution_of(catalog, claimed, name, size, hash, system_id, algorithm) {
            ResolutionView::Matched(rom) => rom.size == size && rom.digest(algorithm) == Some(hash),
            _ => true,
        },
        (forall|i: int|
            0 <= i < catalog.roms.len() ==> !(#[trigger] catalog.roms[i]).has_identity(
                size,
                hash,
                algorithm,
            )) ==> resolution_of(catalog, claimed, name, size, hash, system_id, algorithm)
            == ResolutionView::NoMatch,
{
    match resolution_of(catalog, claimed, name, size, hash, system_id, algorithm) {
        ResolutionView::Matched(rom) => {
            lemma_outcome_is_candidate(catalog, claimed, name, size, hash, system_id, algorithm, rom);
        },
        _ => {},
    }
    if forall|i: int|
        0 <= i < catalog.roms.len() ==> !(#[trigger] catalog.roms[i]).has_identity(
            size,
            hash,
            algorithm,
        ) {
        lemma_no_candidate(
            catalog,
            catalog.roms.len() as int,
            claimed,
            size,
            hash,
            system_id,
            algorithm,
        );
    }
}

/// Resolves a file to the one candidate that is left for it.
pub fn settle(catalog: &Catalog, rom: Rom) -> (resolution: Resolution)
    ensures
        resolution@ == settled(catalog@.romfiles, rom@),
{
    match rom.romfile_id {
        None => Resolution::Matched(rom),
        Some(id) => match catalog.find_romfile_by_id(id) {
            Some(romfile) => Resolution::AlreadyFiled(romfile),
            None => Resolution::NoMatch,
        },
    }
}

/// Resolves a file from the candidates that a lookup gave for it.
pub fn classify(catalog: &Catalog, candidates: Vec<Rom>, entry_name: &str) -> (resolution:
    Resolution)
    ensures
        resolution@ == classified(catalog@.romfiles, views(candidates@), file_name_of(entry_name@)),
{
    if candidates.len() == 0 {
        return Resolution::NoMatch;
    }
    if candidates.len() == 1 {
        return settle(catalog, candidates[0].clone());
    }
    let base = match file_name(entry_name) {
        Some(base) => base,
        None => {
            return Resolution::Ambiguous(candidates);
        },
    };
    let ghost all = views(candidates@);
    let mut count: usize = 0;
    let mut at: usize = 0;
    let mut i: usize = 0;
    while i < candidates.len()
        invariant
            i <= candidates.len(),
            all == views(candidates@),
            count <= i,
            count == named(all.take(i as int), base@).len(),
            count == 1 ==> at < i && named(all.take(i as int), base@)[0] == all[at as int],
        decreases candidates.len() - i,
    {
        assert(all.take(i + 1).drop_last() == all.take(i as int));
        if same_text(candidates[i].name.as_str(), base.as_str()) {
            if count == 0 {
                at = i;
            }
            count += 1;
        }
        i += 1;
    }
    assert(all.take(i as int) == all);
    if count == 1 {
        settle(catalog, candidates[at].clone())
    } else {
        Resolution::Ambiguous(candidates)
    }
}

/// Resolves a file against the catalog.
pub fn resolve(
    catalog: &Catalog,
    claimed: &Vec<i64>,
    name: &str,
    size: u64,
    hash: &str,
    system: &System,
    algorithm: HashAlgorithm,
) -> (resolution: Resolution)
    ensures
        resolution@ == resolution_of(catalog@, claimed@, name@, size, hash@, system.id, algorithm),
{
    let candidates = catalog.find_roms_without_romfile_by_size_and_hash_and_system_id(
        claimed,
        size,
        hash,
        system.id,
        algorithm,
    );
    classify(catalog, candidates, name)
}

/// The candidate that a choice stands for; a choice outside the list is none.
pub fn pick(candidates: &Vec<Rom>, choice: Option<usize>) -> (rom: Option<Rom>)
    ensures
        view_of(rom) == picked(views(candidates@), choice),
{
    match choice {
        Some(i) => if i < candidates.len() {
            Some(candidates[i].clone())
        } else {
            None
        },
        None => None,
    }
}

/// The rom that a resolution gives its file under a choice: the matched
/// rom, or the candidate that was chosen of an ambiguous file, and none
/// otherwise.
pub open spec fn claimed_rom(resolution: ResolutionView, choice: Option<usize>) -> Option<RomView> {
    match resolution {
        ResolutionView::Matched(rom) => Some(rom),
        ResolutionView::Ambiguous(candidates) => picked(candidates, choice),
        ResolutionView::NoMatch => None,
        ResolutionView::AlreadyFiled(_) => None,
    }
}

/// Whether `choice` is an answer of `decide` to being shown these candidates.
pub open spec fn answered<F: Fn(&Vec<Rom>) -> Option<usize>>(
    decide: &F,
    candidates: Seq<RomView>,
    choice: Option<usize>,
) -> bool {
    exists|shown: &Vec<Rom>| views(shown@) == candidates && #[trigger] decide.ensures((shown,), choice)
}

/// Whether `choice` is what was chosen for a file with this resolution:
/// an answer of `decide` to the candidates of an ambiguous file, and nothing
/// for any other file, of which `decide` is not asked.
pub open spec fn told<F: Fn(&Vec<Rom>) -> Option<usize>>(
    decide: &F,
    resolution: ResolutionView,
    choice: Option<usize>,
) -> bool {
    match resolution {
        ResolutionView::Ambiguous(candidates) => answered(decide, candidates, choice),
        _ => choice is None,
    }
}

/// Whether `outcome` is the rom that a file with this resolution is given
/// where `decide` settles what is ambiguous.
pub open spec fn chosen<F: Fn(&Vec<Rom>) -> Option<usize>>(
    decide: &F,
    resolution: ResolutionView,
    outcome: Option<RomView>,
) -> bool {
    exists|choice: Option<usize>| #[trigger]
        told(decide, resolution, choice) && outcome == claimed_rom(resolution, choice)
}

/// Whatever `decide` answers, the rom that a file is given is one that its
/// resolution allows.
pub proof fn lemma_chosen_follows<F: Fn(&Vec<Rom>) -> Option<usize>>(
    decide: &F,
    resolution: ResolutionView,
    outcome: Option<RomView>,
)
    requires
        chosen(decide, resolution, outcome),
    ensures
        follows(resolution, outcome),
{
}

/// The rom that a resolution gives its file, where `choice` is what was
/// chosen among the candidates of an ambiguous one.
pub fn claim(resolution: Resolution, choice: Option<usize>) -> (rom: Option<Rom>)
    ensures
        view_of(rom) == claimed_rom(resolution@, choice),
{
    match resolution {
        Resolution::Matched(rom) => Some(rom),
        Resolution::Ambiguous(candidates) => pick(&candidates, choice),
        Resolution::NoMatch => None,
        Resolution::AlreadyFiled(_) => None,
    }
}

/// Asks `decide` which of the candidates of an ambiguous file the file is.
/// Of a file that is not ambiguous nothing is asked.
pub fn ask<F: Fn(&Vec<Rom>) -> Option<usize>>(resolution: &Resolution, decide: &F) -> (choice:
    Option<usize>)
    requires
        forall|candidates: &Vec<Rom>| decide.requires((candidates,)),
    ensures
        told(decide, resolution@, choice),
{
    match resolution {
        Resolution::Ambiguous(candidates) => decide(candidates),
        _ => None,
    }
}

/// Finds the rom that a file is. Where several roms agree with the file and
/// its name does not settle which, `decide` is asked; it answers with a
/// position among the candidates, or with none to leave the file unmatched.
pub fn find_rom_by_hash<F: Fn(&Vec<Rom>) -> Option<usize>>(
    catalog: &Catalog,
    claimed: &Vec<i64>,
    name: &str,
    size: u64,
    hash: &str,
    system: &System,
    algorithm: HashAlgorithm,
    decide: &F,
) -> (rom: Option<Rom>)
    requires
        forall|candidates: &Vec<Rom>| decide.requires((candidates,)),
    ensures
        chosen(
            decide,
            resolution_of(catalog@, claimed@, name@, size, hash@, system.id, algorithm),
            view_of(rom),
        ),
{
    let resolution = resolve(catalog, claimed, name, size, hash, system, algorithm);
    let choice = ask(&resolution, decide);
    claim(resolution, choice)
}

} // verus!
