//! Importing files: which roms a file or the entries of a container are,
//! and where each of them is to be filed.
//!
//! The functions here decide; they touch no file. Each returns what is to be
//! done with the input, and the catalog is told of a file once it is in place.

use crate::catalog::{
    bound_to, game_with_id, lemma_candidate_member, lemma_filed_once, lemma_position_of_path,
    lemma_romfile_found, own_roms, position_of_path, romfile_with_id, view_of, Catalog,
    CatalogView,
};
use crate::layout::{
    archive_destination, archive_place, chd_extension, chd_text, container_for, container_of,
    cso_extension, cso_text, cue_extension, cue_text, image_destination, image_place,
    lower_extension, lowered_extension, rom_destination, rom_place, rvz_extension, rvz_text,
    trash_destination, trash_place, Container,
};
use crate::model::{
    ids_of, views, Game, GameView, HashAlgorithm, Header, Rom, RomView, RomfileView,
    System, SystemView,
};
use crate::path::{file_name_of, join, joined, re_extended, separator_free, set_extension};
use crate::resolve::{
    ask, chosen, claim, claimed_rom, find_rom_by_hash, follows, lemma_chosen_follows,
    lemma_named_member, lemma_outcome_is_candidate, named, resolution_of, resolve, told,
    ContainerEntry, ContainerEntryView, Resolution, ResolutionView,
};
use crate::sevenzip::{ArchiveInfo, ArchiveType};
use crate::text::same_text;
use rayon::iter::{IntoParallelRefIterator, ParallelIterator};
use std::collections::HashSet;
use vstd::pervasive::unreached;
use vstd::prelude::*;
use vstd::std_specs::hash::group_hash_axioms;

verus! {

broadcast use group_hash_axioms;

/// What is to be done with an input path.
#[derive(Debug, PartialEq, Eq)]
pub enum ImportRoute {
    /// The path is recorded already: there is nothing to do.
    AlreadyInDatabase,
    /// The path is new, and is handled as a container of this family.
    Import { container: Container, extension: String },
}

/// The view of [`ImportRoute`].
pub enum ImportRouteView {
    AlreadyInDatabase,
    Import { container: Container, extension: Seq<char> },
}

impl View for ImportRoute {
    type V = ImportRouteView;

    open spec fn view(&self) -> ImportRouteView {
        match self {
            ImportRoute::AlreadyInDatabase => ImportRouteView::AlreadyInDatabase,
            ImportRoute::Import { container, extension } => ImportRouteView::Import {
                container: *container,
                extension: extension@,
            },
        }
    }
}

/// The route of an input path: none where a romfile is recorded at it, and
/// otherwise the family that its extension in lower case stands for.
pub open spec fn route_of(catalog: CatalogView, path: Seq<char>) -> ImportRouteView {
    if position_of_path(catalog.romfiles, path) is Some {
        ImportRouteView::AlreadyInDatabase
    } else {
        ImportRouteView::Import {
            container: container_of(lowered_extension(path)),
            extension: lowered_extension(path),
        }
    }
}

/// Decides how an input path is imported. A path that is recorded already
/// is skipped, so that importing it again changes nothing.
pub fn import_rom(catalog: &Catalog, romfile_path: &str) -> (route: ImportRoute)
    ensures
        route@ == route_of(catalog@, romfile_path@),
{
    if catalog.find_romfile_by_path(romfile_path).is_some() {
        return ImportRoute::AlreadyInDatabase;
    }
    let extension = lower_extension(romfile_path);
    let container = container_for(extension.as_str());
    ImportRoute::Import { container, extension }
}

/// Whether an entry of an archive must be extracted and hashed before it
/// can be looked up: the listing has no CRC for it, the system's sizes and
/// digests leave out a header, or the lookup goes by another digest.
pub open spec fn must_rehash(crc: Seq<char>, header: Option<Header>, algorithm: HashAlgorithm) -> bool {
    header is Some || crc.len() == 0 || algorithm != HashAlgorithm::Crc
}

/// Whether an entry of an archive must be extracted and hashed before it
/// can be looked up.
pub fn needs_rehash(info: &ArchiveInfo, header: &Option<Header>, algorithm: HashAlgorithm) -> (needed:
    bool)
    ensures
        needed == must_rehash(info.crc@, *header, algorithm),
{
    let by_crc = match algorithm {
        HashAlgorithm::Crc => true,
        _ => false,
    };
    header.is_some() || info.crc.as_str().is_empty() || !by_crc
}

/// The entry that a listing alone identifies: its size and CRC as listed.
pub fn listed_entry(info: &ArchiveInfo) -> (entry: ContainerEntry)
    ensures
        entry@ == (ContainerEntryView { name: info.path@, size: info.size, hash: info.crc@ }),
{
    ContainerEntry { name: info.path.clone(), size: info.size, hash: info.crc.clone() }
}

/// The views of the roms given to a list of entries.
pub open spec fn outcome_views(outcomes: Seq<Option<Rom>>) -> Seq<Option<RomView>> {
    Seq::new(outcomes.len(), |i: int| view_of(outcomes[i]))
}

/// The ids of the roms given to the first `n` entries.
pub open spec fn claimed_upto(outcomes: Seq<Option<RomView>>, n: int) -> Seq<i64>
    decreases n,
{
    if n <= 0 || n > outcomes.len() {
        Seq::empty()
    } else {
        let rest = claimed_upto(outcomes, n - 1);
        match outcomes[n - 1] {
            Some(rom) => rest.push(rom.id),
            None => rest,
        }
    }
}

/// Whether `outcomes` gives each entry a rom that its resolution allows,
/// where the roms given to earlier entries can no longer be claimed.
pub open spec fn resolved(
    catalog: CatalogView,
    system_id: i64,
    algorithm: HashAlgorithm,
    entries: Seq<ContainerEntryView>,
    outcomes: Seq<Option<RomView>>,
) -> bool {
    &&& outcomes.len() == entries.len()
    &&& forall|i: int|
        0 <= i < entries.len() ==> follows(
            resolution_of(
                catalog,
                claimed_upto(outcomes, i),
                entries[i].name,
                entries[i].size,
                entries[i].hash,
                system_id,
                algorithm,
            ),
            #[trigger] outcomes[i],
        )
}

/// Whether `outcomes` gives each entry the rom that its resolution and
/// `decide` settle on, where the roms given to earlier entries can no longer
/// be claimed.
pub open spec fn decided_by<F: Fn(&Vec<Rom>) -> Option<usize>>(
    decide: &F,
    catalog: CatalogView,
    system_id: i64,
    algorithm: HashAlgorithm,
    entries: Seq<ContainerEntryView>,
    outcomes: Seq<Option<RomView>>,
) -> bool {
    &&& outcomes.len() == entries.len()
    &&& forall|i: int|
        0 <= i < entries.len() ==> chosen(
            decide,
            resolution_of(
                catalog,
                claimed_upto(outcomes, i),
                entries[i].name,
                entries[i].size,
                entries[i].hash,
                system_id,
                algorithm,
            ),
            #[trigger] outcomes[i],
        )
}

/// What `decide` settles is what the resolutions allow.
pub proof fn lemma_decided_is_resolved<F: Fn(&Vec<Rom>) -> Option<usize>>(
    decide: &F,
    catalog: CatalogView,
    system_id: i64,
    algorithm: HashAlgorithm,
    entries: Seq<ContainerEntryView>,
    outcomes: Seq<Option<RomView>>,
)
    requires
        decided_by(decide, catalog, system_id, algorithm, entries, outcomes),
    ensures
        resolved(catalog, system_id, algorithm, entries, outcomes),
{
    assert forall|i: int| 0 <= i < entries.len() implies follows(
        resolution_of(
            catalog,
            claimed_upto(outcomes, i),
            entries[i].name,
            entries[i].size,
            entries[i].hash,
            system_id,
            algorithm,
        ),
        #[trigger] outcomes[i],
    ) by {
        lemma_chosen_follows(
            decide,
            resolution_of(
                catalog,
                claimed_upto(outcomes, i),
                entries[i].name,
                entries[i].size,
                entries[i].hash,
                system_id,
                algorithm,
            ),
            outcomes[i],
        );
    }
}

/// The roms claimed before an entry depend on the earlier outcomes alone.
pub proof fn lemma_claimed_prefix(a: Seq<Option<RomView>>, b: Seq<Option<RomView>>, n: int)
    requires
        0 <= n <= a.len(),
        n <= b.len(),
        forall|k: int| 0 <= k < n ==> a[k] == b[k],
    ensures
        claimed_upto(a, n) == claimed_upto(b, n),
    decreases n,
{
    if n > 0 {
        lemma_claimed_prefix(a, b, n - 1);
    }
}

/// Resolves the entries of a container one after the other, in listing
/// order. A rom given to an entry is claimed: no later entry gets it.
pub fn resolve_entries<F: Fn(&Vec<Rom>) -> Option<usize>>(
    catalog: &Catalog,
    system: &System,
    algorithm: HashAlgorithm,
    entries: &Vec<ContainerEntry>,
    decide: &F,
) -> (outcomes: Vec<Option<Rom>>)
    requires
        forall|candidates: &Vec<Rom>| decide.requires((candidates,)),
    ensures
        decided_by(decide, catalog@, system.id, algorithm, views(entries@), outcome_views(outcomes@)),
        resolved(catalog@, system.id, algorithm, views(entries@), outcome_views(outcomes@)),
{
    let mut outcomes: Vec<Option<Rom>> = Vec::new();
    let mut claimed: Vec<i64> = Vec::new();
    let mut i: usize = 0;
    while i < entries.len()
        invariant
            i <= entries.len(),
            outcomes.len() == i,
            forall|candidates: &Vec<Rom>| decide.requires((candidates,)),
            claimed@ == claimed_upto(outcome_views(outcomes@), i as int),
            forall|k: int|
                0 <= k < i ==> chosen(
                    decide,
                    resolution_of(
                        catalog@,
                        claimed_upto(outcome_views(outcomes@), k),
                        views(entries@)[k].name,
                        views(entries@)[k].size,
                        views(entries@)[k].hash,
                        system.id,
                        algorithm,
                    ),
                    #[trigger] outcome_views(outcomes@)[k],
                ),
        decreases entries.len() - i,
    {
        let entry = &entries[i];
        let rom = find_rom_by_hash(
            catalog,
            &claimed,
            entry.name.as_str(),
            entry.size,
            entry.hash.as_str(),
            system,
            algorithm,
            decide,
        );
        let ghost before = outcome_views(outcomes@);
        match &rom {
            Some(r) => {
                claimed.push(r.id);
            },
            None => {},
        }
        outcomes.push(rom);
        proof {
            let after = outcome_views(outcomes@);
            assert(after =~= before.push(view_of(rom)));
            assert forall|k: int| 0 <= k <= i implies claimed_upto(after, k) == claimed_upto(
                before,
                k,
            ) by {
                lemma_claimed_prefix(after, before, k);
            }
        }
        i += 1;
    }
    proof {
        lemma_decided_is_resolved(
            decide,
            catalog@,
            system.id,
            algorithm,
            views(entries@),
            outcome_views(outcomes@),
        );
    }
    outcomes
}

/// An entry of an archive that is to be renamed inside the archive.
#[derive(Debug, PartialEq, Eq)]
pub struct Rename {
    pub from: String,
    pub to: String,
}

/// The view of [`Rename`]: the same record over mathematical values.
pub struct RenameView {
    pub from: Seq<char>,
    pub to: Seq<char>,
}

impl View for Rename {
    type V = RenameView;

    open spec fn view(&self) -> RenameView {
        RenameView { from: self.from@, to: self.to@ }
    }
}

/// An entry of an archive that is to be extracted and filed on its own.
#[derive(Debug, PartialEq, Eq)]
pub struct EntryPlacement {
    pub entry: String,
    pub destination: String,
    pub rom: Rom,
}

/// The view of [`EntryPlacement`]: the same record over mathematical values.
pub struct EntryPlacementView {
    pub entry: Seq<char>,
    pub destination: Seq<char>,
    pub rom: RomView,
}

impl View for EntryPlacement {
    type V = EntryPlacementView;

    open spec fn view(&self) -> EntryPlacementView {
        EntryPlacementView { entry: self.entry@, destination: self.destination@, rom: self.rom@ }
    }
}

/// What is to be done with an archive.
#[derive(Debug, PartialEq, Eq)]
pub enum ArchiveImport {
    /// Nothing in the archive is known: the archive goes to quarantine.
    Trash,
    /// The archive holds one whole game: its entries take the names of
    /// their roms, and the archive is filed as one file that backs them all.
    Repack { renames: Vec<Rename>, destination: String, roms: Vec<Rom> },
    /// The matched entries are extracted and filed one by one; the others
    /// are left behind.
    Extract { placements: Vec<EntryPlacement> },
}

/// The view of [`ArchiveImport`].
pub enum ArchiveImportView {
    Trash,
    Repack { renames: Seq<RenameView>, destination: Seq<char>, roms: Seq<RomView> },
    Extract { placements: Seq<EntryPlacementView> },
}

impl View for ArchiveImport {
    type V = ArchiveImportView;

    open spec fn view(&self) -> ArchiveImportView {
        match self {
            ArchiveImport::Trash => ArchiveImportView::Trash,
            ArchiveImport::Repack { renames, destination, roms } => ArchiveImportView::Repack {
                renames: views(renames@),
                destination: destination@,
                roms: views(roms@),
            },
            ArchiveImport::Extract { placements } => ArchiveImportView::Extract {
                placements: views(placements@),
            },
        }
    }
}

/// The roms given to the first `n` entries, in order.
pub open spec fn matched_upto(outcomes: Seq<Option<RomView>>, n: int) -> Seq<RomView>
    decreases n,
{
    if n <= 0 || n > outcomes.len() {
        Seq::empty()
    } else {
        let rest = matched_upto(outcomes, n - 1);
        match outcomes[n - 1] {
            Some(rom) => rest.push(rom),
            None => rest,
        }
    }
}

/// The roms given to the entries, in order.
pub open spec fn matched(outcomes: Seq<Option<RomView>>) -> Seq<RomView> {
    matched_upto(outcomes, outcomes.len() as int)
}

/// Whether every entry was given a rom.
pub open spec fn all_matched(outcomes: Seq<Option<RomView>>) -> bool {
    forall|i: int| 0 <= i < outcomes.len() ==> (#[trigger] outcomes[i]) is Some
}

/// Whether there are roms and all belong to one game.
pub open spec fn one_game(roms: Seq<RomView>) -> bool {
    roms.len() > 0 && forall|i: int|
        0 <= i < roms.len() ==> (#[trigger] roms[i]).game_id == roms[0].game_id
}

/// Whether every id of `ids` is among `others`.
pub open spec fn covered(ids: Seq<i64>, others: Seq<i64>) -> bool {
    forall|i: int| 0 <= i < ids.len() ==> others.contains(#[trigger] ids[i])
}

/// Whether the entries are one whole game: every entry was given a rom,
/// the roms belong to one game, and they are exactly the roms of that game
/// that repeat no other.
pub open spec fn is_whole_game(catalog: CatalogView, outcomes: Seq<Option<RomView>>) -> bool {
    let roms = matched(outcomes);
    let own = own_roms(catalog.roms, roms[0].game_id);
    &&& all_matched(outcomes)
    &&& one_game(roms)
    &&& covered(ids_of(own), ids_of(roms))
    &&& covered(ids_of(roms), ids_of(own))
}

/// The renames among the first `n` entries: one for each entry that does
/// not bear the name of its rom.
pub open spec fn renames_upto(
    entries: Seq<ContainerEntryView>,
    outcomes: Seq<Option<RomView>>,
    n: int,
) -> Seq<RenameView>
    decreases n,
{
    if n <= 0 || n > entries.len() || n > outcomes.len() {
        Seq::empty()
    } else {
        let rest = renames_upto(entries, outcomes, n - 1);
        match outcomes[n - 1] {
            Some(rom) => if entries[n - 1].name != rom.name {
                rest.push(RenameView { from: entries[n - 1].name, to: rom.name })
            } else {
                rest
            },
            None => rest,
        }
    }
}

/// The game of a rom, where the catalog has it.
pub open spec fn game_of(catalog: CatalogView, rom: RomView) -> GameView {
    game_with_id(catalog.games, rom.game_id)->0
}

/// The placements among the first `n` entries: one for each entry that was
/// given a rom, at the place that the rules give that rom by the extension
/// of its own name.
pub open spec fn placements_upto(
    catalog: CatalogView,
    directory: Seq<char>,
    system: SystemView,
    entries: Seq<ContainerEntryView>,
    outcomes: Seq<Option<RomView>>,
    n: int,
) -> Seq<EntryPlacementView>
    decreases n,
{
    if n <= 0 || n > entries.len() || n > outcomes.len() {
        Seq::empty()
    } else {
        let rest = placements_upto(catalog, directory, system, entries, outcomes, n - 1);
        match outcomes[n - 1] {
            Some(rom) => rest.push(
                EntryPlacementView {
                    entry: entries[n - 1].name,
                    destination: rom_place(
                        directory,
                        system,
                        game_of(catalog, rom),
                        rom,
                        lowered_extension(rom.name),
                    ),
                    rom,
                },
            ),
            None => rest,
        }
    }
}

/// What is to be done with an archive whose entries were given `outcomes`.
///
/// An archive of a single entry that is not known goes to quarantine. An
/// archive that is one whole game is repacked and filed as one file.
/// Otherwise each matched entry is filed on its own.
pub open spec fn archive_plan(
    catalog: CatalogView,
    directory: Seq<char>,
    system: SystemView,
    archive: ArchiveType,
    entries: Seq<ContainerEntryView>,
    outcomes: Seq<Option<RomView>>,
) -> ArchiveImportView {
    if entries.len() == 1 && outcomes[0] is None {
        ArchiveImportView::Trash
    } else if is_whole_game(catalog, outcomes) {
        ArchiveImportView::Repack {
            renames: renames_upto(entries, outcomes, entries.len() as int),
            destination: archive_place(
                directory,
                system,
                game_of(catalog, matched(outcomes)[0]),
                matched(outcomes),
                archive,
            ),
            roms: matched(outcomes),
        }
    } else {
        ArchiveImportView::Extract {
            placements: placements_upto(
                catalog,
                directory,
                system,
                entries,
                outcomes,
                entries.len() as int,
            ),
        }
    }
}

/// Whether the game of every rom among `outcomes` is in the catalog.
pub open spec fn games_known(catalog: CatalogView, outcomes: Seq<Option<RomView>>) -> bool {
    forall|i: int|
        0 <= i < outcomes.len() && (#[trigger] outcomes[i]) is Some ==> game_with_id(
            catalog.games,
            outcomes[i]->0.game_id,
        ) is Some
}

/// Calls rayon's `par_iter`, `map` and `collect` to gather the ids of a
/// list of roms into a set. Trusted: the set holds the ids of the roms and
/// nothing else.
#[verifier::external_body]
fn rom_ids(roms: &Vec<Rom>) -> (ids: HashSet<i64>)
    ensures
        ids@ == ids_of(views(roms@)).to_set(),
{
    roms.par_iter().map(|rom| rom.id).collect()
}

/// The ids of roms are all among other ids exactly where they are all in
/// the set of those ids.
proof fn lemma_covered_by_set(roms: Seq<RomView>, others: Seq<i64>)
    ensures
        covered(ids_of(roms), others) == (forall|i: int|
            0 <= i < roms.len() ==> others.to_set().contains((#[trigger] roms[i]).id)),
{
    let ids = ids_of(roms);
    if covered(ids, others) {
        assert forall|i: int| 0 <= i < roms.len() implies others.to_set().contains(
            (#[trigger] roms[i]).id,
        ) by {
            assert(others.contains(ids[i]));
        }
    }
    if forall|i: int| 0 <= i < roms.len() ==> others.to_set().contains((#[trigger] roms[i]).id) {
        assert forall|i: int| 0 <= i < ids.len() implies others.contains(#[trigger] ids[i]) by {
            assert(others.to_set().contains(roms[i].id));
        }
    }
}

/// Whether the id of every rom is in the set.
fn covers(roms: &Vec<Rom>, ids: &HashSet<i64>) -> (all: bool)
    ensures
        all == (forall|i: int| 0 <= i < roms.len() ==> ids@.contains((#[trigger] views(roms@)[i]).id)),
{
    let mut i: usize = 0;
    while i < roms.len()
        invariant
            i <= roms.len(),
            forall|k: int| 0 <= k < i ==> ids@.contains((#[trigger] views(roms@)[k]).id),
        decreases roms.len() - i,
    {
        if !ids.contains(&roms[i].id) {
            assert(!ids@.contains(views(roms@)[i as int].id));
            return false;
        }
        i += 1;
    }
    true
}

fn known_game(catalog: &Catalog, rom: &Rom) -> (game: Game)
    requires
        game_with_id(catalog@.games, rom.game_id) is Some,
    ensures
        game@ == game_of(catalog@, rom@),
{
    match catalog.find_game_by_id(rom.game_id) {
        Some(game) => game,
        None => unreached(),
    }
}

/// The roms given to the entries, and whether every entry was given one.
fn gather(outcomes: &Vec<Option<Rom>>) -> (gathered: (Vec<Rom>, bool))
    ensures
        views(gathered.0@) == matched(outcome_views(outcomes@)),
        gathered.1 == all_matched(outcome_views(outcomes@)),
{
    let ghost all = outcome_views(outcomes@);
    let mut roms: Vec<Rom> = Vec::new();
    let mut every = true;
    let mut i: usize = 0;
    while i < outcomes.len()
        invariant
            i <= outcomes.len(),
            all == outcome_views(outcomes@),
            views(roms@) == matched_upto(all, i as int),
            every == (forall|k: int| 0 <= k < i ==> (#[trigger] all[k]) is Some),
        decreases outcomes.len() - i,
    {
        match &outcomes[i] {
            Some(rom) => {
                let ghost before = views(roms@);
                roms.push(rom.clone());
                assert(views(roms@) =~= before.push(rom@));
            },
            None => {
                every = false;
            },
        }
        i += 1;
    }
    (roms, every)
}

/// Whether there are roms and all belong to one game: the games of the
/// roms, gathered in a set, are one.
fn in_one_game(roms: &Vec<Rom>) -> (one: bool)
    ensures
        one == one_game(views(roms@)),
{
    let ghost all = views(roms@);
    let mut game_ids: HashSet<i64> = HashSet::new();
    let mut i: usize = 0;
    while i < roms.len()
        invariant
            i <= roms.len(),
            all == views(roms@),
            game_ids@.finite(),
            forall|k: int| 0 <= k < i ==> game_ids@.contains((#[trigger] all[k]).game_id),
            forall|g: i64|
                game_ids@.contains(g) ==> exists|k: int| 0 <= k < i && (#[trigger] all[k]).game_id == g,
        decreases roms.len() - i,
    {
        let ghost before = game_ids@;
        game_ids.insert(roms[i].game_id);
        proof {
            assert forall|g: i64| game_ids@.contains(g) implies exists|k: int|
                0 <= k < i + 1 && (#[trigger] all[k]).game_id == g by {
                if g == all[i as int].game_id {
                    assert(all[i as int].game_id == g);
                } else {
                    assert(before.contains(g));
                    let k = choose|k: int| 0 <= k < i && (#[trigger] all[k]).game_id == g;
                    assert(all[k].game_id == g);
                }
            }
        }
        i += 1;
    }
    proof {
        Set::lemma_is_singleton(game_ids@);
        if one_game(all) {
            assert(game_ids@.contains(all[0].game_id));
            if game_ids@.len() == 0 {
                game_ids@.lemma_len0_is_empty();
            }
            assert forall|x: i64, y: i64| game_ids@.contains(x) && game_ids@.contains(y) implies x
                == y by {
                let kx = choose|k: int| 0 <= k < roms.len() && (#[trigger] all[k]).game_id == x;
                let ky = choose|k: int| 0 <= k < roms.len() && (#[trigger] all[k]).game_id == y;
                assert(all[kx].game_id == all[0].game_id);
                assert(all[ky].game_id == all[0].game_id);
            }
        }
        if game_ids@.len() == 1 {
            if roms.len() == 0 {
                assert(game_ids@ =~= Set::<i64>::empty());
            }
            assert(game_ids@.contains(all[0].game_id));
            assert forall|k: int| 0 <= k < roms.len() implies (#[trigger] all[k]).game_id
                == all[0].game_id by {
                assert(game_ids@.contains(all[k].game_id));
            }
        }
    }
    game_ids.len() == 1
}

/// Decides what is to be done with an archive, from the roms that its
/// entries were given.
pub fn plan_archive(
    catalog: &Catalog,
    system_directory: &str,
    system: &System,
    archive: ArchiveType,
    entries: &Vec<ContainerEntry>,
    outcomes: &Vec<Option<Rom>>,
) -> (plan: ArchiveImport)
    requires
        outcomes.len() == entries.len(),
        games_known(catalog@, outcome_views(outcomes@)),
    ensures
        plan@ == archive_plan(
            catalog@,
            system_directory@,
            system@,
            archive,
            views(entries@),
            outcome_views(outcomes@),
        ),
{
    let ghost given = outcome_views(outcomes@);
    let ghost listed = views(entries@);
    if entries.len() == 1 && outcomes[0].is_none() {
        assert(given[0] is None);
        return ArchiveImport::Trash;
    }
    let (roms, every) = gather(outcomes);
    let mut whole = every && in_one_game(&roms);
    if whole {
        let own = catalog.find_roms_by_game_id_no_parents(roms[0].game_id);
        let own_ids = rom_ids(&own);
        let ids = rom_ids(&roms);
        whole = covers(&own, &ids) && covers(&roms, &own_ids);
        proof {
            lemma_covered_by_set(views(own@), ids_of(views(roms@)));
            lemma_covered_by_set(views(roms@), ids_of(views(own@)));
        }
    }
    if whole {
        let mut renames: Vec<Rename> = Vec::new();
        let mut i: usize = 0;
        while i < entries.len()
            invariant
                i <= entries.len(),
                outcomes.len() == entries.len(),
                given == outcome_views(outcomes@),
                listed == views(entries@),
                views(renames@) == renames_upto(listed, given, i as int),
            decreases entries.len() - i,
        {
            match &outcomes[i] {
                Some(rom) => {
                    if !same_text(entries[i].name.as_str(), rom.name.as_str()) {
                        let ghost before = views(renames@);
                        let rename = Rename { from: entries[i].name.clone(), to: rom.name.clone() };
                        renames.push(rename);
                        assert(views(renames@) =~= before.push(
                            RenameView { from: listed[i as int].name, to: rom@.name },
                        ));
                    }
                },
                None => {},
            }
            i += 1;
        }
        proof {
            lemma_matched_member(given, given.len() as int, 0);
        }
        let game = known_game(catalog, &roms[0]);
        let destination = archive_destination(system_directory, system, &game, &roms, archive);
        return ArchiveImport::Repack { renames, destination, roms };
    }
    let mut placements: Vec<EntryPlacement> = Vec::new();
    let mut i: usize = 0;
    while i < entries.len()
        invariant
            i <= entries.len(),
            outcomes.len() == entries.len(),
            given == outcome_views(outcomes@),
            listed == views(entries@),
            games_known(catalog@, given),
            views(placements@) == placements_upto(
                catalog@,
                system_directory@,
                system@,
                listed,
                given,
                i as int,
            ),
        decreases entries.len() - i,
    {
        match &outcomes[i] {
            Some(rom) => {
                assert(given[i as int] is Some);
                let game = known_game(catalog, rom);
                let extension = lower_extension(rom.name.as_str());
                let destination = rom_destination(
                    system_directory,
                    system,
                    &game,
                    rom,
                    extension.as_str(),
                );
                let ghost before = views(placements@);
                let placement = EntryPlacement {
                    entry: entries[i].name.clone(),
                    destination,
                    rom: rom.clone(),
                };
                let ghost added = placement@;
                placements.push(placement);
                assert(views(placements@) =~= before.push(added));
            },
            None => {},
        }
        i += 1;
    }
    ArchiveImport::Extract { placements }
}

/// Imports an archive whose entries have been listed and, where the
/// listing was not enough, hashed: resolves the entries in listing order and
/// decides what is to be done with the archive.
pub fn import_archive<F: Fn(&Vec<Rom>) -> Option<usize>>(
    catalog: &Catalog,
    system_directory: &str,
    system: &System,
    archive: ArchiveType,
    entries: &Vec<ContainerEntry>,
    algorithm: HashAlgorithm,
    decide: &F,
) -> (plan: ArchiveImport)
    requires
        forall|candidates: &Vec<Rom>| decide.requires((candidates,)),
    ensures
        exists|outcomes: Seq<Option<RomView>>| #[trigger]
            decided_by(decide, catalog@, system.id, algorithm, views(entries@), outcomes) && plan@
                == archive_plan(
                catalog@,
                system_directory@,
                system@,
                archive,
                views(entries@),
                outcomes,
            ),
{
    let outcomes = resolve_entries(catalog, system, algorithm, entries, decide);
    proof {
        let given = outcome_views(outcomes@);
        let listed = views(entries@);
        assert forall|i: int| 0 <= i < given.len() && (#[trigger] given[i]) is Some implies game_with_id(
            catalog@.games,
            given[i]->0.game_id,
        ) is Some by {
            lemma_outcome_is_candidate(
                catalog@,
                claimed_upto(given, i),
                listed[i].name,
                listed[i].size,
                listed[i].hash,
                system.id,
                algorithm,
                given[i]->0,
            );
        }
    }
    plan_archive(catalog, system_directory, system, archive, entries, &outcomes)
}

/// What is to be done with a file that is one rom at most.
#[derive(Debug, PartialEq, Eq)]
pub enum Import {
    /// The file is not known: it goes to quarantine.
    Trash,
    /// The rom that the file would be has a file already: the file stays.
    Skip,
    /// The file is this rom, and belongs at this place.
    Place { destination: String, rom: Rom },
}

/// The view of [`Import`].
pub enum ImportView {
    Trash,
    Skip,
    Place { destination: Seq<char>, rom: RomView },
}

impl View for Import {
    type V = ImportView;

    open spec fn view(&self) -> ImportView {
        match self {
            Import::Trash => ImportView::Trash,
            Import::Skip => ImportView::Skip,
            Import::Place { destination, rom } => ImportView::Place {
                destination: destination@,
                rom: rom@,
            },
        }
    }
}

/// What is to be done with a plain file: it stays where its rom has a file
/// already, it goes to quarantine where no rom is found for it, and
/// otherwise it belongs at the place of its rom.
pub open spec fn file_plan(
    catalog: CatalogView,
    directory: Seq<char>,
    system: SystemView,
    extension: Seq<char>,
    resolution: ResolutionView,
    choice: Option<usize>,
) -> ImportView {
    if resolution is AlreadyFiled {
        ImportView::Skip
    } else {
        match claimed_rom(resolution, choice) {
            Some(rom) => ImportView::Place {
                destination: rom_place(directory, system, game_of(catalog, rom), rom, extension),
                rom,
            },
            None => ImportView::Trash,
        }
    }
}

/// What is to be done with an image that holds one rom: as for a plain
/// file, but the image keeps its own extension under the name of its rom.
pub open spec fn image_plan(
    directory: Seq<char>,
    extension: Seq<char>,
    resolution: ResolutionView,
    choice: Option<usize>,
) -> ImportView {
    if resolution is AlreadyFiled {
        ImportView::Skip
    } else {
        match claimed_rom(resolution, choice) {
            Some(rom) => ImportView::Place {
                destination: image_place(directory, rom, extension),
                rom,
            },
            None => ImportView::Trash,
        }
    }
}

/// Whether a resolution names only roms whose game is in the catalog.
pub open spec fn game_known(catalog: CatalogView, resolution: ResolutionView) -> bool {
    match resolution {
        ResolutionView::Matched(rom) => game_with_id(catalog.games, rom.game_id) is Some,
        ResolutionView::Ambiguous(candidates) => forall|i: int|
            0 <= i < candidates.len() ==> game_with_id(
                catalog.games,
                (#[trigger] candidates[i]).game_id,
            ) is Some,
        _ => true,
    }
}

/// Decides what is to be done with a plain file, from its resolution and
/// from what was chosen among the candidates of an ambiguous one.
pub fn place_file(
    catalog: &Catalog,
    system_directory: &str,
    system: &System,
    romfile_extension: &str,
    resolution: Resolution,
    choice: Option<usize>,
) -> (plan: Import)
    requires
        game_known(catalog@, resolution@),
    ensures
        plan@ == file_plan(
            catalog@,
            system_directory@,
            system@,
            romfile_extension@,
            resolution@,
            choice,
        ),
{
    if let Resolution::AlreadyFiled(_) = &resolution {
        return Import::Skip;
    }
    match claim(resolution, choice) {
        Some(rom) => {
            let game = known_game(catalog, &rom);
            let destination = rom_destination(
                system_directory,
                system,
                &game,
                &rom,
                romfile_extension,
            );
            Import::Place { destination, rom }
        },
        None => Import::Trash,
    }
}

/// Decides what is to be done with an image that holds one rom, from its
/// resolution and from what was chosen among the candidates of an ambiguous
/// one.
pub fn place_image(
    system_directory: &str,
    extension: &str,
    resolution: Resolution,
    choice: Option<usize>,
) -> (plan: Import)
    requires
        separator_free(extension@),
    ensures
        plan@ == image_plan(system_directory@, extension@, resolution@, choice),
{
    if let Resolution::AlreadyFiled(_) = &resolution {
        return Import::Skip;
    }
    match claim(resolution, choice) {
        Some(rom) => {
            let destination = image_destination(system_directory, &rom, extension);
            Import::Place { destination, rom }
        },
        None => Import::Trash,
    }
}

/// The games of the roms that a lookup in the catalog resolves to are in
/// the catalog, and no such resolution is of a rom that has a file already.
pub proof fn lemma_resolution_known(
    catalog: CatalogView,
    claimed: Seq<i64>,
    name: Seq<char>,
    size: u64,
    hash: Seq<char>,
    system_id: i64,
    algorithm: HashAlgorithm,
)
    ensures
        game_known(catalog, resolution_of(catalog, claimed, name, size, hash, system_id, algorithm)),
        !(resolution_of(catalog, claimed, name, size, hash, system_id, algorithm) is AlreadyFiled),
{
    let resolution = resolution_of(catalog, claimed, name, size, hash, system_id, algorithm);
    let candidates = catalog.candidates(claimed, size, hash, system_id, algorithm);
    match resolution {
        ResolutionView::Matched(rom) => {
            lemma_outcome_is_candidate(catalog, claimed, name, size, hash, system_id, algorithm, rom);
        },
        ResolutionView::Ambiguous(_) => {
            assert forall|i: int| 0 <= i < candidates.len() implies game_with_id(
                catalog.games,
                (#[trigger] candidates[i]).game_id,
            ) is Some by {
                lemma_outcome_is_candidate(
                    catalog,
                    claimed,
                    name,
                    size,
                    hash,
                    system_id,
                    algorithm,
                    candidates[i],
                );
            }
        },
        ResolutionView::NoMatch => {},
        ResolutionView::AlreadyFiled(_) => {
            let k = if candidates.len() == 1 {
                0
            } else {
                lemma_named_member(candidates, file_name_of(name)->0, 0);
                choose|k: int|
                    0 <= k < candidates.len() && candidates[k] == named(
                        candidates,
                        file_name_of(name)->0,
                    )[0]
            };
            lemma_candidate_member(
                catalog,
                catalog.roms.len() as int,
                claimed,
                size,
                hash,
                system_id,
                algorithm,
                k,
            );
        },
    }
}

/// Imports a plain file of `size` bytes with digest `hash`, both taken
/// after the system's header: the file is looked up and, where a rom is
/// found for it, belongs at the place of that rom.
pub fn import_other<F: Fn(&Vec<Rom>) -> Option<usize>>(
    catalog: &Catalog,
    system_directory: &str,
    system: &System,
    romfile_path: &str,
    romfile_extension: &str,
    size: u64,
    hash: &str,
    algorithm: HashAlgorithm,
    decide: &F,
) -> (plan: Import)
    requires
        forall|candidates: &Vec<Rom>| decide.requires((candidates,)),
    ensures
        exists|choice: Option<usize>|
            told(
                decide,
                resolution_of(
                    catalog@,
                    Seq::empty(),
                    romfile_path@,
                    size,
                    hash@,
                    system.id,
                    algorithm,
                ),
                choice,
            ) && #[trigger] file_plan(
                catalog@,
                system_directory@,
                system@,
                romfile_extension@,
                resolution_of(
                    catalog@,
                    Seq::empty(),
                    romfile_path@,
                    size,
                    hash@,
                    system.id,
                    algorithm,
                ),
                choice,
            ) == plan@,
{
    let claimed: Vec<i64> = Vec::new();
    let resolution = resolve(catalog, &claimed, romfile_path, size, hash, system, algorithm);
    let choice = ask(&resolution, decide);
    proof {
        lemma_resolution_known(
            catalog@,
            claimed@,
            romfile_path@,
            size,
            hash@,
            system.id,
            algorithm,
        );
    }
    place_file(catalog, system_directory, system, romfile_extension, resolution, choice)
}

fn import_image<F: Fn(&Vec<Rom>) -> Option<usize>>(
    catalog: &Catalog,
    system_directory: &str,
    system: &System,
    romfile_path: &str,
    extension: &str,
    size: u64,
    hash: &str,
    algorithm: HashAlgorithm,
    decide: &F,
) -> (plan: Import)
    requires
        forall|candidates: &Vec<Rom>| decide.requires((candidates,)),
        separator_free(extension@),
    ensures
        exists|choice: Option<usize>|
            told(
                decide,
                resolution_of(
                    catalog@,
                    Seq::empty(),
                    romfile_path@,
                    size,
                    hash@,
                    system.id,
                    algorithm,
                ),
                choice,
            ) && #[trigger] image_plan(
                system_directory@,
                extension@,
                resolution_of(
                    catalog@,
                    Seq::empty(),
                    romfile_path@,
                    size,
                    hash@,
                    system.id,
                    algorithm,
                ),
                choice,
            ) == plan@,
{
    let claimed: Vec<i64> = Vec::new();
    let resolution = resolve(catalog, &claimed, romfile_path, size, hash, system, algorithm);
    let choice = ask(&resolution, decide);
    place_image(system_directory, extension, resolution, choice)
}

/// Imports a compressed disc image whose decoded content has `size` bytes
/// and digest `hash`.
pub fn import_cso<F: Fn(&Vec<Rom>) -> Option<usize>>(
    catalog: &Catalog,
    system_directory: &str,
    system: &System,
    romfile_path: &str,
    size: u64,
    hash: &str,
    algorithm: HashAlgorithm,
    decide: &F,
) -> (plan: Import)
    requires
        forall|candidates: &Vec<Rom>| decide.requires((candidates,)),
    ensures
        exists|choice: Option<usize>|
            told(
                decide,
                resolution_of(
                    catalog@,
                    Seq::empty(),
                    romfile_path@,
                    size,
                    hash@,
                    system.id,
                    algorithm,
                ),
                choice,
            ) && #[trigger] image_plan(
                system_directory@,
                cso_text(),
                resolution_of(
                    catalog@,
                    Seq::empty(),
                    romfile_path@,
                    size,
                    hash@,
                    system.id,
                    algorithm,
                ),
                choice,
            ) == plan@,
{
    import_image(
        catalog,
        system_directory,
        system,
        romfile_path,
        cso_extension(),
        size,
        hash,
        algorithm,
        decide,
    )
}

/// Imports a rotated disc image whose decoded content has `size` bytes and
/// digest `hash`.
pub fn import_rvz<F: Fn(&Vec<Rom>) -> Option<usize>>(
    catalog: &Catalog,
    system_directory: &str,
    system: &System,
    romfile_path: &str,
    size: u64,
    hash: &str,
    algorithm: HashAlgorithm,
    decide: &F,
) -> (plan: Import)
    requires
        forall|candidates: &Vec<Rom>| decide.requires((candidates,)),
    ensures
        exists|choice: Option<usize>|
            told(
                decide,
                resolution_of(
                    catalog@,
                    Seq::empty(),
                    romfile_path@,
                    size,
                    hash@,
                    system.id,
                    algorithm,
                ),
                choice,
            ) && #[trigger] image_plan(
                system_directory@,
                rvz_text(),
                resolution_of(
                    catalog@,
                    Seq::empty(),
                    romfile_path@,
                    size,
                    hash@,
                    system.id,
                    algorithm,
                ),
                choice,
            ) == plan@,
{
    import_image(
        catalog,
        system_directory,
        system,
        romfile_path,
        rvz_extension(),
        size,
        hash,
        algorithm,
        decide,
    )
}

/// The path at which the cue sheet of a disc image is looked for: the
/// image's path with the extension of cue sheets.
pub fn cue_path(romfile_path: &str) -> (path: String)
    ensures
        path@ == re_extended(romfile_path@, cue_text()),
{
    set_extension(romfile_path, cue_extension())
}

/// The roms but the one with the id `except`, in order.
pub open spec fn without(roms: Seq<RomView>, except: i64) -> Seq<RomView>
    decreases roms.len(),
{
    if roms.len() == 0 {
        Seq::empty()
    } else {
        let rest = without(roms.drop_last(), except);
        if roms.last().id != except {
            rest.push(roms.last())
        } else {
            rest
        }
    }
}

/// What is to be done once the cue sheet of a disc image has been hashed.
#[derive(Debug, PartialEq, Eq)]
pub enum CueImport {
    /// The cue sheet is not known: it goes to quarantine, and the image is
    /// left alone.
    Trash,
    /// The rom that the cue sheet would be has a file already.
    Skip,
    /// The cue sheet is `cue_rom`; the image is to be decoded into one track
    /// for each of `roms`, in this order.
    Tracks { cue_rom: Rom, roms: Vec<Rom> },
}

/// The view of [`CueImport`].
pub enum CueImportView {
    Trash,
    Skip,
    Tracks { cue_rom: RomView, roms: Seq<RomView> },
}

impl View for CueImport {
    type V = CueImportView;

    open spec fn view(&self) -> CueImportView {
        match self {
            CueImport::Trash => CueImportView::Trash,
            CueImport::Skip => CueImportView::Skip,
            CueImport::Tracks { cue_rom, roms } => CueImportView::Tracks {
                cue_rom: cue_rom@,
                roms: views(roms@),
            },
        }
    }
}

/// What is to be done with a cue sheet: its tracks are the other roms of
/// its game that repeat no other rom, in catalog order.
pub open spec fn cue_plan(catalog: CatalogView, resolution: ResolutionView, choice: Option<usize>) -> CueImportView {
    if resolution is AlreadyFiled {
        CueImportView::Skip
    } else {
        match claimed_rom(resolution, choice) {
            Some(cue_rom) => CueImportView::Tracks {
                cue_rom,
                roms: without(own_roms(catalog.roms, cue_rom.game_id), cue_rom.id),
            },
            None => CueImportView::Trash,
        }
    }
}

/// Decides what is to be done with a cue sheet, from its resolution and
/// from what was chosen among the candidates of an ambiguous one.
pub fn place_cue(catalog: &Catalog, resolution: Resolution, choice: Option<usize>) -> (plan:
    CueImport)
    ensures
        plan@ == cue_plan(catalog@, resolution@, choice),
{
    if let Resolution::AlreadyFiled(_) = &resolution {
        return CueImport::Skip;
    }
    match claim(resolution, choice) {
        Some(cue_rom) => {
            let own = catalog.find_roms_by_game_id_no_parents(cue_rom.game_id);
            let ghost all = views(own@);
            let mut roms: Vec<Rom> = Vec::new();
            let mut i: usize = 0;
            while i < own.len()
                invariant
                    i <= own.len(),
                    all == views(own@),
                    views(roms@) == without(all.take(i as int), cue_rom.id),
                decreases own.len() - i,
            {
                assert(all.take(i + 1).drop_last() == all.take(i as int));
                if own[i].id != cue_rom.id {
                    let ghost before = views(roms@);
                    roms.push(own[i].clone());
                    assert(views(roms@) =~= before.push(all[i as int]));
                }
                i += 1;
            }
            assert(all.take(i as int) == all);
            CueImport::Tracks { cue_rom, roms }
        },
        None => CueImport::Trash,
    }
}

/// Imports the cue sheet that accompanies a disc image, of `size` bytes
/// and with digest `hash`.
pub fn import_cue<F: Fn(&Vec<Rom>) -> Option<usize>>(
    catalog: &Catalog,
    system: &System,
    cue_path: &str,
    size: u64,
    hash: &str,
    algorithm: HashAlgorithm,
    decide: &F,
) -> (plan: CueImport)
    requires
        forall|candidates: &Vec<Rom>| decide.requires((candidates,)),
    ensures
        exists|choice: Option<usize>|
            told(
                decide,
                resolution_of(catalog@, Seq::empty(), cue_path@, size, hash@, system.id, algorithm),
                choice,
            ) && #[trigger] cue_plan(
                catalog@,
                resolution_of(catalog@, Seq::empty(), cue_path@, size, hash@, system.id, algorithm),
                choice,
            ) == plan@,
{
    let claimed: Vec<i64> = Vec::new();
    let resolution = resolve(catalog, &claimed, cue_path, size, hash, system, algorithm);
    let choice = ask(&resolution, decide);
    place_cue(catalog, resolution, choice)
}

/// A track that a disc image is to be decoded into.
#[derive(Debug, PartialEq, Eq)]
pub struct Track {
    pub name: String,
    pub size: u64,
}

/// The view of [`Track`]: the same record over mathematical values.
pub struct TrackView {
    pub name: Seq<char>,
    pub size: u64,
}

impl View for Track {
    type V = TrackView;

    open spec fn view(&self) -> TrackView {
        TrackView { name: self.name@, size: self.size }
    }
}

/// What was found of one decoded track: its size and its digest.
#[derive(Debug, PartialEq, Eq)]
pub struct TrackContent {
    pub size: u64,
    pub hash: String,
}

/// The view of [`TrackContent`]: the same record over mathematical values.
pub struct TrackContentView {
    pub size: u64,
    pub hash: Seq<char>,
}

impl View for TrackContent {
    type V = TrackContentView;

    open spec fn view(&self) -> TrackContentView {
        TrackContentView { size: self.size, hash: self.hash@ }
    }
}

/// The tracks that roms stand for: each with the name and the size of its rom.
pub open spec fn tracks_of(roms: Seq<RomView>) -> Seq<TrackView> {
    Seq::new(roms.len(), |i: int| TrackView { name: roms[i].name, size: roms[i].size as u64 })
}

/// The names and sizes of the tracks that a disc image is to be decoded
/// into, one for each rom and in their order.
pub fn track_names_sizes(roms: &Vec<Rom>) -> (tracks: Vec<Track>)
    ensures
        views(tracks@) == tracks_of(views(roms@)),
{
    let mut tracks: Vec<Track> = Vec::new();
    let mut i: usize = 0;
    while i < roms.len()
        invariant
            i <= roms.len(),
            tracks.len() == i,
            forall|k: int| 0 <= k < i ==> (#[trigger] tracks@[k])@ == tracks_of(views(roms@))[k],
        decreases roms.len() - i,
    {
        tracks.push(Track { name: roms[i].name.clone(), size: roms[i].size as u64 });
        i += 1;
    }
    assert(views(tracks@) =~= tracks_of(views(roms@)));
    tracks
}

/// The number of bytes that tracks take up together.
pub open spec fn total_size(tracks: Seq<TrackView>) -> int
    decreases tracks.len(),
{
    if tracks.len() == 0 {
        0
    } else {
        total_size(tracks.drop_last()) + tracks.last().size
    }
}

/// The part of a decoded disc image that is one track.
#[derive(Debug, PartialEq, Eq)]
pub struct TrackSpan {
    pub name: String,
    pub offset: u64,
    pub size: u64,
}

/// The view of [`TrackSpan`]: the same record over mathematical values.
pub struct TrackSpanView {
    pub name: Seq<char>,
    pub offset: u64,
    pub size: u64,
}

impl View for TrackSpan {
    type V = TrackSpanView;

    open spec fn view(&self) -> TrackSpanView {
        TrackSpanView { name: self.name@, offset: self.offset, size: self.size }
    }
}

/// The smaller of two numbers.
pub open spec fn least(a: int, b: int) -> int {
    if a <= b {
        a
    } else {
        b
    }
}

/// Where the track `i` begins in an image of `image_size` bytes: where the
/// tracks before it end, and no further than the image goes.
pub open spec fn span_start(tracks: Seq<TrackView>, image_size: u64, i: int) -> int {
    least(total_size(tracks.take(i)), image_size as int)
}

/// How much of an image of `image_size` bytes the track `i` is: its size,
/// as far as the image goes; the last track is all that is left.
pub open spec fn span_size(tracks: Seq<TrackView>, image_size: u64, i: int) -> int {
    let left = image_size - span_start(tracks, image_size, i);
    if i == tracks.len() - 1 {
        left
    } else {
        least(tracks[i].size as int, left)
    }
}

/// The parts that tracks cut a disc image into, one for each track and in
/// their order.
pub open spec fn spans_of(tracks: Seq<TrackView>, image_size: u64) -> Seq<TrackSpanView> {
    Seq::new(
        tracks.len(),
        |i: int|
            TrackSpanView {
                name: tracks[i].name,
                offset: span_start(tracks, image_size, i) as u64,
                size: span_size(tracks, image_size, i) as u64,
            },
    )
}

/// Cuts a decoded disc image of `image_size` bytes into its tracks. Each
/// track begins where the tracks before it end and has its own size as far
/// as the image goes; the last track is all that is left. So every part has
/// the size of its track where the tracks fill the image, and only then.
pub fn track_spans(tracks: &Vec<Track>, image_size: u64) -> (cut: Vec<TrackSpan>)
    ensures
        views(cut@) == spans_of(views(tracks@), image_size),
{
    let ghost all = views(tracks@);
    let mut cut: Vec<TrackSpan> = Vec::new();
    let mut offset: u64 = 0;
    let mut i: usize = 0;
    while i < tracks.len()
        invariant
            i <= tracks.len(),
            all == views(tracks@),
            cut.len() == i,
            offset <= image_size,
            i < tracks.len() ==> offset == span_start(all, image_size, i as int),
            forall|k: int| 0 <= k < i ==> (#[trigger] cut@[k])@ == spans_of(all, image_size)[k],
        decreases tracks.len() - i,
    {
        assert(all.take(i + 1).drop_last() == all.take(i as int));
        let left = image_size - offset;
        let size = if i + 1 == tracks.len() || tracks[i].size > left {
            left
        } else {
            tracks[i].size
        };
        proof {
            lemma_total_size_positive(all.take(i as int));
        }
        cut.push(TrackSpan { name: tracks[i].name.clone(), offset, size });
        offset = offset + size;
        i += 1;
    }
    assert(views(cut@) =~= spans_of(all, image_size));
    cut
}

/// Tracks take up no space below none.
pub proof fn lemma_total_size_positive(tracks: Seq<TrackView>)
    ensures
        total_size(tracks) >= 0,
    decreases tracks.len(),
{
    if tracks.len() > 0 {
        lemma_total_size_positive(tracks.drop_last());
    }
}

/// Tracks take up no less than the first of them do.
pub proof fn lemma_total_size_grows(tracks: Seq<TrackView>, n: int)
    requires
        0 <= n <= tracks.len(),
    ensures
        total_size(tracks.take(n)) <= total_size(tracks),
    decreases tracks.len() - n,
{
    if n < tracks.len() {
        lemma_total_size_grows(tracks, n + 1);
        assert(tracks.take(n + 1).drop_last() == tracks.take(n));
    } else {
        assert(tracks.take(n) == tracks);
    }
}

/// Where each of the first `n` tracks is cut to its own size, those tracks
/// lie within the image.
pub proof fn lemma_spans_within(tracks: Seq<TrackView>, image_size: u64, n: int)
    requires
        0 <= n < tracks.len(),
        forall|i: int| 0 <= i < n ==> span_size(tracks, image_size, i) == tracks[i].size,
    ensures
        total_size(tracks.take(n)) <= image_size,
    decreases n,
{
    if n > 0 {
        lemma_spans_within(tracks, image_size, n - 1);
        assert(tracks.take(n).drop_last() == tracks.take(n - 1));
        assert(span_size(tracks, image_size, n - 1) == tracks[n - 1].size);
    }
}

/// A decoded image is cut into parts that each have the size of their
/// track exactly where the tracks together are as long as the image: an
/// image of another length leaves a part that differs from its track.
pub proof fn lemma_spans_fill(tracks: Seq<TrackView>, image_size: u64)
    requires
        tracks.len() > 0,
    ensures
        (total_size(tracks) == image_size) <==> (forall|i: int|
            0 <= i < tracks.len() ==> span_size(tracks, image_size, i) == (#[trigger] tracks[i]).size),
{
    let last = tracks.len() - 1;
    assert(tracks.take(last) == tracks.drop_last());
    if total_size(tracks) == image_size {
        assert forall|i: int| 0 <= i < tracks.len() implies span_size(tracks, image_size, i) == (
        #[trigger] tracks[i]).size by {
            lemma_total_size_grows(tracks, i);
            if i < last {
                lemma_total_size_grows(tracks, i + 1);
                assert(tracks.take(i + 1).drop_last() == tracks.take(i));
            }
        }
    }
    if forall|i: int|
        0 <= i < tracks.len() ==> span_size(tracks, image_size, i) == (#[trigger] tracks[i]).size {
        assert forall|i: int| 0 <= i < last implies span_size(tracks, image_size, i)
            == tracks[i].size by {
            assert(span_size(tracks, image_size, i) == (#[trigger] tracks[i]).size);
        }
        lemma_spans_within(tracks, image_size, last);
        assert(span_size(tracks, image_size, last) == tracks[last].size);
    }
}

/// The tracks of a disc image do not answer to the roms they were decoded for.
#[derive(Clone, Copy, Debug, PartialEq, Eq, Structural)]
pub struct TrackCountMismatch {
    pub expected: usize,
    pub found: usize,
}

/// What is to be done with a disc image and its cue sheet.
#[derive(Debug, PartialEq, Eq)]
pub enum ChdImport {
    /// A track is not what its rom says: the whole image goes to
    /// quarantine. Nothing is done with the cue sheet.
    Trash,
    /// Every track is its rom: the cue sheet is filed as `cue_rom`, and the
    /// image as one file that backs all of `roms`.
    Place { cue_destination: String, chd_destination: String, cue_rom: Rom, roms: Vec<Rom> },
}

/// The view of [`ChdImport`].
pub enum ChdImportView {
    Trash,
    Place {
        cue_destination: Seq<char>,
        chd_destination: Seq<char>,
        cue_rom: RomView,
        roms: Seq<RomView>,
    },
}

impl View for ChdImport {
    type V = ChdImportView;

    open spec fn view(&self) -> ChdImportView {
        match self {
            ChdImport::Trash => ChdImportView::Trash,
            ChdImport::Place { cue_destination, chd_destination, cue_rom, roms } => ChdImportView::Place {
                cue_destination: cue_destination@,
                chd_destination: chd_destination@,
                cue_rom: cue_rom@,
                roms: views(roms@),
            },
        }
    }
}

/// Whether each track is its rom: it agrees with the rom in size and in
/// digest.
pub open spec fn tracks_agree(
    roms: Seq<RomView>,
    tracks: Seq<TrackContentView>,
    algorithm: HashAlgorithm,
) -> bool {
    forall|i: int|
        0 <= i < roms.len() ==> (#[trigger] roms[i]).has_identity(
            tracks[i].size,
            tracks[i].hash,
            algorithm,
        )
}

/// What is to be done with a disc image whose tracks were found as
/// `tracks`: one track that differs from its rom, in size or in digest,
/// sends the whole image to quarantine.
pub open spec fn chd_plan(
    directory: Seq<char>,
    cue_rom: RomView,
    roms: Seq<RomView>,
    tracks: Seq<TrackContentView>,
    algorithm: HashAlgorithm,
) -> ChdImportView {
    if tracks_agree(roms, tracks, algorithm) {
        ChdImportView::Place {
            cue_destination: joined(directory, cue_rom.name),
            chd_destination: re_extended(joined(directory, cue_rom.name), chd_text()),
            cue_rom,
            roms,
        }
    } else {
        ChdImportView::Trash
    }
}

/// A disc image that is cut by the sizes of its roms and is not as long as
/// those roms together has a track that is not its rom: whatever the
/// digests are, the tracks do not agree with the roms.
pub proof fn lemma_wrong_length_disagrees(
    roms: Seq<RomView>,
    image_size: u64,
    tracks: Seq<TrackContentView>,
    algorithm: HashAlgorithm,
)
    requires
        roms.len() > 0,
        tracks.len() == roms.len(),
        forall|i: int|
            0 <= i < roms.len() ==> (#[trigger] tracks[i]).size == spans_of(
                tracks_of(roms),
                image_size,
            )[i].size,
        total_size(tracks_of(roms)) != image_size,
    ensures
        !tracks_agree(roms, tracks, algorithm),
{
    let cut = tracks_of(roms);
    lemma_spans_fill(cut, image_size);
    let bad = choose|i: int| 0 <= i < cut.len() && span_size(cut, image_size, i) != cut[i].size;
    lemma_total_size_positive(cut.take(bad));
    assert(tracks[bad].size == spans_of(cut, image_size)[bad].size);
    assert(!roms[bad].has_identity(tracks[bad].size, tracks[bad].hash, algorithm));
}

/// Whether the tracks are as many as the roms, and each is its rom.
pub fn tracks_match(roms: &Vec<Rom>, tracks: &Vec<TrackContent>, algorithm: HashAlgorithm) -> (same:
    bool)
    ensures
        same == (tracks.len() == roms.len() && tracks_agree(
            views(roms@),
            views(tracks@),
            algorithm,
        )),
{
    if tracks.len() != roms.len() {
        return false;
    }
    let mut i: usize = 0;
    while i < roms.len()
        invariant
            i <= roms.len(),
            tracks.len() == roms.len(),
            forall|k: int|
                0 <= k < i ==> (#[trigger] views(roms@)[k]).has_identity(
                    views(tracks@)[k].size,
                    views(tracks@)[k].hash,
                    algorithm,
                ),
        decreases roms.len() - i,
    {
        if !roms[i].matches(tracks[i].size, tracks[i].hash.as_str(), algorithm) {
            assert(!views(roms@)[i as int].has_identity(
                views(tracks@)[i as int].size,
                views(tracks@)[i as int].hash,
                algorithm,
            ));
            return false;
        }
        i += 1;
    }
    true
}

/// Imports a disc image that has a cue sheet, once its tracks have been
/// decoded and hashed. The tracks must be as many as the roms they were
/// decoded for.
pub fn import_chd(
    system_directory: &str,
    cue_rom: Rom,
    roms: Vec<Rom>,
    tracks: &Vec<TrackContent>,
    algorithm: HashAlgorithm,
) -> (plan: Result<ChdImport, TrackCountMismatch>)
    ensures
        match plan {
            Ok(import) => tracks.len() == roms.len() && import@ == chd_plan(
                system_directory@,
                cue_rom@,
                views(roms@),
                views(tracks@),
                algorithm,
            ),
            Err(e) => tracks.len() != roms.len() && e == (TrackCountMismatch {
                expected: roms.len(),
                found: tracks.len(),
            }),
        },
{
    if tracks.len() != roms.len() {
        return Err(TrackCountMismatch { expected: roms.len(), found: tracks.len() });
    }
    if !tracks_match(&roms, tracks, algorithm) {
        return Ok(ChdImport::Trash);
    }
    let cue_destination = join(system_directory, cue_rom.name.as_str());
    let chd_destination = set_extension(cue_destination.as_str(), chd_extension());
    Ok(ChdImport::Place { cue_destination, chd_destination, cue_rom, roms })
}

/// Imports a disc image without a cue sheet, whose single decoded track
/// has `size` bytes and digest `hash`.
pub fn import_chd_single_track<F: Fn(&Vec<Rom>) -> Option<usize>>(
    catalog: &Catalog,
    system_directory: &str,
    system: &System,
    romfile_path: &str,
    size: u64,
    hash: &str,
    algorithm: HashAlgorithm,
    decide: &F,
) -> (plan: Import)
    requires
        forall|candidates: &Vec<Rom>| decide.requires((candidates,)),
    ensures
        exists|choice: Option<usize>|
            told(
                decide,
                resolution_of(
                    catalog@,
                    Seq::empty(),
                    romfile_path@,
                    size,
                    hash@,
                    system.id,
                    algorithm,
                ),
                choice,
            ) && #[trigger] image_plan(
                system_directory@,
                chd_text(),
                resolution_of(
                    catalog@,
                    Seq::empty(),
                    romfile_path@,
                    size,
                    hash@,
                    system.id,
                    algorithm,
                ),
                choice,
            ) == plan@,
{
    import_image(
        catalog,
        system_directory,
        system,
        romfile_path,
        chd_extension(),
        size,
        hash,
        algorithm,
        decide,
    )
}

/// Why a file could not be recorded.
#[derive(Clone, Copy, Debug, PartialEq, Eq, Structural)]
pub enum RecordError {
    /// No romfile id is left for a new romfile.
    CatalogFull,
    /// The path has no file name to keep in quarantine.
    NoFileName,
}

/// Whether a file can be recorded at `path`: a romfile is recorded there
/// already, or one can still be added.
pub open spec fn can_file(catalog: CatalogView, path: Seq<char>) -> bool {
    position_of_path(catalog.romfiles, path) is Some || catalog.has_room()
}

/// Records that the file at `romfile_path`, of `size` bytes on disk, holds
/// `roms`: the one romfile of that path gets the size, or is added where
/// the path has none, and every rom is bound to it. Gives the romfile's id.
pub fn create_or_update_romfile(
    catalog: &mut Catalog,
    romfile_path: &str,
    size: u64,
    roms: &Vec<Rom>,
) -> (recorded: Result<i64, RecordError>)
    requires
        old(catalog)@.wf(),
    ensures
        final(catalog)@.wf(),
        match recorded {
            Ok(id) => can_file(old(catalog)@, romfile_path@) && id == old(catalog)@.id_for_path(
                romfile_path@,
            ) && final(catalog)@ == old(catalog)@.filed(
                romfile_path@,
                size,
                ids_of(views(roms@)),
            ),
            Err(e) => !can_file(old(catalog)@, romfile_path@) && e == RecordError::CatalogFull
                && final(catalog)@ == old(catalog)@,
        },
{
    let ghost before = catalog@;
    let ghost ids = ids_of(views(roms@));
    proof {
        lemma_position_of_path(before.romfiles, romfile_path@);
    }
    let id = match catalog.find_romfile_by_path(romfile_path) {
        Some(romfile) => {
            let ghost at = position_of_path(before.romfiles, romfile_path@)->0;
            catalog.update_romfile(romfile.id, romfile_path, size);
            assert(catalog@.romfiles =~= before.romfiles.update(
                at,
                RomfileView { id: romfile.id, path: romfile_path@, size },
            ));
            romfile.id
        },
        None => {
            if !catalog.has_room() {
                return Err(RecordError::CatalogFull);
            }
            catalog.create_romfile(romfile_path, size)
        },
    };
    let ghost filed = before.filed(romfile_path@, size, ids);
    assert(catalog@.romfiles == filed.romfiles);
    proof {
        let at = match position_of_path(before.romfiles, romfile_path@) {
            Some(i) => i,
            None => before.romfiles.len() as int,
        };
        assert(catalog@.romfiles[at].id == id);
        lemma_romfile_found(catalog@.romfiles, id);
    }
    let mut i: usize = 0;
    while i < roms.len()
        invariant
            i <= roms.len(),
            ids == ids_of(views(roms@)),
            catalog@.wf(),
            catalog@.games == before.games,
            catalog@.romfiles == filed.romfiles,
            romfile_with_id(catalog@.romfiles, id) is Some,
            catalog@.roms == bound_to(before.roms, ids.take(i as int), id),
        decreases roms.len() - i,
    {
        let ghost current = catalog@.roms;
        let bound = catalog.update_rom_romfile(roms[i].id, Some(id));
        assert(bound);
        proof {
            let wanted = ids.take(i + 1);
            assert(wanted.drop_last() == ids.take(i as int));
            assert(wanted.last() == roms[i as int].id);
            assert forall|k: int| 0 <= k < before.roms.len() implies (#[trigger] wanted.contains(
                before.roms[k].id,
            )) == (ids.take(i as int).contains(before.roms[k].id) || before.roms[k].id == roms[i as int].id) by {
                if wanted.contains(before.roms[k].id) {
                    let j = choose|j: int| 0 <= j < wanted.len() && wanted[j] == before.roms[k].id;
                    if j < i {
                        assert(ids.take(i as int)[j] == before.roms[k].id);
                    }
                } else {
                    if before.roms[k].id == roms[i as int].id {
                        assert(wanted[i as int] == before.roms[k].id);
                    }
                    if ids.take(i as int).contains(before.roms[k].id) {
                        let j = choose|j: int|
                            0 <= j < i && ids.take(i as int)[j] == before.roms[k].id;
                        assert(wanted[j] == before.roms[k].id);
                    }
                }
            }
            assert(catalog@.roms =~= bound_to(before.roms, wanted, id));
        }
        i += 1;
    }
    assert(ids.take(i as int) == ids);
    Ok(id)
}

/// Records that a file of `size` bytes goes to quarantine, and says where:
/// under its own file name in `trash_directory`. The romfile at that place
/// gets the size, or is added where the place has none; no rom is bound.
pub fn move_to_trash(
    catalog: &mut Catalog,
    trash_directory: &str,
    romfile_path: &str,
    size: u64,
) -> (moved: Result<String, RecordError>)
    requires
        old(catalog)@.wf(),
    ensures
        final(catalog)@.wf(),
        match moved {
            Ok(place) => trash_place(trash_directory@, romfile_path@) == Some(place@) && can_file(
                old(catalog)@,
                place@,
            ) && final(catalog)@ == old(catalog)@.filed(place@, size, Seq::empty()),
            Err(e) => final(catalog)@ == old(catalog)@ && match trash_place(
                trash_directory@,
                romfile_path@,
            ) {
                Some(place) => e == RecordError::CatalogFull && !can_file(old(catalog)@, place),
                None => e == RecordError::NoFileName,
            },
        },
{
    let place = match trash_destination(trash_directory, romfile_path) {
        Some(place) => place,
        None => {
            return Err(RecordError::NoFileName);
        },
    };
    let none: Vec<Rom> = Vec::new();
    assert(ids_of(views(none@)) =~= Seq::<i64>::empty());
    match create_or_update_romfile(catalog, place.as_str(), size, &none) {
        Ok(_) => Ok(place),
        Err(e) => Err(e),
    }
}

/// A rom given to an earlier entry is among the roms claimed before a later one.
pub proof fn lemma_claimed_holds(outcomes: Seq<Option<RomView>>, n: int, i: int)
    requires
        0 <= i < n <= outcomes.len(),
        outcomes[i] is Some,
    ensures
        claimed_upto(outcomes, n).contains(outcomes[i]->0.id),
    decreases n,
{
    let rest = claimed_upto(outcomes, n - 1);
    let all = claimed_upto(outcomes, n);
    if i < n - 1 {
        lemma_claimed_holds(outcomes, n - 1, i);
        let k = choose|k: int| 0 <= k < rest.len() && rest[k] == outcomes[i]->0.id;
        assert(all[k] == outcomes[i]->0.id);
    } else {
        assert(all[all.len() - 1] == outcomes[i]->0.id);
    }
}

/// No rom is given to two entries of one container, and every rom given to
/// an entry agrees with the entry in size and in digest.
pub proof fn lemma_outcomes_distinct(
    catalog: CatalogView,
    system_id: i64,
    algorithm: HashAlgorithm,
    entries: Seq<ContainerEntryView>,
    outcomes: Seq<Option<RomView>>,
)
    requires
        resolved(catalog, system_id, algorithm, entries, outcomes),
    ensures
        forall|i: int, j: int|
            0 <= i < j < outcomes.len() && outcomes[i] is Some && outcomes[j] is Some
                ==> outcomes[i]->0.id != outcomes[j]->0.id,
        forall|i: int|
            0 <= i < outcomes.len() && (#[trigger] outcomes[i]) is Some ==> outcomes[i]->0.has_identity(
                entries[i].size,
                entries[i].hash,
                algorithm,
            ),
{
    assert forall|i: int, j: int|
        0 <= i < j < outcomes.len() && outcomes[i] is Some && outcomes[j] is Some implies outcomes[i]->0.id
        != outcomes[j]->0.id by {
        lemma_claimed_holds(outcomes, j, i);
        lemma_outcome_is_candidate(
            catalog,
            claimed_upto(outcomes, j),
            entries[j].name,
            entries[j].size,
            entries[j].hash,
            system_id,
            algorithm,
            outcomes[j]->0,
        );
    }
    assert forall|i: int|
        0 <= i < outcomes.len() && (#[trigger] outcomes[i]) is Some implies outcomes[i]->0.has_identity(
        entries[i].size,
        entries[i].hash,
        algorithm,
    ) by {
        lemma_outcome_is_candidate(
            catalog,
            claimed_upto(outcomes, i),
            entries[i].name,
            entries[i].size,
            entries[i].hash,
            system_id,
            algorithm,
            outcomes[i]->0,
        );
    }
}

/// Where every entry was given a rom, the roms are as many as the entries.
pub proof fn lemma_all_matched(outcomes: Seq<Option<RomView>>, n: int)
    requires
        0 <= n <= outcomes.len(),
        all_matched(outcomes),
    ensures
        matched_upto(outcomes, n).len() == n,
        forall|i: int| 0 <= i < n ==> outcomes[i] == Some(#[trigger] matched_upto(outcomes, n)[i]),
    decreases n,
{
    if n > 0 {
        lemma_all_matched(outcomes, n - 1);
        assert(outcomes[n - 1] is Some);
    }
}

/// Every rom whose id is among those recorded with a file is bound to the
/// romfile of that file, and no other rom changes.
pub proof fn lemma_filed_binds(catalog: CatalogView, path: Seq<char>, size: u64, ids: Seq<i64>)
    ensures
        catalog.filed(path, size, ids).roms.len() == catalog.roms.len(),
        forall|k: int|
            0 <= k < catalog.roms.len() ==> (#[trigger] catalog.filed(path, size, ids).roms[k])
                == if ids.contains(catalog.roms[k].id) {
                RomView { romfile_id: Some(catalog.id_for_path(path)), ..catalog.roms[k] }
            } else {
                catalog.roms[k]
            },
{
}

/// A file that agrees in size and digest with one rom alone is placed at
/// the place that the rules give that rom. Once it is recorded there, the
/// one romfile at that place holds the size that the file has on disk, and
/// the rom is bound to that romfile.
pub proof fn lemma_round_trip(
    catalog: CatalogView,
    directory: Seq<char>,
    system: SystemView,
    extension: Seq<char>,
    name: Seq<char>,
    size: u64,
    hash: Seq<char>,
    algorithm: HashAlgorithm,
    rom: RomView,
    size_on_disk: u64,
    choice: Option<usize>,
)
    requires
        catalog.wf(),
        catalog.candidates(Seq::empty(), size, hash, system.id, algorithm) == seq![rom],
        can_file(catalog, rom_place(directory, system, game_of(catalog, rom), rom, extension)),
    ensures
        rom.size == size && rom.digest(algorithm) == Some(hash),
        file_plan(
            catalog,
            directory,
            system,
            extension,
            resolution_of(catalog, Seq::empty(), name, size, hash, system.id, algorithm),
            choice,
        ) == (ImportView::Place {
            destination: rom_place(directory, system, game_of(catalog, rom), rom, extension),
            rom,
        }),
        ({
            let place = rom_place(directory, system, game_of(catalog, rom), rom, extension);
            let after = catalog.filed(place, size_on_disk, seq![rom.id]);
            let at = position_of_path(after.romfiles, place);
            &&& after.wf()
            &&& at is Some
            &&& after.romfiles[at->0].path == place
            &&& after.romfiles[at->0].size == size_on_disk
            &&& exists|k: int|
                0 <= k < after.roms.len() && (#[trigger] after.roms[k]).id == rom.id
                    && after.roms[k].romfile_id == Some(after.romfiles[at->0].id)
        }),
{
    let place = rom_place(directory, system, game_of(catalog, rom), rom, extension);
    let ids = seq![rom.id];
    let after = catalog.filed(place, size_on_disk, ids);
    let candidates = catalog.candidates(Seq::empty(), size, hash, system.id, algorithm);
    assert(candidates[0] == rom);
    lemma_candidate_member(
        catalog,
        catalog.roms.len() as int,
        Seq::empty(),
        size,
        hash,
        system.id,
        algorithm,
        0,
    );
    lemma_filed_once(catalog, place, size_on_disk, ids);
    lemma_position_of_path(after.romfiles, place);
    lemma_position_of_path(catalog.romfiles, place);
    let k = choose|k: int| 0 <= k < catalog.roms.len() && catalog.roms[k] == rom;
    assert(ids[0] == rom.id);
    assert(after.roms[k].id == rom.id);
    let at = position_of_path(after.romfiles, place)->0;
    let old_at = match position_of_path(catalog.romfiles, place) {
        Some(i) => i,
        None => catalog.romfiles.len() as int,
    };
    assert(after.romfiles[old_at].path == place);
    if at < old_at {
        assert(after.romfiles[at] == catalog.romfiles[at]);
    }
    if old_at < at {
        assert(after.romfiles[old_at].path != place);
    }
}

/// An archive whose entries are one whole game is filed as one file: the
/// plan is to repack it with all the roms of its entries, which are as many
/// as the entries, and recording it adds one romfile at most, to which
/// every rom of the game's own set is bound.
pub proof fn lemma_whole_game_is_one_file(
    catalog: CatalogView,
    directory: Seq<char>,
    system: SystemView,
    archive: ArchiveType,
    entries: Seq<ContainerEntryView>,
    outcomes: Seq<Option<RomView>>,
    size_on_disk: u64,
)
    requires
        catalog.wf(),
        outcomes.len() == entries.len(),
        is_whole_game(catalog, outcomes),
        can_file(
            catalog,
            archive_place(
                directory,
                system,
                game_of(catalog, matched(outcomes)[0]),
                matched(outcomes),
                archive,
            ),
        ),
    ensures
        archive_plan(catalog, directory, system, archive, entries, outcomes) is Repack,
        archive_plan(catalog, directory, system, archive, entries, outcomes)->Repack_roms
            == matched(outcomes),
        matched(outcomes).len() == entries.len(),
        ({
            let place = archive_plan(
                catalog,
                directory,
                system,
                archive,
                entries,
                outcomes,
            )->Repack_destination;
            let game_id = matched(outcomes)[0].game_id;
            let after = catalog.filed(place, size_on_disk, ids_of(matched(outcomes)));
            &&& after.wf()
            &&& after.romfiles.len() <= catalog.romfiles.len() + 1
            &&& forall|k: int|
                0 <= k < after.roms.len() && (#[trigger] after.roms[k]).game_id == game_id
                    && after.roms[k].parent_id is None ==> after.roms[k].romfile_id == Some(
                    catalog.id_for_path(place),
                )
        }),
{
    let roms = matched(outcomes);
    lemma_all_matched(outcomes, outcomes.len() as int);
    assert(outcomes[0] is Some);
    let place = archive_place(directory, system, game_of(catalog, roms[0]), roms, archive);
    let after = catalog.filed(place, size_on_disk, ids_of(roms));
    lemma_filed_once(catalog, place, size_on_disk, ids_of(roms));
    let game_id = roms[0].game_id;
    let own = own_roms(catalog.roms, game_id);
    assert forall|k: int|
        0 <= k < after.roms.len() && (#[trigger] after.roms[k]).game_id == game_id
            && after.roms[k].parent_id is None implies after.roms[k].romfile_id == Some(
        catalog.id_for_path(place),
    ) by {
        lemma_own_holds(catalog.roms, game_id, k);
        let j = choose|j: int| 0 <= j < own.len() && own[j] == catalog.roms[k];
        assert(ids_of(own)[j] == catalog.roms[k].id);
    }
}

/// A rom of a game that repeats no other rom is among the game's own roms.
pub proof fn lemma_own_holds(roms: Seq<RomView>, game_id: i64, k: int)
    requires
        0 <= k < roms.len(),
        roms[k].game_id == game_id,
        roms[k].parent_id is None,
    ensures
        own_roms(roms, game_id).contains(roms[k]),
    decreases roms.len(),
{
    let own = own_roms(roms, game_id);
    if k < roms.len() - 1 {
        lemma_own_holds(roms.drop_last(), game_id, k);
        let rest = own_roms(roms.drop_last(), game_id);
        let j = choose|j: int| 0 <= j < rest.len() && rest[j] == roms.drop_last()[k];
        assert(own[j] == roms[k]);
    } else {
        assert(own[own.len() - 1] == roms[k]);
    }
}

/// One track that differs from its rom, in size or in digest, sends the
/// whole disc image to quarantine, whatever the other tracks are; the plan
/// then holds nothing for the cue sheet.
pub proof fn lemma_one_bad_track(
    directory: Seq<char>,
    cue_rom: RomView,
    roms: Seq<RomView>,
    tracks: Seq<TrackContentView>,
    algorithm: HashAlgorithm,
    bad: int,
)
    requires
        0 <= bad < roms.len(),
        roms[bad].size != tracks[bad].size || roms[bad].digest(algorithm) != Some(tracks[bad].hash),
    ensures
        chd_plan(directory, cue_rom, roms, tracks, algorithm) == ChdImportView::Trash,
{
    assert(!roms[bad].has_identity(tracks[bad].size, tracks[bad].hash, algorithm));
}

/// Every rom among the first `n` outcomes' roms is one of those outcomes.
pub proof fn lemma_matched_member(outcomes: Seq<Option<RomView>>, n: int, k: int)
    requires
        0 <= n <= outcomes.len(),
        0 <= k < matched_upto(outcomes, n).len(),
    ensures
        exists|i: int| 0 <= i < n && #[trigger] outcomes[i] == Some(matched_upto(outcomes, n)[k]),
    decreases n,
{
    if n > 0 {
        let rest = matched_upto(outcomes, n - 1);
        if k < rest.len() {
            lemma_matched_member(outcomes, n - 1, k);
        } else {
            assert(outcomes[n - 1] == Some(matched_upto(outcomes, n)[k]));
        }
    }
}

} // verus!
