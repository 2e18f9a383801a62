//! Importing a game that comes as a folder of files around a disc marker.
//!
//! The marker file identifies the game. Every other file of the folder is
//! then looked up by size and MD5 digest among the roms that repeat the rom
//! of the marker's own parent, and filed under the game's directory.

use crate::catalog::{game_with_id, view_of, Catalog, CatalogView};
use crate::import_roms::{claimed_upto, game_of, outcome_views, EntryPlacement, EntryPlacementView};
use crate::model::{views, Game, GameView, HashAlgorithm, Rom, RomView, System};
use crate::path::{join, joined};
use crate::resolve::{
    ask, chosen, claim, classified, named, settle, settled, ContainerEntry, ContainerEntryView,
    Resolution, ResolutionView,
};
use crate::text::{ends_with, has_ending, same_text};
use vstd::prelude::*;

verus! {

/// The name of the marker file of a game folder.
pub open spec fn marker_text() -> Seq<char> {
    seq!['P', 'S', '3', '_', 'D', 'I', 'S', 'C', '.', 'S', 'F', 'B']
}

/// The name of the marker file of a game folder.
pub fn marker_name() -> (name: &'static str)
    ensures
        name@ == marker_text(),
{
    proof {
        reveal_strlit("PS3_DISC.SFB");
    }
    assert("PS3_DISC.SFB"@ =~= marker_text());
    "PS3_DISC.SFB"
}

/// The path of the marker file of a folder.
pub fn marker_path(folder_path: &str) -> (path: String)
    ensures
        path@ == joined(folder_path@, marker_text()),
{
    join(folder_path, marker_name())
}

/// The resolution of a marker file of `size` bytes with the MD5 digest
/// `md5`: its candidates are the roms of the system that bear the marker's
/// name, have no file yet, and agree in size and digest. One candidate is
/// settled; several are ambiguous.
pub open spec fn marker_resolution(
    catalog: CatalogView,
    size: u64,
    md5: Seq<char>,
    system_id: i64,
) -> ResolutionView {
    classified(
        catalog.romfiles,
        named(
            catalog.candidates(Seq::empty(), size, md5, system_id, HashAlgorithm::Md5),
            marker_text(),
        ),
        None,
    )
}

fn with_name(candidates: Vec<Rom>, name: &str) -> (kept: Vec<Rom>)
    ensures
        views(kept@) == named(views(candidates@), name@),
{
    let ghost all = views(candidates@);
    let mut kept: Vec<Rom> = Vec::new();
    let mut i: usize = 0;
    while i < candidates.len()
        invariant
            i <= candidates.len(),
            all == views(candidates@),
            views(kept@) == named(all.take(i as int), name@),
        decreases candidates.len() - i,
    {
        assert(all.take(i + 1).drop_last() == all.take(i as int));
        if same_text(candidates[i].name.as_str(), name) {
            let ghost before = views(kept@);
            kept.push(candidates[i].clone());
            assert(views(kept@) =~= before.push(all[i as int]));
        }
        i += 1;
    }
    assert(all.take(i as int) == all);
    kept
}

/// Resolves the marker file of a game folder from the roms that bear its name.
pub fn resolve_marker(catalog: &Catalog, size: u64, md5: &str, system: &System) -> (resolution:
    Resolution)
    ensures
        resolution@ == marker_resolution(catalog@, size, md5@, system.id),
{
    let claimed: Vec<i64> = Vec::new();
    let found = catalog.find_roms_without_romfile_by_size_and_hash_and_system_id(
        &claimed,
        size,
        md5,
        system.id,
        HashAlgorithm::Md5,
    );
    let candidates = with_name(found, marker_name());
    if candidates.len() == 0 {
        Resolution::NoMatch
    } else if candidates.len() == 1 {
        settle(catalog, candidates[0].clone())
    } else {
        Resolution::Ambiguous(candidates)
    }
}

/// Finds the rom that the marker file of a game folder is. Where several
/// roms agree with it, `decide` is asked.
pub fn find_sfb_rom_by_md5<F: Fn(&Vec<Rom>) -> Option<usize>>(
    catalog: &Catalog,
    size: u64,
    md5: &str,
    system: &System,
    decide: &F,
) -> (rom: Option<Rom>)
    requires
        forall|candidates: &Vec<Rom>| decide.requires((candidates,)),
    ensures
        chosen(decide, marker_resolution(catalog@, size, md5@, system.id), view_of(rom)),
{
    let resolution = resolve_marker(catalog, size, md5, system);
    let choice = ask(&resolution, decide);
    claim(resolution, choice)
}

/// The position of the first candidate whose name the path ends with.
pub open spec fn first_ending(candidates: Seq<RomView>, path: Seq<char>) -> Option<int>
    decreases candidates.len(),
{
    if candidates.len() == 0 {
        None
    } else if has_ending(path, candidates.first().name) {
        Some(0)
    } else {
        match first_ending(candidates.drop_first(), path) {
            Some(i) => Some(i + 1),
            None => None,
        }
    }
}

/// The resolution of a file of a game folder from its candidates: none is
/// no match, one is settled, and among several the first whose name the
/// path of the file ends with is settled; otherwise the file stays ambiguous.
pub open spec fn folder_classified(
    catalog: CatalogView,
    candidates: Seq<RomView>,
    path: Seq<char>,
) -> ResolutionView {
    if candidates.len() == 0 {
        ResolutionView::NoMatch
    } else if candidates.len() == 1 {
        settled(catalog.romfiles, candidates[0])
    } else {
        match first_ending(candidates, path) {
            Some(k) => settled(catalog.romfiles, candidates[k]),
            None => ResolutionView::Ambiguous(candidates),
        }
    }
}

/// The resolution of a file of a game folder against the roms that repeat
/// the rom `parent_id` and are neither filed nor claimed. Without a parent
/// there is no match.
pub open spec fn folder_resolution(
    catalog: CatalogView,
    claimed: Seq<i64>,
    path: Seq<char>,
    size: u64,
    md5: Seq<char>,
    parent_id: Option<i64>,
) -> ResolutionView {
    match parent_id {
        Some(parent) => folder_classified(
            catalog,
            catalog.children(claimed, size, md5, parent),
            path,
        ),
        None => ResolutionView::NoMatch,
    }
}

fn find_ending(candidates: &Vec<Rom>, path: &str) -> (position: Option<usize>)
    ensures
        match position {
            Some(i) => first_ending(views(candidates@), path@) == Some(i as int) && i
                < candidates.len(),
            None => first_ending(views(candidates@), path@) is None,
        },
{
    let ghost all = views(candidates@);
    let mut i: usize = 0;
    assert(all.skip(0) =~= all);
    while i < candidates.len()
        invariant
            i <= candidates.len(),
            all == views(candidates@),
            first_ending(all, path@) == match first_ending(all.skip(i as int), path@) {
                Some(k) => Some(k + i),
                None => None,
            },
        decreases candidates.len() - i,
    {
        assert(all.skip(i as int).drop_first() == all.skip(i + 1));
        if ends_with(path, candidates[i].name.as_str()) {
            return Some(i);
        }
        i += 1;
    }
    None
}

/// Resolves a file of a game folder from the candidates that a lookup gave
/// for it.
pub fn classify_folder_file(catalog: &Catalog, candidates: Vec<Rom>, path: &str) -> (resolution:
    Resolution)
    ensures
        resolution@ == folder_classified(catalog@, views(candidates@), path@),
{
    if candidates.len() == 0 {
        Resolution::NoMatch
    } else if candidates.len() == 1 {
        settle(catalog, candidates[0].clone())
    } else {
        match find_ending(&candidates, path) {
            Some(k) => settle(catalog, candidates[k].clone()),
            None => Resolution::Ambiguous(candidates),
        }
    }
}

/// Whether `outcomes` gives each file of a game folder the rom that its
/// resolution and `decide` settle on, where the roms given to earlier files
/// can no longer be claimed.
pub open spec fn folder_resolved<F: Fn(&Vec<Rom>) -> Option<usize>>(
    decide: &F,
    catalog: CatalogView,
    parent_id: Option<i64>,
    files: Seq<ContainerEntryView>,
    outcomes: Seq<Option<RomView>>,
) -> bool {
    &&& outcomes.len() == files.len()
    &&& forall|i: int|
        0 <= i < files.len() ==> chosen(
            decide,
            folder_resolution(
                catalog,
                claimed_upto(outcomes, i),
                files[i].name,
                files[i].size,
                files[i].hash,
                parent_id,
            ),
            #[trigger] outcomes[i],
        )
}

/// Resolves the files of a game folder one after the other. Each file is
/// named by its path and comes with its size and its MD5 digest. A rom given
/// to a file is claimed: no later file gets it.
pub fn resolve_folder_files<F: Fn(&Vec<Rom>) -> Option<usize>>(
    catalog: &Catalog,
    parent_id: Option<i64>,
    files: &Vec<ContainerEntry>,
    decide: &F,
) -> (outcomes: Vec<Option<Rom>>)
    requires
        forall|candidates: &Vec<Rom>| decide.requires((candidates,)),
    ensures
        folder_resolved(decide, catalog@, parent_id, views(files@), outcome_views(outcomes@)),
{
    let mut outcomes: Vec<Option<Rom>> = Vec::new();
    let mut claimed: Vec<i64> = Vec::new();
    let mut i: usize = 0;
    while i < files.len()
        invariant
            i <= files.len(),
            outcomes.len() == i,
            forall|candidates: &Vec<Rom>| decide.requires((candidates,)),
            claimed@ == claimed_upto(outcome_views(outcomes@), i as int),
            forall|k: int|
                0 <= k < i ==> chosen(
                    decide,
                    folder_resolution(
                        catalog@,
                        claimed_upto(outcome_views(outcomes@), k),
                        views(files@)[k].name,
                        views(files@)[k].size,
                        views(files@)[k].hash,
                        parent_id,
                    ),
                    #[trigger] outcome_views(outcomes@)[k],
                ),
        decreases files.len() - i,
    {
        let file = &files[i];
        let resolution = match parent_id {
            Some(parent) => {
                let candidates = catalog.find_roms_without_romfile_by_size_and_md5_and_parent_id(
                    &claimed,
                    file.size,
                    file.hash.as_str(),
                    parent,
                );
                classify_folder_file(catalog, candidates, file.name.as_str())
            },
            None => Resolution::NoMatch,
        };
        let choice = ask(&resolution, decide);
        let rom = claim(resolution, choice);
        let ghost before = outcome_views(outcomes@);
        match &rom {
            Some(r) => {
                claimed.push(r.id);
            },
            None => {},
        }
        outcomes.push(rom);
        proof {
            let after = outcome_views(outcomes@);
            assert(after =~= before.push(view_of(rom)));
            assert forall|k: int| 0 <= k <= i implies claimed_upto(after, k) == claimed_upto(
                before,
                k,
            ) by {
                crate::import_roms::lemma_claimed_prefix(after, before, k);
            }
        }
        i += 1;
    }
    outcomes
}

/// The placements among the first `n` files of a game folder: one for each
/// file that was given a rom, under the rom's name in the directory of the
/// game.
pub open spec fn folder_placements_upto(
    directory: Seq<char>,
    game: GameView,
    files: Seq<ContainerEntryView>,
    outcomes: Seq<Option<RomView>>,
    n: int,
) -> Seq<EntryPlacementView>
    decreases n,
{
    if n <= 0 || n > files.len() || n > outcomes.len() {
        Seq::empty()
    } else {
        let rest = folder_placements_upto(directory, game, files, outcomes, n - 1);
        match outcomes[n - 1] {
            Some(rom) => rest.push(
                EntryPlacementView {
                    entry: files[n - 1].name,
                    destination: joined(joined(directory, game.name), rom.name),
                    rom,
                },
            ),
            None => rest,
        }
    }
}

/// Decides where the files of a game folder are filed, from the roms that
/// they were given. A file without a rom stays where it is.
pub fn place_folder_files(
    system_directory: &str,
    game: &Game,
    files: &Vec<ContainerEntry>,
    outcomes: &Vec<Option<Rom>>,
) -> (placements: Vec<EntryPlacement>)
    requires
        outcomes.len() == files.len(),
    ensures
        views(placements@) == folder_placements_upto(
            system_directory@,
            game@,
            views(files@),
            outcome_views(outcomes@),
            files.len() as int,
        ),
{
    let game_directory = join(system_directory, game.name.as_str());
    let mut placements: Vec<EntryPlacement> = Vec::new();
    let mut i: usize = 0;
    while i < files.len()
        invariant
            i <= files.len(),
            outcomes.len() == files.len(),
            game_directory@ == joined(system_directory@, game@.name),
            views(placements@) == folder_placements_upto(
                system_directory@,
                game@,
                views(files@),
                outcome_views(outcomes@),
                i as int,
            ),
        decreases files.len() - i,
    {
        match &outcomes[i] {
            Some(rom) => {
                let destination = join(game_directory.as_str(), rom.name.as_str());
                let ghost before = views(placements@);
                let placement = EntryPlacement {
                    entry: files[i].name.clone(),
                    destination,
                    rom: rom.clone(),
                };
                let ghost added = placement@;
                placements.push(placement);
                assert(views(placements@) =~= before.push(added));
            },
            None => {},
        }
        i += 1;
    }
    placements
}

/// Imports the files of a game folder whose marker file is `sfb_rom`: each
/// file is looked up among the roms that repeat the parent of `sfb_rom`, and
/// those that are found are filed in the directory of the marker's game.
pub fn import_jbfolder<F: Fn(&Vec<Rom>) -> Option<usize>>(
    catalog: &Catalog,
    system_directory: &str,
    sfb_rom: &Rom,
    files: &Vec<ContainerEntry>,
    decide: &F,
) -> (placements: Vec<EntryPlacement>)
    requires
        forall|candidates: &Vec<Rom>| decide.requires((candidates,)),
        game_with_id(catalog@.games, sfb_rom.game_id) is Some,
    ensures
        exists|outcomes: Seq<Option<RomView>>| #[trigger]
            folder_resolved(decide, catalog@, sfb_rom.parent_id, views(files@), outcomes) && views(
                placements@,
            ) == folder_placements_upto(
                system_directory@,
                game_of(catalog@, sfb_rom@),
                views(files@),
                outcomes,
                files.len() as int,
            ),
{
    let game = match catalog.find_game_by_id(sfb_rom.game_id) {
        Some(game) => game,
        None => vstd::pervasive::unreached(),
    };
    let outcomes = resolve_folder_files(catalog, sfb_rom.parent_id, files, decide);
    place_folder_files(system_directory, &game, files, &outcomes)
}

} // verus!
