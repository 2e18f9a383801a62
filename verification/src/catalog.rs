//! The catalog: games, roms and the files on disk that back them.
//!
//! The catalog is held as plain records. Every lookup and every update is
//! stated over [`CatalogView`], the sequences of record views.

use crate::model::{
    holds_id, ids_of, views, Game, GameView, HashAlgorithm, Rom, RomView, Romfile, RomfileView,
};
use crate::text::same_text;
use vstd::prelude::*;

verus! {

/// The games and roms of the catalog, and the romfiles that back them.
///
/// A catalog is built from an empty one by [`Catalog::add_game`],
/// [`Catalog::add_romfile`] and [`Catalog::add_rom`], which keep it well
/// formed ([`CatalogView::wf`]); everything else preserves that.
pub struct Catalog {
    games: Vec<Game>,
    roms: Vec<Rom>,
    romfiles: Vec<Romfile>,
}

/// The view of [`Catalog`]: the same record over mathematical values.
pub struct CatalogView {
    pub games: Seq<GameView>,
    pub roms: Seq<RomView>,
    pub romfiles: Seq<RomfileView>,
}

/// The first game with the given id.
pub open spec fn game_with_id(games: Seq<GameView>, id: i64) -> Option<GameView>
    decreases games.len(),
{
    if games.len() == 0 {
        None
    } else if games.first().id == id {
        Some(games.first())
    } else {
        game_with_id(games.drop_first(), id)
    }
}

/// The first romfile with the given id.
pub open spec fn romfile_with_id(romfiles: Seq<RomfileView>, id: i64) -> Option<RomfileView>
    decreases romfiles.len(),
{
    if romfiles.len() == 0 {
        None
    } else if romfiles.first().id == id {
        Some(romfiles.first())
    } else {
        romfile_with_id(romfiles.drop_first(), id)
    }
}

/// The position of the first romfile recorded at `path`.
pub open spec fn position_of_path(romfiles: Seq<RomfileView>, path: Seq<char>) -> Option<int>
    decreases romfiles.len(),
{
    if romfiles.len() == 0 {
        None
    } else if romfiles.first().path == path {
        Some(0)
    } else {
        match position_of_path(romfiles.drop_first(), path) {
            Some(i) => Some(i + 1),
            None => None,
        }
    }
}

/// The largest romfile id in use, or 0 where there is none above it.
pub open spec fn highest_id(romfiles: Seq<RomfileView>) -> int
    decreases romfiles.len(),
{
    if romfiles.len() == 0 {
        0
    } else {
        let rest = highest_id(romfiles.drop_last());
        if romfiles.last().id > rest {
            romfiles.last().id as int
        } else {
            rest
        }
    }
}

/// The roms, with every rom whose id is among `ids` bound to `romfile_id`.
pub open spec fn bound_to(roms: Seq<RomView>, ids: Seq<i64>, romfile_id: i64) -> Seq<RomView> {
    Seq::new(
        roms.len(),
        |i: int|
            if ids.contains(roms[i].id) {
                RomView { romfile_id: Some(romfile_id), ..roms[i] }
            } else {
                roms[i]
            },
    )
}

/// The roms of `game_id` that repeat no other rom, in catalog order.
pub open spec fn own_roms(roms: Seq<RomView>, game_id: i64) -> Seq<RomView>
    decreases roms.len(),
{
    if roms.len() == 0 {
        Seq::empty()
    } else {
        let rest = own_roms(roms.drop_last(), game_id);
        if roms.last().game_id == game_id && roms.last().parent_id is None {
            rest.push(roms.last())
        } else {
            rest
        }
    }
}

/// The roms backed by `romfile_id`, in catalog order.
pub open spec fn roms_of_romfile(roms: Seq<RomView>, romfile_id: i64) -> Seq<RomView>
    decreases roms.len(),
{
    if roms.len() == 0 {
        Seq::empty()
    } else {
        let rest = roms_of_romfile(roms.drop_last(), romfile_id);
        if roms.last().romfile_id == Some(romfile_id) {
            rest.push(roms.last())
        } else {
            rest
        }
    }
}

impl CatalogView {
    /// Ids and paths are unique, and every reference leads to a record.
    pub open spec fn wf(self) -> bool {
        &&& forall|i: int, j: int|
            0 <= i < j < self.games.len() ==> self.games[i].id != self.games[j].id
        &&& forall|i: int, j: int|
            0 <= i < j < self.roms.len() ==> self.roms[i].id != self.roms[j].id
        &&& forall|i: int, j: int|
            0 <= i < j < self.romfiles.len() ==> self.romfiles[i].id != self.romfiles[j].id
        &&& forall|i: int, j: int|
            0 <= i < j < self.romfiles.len() ==> self.romfiles[i].path != self.romfiles[j].path
        &&& forall|i: int|
            0 <= i < self.roms.len() ==> game_with_id(
                self.games,
                #[trigger] self.roms[i].game_id,
            ) is Some
        &&& forall|i: int|
            0 <= i < self.roms.len() && (#[trigger] self.roms[i]).romfile_id is Some
                ==> romfile_with_id(self.romfiles, self.roms[i].romfile_id->0) is Some
    }

    /// Whether `rom` belongs to the system `system_id`.
    pub open spec fn in_system(self, rom: RomView, system_id: i64) -> bool {
        match game_with_id(self.games, rom.game_id) {
            Some(game) => game.system_id == system_id,
            None => false,
        }
    }

    /// Whether `rom` can be claimed by a file of `size` bytes with digest
    /// `hash`: it has no file yet, belongs to the system, is not among the
    /// `claimed` ids, and size and digest both agree.
    pub open spec fn is_candidate(
        self,
        rom: RomView,
        claimed: Seq<i64>,
        size: u64,
        hash: Seq<char>,
        system_id: i64,
        algorithm: HashAlgorithm,
    ) -> bool {
        &&& rom.romfile_id is None
        &&& rom.has_identity(size, hash, algorithm)
        &&& !claimed.contains(rom.id)
        &&& self.in_system(rom, system_id)
    }

    /// The candidates among the first `n` roms, in catalog order.
    pub open spec fn candidates_upto(
        self,
        n: int,
        claimed: Seq<i64>,
        size: u64,
        hash: Seq<char>,
        system_id: i64,
        algorithm: HashAlgorithm,
    ) -> Seq<RomView>
        decreases n,
    {
        if n <= 0 || n > self.roms.len() {
            Seq::empty()
        } else {
            let rest = self.candidates_upto(n - 1, claimed, size, hash, system_id, algorithm);
            if self.is_candidate(self.roms[n - 1], claimed, size, hash, system_id, algorithm) {
                rest.push(self.roms[n - 1])
            } else {
                rest
            }
        }
    }

    /// Every rom that a file of `size` bytes with digest `hash` can claim.
    pub open spec fn candidates(
        self,
        claimed: Seq<i64>,
        size: u64,
        hash: Seq<char>,
        system_id: i64,
        algorithm: HashAlgorithm,
    ) -> Seq<RomView> {
        self.candidates_upto(self.roms.len() as int, claimed, size, hash, system_id, algorithm)
    }

    /// Whether `rom` can be claimed by a file of a game folder, of `size`
    /// bytes and with the MD5 digest `md5`: it has no file yet, repeats the
    /// rom `parent_id`, is not among the `claimed` ids, and size and digest
    /// both agree.
    pub open spec fn is_child(
        self,
        rom: RomView,
        claimed: Seq<i64>,
        size: u64,
        md5: Seq<char>,
        parent_id: i64,
    ) -> bool {
        &&& rom.romfile_id is None
        &&& rom.has_identity(size, md5, HashAlgorithm::Md5)
        &&& !claimed.contains(rom.id)
        &&& rom.parent_id == Some(parent_id)
    }

    /// The roms among the first `n` that a file of a game folder can claim,
    /// in catalog order.
    pub open spec fn children_upto(
        self,
        n: int,
        claimed: Seq<i64>,
        size: u64,
        md5: Seq<char>,
        parent_id: i64,
    ) -> Seq<RomView>
        decreases n,
    {
        if n <= 0 || n > self.roms.len() {
            Seq::empty()
        } else {
            let rest = self.children_upto(n - 1, claimed, size, md5, parent_id);
            if self.is_child(self.roms[n - 1], claimed, size, md5, parent_id) {
                rest.push(self.roms[n - 1])
            } else {
                rest
            }
        }
    }

    /// Every rom that a file of a game folder can claim.
    pub open spec fn children(
        self,
        claimed: Seq<i64>,
        size: u64,
        md5: Seq<char>,
        parent_id: i64,
    ) -> Seq<RomView> {
        self.children_upto(self.roms.len() as int, claimed, size, md5, parent_id)
    }

    /// Whether a romfile can still be added.
    pub open spec fn has_room(self) -> bool {
        highest_id(self.romfiles) < i64::MAX
    }

    /// The id of the romfile recorded at `path` after [`Self::filed`].
    pub open spec fn id_for_path(self, path: Seq<char>) -> i64 {
        match position_of_path(self.romfiles, path) {
            Some(i) => self.romfiles[i].id,
            None => (highest_id(self.romfiles) + 1) as i64,
        }
    }

    /// The catalog after a file of `size` bytes at `path` has been recorded
    /// as holding the roms `ids`: the romfile at `path` gets the size, or a
    /// new romfile is added where there is none, and the roms are bound to it.
    pub open spec fn filed(self, path: Seq<char>, size: u64, ids: Seq<i64>) -> CatalogView {
        let id = self.id_for_path(path);
        let romfiles = match position_of_path(self.romfiles, path) {
            Some(i) => self.romfiles.update(i, RomfileView { id, path, size }),
            None => self.romfiles.push(RomfileView { id, path, size }),
        };
        CatalogView { games: self.games, roms: bound_to(self.roms, ids, id), romfiles }
    }

    /// Whether the romfile `id` can be recorded at `path`: the catalog has
    /// the romfile, and no other romfile is recorded at the path.
    pub open spec fn can_move(self, id: i64, path: Seq<char>) -> bool {
        romfile_with_id(self.romfiles, id) is Some && match position_of_path(self.romfiles, path) {
            Some(i) => self.romfiles[i].id == id,
            None => true,
        }
    }

    /// The catalog after the romfile `id` has been recorded at `path`.
    pub open spec fn moved(self, id: i64, path: Seq<char>) -> CatalogView {
        CatalogView {
            games: self.games,
            roms: self.roms,
            romfiles: Seq::new(
                self.romfiles.len(),
                |i: int|
                    if self.romfiles[i].id == id {
                        RomfileView { path, ..self.romfiles[i] }
                    } else {
                        self.romfiles[i]
                    },
            ),
        }
    }
}

impl View for Catalog {
    type V = CatalogView;

    closed spec fn view(&self) -> CatalogView {
        CatalogView {
            games: views(self.games@),
            roms: views(self.roms@),
            romfiles: views(self.romfiles@),
        }
    }
}

/// The romfiles, with the romfile `id` recorded at `path` with `size`.
pub open spec fn rewritten(romfiles: Seq<RomfileView>, id: i64, path: Seq<char>, size: u64) -> Seq<
    RomfileView,
> {
    Seq::new(
        romfiles.len(),
        |i: int|
            if romfiles[i].id == id {
                RomfileView { id, path, size }
            } else {
                romfiles[i]
            },
    )
}

/// The roms, with the rom `rom_id` bound to `romfile_id`.
pub open spec fn rebound(roms: Seq<RomView>, rom_id: i64, romfile_id: Option<i64>) -> Seq<RomView> {
    Seq::new(
        roms.len(),
        |i: int|
            if roms[i].id == rom_id {
                RomView { romfile_id, ..roms[i] }
            } else {
                roms[i]
            },
    )
}

/// A romfile of the list is found by its id.
pub proof fn lemma_romfile_found(romfiles: Seq<RomfileView>, id: i64)
    requires
        exists|i: int| 0 <= i < romfiles.len() && (#[trigger] romfiles[i]).id == id,
    ensures
        romfile_with_id(romfiles, id) is Some,
{
    lemma_romfile_with_id(romfiles, id);
}

/// A game that was found by its id is still found after another is added.
pub proof fn lemma_game_kept(games: Seq<GameView>, added: GameView, id: i64)
    requires
        game_with_id(games, id) is Some,
    ensures
        game_with_id(games.push(added), id) == game_with_id(games, id),
    decreases games.len(),
{
    let longer = games.push(added);
    if games.first().id != id {
        assert(longer.drop_first() == games.drop_first().push(added));
        lemma_game_kept(games.drop_first(), added, id);
    }
}

/// A romfile that was found by its id is still found after another is added.
pub proof fn lemma_romfile_kept(romfiles: Seq<RomfileView>, added: RomfileView, id: i64)
    requires
        romfile_with_id(romfiles, id) is Some,
    ensures
        romfile_with_id(romfiles.push(added), id) is Some,
    decreases romfiles.len(),
{
    let longer = romfiles.push(added);
    if romfiles.first().id != id {
        assert(longer.drop_first() == romfiles.drop_first().push(added));
        lemma_romfile_kept(romfiles.drop_first(), added, id);
    }
}

/// A romfile that was found by its id is still found after one has been
/// recorded anew.
pub proof fn lemma_romfile_rewritten(
    romfiles: Seq<RomfileView>,
    id: i64,
    path: Seq<char>,
    size: u64,
    wanted: i64,
)
    requires
        romfile_with_id(romfiles, wanted) is Some,
    ensures
        romfile_with_id(rewritten(romfiles, id, path, size), wanted) is Some,
    decreases romfiles.len(),
{
    let after = rewritten(romfiles, id, path, size);
    if romfiles.first().id != wanted {
        assert(after.drop_first() == rewritten(romfiles.drop_first(), id, path, size));
        lemma_romfile_rewritten(romfiles.drop_first(), id, path, size, wanted);
    }
}

/// What [`game_with_id`] finds is a game of the list with that id, and it
/// finds one whenever there is one.
pub proof fn lemma_game_with_id(games: Seq<GameView>, id: i64)
    ensures
        match game_with_id(games, id) {
            Some(g) => g.id == id && games.contains(g),
            None => forall|i: int| 0 <= i < games.len() ==> (#[trigger] games[i]).id != id,
        },
    decreases games.len(),
{
    if games.len() > 0 {
        if games.first().id != id {
            let rest = games.drop_first();
            lemma_game_with_id(rest, id);
            match game_with_id(rest, id) {
                Some(g) => {
                    let k = choose|k: int| 0 <= k < rest.len() && rest[k] == g;
                    assert(games[k + 1] == g);
                },
                None => {
                    assert forall|i: int| 0 <= i < games.len() implies (#[trigger] games[i]).id
                        != id by {
                        if i > 0 {
                            assert(rest[i - 1] == games[i]);
                        }
                    }
                },
            }
        } else {
            assert(games[0] == games.first());
        }
    }
}

/// What [`romfile_with_id`] finds is a romfile of the list with that id, and
/// it finds one whenever there is one.
pub proof fn lemma_romfile_with_id(romfiles: Seq<RomfileView>, id: i64)
    ensures
        match romfile_with_id(romfiles, id) {
            Some(r) => r.id == id && romfiles.contains(r),
            None => forall|i: int| 0 <= i < romfiles.len() ==> (#[trigger] romfiles[i]).id != id,
        },
    decreases romfiles.len(),
{
    if romfiles.len() > 0 {
        if romfiles.first().id != id {
            let rest = romfiles.drop_first();
            lemma_romfile_with_id(rest, id);
            match romfile_with_id(rest, id) {
                Some(r) => {
                    let k = choose|k: int| 0 <= k < rest.len() && rest[k] == r;
                    assert(romfiles[k + 1] == r);
                },
                None => {
                    assert forall|i: int| 0 <= i < romfiles.len() implies (
                    #[trigger] romfiles[i]).id != id by {
                        if i > 0 {
                            assert(rest[i - 1] == romfiles[i]);
                        }
                    }
                },
            }
        } else {
            assert(romfiles[0] == romfiles.first());
        }
    }
}

/// [`position_of_path`] gives the first position that holds the path, and
/// gives one whenever some romfile holds it.
pub proof fn lemma_position_of_path(romfiles: Seq<RomfileView>, path: Seq<char>)
    ensures
        match position_of_path(romfiles, path) {
            Some(p) => 0 <= p < romfiles.len() && romfiles[p].path == path && forall|i: int|
                0 <= i < p ==> (#[trigger] romfiles[i]).path != path,
            None => forall|i: int| 0 <= i < romfiles.len() ==> (#[trigger] romfiles[i]).path != path,
        },
    decreases romfiles.len(),
{
    if romfiles.len() > 0 && romfiles.first().path != path {
        let rest = romfiles.drop_first();
        lemma_position_of_path(rest, path);
        match position_of_path(rest, path) {
            Some(p) => {
                assert(romfiles[p + 1] == rest[p]);
                assert forall|i: int| 0 <= i < p + 1 implies (#[trigger] romfiles[i]).path
                    != path by {
                    if i > 0 {
                        assert(rest[i - 1] == romfiles[i]);
                    }
                }
            },
            None => {
                assert forall|i: int| 0 <= i < romfiles.len() implies (#[trigger] romfiles[i]).path
                    != path by {
                    if i > 0 {
                        assert(rest[i - 1] == romfiles[i]);
                    }
                }
            },
        }
    }
}

/// No romfile id lies above [`highest_id`].
pub proof fn lemma_highest_id(romfiles: Seq<RomfileView>)
    ensures
        highest_id(romfiles) >= 0,
        forall|i: int| 0 <= i < romfiles.len() ==> (#[trigger] romfiles[i]).id <= highest_id(romfiles),
    decreases romfiles.len(),
{
    if romfiles.len() > 0 {
        let rest = romfiles.drop_last();
        lemma_highest_id(rest);
        assert forall|i: int| 0 <= i < romfiles.len() implies (#[trigger] romfiles[i]).id
            <= highest_id(romfiles) by {
            if i < rest.len() {
                assert(rest[i] == romfiles[i]);
            }
        }
    }
}

impl Catalog {
    /// A catalog without records.
    pub fn new() -> (catalog: Catalog)
        ensures
            catalog@.games.len() == 0,
            catalog@.roms.len() == 0,
            catalog@.romfiles.len() == 0,
            catalog@.wf(),
    {
        Catalog { games: Vec::new(), roms: Vec::new(), romfiles: Vec::new() }
    }

    pub fn games(&self) -> (games: &Vec<Game>)
        ensures
            views(games@) == self@.games,
    {
        &self.games
    }

    pub fn roms(&self) -> (roms: &Vec<Rom>)
        ensures
            views(roms@) == self@.roms,
    {
        &self.roms
    }

    pub fn romfiles(&self) -> (romfiles: &Vec<Romfile>)
        ensures
            views(romfiles@) == self@.romfiles,
    {
        &self.romfiles
    }

    /// The game with the given id.
    pub fn find_game_by_id(&self, id: i64) -> (game: Option<Game>)
        ensures
            view_of(game) == game_with_id(self@.games, id),
    {
        let ghost all = self@.games;
        let mut i: usize = 0;
        assert(all.skip(0) =~= all);
        while i < self.games.len()
            invariant
                i <= self.games.len(),
                all == views(self.games@),
                game_with_id(all, id) == game_with_id(all.skip(i as int), id),
            decreases self.games.len() - i,
        {
            assert(all.skip(i as int).drop_first() == all.skip(i + 1));
            if self.games[i].id == id {
                return Some(self.games[i].clone());
            }
            i += 1;
        }
        None
    }

    /// The romfile with the given id.
    pub fn find_romfile_by_id(&self, id: i64) -> (romfile: Option<Romfile>)
        ensures
            view_of(romfile) == romfile_with_id(self@.romfiles, id),
    {
        let ghost all = self@.romfiles;
        let mut i: usize = 0;
        assert(all.skip(0) =~= all);
        while i < self.romfiles.len()
            invariant
                i <= self.romfiles.len(),
                all == views(self.romfiles@),
                romfile_with_id(all, id) == romfile_with_id(all.skip(i as int), id),
            decreases self.romfiles.len() - i,
        {
            assert(all.skip(i as int).drop_first() == all.skip(i + 1));
            if self.romfiles[i].id == id {
                return Some(self.romfiles[i].clone());
            }
            i += 1;
        }
        None
    }

    /// Where in the list the romfile recorded at `path` stands.
    fn position_of(&self, path: &str) -> (position: Option<usize>)
        ensures
            match position {
                Some(i) => position_of_path(self@.romfiles, path@) == Some(i as int) && i
                    < self.romfiles.len(),
                None => position_of_path(self@.romfiles, path@) is None,
            },
    {
        let ghost all = self@.romfiles;
        let mut i: usize = 0;
        assert(all.skip(0) =~= all);
        while i < self.romfiles.len()
            invariant
                i <= self.romfiles.len(),
                all == views(self.romfiles@),
                position_of_path(all, path@) == match position_of_path(all.skip(i as int), path@) {
                    Some(k) => Some(k + i),
                    None => None,
                },
            decreases self.romfiles.len() - i,
        {
            assert(all.skip(i as int).drop_first() == all.skip(i + 1));
            if same_text(self.romfiles[i].path.as_str(), path) {
                return Some(i);
            }
            i += 1;
        }
        None
    }

    /// Adds a game, unless its id is taken.
    pub fn add_game(&mut self, game: Game) -> (added: bool)
        requires
            old(self)@.wf(),
        ensures
            final(self)@.wf(),
            added == (game_with_id(old(self)@.games, game.id) is None),
            final(self)@ == if added {
                CatalogView { games: old(self)@.games.push(game@), ..old(self)@ }
            } else {
                old(self)@
            },
    {
        if self.find_game_by_id(game.id).is_some() {
            return false;
        }
        let ghost before = self@;
        let ghost added = game@;
        self.games.push(game);
        proof {
            assert(self@.games =~= before.games.push(added));
            lemma_game_with_id(before.games, added.id);
            assert forall|i: int| 0 <= i < self@.roms.len() implies game_with_id(
                self@.games,
                #[trigger] self@.roms[i].game_id,
            ) is Some by {
                lemma_game_kept(before.games, added, self@.roms[i].game_id);
            }
        }
        true
    }

    /// Adds a romfile, unless its id or its path is taken.
    pub fn add_romfile(&mut self, romfile: Romfile) -> (added: bool)
        requires
            old(self)@.wf(),
        ensures
            final(self)@.wf(),
            added == (romfile_with_id(old(self)@.romfiles, romfile.id) is None && position_of_path(
                old(self)@.romfiles,
                romfile.path@,
            ) is None),
            final(self)@ == if added {
                CatalogView { romfiles: old(self)@.romfiles.push(romfile@), ..old(self)@ }
            } else {
                old(self)@
            },
    {
        if self.find_romfile_by_id(romfile.id).is_some() {
            return false;
        }
        if self.position_of(romfile.path.as_str()).is_some() {
            return false;
        }
        let ghost before = self@;
        let ghost added = romfile@;
        self.romfiles.push(romfile);
        proof {
            assert(self@.romfiles =~= before.romfiles.push(added));
            lemma_romfile_with_id(before.romfiles, added.id);
            lemma_position_of_path(before.romfiles, added.path);
            assert forall|i: int|
                0 <= i < self@.roms.len() && (#[trigger] self@.roms[i]).romfile_id is Some implies romfile_with_id(
                self@.romfiles,
                self@.roms[i].romfile_id->0,
            ) is Some by {
                lemma_romfile_kept(before.romfiles, added, self@.roms[i].romfile_id->0);
            }
        }
        true
    }

    /// Adds a rom, unless its id is taken, its game is unknown, or it names
    /// a romfile that is not recorded.
    pub fn add_rom(&mut self, rom: Rom) -> (added: bool)
        requires
            old(self)@.wf(),
        ensures
            final(self)@.wf(),
            added == (!ids_of(old(self)@.roms).contains(rom.id) && game_with_id(
                old(self)@.games,
                rom.game_id,
            ) is Some && (rom.romfile_id is Some ==> romfile_with_id(
                old(self)@.romfiles,
                rom.romfile_id->0,
            ) is Some)),
            final(self)@ == if added {
                CatalogView { roms: old(self)@.roms.push(rom@), ..old(self)@ }
            } else {
                old(self)@
            },
    {
        let ghost before = self@;
        let mut i: usize = 0;
        while i < self.roms.len()
            invariant
                i <= self.roms.len(),
                self@ == before,
                before.wf(),
                forall|k: int| 0 <= k < i ==> before.roms[k].id != rom.id,
            decreases self.roms.len() - i,
        {
            if self.roms[i].id == rom.id {
                assert(ids_of(before.roms)[i as int] == rom.id);
                return false;
            }
            i += 1;
        }
        if self.find_game_by_id(rom.game_id).is_none() {
            return false;
        }
        match rom.romfile_id {
            Some(id) => {
                if self.find_romfile_by_id(id).is_none() {
                    return false;
                }
            },
            None => {},
        }
        let ghost added = rom@;
        self.roms.push(rom);
        proof {
            assert(self@.roms =~= before.roms.push(added));
        }
        true
    }

    /// The roms that a file of `size` bytes with digest `hash` can claim:
    /// those of the system that have no file yet, are not among `claimed`,
    /// and agree in size and in the digest that `algorithm` names.
    pub fn find_roms_without_romfile_by_size_and_hash_and_system_id(
        &self,
        claimed: &Vec<i64>,
        size: u64,
        hash: &str,
        system_id: i64,
        algorithm: HashAlgorithm,
    ) -> (found: Vec<Rom>)
        ensures
            views(found@) == self@.candidates(claimed@, size, hash@, system_id, algorithm),
    {
        let mut found: Vec<Rom> = Vec::new();
        let mut i: usize = 0;
        while i < self.roms.len()
            invariant
                i <= self.roms.len(),
                views(found@) == self@.candidates_upto(
                    i as int,
                    claimed@,
                    size,
                    hash@,
                    system_id,
                    algorithm,
                ),
            decreases self.roms.len() - i,
        {
            let rom = &self.roms[i];
            let mut candidate = rom.romfile_id.is_none() && rom.matches(size, hash, algorithm)
                && !holds_id(claimed, rom.id);
            if candidate {
                candidate =
                match self.find_game_by_id(rom.game_id) {
                    Some(game) => game.system_id == system_id,
                    None => false,
                };
            }
            if candidate {
                let ghost before = views(found@);
                found.push(rom.clone());
                assert(views(found@) =~= before.push(rom@));
            }
            i += 1;
        }
        found
    }

    /// The roms that a file of a game folder can claim: those that repeat
    /// the rom `parent_id`, have no file yet, are not among `claimed`, and
    /// agree in size and in MD5 digest.
    pub fn find_roms_without_romfile_by_size_and_md5_and_parent_id(
        &self,
        claimed: &Vec<i64>,
        size: u64,
        md5: &str,
        parent_id: i64,
    ) -> (found: Vec<Rom>)
        ensures
            views(found@) == self@.children(claimed@, size, md5@, parent_id),
    {
        let mut found: Vec<Rom> = Vec::new();
        let mut i: usize = 0;
        while i < self.roms.len()
            invariant
                i <= self.roms.len(),
                views(found@) == self@.children_upto(i as int, claimed@, size, md5@, parent_id),
            decreases self.roms.len() - i,
        {
            let rom = &self.roms[i];
            let child = match rom.parent_id {
                Some(id) => id == parent_id,
                None => false,
            };
            if child && rom.romfile_id.is_none() && rom.matches(size, md5, HashAlgorithm::Md5)
                && !holds_id(claimed, rom.id) {
                let ghost before = views(found@);
                found.push(rom.clone());
                assert(views(found@) =~= before.push(rom@));
            }
            i += 1;
        }
        found
    }

    /// The roms of a game that repeat no other rom.
    pub fn find_roms_by_game_id_no_parents(&self, game_id: i64) -> (found: Vec<Rom>)
        ensures
            views(found@) == own_roms(self@.roms, game_id),
    {
        let ghost all = self@.roms;
        let mut found: Vec<Rom> = Vec::new();
        let mut i: usize = 0;
        while i < self.roms.len()
            invariant
                i <= self.roms.len(),
                all == views(self.roms@),
                views(found@) == own_roms(all.take(i as int), game_id),
            decreases self.roms.len() - i,
        {
            assert(all.take(i + 1).drop_last() == all.take(i as int));
            let rom = &self.roms[i];
            if rom.game_id == game_id && rom.parent_id.is_none() {
                let ghost before = views(found@);
                found.push(rom.clone());
                assert(views(found@) =~= before.push(rom@));
            }
            i += 1;
        }
        assert(all.take(i as int) == all);
        found
    }

    /// The roms that a romfile backs.
    pub fn find_roms_by_romfile_id(&self, romfile_id: i64) -> (found: Vec<Rom>)
        ensures
            views(found@) == roms_of_romfile(self@.roms, romfile_id),
    {
        let ghost all = self@.roms;
        let mut found: Vec<Rom> = Vec::new();
        let mut i: usize = 0;
        while i < self.roms.len()
            invariant
                i <= self.roms.len(),
                all == views(self.roms@),
                views(found@) == roms_of_romfile(all.take(i as int), romfile_id),
            decreases self.roms.len() - i,
        {
            assert(all.take(i + 1).drop_last() == all.take(i as int));
            let rom = &self.roms[i];
            let backed = match rom.romfile_id {
                Some(id) => id == romfile_id,
                None => false,
            };
            if backed {
                let ghost before = views(found@);
                found.push(rom.clone());
                assert(views(found@) =~= before.push(rom@));
            }
            i += 1;
        }
        assert(all.take(i as int) == all);
        found
    }

    /// Records the romfile `id` at another path, unless the catalog has no
    /// such romfile or another romfile is recorded at that path.
    pub fn relocate(&mut self, id: i64, path: &str) -> (moved: bool)
        requires
            old(self)@.wf(),
        ensures
            final(self)@.wf(),
            moved == old(self)@.can_move(id, path@),
            final(self)@ == if moved {
                old(self)@.moved(id, path@)
            } else {
                old(self)@
            },
    {
        let ghost before = self@;
        let size = match self.find_romfile_by_id(id) {
            Some(romfile) => romfile.size,
            None => {
                return false;
            },
        };
        proof {
            lemma_position_of_path(before.romfiles, path@);
            lemma_romfile_with_id(before.romfiles, id);
        }
        match self.position_of(path) {
            Some(at) => {
                if self.romfiles[at].id != id {
                    return false;
                }
            },
            None => {},
        }
        self.update_romfile(id, path, size);
        assert(self@.romfiles =~= before.moved(id, path@).romfiles);
        true
    }

    /// The largest romfile id in use.
    fn highest_romfile_id(&self) -> (id: i64)
        ensures
            id == highest_id(self@.romfiles),
    {
        let ghost all = self@.romfiles;
        let mut highest: i64 = 0;
        let mut i: usize = 0;
        while i < self.romfiles.len()
            invariant
                i <= self.romfiles.len(),
                all == views(self.romfiles@),
                highest == highest_id(all.take(i as int)),
            decreases self.romfiles.len() - i,
        {
            assert(all.take(i + 1).drop_last() == all.take(i as int));
            if self.romfiles[i].id > highest {
                highest = self.romfiles[i].id;
            }
            i += 1;
        }
        assert(all.take(i as int) == all);
        highest
    }

    /// Whether a romfile can still be added.
    pub fn has_room(&self) -> (room: bool)
        ensures
            room == self@.has_room(),
    {
        self.highest_romfile_id() < i64::MAX
    }

    /// Adds a romfile at a path that has none, under the id after the highest
    /// in use.
    pub(crate) fn create_romfile(&mut self, path: &str, size: u64) -> (id: i64)
        requires
            old(self)@.wf(),
            old(self)@.has_room(),
            position_of_path(old(self)@.romfiles, path@) is None,
        ensures
            id == highest_id(old(self)@.romfiles) + 1,
            final(self)@ == (CatalogView {
                romfiles: old(self)@.romfiles.push(RomfileView { id, path: path@, size }),
                ..old(self)@
            }),
            final(self)@.wf(),
    {
        let id = self.highest_romfile_id() + 1;
        let ghost before = self@;
        self.romfiles.push(Romfile { id, path: path.to_owned(), size });
        proof {
            let added = RomfileView { id, path: path@, size };
            assert(self@.romfiles =~= before.romfiles.push(added));
            lemma_highest_id(before.romfiles);
            lemma_position_of_path(before.romfiles, path@);
            assert forall|i: int|
                0 <= i < self@.roms.len() && (#[trigger] self@.roms[i]).romfile_id is Some implies romfile_with_id(
                self@.romfiles,
                self@.roms[i].romfile_id->0,
            ) is Some by {
                lemma_romfile_kept(before.romfiles, added, self@.roms[i].romfile_id->0);
            }
        }
        id
    }

    /// Records a path and a size for the romfile `id`.
    pub(crate) fn update_romfile(&mut self, id: i64, path: &str, size: u64)
        requires
            old(self)@.wf(),
            forall|j: int|
                0 <= j < old(self)@.romfiles.len() && (#[trigger] old(self)@.romfiles[j]).path
                    == path@ ==> old(self)@.romfiles[j].id == id,
        ensures
            final(self)@ == (CatalogView {
                romfiles: rewritten(old(self)@.romfiles, id, path@, size),
                ..old(self)@
            }),
            final(self)@.wf(),
    {
        let ghost before = self@;
        let mut i: usize = 0;
        while i < self.romfiles.len()
            invariant
                i <= self.romfiles.len(),
                self.romfiles.len() == before.romfiles.len(),
                self@.games == before.games,
                self@.roms == before.roms,
                forall|k: int|
                    0 <= k < i ==> self@.romfiles[k] == rewritten(before.romfiles, id, path@, size)[k],
                forall|k: int| i <= k < before.romfiles.len() ==> self@.romfiles[k] == before.romfiles[k],
            decreases self.romfiles.len() - i,
        {
            if self.romfiles[i].id == id {
                let ghost current = self@.romfiles;
                self.romfiles.set(i, Romfile { id, path: path.to_owned(), size });
                assert(self@.romfiles =~= current.update(
                    i as int,
                    RomfileView { id, path: path@, size },
                ));
            }
            i += 1;
        }
        proof {
            let after = rewritten(before.romfiles, id, path@, size);
            assert(self@.romfiles =~= after);
            assert forall|k: int|
                0 <= k < self@.roms.len() && (#[trigger] self@.roms[k]).romfile_id is Some implies romfile_with_id(
                after,
                self@.roms[k].romfile_id->0,
            ) is Some by {
                lemma_romfile_rewritten(before.romfiles, id, path@, size, self@.roms[k].romfile_id->0);
            }
        }
    }

    /// Binds the rom `rom_id` to a romfile, or frees it. Nothing changes
    /// where the romfile is not recorded.
    pub fn update_rom_romfile(&mut self, rom_id: i64, romfile_id: Option<i64>) -> (updated: bool)
        requires
            old(self)@.wf(),
        ensures
            final(self)@.wf(),
            updated == (romfile_id is Some ==> romfile_with_id(
                old(self)@.romfiles,
                romfile_id->0,
            ) is Some),
            final(self)@ == if updated {
                CatalogView { roms: rebound(old(self)@.roms, rom_id, romfile_id), ..old(self)@ }
            } else {
                old(self)@
            },
    {
        match romfile_id {
            Some(id) => {
                if self.find_romfile_by_id(id).is_none() {
                    return false;
                }
            },
            None => {},
        }
        let ghost before = self@;
        let mut i: usize = 0;
        while i < self.roms.len()
            invariant
                i <= self.roms.len(),
                self.roms.len() == before.roms.len(),
                self@.games == before.games,
                self@.romfiles == before.romfiles,
                forall|k: int| 0 <= k < i ==> self@.roms[k] == rebound(before.roms, rom_id, romfile_id)[k],
                forall|k: int| i <= k < before.roms.len() ==> self@.roms[k] == before.roms[k],
            decreases self.roms.len() - i,
        {
            if self.roms[i].id == rom_id {
                let ghost current = self@.roms;
                let mut rom = self.roms[i].clone();
                rom.romfile_id = romfile_id;
                let ghost changed = rom@;
                self.roms.set(i, rom);
                assert(self@.roms =~= current.update(i as int, changed));
            }
            i += 1;
        }
        proof {
            assert(self@.roms =~= rebound(before.roms, rom_id, romfile_id));
        }
        true
    }

    /// The romfile recorded at `path`.
    pub fn find_romfile_by_path(&self, path: &str) -> (romfile: Option<Romfile>)
        ensures
            view_of(romfile) == match position_of_path(self@.romfiles, path@) {
                Some(i) => Some(self@.romfiles[i]),
                None => None,
            },
    {
        match self.position_of(path) {
            Some(i) => Some(self.romfiles[i].clone()),
            None => None,
        }
    }
}

/// The view of an optional record.
pub open spec fn view_of<T: View>(record: Option<T>) -> Option<T::V> {
    match record {
        Some(r) => Some(r@),
        None => None,
    }
}

/// The first position that holds a path is the position that
/// [`position_of_path`] gives.
pub proof fn lemma_position_found(romfiles: Seq<RomfileView>, path: Seq<char>, at: int)
    requires
        0 <= at < romfiles.len(),
        romfiles[at].path == path,
        forall|i: int| 0 <= i < at ==> (#[trigger] romfiles[i]).path != path,
    ensures
        position_of_path(romfiles, path) == Some(at),
{
    lemma_position_of_path(romfiles, path);
    let found = position_of_path(romfiles, path);
    assert(romfiles[at].path == path);
    assert(found is Some);
    if found->0 < at {
        assert(romfiles[found->0].path != path);
    }
}

/// Recording a file keeps the catalog well formed, with one romfile at the
/// path of the file: the catalog grows by one romfile where the path had
/// none, and by none where it had one. Recording the same file again
/// changes nothing.
pub proof fn lemma_filed_once(catalog: CatalogView, path: Seq<char>, size: u64, ids: Seq<i64>)
    requires
        catalog.wf(),
        position_of_path(catalog.romfiles, path) is Some || catalog.has_room(),
    ensures
        catalog.filed(path, size, ids).wf(),
        position_of_path(catalog.filed(path, size, ids).romfiles, path) is Some,
        catalog.filed(path, size, ids).romfiles.len() == catalog.romfiles.len() + (if position_of_path(
            catalog.romfiles,
            path,
        ) is Some {
            0int
        } else {
            1int
        }),
        catalog.filed(path, size, ids).filed(path, size, ids) == catalog.filed(path, size, ids),
{
    let after = catalog.filed(path, size, ids);
    let id = catalog.id_for_path(path);
    let record = RomfileView { id, path, size };
    lemma_position_of_path(catalog.romfiles, path);
    lemma_highest_id(catalog.romfiles);
    let at = match position_of_path(catalog.romfiles, path) {
        Some(i) => i,
        None => catalog.romfiles.len() as int,
    };
    assert(after.romfiles[at] == record);
    assert forall|i: int| 0 <= i < after.romfiles.len() && i != at implies #[trigger] after.romfiles[i]
        == catalog.romfiles[i] by {}
    assert forall|i: int| 0 <= i < at implies (#[trigger] after.romfiles[i]).path != path by {
        assert(after.romfiles[i] == catalog.romfiles[i]);
    }
    lemma_position_found(after.romfiles, path, at);
    lemma_romfile_found(after.romfiles, id);
    assert forall|k: int|
        0 <= k < after.roms.len() && (#[trigger] after.roms[k]).romfile_id is Some implies romfile_with_id(
        after.romfiles,
        after.roms[k].romfile_id->0,
    ) is Some by {
        if !ids.contains(catalog.roms[k].id) {
            let wanted = catalog.roms[k].romfile_id->0;
            lemma_romfile_with_id(catalog.romfiles, wanted);
            let found = romfile_with_id(catalog.romfiles, wanted)->0;
            let j = choose|j: int| 0 <= j < catalog.romfiles.len() && catalog.romfiles[j] == found;
            assert(after.romfiles[j].id == wanted);
            lemma_romfile_found(after.romfiles, wanted);
        }
    }
    assert forall|i: int, j: int| 0 <= i < j < after.romfiles.len() implies after.romfiles[i].id
        != after.romfiles[j].id && after.romfiles[i].path != after.romfiles[j].path by {
        if i != at {
            assert(after.romfiles[i] == catalog.romfiles[i]);
        }
        if j != at {
            assert(after.romfiles[j] == catalog.romfiles[j]);
        }
    }
    assert(after.wf());
    assert(after.filed(path, size, ids).romfiles =~= after.romfiles);
    assert(after.filed(path, size, ids).roms =~= after.roms);
}

/// Each of the candidates among the first `n` roms is one of those roms and
/// can be claimed.
pub proof fn lemma_candidate_member(
    catalog: CatalogView,
    n: int,
    claimed: Seq<i64>,
    size: u64,
    hash: Seq<char>,
    system_id: i64,
    algorithm: HashAlgorithm,
    k: int,
)
    requires
        0 <= n <= catalog.roms.len(),
        0 <= k < catalog.candidates_upto(n, claimed, size, hash, system_id, algorithm).len(),
    ensures
        catalog.is_candidate(
            catalog.candidates_upto(n, claimed, size, hash, system_id, algorithm)[k],
            claimed,
            size,
            hash,
            system_id,
            algorithm,
        ),
        exists|i: int|
            0 <= i < n && #[trigger] catalog.roms[i] == catalog.candidates_upto(
                n,
                claimed,
                size,
                hash,
                system_id,
                algorithm,
            )[k],
    decreases n,
{
    if n > 0 {
        let rest = catalog.candidates_upto(n - 1, claimed, size, hash, system_id, algorithm);
        if k < rest.len() {
            lemma_candidate_member(catalog, n - 1, claimed, size, hash, system_id, algorithm, k);
        } else {
            assert(catalog.roms[n - 1] == catalog.candidates_upto(
                n,
                claimed,
                size,
                hash,
                system_id,
                algorithm,
            )[k]);
        }
    }
}

/// Where none of the first `n` roms can be claimed, there is no candidate
/// among them.
pub proof fn lemma_no_candidate(
    catalog: CatalogView,
    n: int,
    claimed: Seq<i64>,
    size: u64,
    hash: Seq<char>,
    system_id: i64,
    algorithm: HashAlgorithm,
)
    requires
        0 <= n <= catalog.roms.len(),
        forall|i: int|
            0 <= i < n ==> !catalog.is_candidate(
                #[trigger] catalog.roms[i],
                claimed,
                size,
                hash,
                system_id,
                algorithm,
            ),
    ensures
        catalog.candidates_upto(n, claimed, size, hash, system_id, algorithm).len() == 0,
    decreases n,
{
    if n > 0 {
        lemma_no_candidate(catalog, n - 1, claimed, size, hash, system_id, algorithm);
    }
}

} // verus!
