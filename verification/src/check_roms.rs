//! Checking the files of a system: whether what is on disk is still what
//! the catalog says, and which files go to quarantine where it is not.

use crate::catalog::{Catalog, CatalogView};
use crate::import_roms::{tracks_agree, tracks_match, TrackContent, TrackContentView};
use crate::layout::{container_for, container_of, trash_destination, trash_place, Container};
use crate::model::{views, HashAlgorithm, Rom, RomView, Romfile, RomfileView, System};
use crate::path::{extension, extension_of};
use crate::resolve::{ContainerEntry, ContainerEntryView};
use crate::text::same_text;
use std::collections::HashMap;
use vstd::prelude::*;
use vstd::std_specs::hash::group_hash_axioms;

verus! {

broadcast use group_hash_axioms;

/// The position of the first rom that bears the name.
pub open spec fn position_of_name(roms: Seq<RomView>, name: Seq<char>) -> Option<int>
    decreases roms.len(),
{
    if roms.len() == 0 {
        None
    } else if roms.first().name == name {
        Some(0)
    } else {
        match position_of_name(roms.drop_first(), name) {
            Some(i) => Some(i + 1),
            None => None,
        }
    }
}

/// Whether an archive is what its roms say: it has as many entries as
/// roms, and each entry in turn bears the name of a rom not yet accounted
/// for and agrees with it in size and digest.
pub open spec fn archive_valid(
    entries: Seq<ContainerEntryView>,
    roms: Seq<RomView>,
    algorithm: HashAlgorithm,
) -> bool
    decreases entries.len(),
{
    if entries.len() != roms.len() {
        false
    } else if entries.len() == 0 {
        true
    } else {
        let entry = entries.first();
        match position_of_name(roms, entry.name) {
            Some(i) => 0 <= i < roms.len() && roms[i].has_identity(entry.size, entry.hash, algorithm)
                && archive_valid(entries.drop_first(), roms.remove(i), algorithm),
            None => false,
        }
    }
}

/// In an archive that is what its roms say, every entry bears the name of
/// one of the roms and agrees with it in size and in digest, and the
/// entries are as many as the roms.
pub proof fn lemma_valid_archive(
    entries: Seq<ContainerEntryView>,
    roms: Seq<RomView>,
    algorithm: HashAlgorithm,
)
    requires
        archive_valid(entries, roms, algorithm),
    ensures
        entries.len() == roms.len(),
        forall|i: int|
            0 <= i < entries.len() ==> exists|k: int|
                0 <= k < roms.len() && (#[trigger] roms[k]).name == entries[i].name
                    && roms[k].has_identity(
                    (#[trigger] entries[i]).size,
                    entries[i].hash,
                    algorithm,
                ),
    decreases entries.len(),
{
    if entries.len() > 0 {
        let first = entries.first();
        let at = position_of_name(roms, first.name)->0;
        lemma_position_of_name(roms, first.name);
        let rest = entries.drop_first();
        let left = roms.remove(at);
        lemma_valid_archive(rest, left, algorithm);
        assert forall|i: int| 0 <= i < entries.len() implies exists|k: int|
            0 <= k < roms.len() && (#[trigger] roms[k]).name == entries[i].name
                && roms[k].has_identity((#[trigger] entries[i]).size, entries[i].hash, algorithm) by {
            if i == 0 {
                assert(roms[at].name == entries[0].name);
            } else {
                assert(rest[i - 1] == entries[i]);
                let k = choose|k: int|
                    0 <= k < left.len() && (#[trigger] left[k]).name == rest[i - 1].name
                        && left[k].has_identity(rest[i - 1].size, rest[i - 1].hash, algorithm);
                if k < at {
                    assert(roms[k] == left[k]);
                } else {
                    assert(roms[k + 1] == left[k]);
                }
            }
        }
    }
}

/// [`position_of_name`] gives a position that holds the name.
pub proof fn lemma_position_of_name(roms: Seq<RomView>, name: Seq<char>)
    ensures
        match position_of_name(roms, name) {
            Some(p) => 0 <= p < roms.len() && roms[p].name == name,
            None => forall|i: int| 0 <= i < roms.len() ==> (#[trigger] roms[i]).name != name,
        },
    decreases roms.len(),
{
    if roms.len() > 0 && roms.first().name != name {
        let rest = roms.drop_first();
        lemma_position_of_name(rest, name);
        match position_of_name(rest, name) {
            Some(p) => {
                assert(roms[p + 1] == rest[p]);
            },
            None => {
                assert forall|i: int| 0 <= i < roms.len() implies (#[trigger] roms[i]).name
                    != name by {
                    if i > 0 {
                        assert(rest[i - 1] == roms[i]);
                    }
                }
            },
        }
    }
}

/// The moves that a check calls for are of romfiles that were checked and
/// found not valid: a romfile that is what its roms say is never moved.
pub proof fn lemma_moves_are_invalid(
    checked: Seq<CheckedRomfileView>,
    trash_directory: Seq<char>,
    algorithm: HashAlgorithm,
    n: int,
    k: int,
)
    requires
        0 <= n <= checked.len(),
        0 <= k < moves_upto(checked, trash_directory, algorithm, n).len(),
    ensures
        exists|i: int|
            0 <= i < n && (#[trigger] checked[i]).check.romfile == moves_upto(
                checked,
                trash_directory,
                algorithm,
                n,
            )[k].romfile && !is_valid(
                checked[i].check.container,
                checked[i].check.roms,
                checked[i].observed,
                algorithm,
            ) && trash_place(trash_directory, checked[i].check.romfile.path) == Some(
                moves_upto(checked, trash_directory, algorithm, n)[k].destination,
            ),
    decreases n,
{
    if n > 0 {
        let rest = moves_upto(checked, trash_directory, algorithm, n - 1);
        if k < rest.len() {
            lemma_moves_are_invalid(checked, trash_directory, algorithm, n - 1, k);
        } else {
            assert(checked[n - 1].check.romfile == moves_upto(
                checked,
                trash_directory,
                algorithm,
                n,
            )[k].romfile);
        }
    }
}

/// Whether a disc image is what its roms say: it has as many tracks as
/// roms, and each track has the size and the digest of its rom.
pub open spec fn tracks_valid(
    tracks: Seq<TrackContentView>,
    roms: Seq<RomView>,
    algorithm: HashAlgorithm,
) -> bool {
    tracks.len() == roms.len() && tracks_agree(roms, tracks, algorithm)
}

/// Whether a file of one content is what its roms say: it backs a rom, and
/// every rom that it backs has the size and the digest of the content.
pub open spec fn content_valid(
    size: u64,
    hash: Seq<char>,
    roms: Seq<RomView>,
    algorithm: HashAlgorithm,
) -> bool {
    roms.len() > 0 && forall|i: int|
        0 <= i < roms.len() ==> (#[trigger] roms[i]).has_identity(size, hash, algorithm)
}

/// A file of one content is not valid exactly where it backs no rom, or
/// some rom that it backs has another size or another digest. A disc image
/// is not valid exactly where its tracks are not as many as its roms, or
/// some track has another size or another digest than its rom.
pub proof fn lemma_invalid_is_mismatch(
    size: u64,
    hash: Seq<char>,
    tracks: Seq<TrackContentView>,
    roms: Seq<RomView>,
    algorithm: HashAlgorithm,
)
    ensures
        !content_valid(size, hash, roms, algorithm) <==> roms.len() == 0 || exists|i: int|
            0 <= i < roms.len() && ((#[trigger] roms[i]).size != size || roms[i].digest(algorithm)
                != Some(hash)),
        !tracks_valid(tracks, roms, algorithm) <==> tracks.len() != roms.len() || exists|i: int|
            0 <= i < roms.len() && ((#[trigger] roms[i]).size != tracks[i].size || roms[i].digest(
                algorithm,
            ) != Some(tracks[i].hash)),
{
    if roms.len() > 0 && !content_valid(size, hash, roms, algorithm) {
        let i = choose|i: int|
            0 <= i < roms.len() && !(#[trigger] roms[i]).has_identity(size, hash, algorithm);
        assert(roms[i].size != size || roms[i].digest(algorithm) != Some(hash));
    }
    if tracks.len() == roms.len() && !tracks_valid(tracks, roms, algorithm) {
        let i = choose|i: int|
            0 <= i < roms.len() && !(#[trigger] roms[i]).has_identity(
                tracks[i].size,
                tracks[i].hash,
                algorithm,
            );
        assert(roms[i].size != tracks[i].size || roms[i].digest(algorithm) != Some(tracks[i].hash));
    }
}

fn find_by_name(roms: &Vec<Rom>, name: &str) -> (position: Option<usize>)
    ensures
        match position {
            Some(i) => position_of_name(views(roms@), name@) == Some(i as int) && i < roms.len(),
            None => position_of_name(views(roms@), name@) is None,
        },
{
    let ghost all = views(roms@);
    let mut i: usize = 0;
    assert(all.skip(0) =~= all);
    while i < roms.len()
        invariant
            i <= roms.len(),
            all == views(roms@),
            position_of_name(all, name@) == match position_of_name(all.skip(i as int), name@) {
                Some(k) => Some(k + i),
                None => None,
            },
        decreases roms.len() - i,
    {
        assert(all.skip(i as int).drop_first() == all.skip(i + 1));
        if same_text(roms[i].name.as_str(), name) {
            return Some(i);
        }
        i += 1;
    }
    None
}

/// Checks an archive against the roms it backs.
pub fn check_archive(entries: &Vec<ContainerEntry>, roms: Vec<Rom>, algorithm: HashAlgorithm) -> (ok:
    bool)
    ensures
        ok == archive_valid(views(entries@), views(roms@), algorithm),
{
    let ghost listed = views(entries@);
    let ghost backed = views(roms@);
    let mut left = roms;
    if entries.len() != left.len() {
        return false;
    }
    let mut i: usize = 0;
    assert(listed.skip(0) =~= listed);
    while i < entries.len()
        invariant
            i <= entries.len(),
            listed == views(entries@),
            backed == views(roms@),
            left.len() == entries.len() - i,
            archive_valid(listed, backed, algorithm) == archive_valid(
                listed.skip(i as int),
                views(left@),
                algorithm,
            ),
        decreases entries.len() - i,
    {
        assert(listed.skip(i as int).drop_first() == listed.skip(i + 1));
        let entry = &entries[i];
        assert(listed.skip(i as int).first() == entry@);
        let at = match find_by_name(&left, entry.name.as_str()) {
            Some(at) => at,
            None => {
                return false;
            },
        };
        let ghost before = views(left@);
        let rom = left.remove(at);
        assert(views(left@) =~= before.remove(at as int));
        if !rom.matches(entry.size, entry.hash.as_str(), algorithm) {
            return false;
        }
        i += 1;
    }
    true
}

/// Checks the tracks decoded from a disc image, each with its size and
/// digest, against the roms it backs.
pub fn check_chd(tracks: &Vec<TrackContent>, roms: &Vec<Rom>, algorithm: HashAlgorithm) -> (ok:
    bool)
    ensures
        ok == tracks_valid(views(tracks@), views(roms@), algorithm),
{
    tracks_match(roms, tracks, algorithm)
}

/// Checks the decoded content of a compressed disc image against its rom.
pub fn check_cso(size: u64, hash: &str, rom: &Rom, algorithm: HashAlgorithm) -> (ok: bool)
    ensures
        ok == rom@.has_identity(size, hash@, algorithm),
{
    rom.matches(size, hash, algorithm)
}

/// Checks a plain file against its rom.
pub fn check_other(size: u64, hash: &str, rom: &Rom, algorithm: HashAlgorithm) -> (ok: bool)
    ensures
        ok == rom@.has_identity(size, hash@, algorithm),
{
    rom.matches(size, hash, algorithm)
}

/// A romfile that is to be checked, with the family of its container and
/// the roms of the system that it backs.
#[derive(Debug, PartialEq, Eq)]
pub struct RomfileCheck {
    pub romfile: Romfile,
    pub container: Container,
    pub roms: Vec<Rom>,
}

/// The view of [`RomfileCheck`]: the same record over mathematical values.
pub struct RomfileCheckView {
    pub romfile: RomfileView,
    pub container: Container,
    pub roms: Seq<RomView>,
}

impl View for RomfileCheck {
    type V = RomfileCheckView;

    open spec fn view(&self) -> RomfileCheckView {
        RomfileCheckView {
            romfile: self.romfile@,
            container: self.container,
            roms: views(self.roms@),
        }
    }
}

/// The roms of the system among the first `n` of the catalog that a
/// romfile backs, in catalog order.
pub open spec fn backed_upto(
    catalog: CatalogView,
    system_id: i64,
    romfile_id: i64,
    n: int,
) -> Seq<RomView>
    decreases n,
{
    if n <= 0 || n > catalog.roms.len() {
        Seq::empty()
    } else {
        let rest = backed_upto(catalog, system_id, romfile_id, n - 1);
        let rom = catalog.roms[n - 1];
        if rom.romfile_id == Some(romfile_id) && catalog.in_system(rom, system_id) {
            rest.push(rom)
        } else {
            rest
        }
    }
}

/// The roms of the system that a romfile backs, in catalog order.
pub open spec fn backed(catalog: CatalogView, system_id: i64, romfile_id: i64) -> Seq<RomView> {
    backed_upto(catalog, system_id, romfile_id, catalog.roms.len() as int)
}

/// The family of the container that a romfile is, by the extension of its path.
pub open spec fn family_of(path: Seq<char>) -> Container {
    container_of(
        match extension_of(path) {
            Some(e) => e,
            None => Seq::empty(),
        },
    )
}

/// The checks that the first `n` romfiles call for: one for each romfile
/// that backs a rom of the system.
pub open spec fn checks_upto(catalog: CatalogView, system_id: i64, n: int) -> Seq<RomfileCheckView>
    decreases n,
{
    if n <= 0 || n > catalog.romfiles.len() {
        Seq::empty()
    } else {
        let rest = checks_upto(catalog, system_id, n - 1);
        let romfile = catalog.romfiles[n - 1];
        let roms = backed(catalog, system_id, romfile.id);
        if roms.len() > 0 {
            rest.push(RomfileCheckView { romfile, container: family_of(romfile.path), roms })
        } else {
            rest
        }
    }
}

/// Whether `groups` holds, for every romfile, the roms of the system among
/// the first `n` of the catalog that it backs, and holds no empty group.
spec fn grouped(
    groups: Map<i64, Vec<Rom>>,
    catalog: CatalogView,
    system_id: i64,
    n: int,
) -> bool {
    forall|id: i64| #[trigger]
        groups.contains_key(id) == (backed_upto(catalog, system_id, id, n).len() > 0) && (
        groups.contains_key(id) ==> views(groups[id]@) == backed_upto(catalog, system_id, id, n))
}

/// Groups the roms of a system by the romfile that backs them.
fn group_roms(catalog: &Catalog, system: &System) -> (groups: HashMap<i64, Vec<Rom>>)
    ensures
        grouped(groups@, catalog@, system.id, catalog@.roms.len() as int),
{
    let roms = catalog.roms();
    let mut groups: HashMap<i64, Vec<Rom>> = HashMap::new();
    let mut i: usize = 0;
    while i < roms.len()
        invariant
            i <= roms.len(),
            views(roms@) == catalog@.roms,
            grouped(groups@, catalog@, system.id, i as int),
        decreases roms.len() - i,
    {
        let rom = &roms[i];
        assert(rom@ == catalog@.roms[i as int]);
        let ghost before = groups@;
        match rom.romfile_id {
            Some(id) => {
                let inside = match catalog.find_game_by_id(rom.game_id) {
                    Some(game) => game.system_id == system.id,
                    None => false,
                };
                if inside {
                    let mut group = match groups.remove(&id) {
                        Some(group) => group,
                        None => Vec::new(),
                    };
                    let ghost had = views(group@);
                    group.push(rom.clone());
                    assert(views(group@) =~= had.push(rom@));
                    groups.insert(id, group);
                }
            },
            None => {},
        }
        assert(grouped(groups@, catalog@, system.id, i + 1)) by {
            assert forall|id: i64| #[trigger]
                groups@.contains_key(id) == (backed_upto(catalog@, system.id, id, i + 1).len() > 0)
                    && (groups@.contains_key(id) ==> views(groups@[id]@) == backed_upto(
                    catalog@,
                    system.id,
                    id,
                    i + 1,
                )) by {
                assert(before.contains_key(id) == (backed_upto(
                    catalog@,
                    system.id,
                    id,
                    i as int,
                ).len() > 0));
            }
        }
        i += 1;
    }
    groups
}

/// The romfiles of a system that are to be checked, in catalog order, each
/// with the roms it backs.
pub fn romfiles_to_check(catalog: &Catalog, system: &System) -> (checks: Vec<RomfileCheck>)
    ensures
        views(checks@) == checks_upto(catalog@, system.id, catalog@.romfiles.len() as int),
{
    proof {
        reveal_strlit("");
    }
    assert(""@ =~= Seq::<char>::empty());
    let groups = group_roms(catalog, system);
    let romfiles = catalog.romfiles();
    let mut checks: Vec<RomfileCheck> = Vec::new();
    let mut i: usize = 0;
    while i < romfiles.len()
        invariant
            i <= romfiles.len(),
            views(romfiles@) == catalog@.romfiles,
            ""@ == Seq::<char>::empty(),
            grouped(groups@, catalog@, system.id, catalog@.roms.len() as int),
            views(checks@) == checks_upto(catalog@, system.id, i as int),
        decreases romfiles.len() - i,
    {
        let romfile = &romfiles[i];
        assert(romfile@ == catalog@.romfiles[i as int]);
        assert(groups@.contains_key(romfile.id) == (backed(catalog@, system.id, romfile.id).len()
            > 0));
        match groups.get(&romfile.id) {
            Some(group) => {
                let roms = copy_roms(group);
                let container = match extension(romfile.path.as_str()) {
                    Some(e) => container_for(e.as_str()),
                    None => container_for(""),
                };
                let ghost before = views(checks@);
                let check = RomfileCheck { romfile: romfile.clone(), container, roms };
                let ghost added = check@;
                checks.push(check);
                assert(views(checks@) =~= before.push(added));
            },
            None => {},
        }
        i += 1;
    }
    checks
}

/// What was found on disk for one romfile.
#[derive(Debug, PartialEq, Eq)]
pub enum Observed {
    /// The entries of an archive, each with its size and digest.
    Entries(Vec<ContainerEntry>),
    /// The sizes and digests of the tracks that a disc image was decoded into.
    Tracks(Vec<TrackContent>),
    /// The size and digest of a plain file, or of the one image that a
    /// container was decoded into.
    Content { size: u64, hash: String },
}

/// The view of [`Observed`].
pub enum ObservedView {
    Entries(Seq<ContainerEntryView>),
    Tracks(Seq<TrackContentView>),
    Content { size: u64, hash: Seq<char> },
}

impl View for Observed {
    type V = ObservedView;

    open spec fn view(&self) -> ObservedView {
        match self {
            Observed::Entries(entries) => ObservedView::Entries(views(entries@)),
            Observed::Tracks(tracks) => ObservedView::Tracks(views(tracks@)),
            Observed::Content { size, hash } => ObservedView::Content { size: *size, hash: hash@ },
        }
    }
}

/// Whether what was found on disk is what the roms of a romfile say. An
/// archive is held to its entries, a disc image with tracks to its tracks,
/// and every other file to the size and digest of every rom that it backs.
/// What was found in another form than the container calls for is not valid.
pub open spec fn is_valid(
    container: Container,
    roms: Seq<RomView>,
    observed: ObservedView,
    algorithm: HashAlgorithm,
) -> bool {
    match container {
        Container::Archive(_) => match observed {
            ObservedView::Entries(entries) => archive_valid(entries, roms, algorithm),
            _ => false,
        },
        Container::Chd => match observed {
            ObservedView::Tracks(tracks) => tracks_valid(tracks, roms, algorithm),
            _ => false,
        },
        _ => match observed {
            ObservedView::Content { size, hash } => content_valid(size, hash, roms, algorithm),
            _ => false,
        },
    }
}

/// Checks what was found on disk for one romfile against its roms.
pub fn check_romfile(check: &RomfileCheck, observed: &Observed, algorithm: HashAlgorithm) -> (ok:
    bool)
    ensures
        ok == is_valid(check.container, views(check.roms@), observed@, algorithm),
{
    match check.container {
        Container::Archive(_) => match observed {
            Observed::Entries(entries) => {
                let roms = copy_roms(&check.roms);
                check_archive(entries, roms, algorithm)
            },
            _ => false,
        },
        Container::Chd => match observed {
            Observed::Tracks(tracks) => check_chd(tracks, &check.roms, algorithm),
            _ => false,
        },
        Container::Cso => match observed {
            Observed::Content { size, hash } => check_content(
                *size,
                hash.as_str(),
                &check.roms,
                algorithm,
                true,
            ),
            _ => false,
        },
        _ => match observed {
            Observed::Content { size, hash } => check_content(
                *size,
                hash.as_str(),
                &check.roms,
                algorithm,
                false,
            ),
            _ => false,
        },
    }
}

/// Checks one content against every rom that its file backs; `decoded`
/// says that the content was decoded from a compressed image.
fn check_content(
    size: u64,
    hash: &str,
    roms: &Vec<Rom>,
    algorithm: HashAlgorithm,
    decoded: bool,
) -> (ok: bool)
    ensures
        ok == content_valid(size, hash@, views(roms@), algorithm),
{
    if roms.len() == 0 {
        return false;
    }
    let mut i: usize = 0;
    while i < roms.len()
        invariant
            i <= roms.len(),
            roms.len() > 0,
            forall|k: int|
                0 <= k < i ==> (#[trigger] views(roms@)[k]).has_identity(size, hash@, algorithm),
        decreases roms.len() - i,
    {
        let same = if decoded {
            check_cso(size, hash, &roms[i], algorithm)
        } else {
            check_other(size, hash, &roms[i], algorithm)
        };
        if !same {
            assert(!views(roms@)[i as int].has_identity(size, hash@, algorithm));
            return false;
        }
        i += 1;
    }
    true
}

fn copy_roms(roms: &Vec<Rom>) -> (copy: Vec<Rom>)
    ensures
        views(copy@) == views(roms@),
{
    let mut copy: Vec<Rom> = Vec::new();
    let mut i: usize = 0;
    while i < roms.len()
        invariant
            i <= roms.len(),
            copy.len() == i,
            forall|k: int| 0 <= k < i ==> copy@[k] == roms@[k],
        decreases roms.len() - i,
    {
        copy.push(roms[i].clone());
        i += 1;
    }
    assert(views(copy@) =~= views(roms@));
    copy
}

/// A romfile that was checked, with what was found on disk for it.
#[derive(Debug, PartialEq, Eq)]
pub struct CheckedRomfile {
    pub check: RomfileCheck,
    pub observed: Observed,
}

/// The view of [`CheckedRomfile`]: the same record over mathematical values.
pub struct CheckedRomfileView {
    pub check: RomfileCheckView,
    pub observed: ObservedView,
}

impl View for CheckedRomfile {
    type V = CheckedRomfileView;

    open spec fn view(&self) -> CheckedRomfileView {
        CheckedRomfileView { check: self.check@, observed: self.observed@ }
    }
}

/// A romfile that is to go to quarantine, and its place there.
#[derive(Debug, PartialEq, Eq)]
pub struct RomfileMove {
    pub romfile: Romfile,
    pub destination: String,
}

/// The view of [`RomfileMove`]: the same record over mathematical values.
pub struct RomfileMoveView {
    pub romfile: RomfileView,
    pub destination: Seq<char>,
}

impl View for RomfileMove {
    type V = RomfileMoveView;

    open spec fn view(&self) -> RomfileMoveView {
        RomfileMoveView { romfile: self.romfile@, destination: self.destination@ }
    }
}

/// The moves that the first `n` checked romfiles call for: one for each
/// romfile that is not valid, to its place in the quarantine directory. A
/// romfile whose path has no file name has no place there and stays.
pub open spec fn moves_upto(
    checked: Seq<CheckedRomfileView>,
    trash_directory: Seq<char>,
    algorithm: HashAlgorithm,
    n: int,
) -> Seq<RomfileMoveView>
    decreases n,
{
    if n <= 0 || n > checked.len() {
        Seq::empty()
    } else {
        let rest = moves_upto(checked, trash_directory, algorithm, n - 1);
        let one = checked[n - 1];
        if is_valid(one.check.container, one.check.roms, one.observed, algorithm) {
            rest
        } else {
            match trash_place(trash_directory, one.check.romfile.path) {
                Some(destination) => rest.push(
                    RomfileMoveView { romfile: one.check.romfile, destination },
                ),
                None => rest,
            }
        }
    }
}

/// Checks the romfiles of a system against what was found on disk, and
/// gives the moves to quarantine that the check calls for, in order.
/// Nothing is moved and nothing is recorded here.
pub fn check_system(checked: &Vec<CheckedRomfile>, trash_directory: &str, algorithm: HashAlgorithm) -> (moves:
    Vec<RomfileMove>)
    ensures
        views(moves@) == moves_upto(
            views(checked@),
            trash_directory@,
            algorithm,
            checked.len() as int,
        ),
{
    let mut moves: Vec<RomfileMove> = Vec::new();
    let mut i: usize = 0;
    while i < checked.len()
        invariant
            i <= checked.len(),
            views(moves@) == moves_upto(views(checked@), trash_directory@, algorithm, i as int),
        decreases checked.len() - i,
    {
        let one = &checked[i];
        assert(one@ == views(checked@)[i as int]);
        if !check_romfile(&one.check, &one.observed, algorithm) {
            match trash_destination(trash_directory, one.check.romfile.path.as_str()) {
                Some(destination) => {
                    let ghost before = views(moves@);
                    let romfile_move = RomfileMove {
                        romfile: one.check.romfile.clone(),
                        destination,
                    };
                    let ghost added = romfile_move@;
                    moves.push(romfile_move);
                    assert(views(moves@) =~= before.push(added));
                },
                None => {},
            }
        }
        i += 1;
    }
    moves
}

/// The catalog after the first `n` moves have been recorded, each where
/// the catalog allows it.
pub open spec fn moved_upto(catalog: CatalogView, moves: Seq<RomfileMoveView>, n: int) -> CatalogView
    decreases n,
{
    if n <= 0 || n > moves.len() {
        catalog
    } else {
        let before = moved_upto(catalog, moves, n - 1);
        if before.can_move(moves[n - 1].romfile.id, moves[n - 1].destination) {
            before.moved(moves[n - 1].romfile.id, moves[n - 1].destination)
        } else {
            before
        }
    }
}

/// Whether each of the first `n` moves was recorded.
pub open spec fn recorded_upto(catalog: CatalogView, moves: Seq<RomfileMoveView>, n: int) -> Seq<bool>
    decreases n,
{
    if n <= 0 || n > moves.len() {
        Seq::empty()
    } else {
        recorded_upto(catalog, moves, n - 1).push(
            moved_upto(catalog, moves, n - 1).can_move(
                moves[n - 1].romfile.id,
                moves[n - 1].destination,
            ),
        )
    }
}

/// Records the moves to quarantine, once they have been confirmed: without
/// confirmation nothing changes. Says of each move whether it was recorded;
/// a move is not recorded where the catalog no longer has the romfile or
/// another romfile is recorded at the destination.
pub fn apply_moves(catalog: &mut Catalog, moves: &Vec<RomfileMove>, confirmed: bool) -> (recorded:
    Vec<bool>)
    requires
        old(catalog)@.wf(),
    ensures
        final(catalog)@.wf(),
        final(catalog)@ == if confirmed {
            moved_upto(old(catalog)@, views(moves@), moves.len() as int)
        } else {
            old(catalog)@
        },
        recorded@ == if confirmed {
            recorded_upto(old(catalog)@, views(moves@), moves.len() as int)
        } else {
            Seq::new(moves.len() as nat, |i: int| false)
        },
{
    let ghost before = catalog@;
    let mut recorded: Vec<bool> = Vec::new();
    let mut i: usize = 0;
    while i < moves.len()
        invariant
            i <= moves.len(),
            catalog@.wf(),
            catalog@ == if confirmed {
                moved_upto(before, views(moves@), i as int)
            } else {
                before
            },
            recorded@ == if confirmed {
                recorded_upto(before, views(moves@), i as int)
            } else {
                Seq::new(i as nat, |k: int| false)
            },
        decreases moves.len() - i,
    {
        assert(moves[i as int]@ == views(moves@)[i as int]);
        let ghost so_far = recorded@;
        let done = confirmed && catalog.relocate(moves[i].romfile.id, moves[i].destination.as_str());
        recorded.push(done);
        if !confirmed {
            assert(recorded@ =~= Seq::new((i + 1) as nat, |k: int| false));
        }
        i += 1;
    }
    recorded
}

} // verus!
