//! Where files belong: the kinds of container, the directories of a system,
//! and the path that the placement rules give each rom.

use crate::model::{text_of, Game, GameView, Rom, RomView, System, SystemView};
use crate::path::{
    extension, extension_of, file_name, file_name_of, join, joined, re_extended, separator_free,
    set_extension,
};
use crate::sevenzip::ArchiveType;
use crate::text::{chain, lowercase, lowercase_of, same_text};
use vstd::prelude::*;

verus! {

/// The extension of compressed disc images with tracks.
pub open spec fn chd_text() -> Seq<char> {
    seq!['c', 'h', 'd']
}

/// The extension of compressed disc images.
pub open spec fn cso_text() -> Seq<char> {
    seq!['c', 's', 'o']
}

/// The extension of cue sheets.
pub open spec fn cue_text() -> Seq<char> {
    seq!['c', 'u', 'e']
}

/// The extension of rotated disc images.
pub open spec fn rvz_text() -> Seq<char> {
    seq!['r', 'v', 'z']
}

/// The name of the quarantine directory of a system.
pub open spec fn trash_text() -> Seq<char> {
    seq!['T', 'r', 'a', 's', 'h']
}

/// Whether files with this extension are disc updates or add-ons, which go
/// by their game's name.
pub open spec fn is_update_extension(extension: Seq<char>) -> bool {
    extension == seq!['p', 'k', 'g'] || extension == seq!['r', 'a', 'p']
}

pub fn chd_extension() -> (text: &'static str)
    ensures
        text@ == chd_text(),
        separator_free(text@),
{
    proof {
        reveal_strlit("chd");
    }
    assert("chd"@ =~= chd_text());
    "chd"
}

pub fn cso_extension() -> (text: &'static str)
    ensures
        text@ == cso_text(),
        separator_free(text@),
{
    proof {
        reveal_strlit("cso");
    }
    assert("cso"@ =~= cso_text());
    "cso"
}

pub fn cue_extension() -> (text: &'static str)
    ensures
        text@ == cue_text(),
        separator_free(text@),
{
    proof {
        reveal_strlit("cue");
    }
    assert("cue"@ =~= cue_text());
    "cue"
}

pub fn rvz_extension() -> (text: &'static str)
    ensures
        text@ == rvz_text(),
        separator_free(text@),
{
    proof {
        reveal_strlit("rvz");
    }
    assert("rvz"@ =~= rvz_text());
    "rvz"
}

/// Whether files with this extension go by their game's name.
pub fn has_update_extension(extension: &str) -> (update: bool)
    ensures
        update == is_update_extension(extension@),
{
    proof {
        reveal_strlit("pkg");
        reveal_strlit("rap");
    }
    assert("pkg"@ =~= seq!['p', 'k', 'g']);
    assert("rap"@ =~= seq!['r', 'a', 'p']);
    same_text(extension, "pkg") || same_text(extension, "rap")
}

/// The families of container that are told apart by extension.
#[derive(Clone, Copy, Debug, PartialEq, Eq, Structural)]
pub enum Container {
    /// An archive of several entries.
    Archive(ArchiveType),
    /// A disc image that may come with a cue sheet.
    Chd,
    /// A compressed disc image.
    Cso,
    /// A rotated disc image.
    Rvz,
    /// A plain file, which is its own single entry.
    Other,
}

/// The family of containers that a lower-case extension stands for.
pub open spec fn container_of(extension: Seq<char>) -> Container {
    if extension == ArchiveType::Sevenzip.extension_text() {
        Container::Archive(ArchiveType::Sevenzip)
    } else if extension == ArchiveType::Zip.extension_text() {
        Container::Archive(ArchiveType::Zip)
    } else if extension == chd_text() {
        Container::Chd
    } else if extension == cso_text() {
        Container::Cso
    } else if extension == rvz_text() {
        Container::Rvz
    } else {
        Container::Other
    }
}

/// The family of containers that a lower-case extension stands for.
pub fn container_for(extension: &str) -> (container: Container)
    ensures
        container == container_of(extension@),
{
    if same_text(extension, ArchiveType::Sevenzip.extension()) {
        Container::Archive(ArchiveType::Sevenzip)
    } else if same_text(extension, ArchiveType::Zip.extension()) {
        Container::Archive(ArchiveType::Zip)
    } else if same_text(extension, chd_extension()) {
        Container::Chd
    } else if same_text(extension, cso_extension()) {
        Container::Cso
    } else if same_text(extension, rvz_extension()) {
        Container::Rvz
    } else {
        Container::Other
    }
}

/// The extension of a path in lower case; empty where the path has none.
pub open spec fn lowered_extension(path: Seq<char>) -> Seq<char> {
    lowercase_of(
        match extension_of(path) {
            Some(e) => e,
            None => Seq::empty(),
        },
    )
}

/// The extension of a path in lower case; empty where the path has none.
pub fn lower_extension(path: &str) -> (text: String)
    ensures
        text@ == lowered_extension(path@),
{
    proof {
        reveal_strlit("");
    }
    assert(""@ =~= Seq::<char>::empty());
    match extension(path) {
        Some(e) => lowercase(e.as_str()),
        None => lowercase(""),
    }
}

/// The directory of a system below the root of the library.
pub fn system_directory(rom_directory: &str, system: &System) -> (directory: String)
    ensures
        directory@ == joined(rom_directory@, system@.name),
{
    join(rom_directory, system.name.as_str())
}

/// The quarantine directory of a system.
pub fn trash_directory(rom_directory: &str, system: &System) -> (directory: String)
    ensures
        directory@ == joined(joined(rom_directory@, system@.name), trash_text()),
{
    proof {
        reveal_strlit("Trash");
    }
    assert("Trash"@ =~= trash_text());
    let directory = system_directory(rom_directory, system);
    join(directory.as_str(), "Trash")
}

/// The place of a file in a quarantine directory: under its own file name.
/// A path without a file name has none.
pub open spec fn trash_place(trash_directory: Seq<char>, path: Seq<char>) -> Option<Seq<char>> {
    match file_name_of(path) {
        Some(name) => Some(joined(trash_directory, name)),
        None => None,
    }
}

/// The place of a file in a quarantine directory.
pub fn trash_destination(trash_directory: &str, path: &str) -> (place: Option<String>)
    ensures
        text_of(place) == trash_place(trash_directory@, path@),
{
    match file_name(path) {
        Some(name) => Some(join(trash_directory, name.as_str())),
        None => None,
    }
}

/// A game's name with an extension after a dot.
pub open spec fn game_file_name(game_name: Seq<char>, extension: Seq<char>) -> Seq<char> {
    game_name + seq!['.'] + extension
}

fn name_with_extension(game_name: &str, extension: &str) -> (name: String)
    ensures
        name@ == game_file_name(game_name@, extension@),
{
    proof {
        reveal_strlit(".");
    }
    assert("."@ =~= seq!['.']);
    let stem = chain(game_name, ".");
    chain(stem.as_str(), extension)
}

/// The place of a rom that is filed on its own: in a directory named after
/// its game where the system is an arcade or the game keeps a folder, under
/// its game's name where the file is a disc update or add-on, and under its
/// own name otherwise.
pub open spec fn rom_place(
    directory: Seq<char>,
    system: SystemView,
    game: GameView,
    rom: RomView,
    extension: Seq<char>,
) -> Seq<char> {
    if system.arcade || game.jbfolder {
        joined(joined(directory, game.name), rom.name)
    } else if is_update_extension(extension) {
        joined(directory, game_file_name(game.name, extension))
    } else {
        joined(directory, rom.name)
    }
}

/// The place of a rom that is filed on its own.
pub fn rom_destination(
    system_directory: &str,
    system: &System,
    game: &Game,
    rom: &Rom,
    romfile_extension: &str,
) -> (place: String)
    ensures
        place@ == rom_place(system_directory@, system@, game@, rom@, romfile_extension@),
{
    if system.arcade || game.jbfolder {
        let game_directory = join(system_directory, game.name.as_str());
        join(game_directory.as_str(), rom.name.as_str())
    } else if has_update_extension(romfile_extension) {
        let name = name_with_extension(game.name.as_str(), romfile_extension);
        join(system_directory, name.as_str())
    } else {
        join(system_directory, rom.name.as_str())
    }
}

/// The place of a rom that is kept inside a container of its own: under the
/// rom's name, with the container's extension.
pub open spec fn image_place(directory: Seq<char>, rom: RomView, extension: Seq<char>) -> Seq<
    char,
> {
    re_extended(joined(directory, rom.name), extension)
}

/// The place of a rom that is kept inside a container of its own.
pub fn image_destination(system_directory: &str, rom: &Rom, extension: &str) -> (place: String)
    requires
        separator_free(extension@),
    ensures
        place@ == image_place(system_directory@, rom@, extension@),
{
    let plain = join(system_directory, rom.name.as_str());
    set_extension(plain.as_str(), extension)
}

/// The place of an archive that holds a whole game: under the game's name
/// where it holds several roms, where the system is an arcade, or where its
/// one rom is a disc update or add-on; under the rom's name otherwise. The
/// extension is the archive's.
pub open spec fn archive_place(
    directory: Seq<char>,
    system: SystemView,
    game: GameView,
    roms: Seq<RomView>,
    archive: ArchiveType,
) -> Seq<char> {
    if roms.len() == 1 && !system.arcade && !is_update_extension(lowered_extension(roms[0].name)) {
        image_place(directory, roms[0], archive.extension_text())
    } else {
        joined(directory, game_file_name(game.name, archive.extension_text()))
    }
}

/// The place of an archive that holds a whole game.
pub fn archive_destination(
    system_directory: &str,
    system: &System,
    game: &Game,
    roms: &Vec<Rom>,
    archive: ArchiveType,
) -> (place: String)
    ensures
        place@ == archive_place(
            system_directory@,
            system@,
            game@,
            crate::model::views(roms@),
            archive,
        ),
{
    let by_rom_name = if roms.len() == 1 && !system.arcade {
        let rom_extension = lower_extension(roms[0].name.as_str());
        !has_update_extension(rom_extension.as_str())
    } else {
        false
    };
    if by_rom_name {
        image_destination(system_directory, &roms[0], archive.extension())
    } else {
        let name = name_with_extension(game.name.as_str(), archive.extension());
        join(system_directory, name.as_str())
    }
}

} // verus!
