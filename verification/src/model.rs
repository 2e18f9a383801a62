//! The catalog's records, as plain values, and their mathematical views.

use crate::text::same_text;
use vstd::prelude::*;

verus! {

/// The digest algorithm that a lookup goes by.
#[derive(Clone, Copy, Debug, PartialEq, Eq, Structural)]
pub enum HashAlgorithm {
    Crc,
    Md5,
    Sha1,
}

/// No digest algorithm could be settled on.
#[derive(Clone, Copy, Debug, PartialEq, Eq, Structural)]
pub struct UnknownHashAlgorithm;

/// The algorithm that a name stands for: `CRC` or `MD5`, in capitals.
pub open spec fn algorithm_named(name: Option<Seq<char>>) -> Option<HashAlgorithm> {
    if name == Some(seq!['C', 'R', 'C']) {
        Some(HashAlgorithm::Crc)
    } else if name == Some(seq!['M', 'D', '5']) {
        Some(HashAlgorithm::Md5)
    } else {
        None
    }
}

fn algorithm_for(name: Option<&str>) -> (algorithm: Option<HashAlgorithm>)
    ensures
        algorithm == algorithm_named(
            match name {
                Some(n) => Some(n@),
                None => None,
            },
        ),
{
    proof {
        reveal_strlit("CRC");
        reveal_strlit("MD5");
    }
    assert("CRC"@ =~= seq!['C', 'R', 'C']);
    assert("MD5"@ =~= seq!['M', 'D', '5']);
    match name {
        Some(n) => if same_text(n, "CRC") {
            Some(HashAlgorithm::Crc)
        } else if same_text(n, "MD5") {
            Some(HashAlgorithm::Md5)
        } else {
            None
        },
        None => None,
    }
}

/// Settles the digest algorithm of an import: the one that was asked for
/// where it is known by name, and otherwise the one of the stored setting.
pub fn select_hash_algorithm(choice: Option<&str>, setting: Option<&str>) -> (selected: Result<
    HashAlgorithm,
    UnknownHashAlgorithm,
>)
    ensures
        selected == match algorithm_named(
            match choice {
                Some(n) => Some(n@),
                None => None,
            },
        ) {
            Some(algorithm) => Ok::<HashAlgorithm, UnknownHashAlgorithm>(algorithm),
            None => match algorithm_named(
                match setting {
                    Some(n) => Some(n@),
                    None => None,
                },
            ) {
                Some(algorithm) => Ok(algorithm),
                None => Err(UnknownHashAlgorithm),
            },
        },
{
    match algorithm_for(choice) {
        Some(algorithm) => Ok(algorithm),
        None => match algorithm_for(setting) {
            Some(algorithm) => Ok(algorithm),
            None => Err(UnknownHashAlgorithm),
        },
    }
}

/// A byte prefix that is left out of a system's sizes and digests.
#[derive(Clone, Copy, Debug, PartialEq, Eq, Structural)]
pub struct Header {
    /// The number of leading bytes to skip.
    pub size: u64,
}

/// A catalogued platform.
#[derive(Debug, PartialEq, Eq)]
pub struct System {
    pub id: i64,
    pub name: String,
    /// Arcade systems file every rom under a directory named after its game.
    pub arcade: bool,
}

/// A game of one system.
#[derive(Debug, PartialEq, Eq)]
pub struct Game {
    pub id: i64,
    pub name: String,
    /// Games extracted as folders keep a directory of their own.
    pub jbfolder: bool,
    pub system_id: i64,
    /// The game this one is a clone of.
    pub parent_id: Option<i64>,
}

/// A known-good file of one game.
#[derive(Debug, PartialEq, Eq)]
pub struct Rom {
    pub id: i64,
    pub name: String,
    pub size: i64,
    pub crc: Option<String>,
    pub md5: Option<String>,
    pub sha1: Option<String>,
    pub game_id: i64,
    /// The file on disk that holds this rom, once it has been filed.
    pub romfile_id: Option<i64>,
    /// The rom this one repeats; roms without one make up a game's own set.
    pub parent_id: Option<i64>,
}

/// A file on disk that backs any number of roms.
#[derive(Debug, PartialEq, Eq)]
pub struct Romfile {
    pub id: i64,
    pub path: String,
    pub size: u64,
}

/// The view of [`System`]: the same record over mathematical values.
pub struct SystemView {
    pub id: i64,
    pub name: Seq<char>,
    pub arcade: bool,
}

/// The view of [`Game`]: the same record over mathematical values.
pub struct GameView {
    pub id: i64,
    pub name: Seq<char>,
    pub jbfolder: bool,
    pub system_id: i64,
    pub parent_id: Option<i64>,
}

/// The view of [`Rom`]: the same record over mathematical values.
pub struct RomView {
    pub id: i64,
    pub name: Seq<char>,
    pub size: i64,
    pub crc: Option<Seq<char>>,
    pub md5: Option<Seq<char>>,
    pub sha1: Option<Seq<char>>,
    pub game_id: i64,
    pub romfile_id: Option<i64>,
    pub parent_id: Option<i64>,
}

/// The view of [`Romfile`]: the same record over mathematical values.
pub struct RomfileView {
    pub id: i64,
    pub path: Seq<char>,
    pub size: u64,
}

/// The characters of an optional string.
pub open spec fn text_of(field: Option<String>) -> Option<Seq<char>> {
    match field {
        Some(s) => Some(s@),
        None => None,
    }
}

impl View for System {
    type V = SystemView;

    open spec fn view(&self) -> SystemView {
        SystemView { id: self.id, name: self.name@, arcade: self.arcade }
    }
}

impl View for Game {
    type V = GameView;

    open spec fn view(&self) -> GameView {
        GameView {
            id: self.id,
            name: self.name@,
            jbfolder: self.jbfolder,
            system_id: self.system_id,
            parent_id: self.parent_id,
        }
    }
}

impl View for Rom {
    type V = RomView;

    open spec fn view(&self) -> RomView {
        RomView {
            id: self.id,
            name: self.name@,
            size: self.size,
            crc: text_of(self.crc),
            md5: text_of(self.md5),
            sha1: text_of(self.sha1),
            game_id: self.game_id,
            romfile_id: self.romfile_id,
            parent_id: self.parent_id,
        }
    }
}

impl View for Romfile {
    type V = RomfileView;

    open spec fn view(&self) -> RomfileView {
        RomfileView { id: self.id, path: self.path@, size: self.size }
    }
}

/// The views of a sequence of records, in order.
pub open spec fn views<T: View>(items: Seq<T>) -> Seq<T::V> {
    Seq::new(items.len(), |i: int| items[i]@)
}

impl RomView {
    /// The digest recorded for `algorithm`, if the catalog has one.
    pub open spec fn digest(self, algorithm: HashAlgorithm) -> Option<Seq<char>> {
        match algorithm {
            HashAlgorithm::Crc => self.crc,
            HashAlgorithm::Md5 => self.md5,
            HashAlgorithm::Sha1 => self.sha1,
        }
    }

    /// Whether a file of `size` bytes with digest `hash` is this rom.
    pub open spec fn has_identity(self, size: u64, hash: Seq<char>, algorithm: HashAlgorithm) -> bool {
        self.size == size && self.digest(algorithm) == Some(hash)
    }
}

impl Rom {
    /// Whether a file of `size` bytes with digest `hash` is this rom: size
    /// and digest must both agree.
    pub fn matches(&self, size: u64, hash: &str, algorithm: HashAlgorithm) -> (same: bool)
        ensures
            same == self@.has_identity(size, hash@, algorithm),
    {
        if self.size < 0 || self.size as u64 != size {
            return false;
        }
        let digest = match algorithm {
            HashAlgorithm::Crc => &self.crc,
            HashAlgorithm::Md5 => &self.md5,
            HashAlgorithm::Sha1 => &self.sha1,
        };
        match digest {
            Some(d) => same_text(d.as_str(), hash),
            None => false,
        }
    }
}

/// Whether `id` is among `ids`.
pub fn holds_id(ids: &Vec<i64>, id: i64) -> (held: bool)
    ensures
        held == ids@.contains(id),
{
    let mut i: usize = 0;
    while i < ids.len()
        invariant
            i <= ids.len(),
            forall|k: int| 0 <= k < i ==> ids@[k] != id,
        decreases ids.len() - i,
    {
        if ids[i] == id {
            return true;
        }
        i += 1;
    }
    false
}

/// The ids of a list of roms, in order.
pub open spec fn ids_of(roms: Seq<RomView>) -> Seq<i64> {
    Seq::new(roms.len(), |i: int| roms[i].id)
}

fn clone_text(field: &Option<String>) -> (copy: Option<String>)
    ensures
        copy == *field,
{
    match field {
        Some(s) => Some(s.clone()),
        None => None,
    }
}

impl Clone for System {
    fn clone(&self) -> (copy: Self)
        ensures
            copy == *self,
    {
        System { id: self.id, name: self.name.clone(), arcade: self.arcade }
    }
}

impl Clone for Game {
    fn clone(&self) -> (copy: Self)
        ensures
            copy == *self,
    {
        Game {
            id: self.id,
            name: self.name.clone(),
            jbfolder: self.jbfolder,
            system_id: self.system_id,
            parent_id: self.parent_id,
        }
    }
}

impl Clone for Rom {
    fn clone(&self) -> (copy: Self)
        ensures
            copy == *self,
    {
        Rom {
            id: self.id,
            name: self.name.clone(),
            size: self.size,
            crc: clone_text(&self.crc),
            md5: clone_text(&self.md5),
            sha1: clone_text(&self.sha1),
            game_id: self.game_id,
            romfile_id: self.romfile_id,
            parent_id: self.parent_id,
        }
    }
}

impl Clone for Romfile {
    fn clone(&self) -> (copy: Self)
        ensures
            copy == *self,
    {
        Romfile { id: self.id, path: self.path.clone(), size: self.size }
    }
}

} // verus!
