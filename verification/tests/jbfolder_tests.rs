use oxyromon::catalog::Catalog;
use oxyromon::checksum::hash;
use oxyromon::jbfolder::{
    classify_folder_file, find_sfb_rom_by_md5, import_jbfolder, marker_name, marker_path,
    place_folder_files, resolve_folder_files, resolve_marker,
};
use oxyromon::model::{
    select_hash_algorithm, Game, HashAlgorithm, Rom, System, UnknownHashAlgorithm,
};
use oxyromon::resolve::{ContainerEntry, Resolution};

fn system() -> System {
    System { id: 1, name: "Test System".to_string(), arcade: false }
}

fn md5(content: &[u8]) -> String {
    hash(content, &None, HashAlgorithm::Md5).unwrap().1
}

fn rom(id: i64, game_id: i64, name: &str, content: &[u8], parent_id: Option<i64>) -> Rom {
    Rom {
        id,
        name: name.to_string(),
        size: content.len() as i64,
        crc: None,
        md5: Some(md5(content)),
        sha1: None,
        game_id,
        romfile_id: None,
        parent_id,
    }
}

fn file(path: &str, content: &[u8]) -> ContainerEntry {
    ContainerEntry { name: path.to_string(), size: content.len() as u64, hash: md5(content) }
}

fn nobody(_: &Vec<Rom>) -> Option<usize> {
    None
}

/// A disc description (rom 1), and a folder game whose files repeat it.
fn catalog() -> Catalog {
    let mut catalog = Catalog::new();
    assert!(catalog.add_game(Game {
        id: 1,
        name: "Test Game (Disc)".to_string(),
        jbfolder: false,
        system_id: 1,
        parent_id: None,
    }));
    assert!(catalog.add_game(Game {
        id: 2,
        name: "Test Game (Folder)".to_string(),
        jbfolder: true,
        system_id: 1,
        parent_id: None,
    }));
    assert!(catalog.add_rom(rom(1, 1, "Test Game.ird", b"description", None)));
    assert!(catalog.add_rom(rom(2, 2, "PS3_DISC.SFB", b"marker", Some(1))));
    assert!(catalog.add_rom(rom(3, 2, "PS3_GAME/PARAM.SFO", b"parameters", Some(1))));
    assert!(catalog.add_rom(rom(4, 2, "PS3_GAME/USRDIR/a.bin", b"same", Some(1))));
    assert!(catalog.add_rom(rom(5, 2, "PS3_GAME/USRDIR/b.bin", b"same", Some(1))));
    assert!(catalog.add_rom(rom(6, 1, "elsewhere.bin", b"same", Some(9))));
    catalog
}

#[test]
fn marker_of_a_folder() {
    assert_eq!(marker_name(), "PS3_DISC.SFB");
    assert_eq!(marker_path("/in/game"), "/in/game/PS3_DISC.SFB");
}

#[test]
fn marker_is_found_by_name_size_and_digest() {
    let catalog = catalog();
    let found = find_sfb_rom_by_md5(&catalog, 6, &md5(b"marker"), &system(), &nobody);
    assert_eq!(found.map(|r| r.id), Some(2));
    assert_eq!(find_sfb_rom_by_md5(&catalog, 7, &md5(b"marker"), &system(), &nobody), None);
    assert_eq!(find_sfb_rom_by_md5(&catalog, 6, &md5(b"other"), &system(), &nobody), None);
    // a rom of the same content under another name is no marker
    assert_eq!(find_sfb_rom_by_md5(&catalog, 10, &md5(b"parameters"), &system(), &nobody), None);
    let other = System { id: 2, name: "Other".to_string(), arcade: false };
    assert_eq!(find_sfb_rom_by_md5(&catalog, 6, &md5(b"marker"), &other, &nobody), None);
}

#[test]
fn equal_markers_are_ambiguous() {
    let mut catalog = catalog();
    assert!(catalog.add_rom(rom(7, 1, "PS3_DISC.SFB", b"marker", Some(1))));
    match resolve_marker(&catalog, 6, &md5(b"marker"), &system()) {
        Resolution::Ambiguous(candidates) => {
            assert_eq!(candidates.iter().map(|r| r.id).collect::<Vec<_>>(), vec![2, 7]);
        }
        other => panic!("{:?}", other),
    }
    let second = |_: &Vec<Rom>| Some(1);
    assert_eq!(
        find_sfb_rom_by_md5(&catalog, 6, &md5(b"marker"), &system(), &second).map(|r| r.id),
        Some(7)
    );
    assert_eq!(find_sfb_rom_by_md5(&catalog, 6, &md5(b"marker"), &system(), &nobody), None);
}

#[test]
fn files_of_a_folder_go_under_the_game() {
    let catalog = catalog();
    let sfb_rom = catalog.roms()[1].clone();
    let files = vec![
        file("/in/game/PS3_DISC.SFB", b"marker"),
        file("/in/game/PS3_GAME/PARAM.SFO", b"parameters"),
        file("/in/game/readme.txt", b"unknown"),
        file("/in/game/PS3_GAME/USRDIR/b.bin", b"same"),
        file("/in/game/PS3_GAME/USRDIR/a.bin", b"same"),
        file("/in/game/PS3_GAME/USRDIR/c.bin", b"same"),
    ];
    let placements = import_jbfolder(&catalog, "/roms/Test System", &sfb_rom, &files, &nobody);
    let summary: Vec<(&str, &str, i64)> = placements
        .iter()
        .map(|p| (p.entry.as_str(), p.destination.as_str(), p.rom.id))
        .collect();
    assert_eq!(
        summary,
        vec![
            (
                "/in/game/PS3_DISC.SFB",
                "/roms/Test System/Test Game (Folder)/PS3_DISC.SFB",
                2
            ),
            (
                "/in/game/PS3_GAME/PARAM.SFO",
                "/roms/Test System/Test Game (Folder)/PS3_GAME/PARAM.SFO",
                3
            ),
            (
                "/in/game/PS3_GAME/USRDIR/b.bin",
                "/roms/Test System/Test Game (Folder)/PS3_GAME/USRDIR/b.bin",
                5
            ),
            (
                "/in/game/PS3_GAME/USRDIR/a.bin",
                "/roms/Test System/Test Game (Folder)/PS3_GAME/USRDIR/a.bin",
                4
            ),
        ]
    );
}

#[test]
fn marker_without_a_parent_matches_nothing() {
    let catalog = catalog();
    let orphan = rom(9, 2, "PS3_DISC.SFB", b"marker", None);
    let files = vec![file("/in/game/PS3_GAME/PARAM.SFO", b"parameters")];
    assert!(import_jbfolder(&catalog, "/roms/Test System", &orphan, &files, &nobody).is_empty());
}

#[test]
fn folder_file_is_settled_by_the_end_of_its_path() {
    let catalog = catalog();
    let a = catalog.roms()[3].clone();
    let b = catalog.roms()[4].clone();
    let both = || vec![a.clone(), b.clone()];
    assert_eq!(classify_folder_file(&catalog, vec![], "/in/x"), Resolution::NoMatch);
    assert_eq!(classify_folder_file(&catalog, vec![a.clone()], "/in/x"), Resolution::Matched(a.clone()));
    assert_eq!(
        classify_folder_file(&catalog, both(), "/in/game/PS3_GAME/USRDIR/b.bin"),
        Resolution::Matched(b.clone())
    );
    assert_eq!(classify_folder_file(&catalog, both(), "/in/game/c.bin"), Resolution::Ambiguous(both()));
    // the first candidate whose name ends the path wins
    let mut short = b.clone();
    short.id = 8;
    short.name = "b.bin".to_string();
    assert_eq!(
        classify_folder_file(&catalog, vec![a.clone(), short.clone(), b.clone()], "/in/USRDIR/b.bin"),
        Resolution::Matched(short)
    );
}

#[test]
fn ambiguous_folder_file_is_decided() {
    let catalog = catalog();
    let files = vec![file("/in/game/x.bin", b"same"), file("/in/game/y.bin", b"same"),
        file("/in/game/z.bin", b"same")];
    let first = |_: &Vec<Rom>| Some(0);
    let outcomes = resolve_folder_files(&catalog, Some(1), &files, &first);
    let ids: Vec<Option<i64>> = outcomes.iter().map(|o| o.as_ref().map(|r| r.id)).collect();
    assert_eq!(ids, vec![Some(4), Some(5), None]);
    let game = catalog.games()[1].clone();
    let placements = place_folder_files("/roms/Test System", &game, &files, &outcomes);
    assert_eq!(placements.len(), 2);
    assert_eq!(placements[1].entry, "/in/game/y.bin");
    assert_eq!(
        placements[1].destination,
        "/roms/Test System/Test Game (Folder)/PS3_GAME/USRDIR/b.bin"
    );
}

#[test]
fn algorithm_asked_for_comes_before_the_setting() {
    assert_eq!(select_hash_algorithm(Some("CRC"), Some("MD5")), Ok(HashAlgorithm::Crc));
    assert_eq!(select_hash_algorithm(Some("MD5"), Some("CRC")), Ok(HashAlgorithm::Md5));
    assert_eq!(select_hash_algorithm(None, Some("MD5")), Ok(HashAlgorithm::Md5));
    assert_eq!(select_hash_algorithm(Some("SHA256"), Some("CRC")), Ok(HashAlgorithm::Crc));
    assert_eq!(select_hash_algorithm(Some("crc"), None), Err(UnknownHashAlgorithm));
    assert_eq!(select_hash_algorithm(None, None), Err(UnknownHashAlgorithm));
    assert_eq!(select_hash_algorithm(None, Some("SHA1")), Err(UnknownHashAlgorithm));
}
