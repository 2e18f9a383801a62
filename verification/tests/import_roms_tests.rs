use oxyromon::catalog::Catalog;
use oxyromon::checksum::hash;
use oxyromon::import_roms::{
    create_or_update_romfile, cue_path, import_archive, import_chd, import_chd_single_track,
    import_cso, import_cue, import_other, import_rom, import_rvz, listed_entry, move_to_trash,
    needs_rehash, place_cue, place_file, place_image, plan_archive, resolve_entries,
    track_names_sizes, track_spans, tracks_match, ArchiveImport, ChdImport, CueImport,
    EntryPlacement, Import, ImportRoute, RecordError, Rename, Track, TrackContent,
    TrackCountMismatch, TrackSpan,
};
use oxyromon::layout::{system_directory, trash_directory, Container};
use oxyromon::model::{Game, HashAlgorithm, Header, Rom, Romfile, System};
use oxyromon::resolve::{ContainerEntry, Resolution};
use oxyromon::sevenzip::{ArchiveInfo, ArchiveType};

fn system() -> System {
    System { id: 1, name: "Test System".to_string(), arcade: false }
}

fn game(id: i64, name: &str) -> Game {
    Game { id, name: name.to_string(), jbfolder: false, system_id: 1, parent_id: None }
}

fn rom(id: i64, game_id: i64, name: &str, content: &[u8]) -> Rom {
    Rom {
        id,
        name: name.to_string(),
        size: content.len() as i64,
        crc: Some(hash(content, &None, HashAlgorithm::Crc).unwrap().1),
        md5: Some(hash(content, &None, HashAlgorithm::Md5).unwrap().1),
        sha1: Some(hash(content, &None, HashAlgorithm::Sha1).unwrap().1),
        game_id,
        romfile_id: None,
        parent_id: None,
    }
}

fn entry(name: &str, content: &[u8]) -> ContainerEntry {
    let (size, hash) = hash(content, &None, HashAlgorithm::Crc).unwrap();
    ContainerEntry { name: name.to_string(), size, hash }
}

/// One game of one rom, and a second game of three roms.
fn catalog() -> Catalog {
    let mut catalog = Catalog::new();
    assert!(catalog.add_game(game(1, "Test Game (USA, Europe)")));
    assert!(catalog.add_game(game(2, "Test Game (Asia)")));
    assert!(catalog.add_rom(rom(1, 1, "Test Game (USA, Europe).rom", b"usa and europe")));
    assert!(catalog.add_rom(rom(2, 2, "Test Game (Asia) (Track 01).bin", b"first track")));
    assert!(catalog.add_rom(rom(3, 2, "Test Game (Asia) (Track 02).bin", b"second track")));
    assert!(catalog.add_rom(rom(4, 2, "Test Game (Asia).cue", b"cue sheet")));
    catalog
}

fn nobody(_: &Vec<Rom>) -> Option<usize> {
    None
}

fn track(content: &[u8]) -> TrackContent {
    let (size, hash) = hash(content, &None, HashAlgorithm::Crc).unwrap();
    TrackContent { size, hash }
}

#[test]
fn new_path_is_routed_by_its_extension() {
    let catalog = catalog();
    let cases = [
        ("/in/a.7z", Container::Archive(ArchiveType::Sevenzip), "7z"),
        ("/in/a.ZIP", Container::Archive(ArchiveType::Zip), "zip"),
        ("/in/a.chd", Container::Chd, "chd"),
        ("/in/a.Cso", Container::Cso, "cso"),
        ("/in/a.rvz", Container::Rvz, "rvz"),
        ("/in/a.rom", Container::Other, "rom"),
        ("/in/noextension", Container::Other, ""),
    ];
    for (path, container, extension) in cases {
        assert_eq!(
            import_rom(&catalog, path),
            ImportRoute::Import { container, extension: extension.to_string() },
            "{}",
            path
        );
    }
}

#[test]
fn single_file_is_placed_under_its_rom_name() {
    let mut catalog = catalog();
    let system = system();
    let directory = system_directory("/roms", &system);
    assert_eq!(directory, "/roms/Test System");
    let path = "/in/whatever name.rom";
    let content = b"usa and europe";
    let (size, digest) = hash(content, &None, HashAlgorithm::Crc).unwrap();
    let plan = import_other(
        &catalog, &directory, &system, path, "rom", size, &digest, HashAlgorithm::Crc, &nobody,
    );
    let (destination, rom) = match plan {
        Import::Place { destination, rom } => (destination, rom),
        other => panic!("{:?}", other),
    };
    assert_eq!(destination, "/roms/Test System/Test Game (USA, Europe).rom");
    assert_eq!(rom.id, 1);
    let id = create_or_update_romfile(&mut catalog, &destination, content.len() as u64, &vec![rom])
        .unwrap();
    assert_eq!(catalog.romfiles().len(), 1);
    let romfile = &catalog.romfiles()[0];
    assert_eq!(romfile.id, id);
    assert_eq!(romfile.size, 14);
    assert!(!romfile.path.contains("/Trash/"));
    assert_eq!(catalog.roms()[0].romfile_id, Some(id));
    assert_eq!(catalog.roms()[1].romfile_id, None);
}

#[test]
fn importing_a_recorded_path_again_changes_nothing() {
    let mut catalog = catalog();
    let path = "/roms/Test System/Test Game (USA, Europe).rom";
    let rom = catalog.roms()[0].clone();
    let first = create_or_update_romfile(&mut catalog, path, 14, &vec![rom.clone()]).unwrap();
    assert_eq!(import_rom(&catalog, path), ImportRoute::AlreadyInDatabase);
    let second = create_or_update_romfile(&mut catalog, path, 14, &vec![rom]).unwrap();
    assert_eq!(first, second);
    assert_eq!(catalog.romfiles().len(), 1);
}

#[test]
fn recording_a_path_again_updates_its_size() {
    let mut catalog = catalog();
    let path = "/roms/Test System/a.7z";
    let id = create_or_update_romfile(&mut catalog, path, 10, &vec![]).unwrap();
    assert_eq!(create_or_update_romfile(&mut catalog, path, 20, &vec![]), Ok(id));
    assert_eq!(catalog.romfiles(), &vec![Romfile { id, path: path.to_string(), size: 20 }]);
    let other = create_or_update_romfile(&mut catalog, "/roms/Test System/b.7z", 5, &vec![]).unwrap();
    assert_eq!(other, id + 1);
}

#[test]
fn full_catalog_takes_no_new_romfile() {
    let mut catalog = catalog();
    assert!(catalog.add_romfile(Romfile { id: i64::MAX, path: "/roms/last".to_string(), size: 1 }));
    assert!(!catalog.has_room());
    assert_eq!(
        create_or_update_romfile(&mut catalog, "/roms/new", 1, &vec![]),
        Err(RecordError::CatalogFull)
    );
    assert_eq!(create_or_update_romfile(&mut catalog, "/roms/last", 2, &vec![]), Ok(i64::MAX));
    assert_eq!(catalog.romfiles().len(), 1);
    assert_eq!(
        move_to_trash(&mut catalog, "/roms/Test System/Trash", "/in/x.rom", 1),
        Err(RecordError::CatalogFull)
    );
}

#[test]
fn unknown_file_goes_to_quarantine() {
    let mut catalog = catalog();
    let system = system();
    let directory = system_directory("/roms", &system);
    let (size, digest) = hash(b"nobody knows me", &None, HashAlgorithm::Crc).unwrap();
    let plan = import_other(
        &catalog, &directory, &system, "/in/x.rom", "rom", size, &digest, HashAlgorithm::Crc,
        &nobody,
    );
    assert_eq!(plan, Import::Trash);
    let trash = trash_directory("/roms", &system);
    assert_eq!(trash, "/roms/Test System/Trash");
    let place = move_to_trash(&mut catalog, &trash, "/in/x.rom", size).unwrap();
    assert_eq!(place, "/roms/Test System/Trash/x.rom");
    assert_eq!(catalog.romfiles().len(), 1);
    assert_eq!(catalog.romfiles()[0].path, place);
    assert!(catalog.roms().iter().all(|rom| rom.romfile_id.is_none()));
    assert_eq!(
        move_to_trash(&mut catalog, &trash, "/", size),
        Err(RecordError::NoFileName)
    );
}

#[test]
fn size_alone_or_digest_alone_is_no_match() {
    let catalog = catalog();
    let system = system();
    let content = b"usa and europe";
    let (size, digest) = hash(content, &None, HashAlgorithm::Crc).unwrap();
    let (_, other_digest) = hash(b"usa and eurasia", &None, HashAlgorithm::Crc).unwrap();
    let same_size = import_other(
        &catalog, "/roms/Test System", &system, "/in/x.rom", "rom", size, &other_digest,
        HashAlgorithm::Crc, &nobody,
    );
    assert_eq!(same_size, Import::Trash);
    let same_digest = import_other(
        &catalog, "/roms/Test System", &system, "/in/x.rom", "rom", size + 1, &digest,
        HashAlgorithm::Crc, &nobody,
    );
    assert_eq!(same_digest, Import::Trash);
    // the digest of another algorithm does not count either
    let (_, md5) = hash(content, &None, HashAlgorithm::Md5).unwrap();
    let wrong_algorithm = import_other(
        &catalog, "/roms/Test System", &system, "/in/x.rom", "rom", size, &md5,
        HashAlgorithm::Crc, &nobody,
    );
    assert_eq!(wrong_algorithm, Import::Trash);
    let by_md5 = import_other(
        &catalog, "/roms/Test System", &system, "/in/x.rom", "rom", size, &md5,
        HashAlgorithm::Md5, &nobody,
    );
    assert!(matches!(by_md5, Import::Place { .. }));
}

#[test]
fn rom_of_another_system_is_no_match() {
    let catalog = catalog();
    let other = System { id: 2, name: "Other System".to_string(), arcade: false };
    let (size, digest) = hash(b"usa and europe", &None, HashAlgorithm::Crc).unwrap();
    let plan = import_other(
        &catalog, "/roms/Other System", &other, "/in/x.rom", "rom", size, &digest,
        HashAlgorithm::Crc, &nobody,
    );
    assert_eq!(plan, Import::Trash);
}

#[test]
fn filed_rom_is_no_candidate() {
    let mut catalog = catalog();
    let system = system();
    let rom = catalog.roms()[0].clone();
    create_or_update_romfile(&mut catalog, "/roms/Test System/a.rom", 14, &vec![rom]).unwrap();
    let (size, digest) = hash(b"usa and europe", &None, HashAlgorithm::Crc).unwrap();
    let plan = import_other(
        &catalog, "/roms/Test System", &system, "/in/copy.rom", "rom", size, &digest,
        HashAlgorithm::Crc, &nobody,
    );
    assert_eq!(plan, Import::Trash);
}

#[test]
fn resolution_of_a_filed_rom_skips_the_file() {
    let catalog = catalog();
    let romfile = Romfile { id: 9, path: "/roms/Test System/a.rom".to_string(), size: 14 };
    let plan = place_file(
        &catalog, "/roms/Test System", &system(), "rom", Resolution::AlreadyFiled(romfile), None,
    );
    assert_eq!(plan, Import::Skip);
}

fn twins() -> Catalog {
    let mut catalog = Catalog::new();
    assert!(catalog.add_game(game(1, "Twin (USA)")));
    assert!(catalog.add_game(game(2, "Twin (Europe)")));
    assert!(catalog.add_rom(rom(1, 1, "Twin (USA).rom", b"same content")));
    assert!(catalog.add_rom(rom(2, 2, "Twin (Europe).rom", b"same content")));
    catalog
}

#[test]
fn name_settles_between_equal_roms() {
    let catalog = twins();
    let (size, digest) = hash(b"same content", &None, HashAlgorithm::Crc).unwrap();
    let plan = import_other(
        &catalog, "/roms/Test System", &system(), "/in/Twin (Europe).rom", "rom", size, &digest,
        HashAlgorithm::Crc, &nobody,
    );
    match plan {
        Import::Place { destination, rom } => {
            assert_eq!(rom.id, 2);
            assert_eq!(destination, "/roms/Test System/Twin (Europe).rom");
        }
        other => panic!("{:?}", other),
    }
}

#[test]
fn choice_settles_where_the_name_does_not() {
    let catalog = twins();
    let (size, digest) = hash(b"same content", &None, HashAlgorithm::Crc).unwrap();
    let first = |candidates: &Vec<Rom>| {
        assert_eq!(candidates.len(), 2);
        Some(0)
    };
    let second = |_: &Vec<Rom>| Some(1);
    let beyond = |_: &Vec<Rom>| Some(2);
    let import = |decide: &dyn Fn(&Vec<Rom>) -> Option<usize>| {
        import_other(
            &catalog, "/roms/Test System", &system(), "/in/unnamed.rom", "rom", size, &digest,
            HashAlgorithm::Crc, &decide,
        )
    };
    assert!(matches!(import(&first), Import::Place { rom, .. } if rom.id == 1));
    assert!(matches!(import(&second), Import::Place { rom, .. } if rom.id == 2));
    assert_eq!(import(&beyond), Import::Trash);
    assert_eq!(import(&nobody), Import::Trash);
}

#[test]
fn equal_entries_claim_different_roms() {
    let catalog = twins();
    let entries = vec![entry("one.rom", b"same content"), entry("two.rom", b"same content"),
        entry("three.rom", b"same content")];
    let first = |_: &Vec<Rom>| Some(0);
    let outcomes = resolve_entries(&catalog, &system(), HashAlgorithm::Crc, &entries, &first);
    let ids: Vec<Option<i64>> = outcomes.iter().map(|o| o.as_ref().map(|r| r.id)).collect();
    assert_eq!(ids, vec![Some(1), Some(2), None]);
}

#[test]
fn arcade_rom_goes_under_its_game() {
    let catalog = catalog();
    let arcade = System { id: 1, name: "Arcade".to_string(), arcade: true };
    let (size, digest) = hash(b"usa and europe", &None, HashAlgorithm::Crc).unwrap();
    let plan = import_other(
        &catalog, "/roms/Arcade", &arcade, "/in/x.rom", "rom", size, &digest, HashAlgorithm::Crc,
        &nobody,
    );
    assert!(matches!(plan, Import::Place { destination, .. }
        if destination == "/roms/Arcade/Test Game (USA, Europe)/Test Game (USA, Europe).rom"));
}

#[test]
fn folder_game_rom_goes_under_its_game() {
    let mut catalog = Catalog::new();
    let mut folder = game(1, "Folder Game");
    folder.jbfolder = true;
    assert!(catalog.add_game(folder));
    assert!(catalog.add_rom(rom(1, 1, "PS3_GAME/PARAM.SFO", b"param")));
    let (size, digest) = hash(b"param", &None, HashAlgorithm::Crc).unwrap();
    let plan = import_other(
        &catalog, "/roms/Test System", &system(), "/in/PARAM.SFO", "sfo", size, &digest,
        HashAlgorithm::Crc, &nobody,
    );
    assert!(matches!(plan, Import::Place { destination, .. }
        if destination == "/roms/Test System/Folder Game/PS3_GAME/PARAM.SFO"));
}

#[test]
fn update_file_goes_by_its_game_name() {
    let mut catalog = Catalog::new();
    assert!(catalog.add_game(game(1, "Some Update (v1.01)")));
    assert!(catalog.add_rom(rom(1, 1, "EP0001-BLES00000_00-0000000000000000.pkg", b"package")));
    let (size, digest) = hash(b"package", &None, HashAlgorithm::Crc).unwrap();
    for (extension, expected) in [
        ("pkg", "/roms/Test System/Some Update (v1.01).pkg"),
        ("rap", "/roms/Test System/Some Update (v1.01).rap"),
        ("bin", "/roms/Test System/EP0001-BLES00000_00-0000000000000000.pkg"),
    ] {
        let plan = import_other(
            &catalog, "/roms/Test System", &system(), "/in/x", extension, size, &digest,
            HashAlgorithm::Crc, &nobody,
        );
        assert!(matches!(plan, Import::Place { ref destination, .. } if destination == expected),
            "{:?}", plan);
    }
}

#[test]
fn entry_is_rehashed_unless_its_listed_crc_will_do() {
    let with = ArchiveInfo { path: "a".to_string(), size: 1, crc: "0a0b0c0d".to_string() };
    let without = ArchiveInfo { path: "a".to_string(), size: 1, crc: String::new() };
    let header = Some(Header { size: 16 });
    assert!(!needs_rehash(&with, &None, HashAlgorithm::Crc));
    assert!(needs_rehash(&without, &None, HashAlgorithm::Crc));
    assert!(needs_rehash(&with, &header, HashAlgorithm::Crc));
    assert!(needs_rehash(&with, &None, HashAlgorithm::Md5));
    assert!(needs_rehash(&with, &None, HashAlgorithm::Sha1));
    assert_eq!(
        listed_entry(&with),
        ContainerEntry { name: "a".to_string(), size: 1, hash: "0a0b0c0d".to_string() }
    );
}

#[test]
fn archive_of_one_whole_game_is_repacked() {
    let mut catalog = catalog();
    let system = system();
    let entries = vec![
        entry("track1.bin", b"first track"),
        entry("Test Game (Asia) (Track 02).bin", b"second track"),
        entry("sheet.cue", b"cue sheet"),
    ];
    let plan = import_archive(
        &catalog, "/roms/Test System", &system, ArchiveType::Sevenzip, &entries,
        HashAlgorithm::Crc, &nobody,
    );
    let (renames, destination, roms) = match plan {
        ArchiveImport::Repack { renames, destination, roms } => (renames, destination, roms),
        other => panic!("{:?}", other),
    };
    assert_eq!(
        renames,
        vec![
            Rename {
                from: "track1.bin".to_string(),
                to: "Test Game (Asia) (Track 01).bin".to_string()
            },
            Rename { from: "sheet.cue".to_string(), to: "Test Game (Asia).cue".to_string() },
        ]
    );
    assert_eq!(destination, "/roms/Test System/Test Game (Asia).7z");
    assert_eq!(roms.iter().map(|r| r.id).collect::<Vec<_>>(), vec![2, 3, 4]);
    let id = create_or_update_romfile(&mut catalog, &destination, 190, &roms).unwrap();
    assert_eq!(catalog.romfiles().len(), 1);
    assert_eq!(catalog.roms()[0].romfile_id, None);
    for rom in &catalog.roms()[1..] {
        assert_eq!(rom.romfile_id, Some(id));
    }
}

#[test]
fn archive_of_a_part_of_a_game_is_taken_apart() {
    let mut catalog = catalog();
    let system = system();
    let entries = vec![
        entry("track1.bin", b"first track"),
        entry("Test Game (Asia) (Track 02).bin", b"second track"),
    ];
    let plan = import_archive(
        &catalog, "/roms/Test System", &system, ArchiveType::Zip, &entries, HashAlgorithm::Crc,
        &nobody,
    );
    let placements = match plan {
        ArchiveImport::Extract { placements } => placements,
        other => panic!("{:?}", other),
    };
    assert_eq!(placements.len(), 2);
    assert_eq!(placements[0].entry, "track1.bin");
    assert_eq!(placements[0].destination, "/roms/Test System/Test Game (Asia) (Track 01).bin");
    assert_eq!(placements[0].rom.id, 2);
    assert_eq!(placements[1].entry, "Test Game (Asia) (Track 02).bin");
    assert_eq!(placements[1].destination, "/roms/Test System/Test Game (Asia) (Track 02).bin");
    for placement in placements {
        let EntryPlacement { destination, rom, .. } = placement;
        let size = rom.size as u64;
        create_or_update_romfile(&mut catalog, &destination, size, &vec![rom]).unwrap();
    }
    assert_eq!(catalog.romfiles().len(), 2);
    assert_ne!(catalog.roms()[1].romfile_id, catalog.roms()[2].romfile_id);
}

#[test]
fn archive_of_two_games_is_taken_apart() {
    let catalog = catalog();
    let entries = vec![
        entry("a.rom", b"usa and europe"),
        entry("b.bin", b"first track"),
        entry("c.bin", b"second track"),
        entry("d.cue", b"cue sheet"),
    ];
    let plan = import_archive(
        &catalog, "/roms/Test System", &system(), ArchiveType::Zip, &entries, HashAlgorithm::Crc,
        &nobody,
    );
    assert!(matches!(plan, ArchiveImport::Extract { placements } if placements.len() == 4));
}

#[test]
fn archive_of_a_whole_game_and_a_stranger_is_taken_apart() {
    let catalog = catalog();
    let entries = vec![
        entry("b.bin", b"first track"),
        entry("c.bin", b"second track"),
        entry("d.cue", b"cue sheet"),
        entry("readme.txt", b"not in any catalog"),
    ];
    let plan = import_archive(
        &catalog, "/roms/Test System", &system(), ArchiveType::Zip, &entries, HashAlgorithm::Crc,
        &nobody,
    );
    match plan {
        ArchiveImport::Extract { placements } => {
            assert_eq!(placements.iter().map(|p| p.rom.id).collect::<Vec<_>>(), vec![2, 3, 4]);
        }
        other => panic!("{:?}", other),
    }
}

#[test]
fn archive_of_one_unknown_entry_goes_to_quarantine() {
    let catalog = catalog();
    let entries = vec![entry("x.rom", b"not in any catalog")];
    let plan = import_archive(
        &catalog, "/roms/Test System", &system(), ArchiveType::Sevenzip, &entries,
        HashAlgorithm::Crc, &nobody,
    );
    assert_eq!(plan, ArchiveImport::Trash);
}

#[test]
fn archive_of_unknown_entries_is_left_alone() {
    let catalog = catalog();
    let entries = vec![entry("x.rom", b"unknown one"), entry("y.rom", b"unknown two")];
    let plan = import_archive(
        &catalog, "/roms/Test System", &system(), ArchiveType::Sevenzip, &entries,
        HashAlgorithm::Crc, &nobody,
    );
    assert_eq!(plan, ArchiveImport::Extract { placements: vec![] });
    let empty = import_archive(
        &catalog, "/roms/Test System", &system(), ArchiveType::Sevenzip, &vec![],
        HashAlgorithm::Crc, &nobody,
    );
    assert_eq!(empty, ArchiveImport::Extract { placements: vec![] });
}

#[test]
fn archive_of_a_single_rom_game_keeps_the_rom_name() {
    let catalog = catalog();
    let entries = vec![entry("Test Game (USA, Europe).rom", b"usa and europe")];
    for (archive, expected) in [
        (ArchiveType::Sevenzip, "/roms/Test System/Test Game (USA, Europe).7z"),
        (ArchiveType::Zip, "/roms/Test System/Test Game (USA, Europe).zip"),
    ] {
        let plan = import_archive(
            &catalog, "/roms/Test System", &system(), archive, &entries, HashAlgorithm::Crc,
            &nobody,
        );
        match plan {
            ArchiveImport::Repack { renames, destination, roms } => {
                assert_eq!(renames, vec![]);
                assert_eq!(destination, expected);
                assert_eq!(roms.len(), 1);
            }
            other => panic!("{:?}", other),
        }
    }
}

#[test]
fn archive_of_an_arcade_game_goes_by_the_game_name() {
    let mut catalog = Catalog::new();
    assert!(catalog.add_game(game(1, "pacman")));
    assert!(catalog.add_rom(rom(1, 1, "pacman.6e", b"program")));
    let arcade = System { id: 1, name: "Arcade".to_string(), arcade: true };
    let entries = vec![entry("pacman.6e", b"program")];
    let plan = import_archive(
        &catalog, "/roms/Arcade", &arcade, ArchiveType::Zip, &entries, HashAlgorithm::Crc,
        &nobody,
    );
    assert!(matches!(plan, ArchiveImport::Repack { destination, .. }
        if destination == "/roms/Arcade/pacman.zip"));
}

#[test]
fn archive_with_roms_beyond_the_game_set_is_taken_apart() {
    // the third rom repeats a rom of the parent game: it is not of the game's own set
    let mut catalog = Catalog::new();
    assert!(catalog.add_game(game(1, "Clone")));
    assert!(catalog.add_rom(rom(1, 1, "own.bin", b"own")));
    let mut shared = rom(2, 1, "shared.bin", b"shared");
    shared.parent_id = Some(77);
    assert!(catalog.add_rom(shared));
    let whole = vec![entry("own.bin", b"own")];
    let more = vec![entry("own.bin", b"own"), entry("shared.bin", b"shared")];
    let plan = import_archive(
        &catalog, "/roms/Test System", &system(), ArchiveType::Zip, &whole, HashAlgorithm::Crc,
        &nobody,
    );
    assert!(matches!(plan, ArchiveImport::Repack { .. }));
    let plan = import_archive(
        &catalog, "/roms/Test System", &system(), ArchiveType::Zip, &more, HashAlgorithm::Crc,
        &nobody,
    );
    assert!(matches!(plan, ArchiveImport::Extract { placements } if placements.len() == 2));
}

#[test]
fn update_file_of_an_archive_goes_by_its_game_name() {
    let mut catalog = Catalog::new();
    assert!(catalog.add_game(game(1, "Some Update (v1.01)")));
    assert!(catalog.add_game(game(2, "Some Game")));
    assert!(catalog.add_rom(rom(1, 1, "UP0001-BLUS00000_00-0000000000000000.PKG", b"package")));
    assert!(catalog.add_rom(rom(2, 2, "Some Game.iso", b"image")));
    let entries = vec![entry("a.pkg", b"package"), entry("b.iso", b"image")];
    let plan = import_archive(
        &catalog, "/roms/Test System", &system(), ArchiveType::Zip, &entries, HashAlgorithm::Crc,
        &nobody,
    );
    match plan {
        ArchiveImport::Extract { placements } => {
            assert_eq!(placements[0].destination, "/roms/Test System/Some Update (v1.01).pkg");
            assert_eq!(placements[1].destination, "/roms/Test System/Some Game.iso");
        }
        other => panic!("{:?}", other),
    }
}

#[test]
fn plan_follows_the_outcomes_it_is_given() {
    let catalog = catalog();
    let entries = vec![entry("a.bin", b"first track"), entry("b.bin", b"anything")];
    let outcomes = vec![Some(catalog.roms()[1].clone()), None];
    let plan = plan_archive(
        &catalog, "/roms/Test System", &system(), ArchiveType::Zip, &entries, &outcomes,
    );
    match plan {
        ArchiveImport::Extract { placements } => {
            assert_eq!(placements.len(), 1);
            assert_eq!(placements[0].entry, "a.bin");
        }
        other => panic!("{:?}", other),
    }
}

#[test]
fn image_with_cue_sheet_gives_two_files() {
    let mut catalog = catalog();
    let system = system();
    let chd = "/in/Test Game (Asia).chd";
    let cue = cue_path(chd);
    assert_eq!(cue, "/in/Test Game (Asia).cue");
    let (size, digest) = hash(b"cue sheet", &None, HashAlgorithm::Crc).unwrap();
    let plan = import_cue(&catalog, &system, &cue, size, &digest, HashAlgorithm::Crc, &nobody);
    let (cue_rom, roms) = match plan {
        CueImport::Tracks { cue_rom, roms } => (cue_rom, roms),
        other => panic!("{:?}", other),
    };
    assert_eq!(cue_rom.id, 4);
    assert_eq!(roms.iter().map(|r| r.id).collect::<Vec<_>>(), vec![2, 3]);
    assert_eq!(
        track_names_sizes(&roms),
        vec![
            Track { name: "Test Game (Asia) (Track 01).bin".to_string(), size: 11 },
            Track { name: "Test Game (Asia) (Track 02).bin".to_string(), size: 12 },
        ]
    );
    let tracks = vec![track(b"first track"), track(b"second track")];
    let plan = import_chd("/roms/Test System", cue_rom, roms, &tracks, HashAlgorithm::Crc).unwrap();
    let (cue_destination, chd_destination, cue_rom, roms) = match plan {
        ChdImport::Place { cue_destination, chd_destination, cue_rom, roms } => {
            (cue_destination, chd_destination, cue_rom, roms)
        }
        other => panic!("{:?}", other),
    };
    assert_eq!(cue_destination, "/roms/Test System/Test Game (Asia).cue");
    assert_eq!(chd_destination, "/roms/Test System/Test Game (Asia).chd");
    create_or_update_romfile(&mut catalog, &cue_destination, 9, &vec![cue_rom]).unwrap();
    create_or_update_romfile(&mut catalog, &chd_destination, 1000, &roms).unwrap();
    assert_eq!(catalog.romfiles().len(), 2);
    assert!(catalog.romfiles().iter().all(|romfile| !romfile.path.contains("/Trash/")));
    assert_eq!(catalog.roms()[1].romfile_id, catalog.roms()[2].romfile_id);
    assert_ne!(catalog.roms()[1].romfile_id, catalog.roms()[3].romfile_id);
}

#[test]
fn one_bad_track_sends_the_image_to_quarantine() {
    let catalog = catalog();
    let roms = vec![catalog.roms()[1].clone(), catalog.roms()[2].clone()];
    let cue_rom = catalog.roms()[3].clone();
    let mut bad = track(b"second track");
    bad.hash = "00000000".to_string();
    let tracks = vec![track(b"first track"), bad];
    let plan = import_chd("/roms/Test System", cue_rom, roms, &tracks, HashAlgorithm::Crc);
    assert_eq!(plan, Ok(ChdImport::Trash));
}

#[test]
fn one_track_of_another_size_sends_the_image_to_quarantine() {
    let catalog = catalog();
    let roms = vec![catalog.roms()[1].clone(), catalog.roms()[2].clone()];
    let cue_rom = catalog.roms()[3].clone();
    let mut bad = track(b"first track");
    bad.size += 1;
    let tracks = vec![bad, track(b"second track")];
    let plan = import_chd("/roms/Test System", cue_rom, roms, &tracks, HashAlgorithm::Crc);
    assert_eq!(plan, Ok(ChdImport::Trash));
}

#[test]
fn tracks_match_by_count_size_and_digest() {
    let catalog = catalog();
    let roms = vec![catalog.roms()[1].clone(), catalog.roms()[2].clone()];
    let good = vec![track(b"first track"), track(b"second track")];
    assert!(tracks_match(&roms, &good, HashAlgorithm::Crc));
    assert!(!tracks_match(&roms, &good, HashAlgorithm::Sha1));
    let swapped = vec![track(b"second track"), track(b"first track")];
    assert!(!tracks_match(&roms, &swapped, HashAlgorithm::Crc));
    assert!(!tracks_match(&roms, &vec![track(b"first track")], HashAlgorithm::Crc));
    assert!(tracks_match(&vec![], &vec![], HashAlgorithm::Crc));
}

#[test]
fn tracks_must_be_as_many_as_roms() {
    let catalog = catalog();
    let roms = vec![catalog.roms()[1].clone(), catalog.roms()[2].clone()];
    let cue_rom = catalog.roms()[3].clone();
    let tracks = vec![track(b"first track")];
    let plan = import_chd("/roms/Test System", cue_rom, roms, &tracks, HashAlgorithm::Crc);
    assert_eq!(plan, Err(TrackCountMismatch { expected: 2, found: 1 }));
}

#[test]
fn unknown_cue_sheet_goes_to_quarantine() {
    let catalog = catalog();
    let (size, digest) = hash(b"another sheet", &None, HashAlgorithm::Crc).unwrap();
    let plan = import_cue(
        &catalog, &system(), "/in/x.cue", size, &digest, HashAlgorithm::Crc, &nobody,
    );
    assert_eq!(plan, CueImport::Trash);
}

#[test]
fn images_keep_their_own_extension() {
    let catalog = catalog();
    let system = system();
    let (size, digest) = hash(b"usa and europe", &None, HashAlgorithm::Crc).unwrap();
    let chd = import_chd_single_track(
        &catalog, "/roms/Test System", &system, "/in/x.chd", size, &digest, HashAlgorithm::Crc,
        &nobody,
    );
    assert!(matches!(chd, Import::Place { destination, .. }
        if destination == "/roms/Test System/Test Game (USA, Europe).chd"));
    let cso = import_cso(
        &catalog, "/roms/Test System", &system, "/in/x.cso", size, &digest, HashAlgorithm::Crc,
        &nobody,
    );
    assert!(matches!(cso, Import::Place { destination, .. }
        if destination == "/roms/Test System/Test Game (USA, Europe).cso"));
    let rvz = import_rvz(
        &catalog, "/roms/Test System", &system, "/in/x.rvz", size, &digest, HashAlgorithm::Crc,
        &nobody,
    );
    assert!(matches!(rvz, Import::Place { destination, .. }
        if destination == "/roms/Test System/Test Game (USA, Europe).rvz"));
    let unknown = import_cso(
        &catalog, "/roms/Test System", &system, "/in/x.cso", size + 1, &digest,
        HashAlgorithm::Crc, &nobody,
    );
    assert_eq!(unknown, Import::Trash);
}

#[test]
fn headered_file_is_known_by_what_follows_its_header() {
    let catalog = catalog();
    let mut file = vec![0x4e, 0x45, 0x53, 0x1a];
    file.extend_from_slice(&[0u8; 12]);
    file.extend_from_slice(b"usa and europe");
    let header = Some(Header { size: 16 });
    let (size, digest) = hash(&file, &header, HashAlgorithm::Crc).unwrap();
    let plan = import_other(
        &catalog, "/roms/Test System", &system(), "/in/x.rom", "rom", size, &digest,
        HashAlgorithm::Crc, &nobody,
    );
    assert!(matches!(plan, Import::Place { rom, .. } if rom.id == 1));
    let (size, digest) = hash(&file, &None, HashAlgorithm::Crc).unwrap();
    let plan = import_other(
        &catalog, "/roms/Test System", &system(), "/in/x.rom", "rom", size, &digest,
        HashAlgorithm::Crc, &nobody,
    );
    assert_eq!(plan, Import::Trash);
}

fn span(name: &str, offset: u64, size: u64) -> TrackSpan {
    TrackSpan { name: name.to_string(), offset, size }
}

fn three_tracks() -> Vec<Track> {
    vec![
        Track { name: "one.bin".to_string(), size: 10 },
        Track { name: "two.bin".to_string(), size: 0 },
        Track { name: "three.bin".to_string(), size: 25 },
    ]
}

#[test]
fn tracks_cut_an_image_where_the_tracks_before_end() {
    assert_eq!(
        track_spans(&three_tracks(), 35),
        vec![span("one.bin", 0, 10), span("two.bin", 10, 0), span("three.bin", 10, 25)]
    );
    assert_eq!(track_spans(&vec![], 0), vec![]);
    assert_eq!(track_spans(&vec![], 7), vec![]);
}

#[test]
fn last_track_takes_what_is_left_of_a_longer_image() {
    assert_eq!(
        track_spans(&three_tracks(), 40),
        vec![span("one.bin", 0, 10), span("two.bin", 10, 0), span("three.bin", 10, 30)]
    );
}

#[test]
fn tracks_end_where_a_shorter_image_ends() {
    assert_eq!(
        track_spans(&three_tracks(), 34),
        vec![span("one.bin", 0, 10), span("two.bin", 10, 0), span("three.bin", 10, 24)]
    );
    assert_eq!(
        track_spans(&three_tracks(), 4),
        vec![span("one.bin", 0, 4), span("two.bin", 4, 0), span("three.bin", 4, 0)]
    );
    let huge = vec![
        Track { name: "one.bin".to_string(), size: u64::MAX },
        Track { name: "two.bin".to_string(), size: 2 },
    ];
    assert_eq!(track_spans(&huge, 1), vec![span("one.bin", 0, 1), span("two.bin", 1, 0)]);
    assert_eq!(
        track_spans(&huge, u64::MAX),
        vec![span("one.bin", 0, u64::MAX), span("two.bin", u64::MAX, 0)]
    );
}

#[test]
fn image_follows_its_resolution() {
    let catalog = catalog();
    let a = catalog.roms()[0].clone();
    let b = catalog.roms()[1].clone();
    let romfile = Romfile { id: 9, path: "/roms/Test System/a.cso".to_string(), size: 14 };
    assert_eq!(
        place_image("/roms/Test System", "cso", Resolution::Matched(a.clone()), None),
        Import::Place {
            destination: "/roms/Test System/Test Game (USA, Europe).cso".to_string(),
            rom: a.clone()
        }
    );
    assert_eq!(place_image("/roms/Test System", "cso", Resolution::NoMatch, Some(0)), Import::Trash);
    assert_eq!(
        place_image("/roms/Test System", "cso", Resolution::AlreadyFiled(romfile), Some(0)),
        Import::Skip
    );
    let both = Resolution::Ambiguous(vec![a.clone(), b.clone()]);
    assert_eq!(
        place_image("/roms/Test System", "rvz", both, Some(1)),
        Import::Place {
            destination: "/roms/Test System/Test Game (Asia) (Track 01).rvz".to_string(),
            rom: b.clone()
        }
    );
    let both = Resolution::Ambiguous(vec![a, b]);
    assert_eq!(place_image("/roms/Test System", "rvz", both, None), Import::Trash);
}

#[test]
fn cue_sheet_follows_its_resolution() {
    let catalog = catalog();
    let cue = catalog.roms()[3].clone();
    let romfile = Romfile { id: 9, path: "/roms/Test System/a.cue".to_string(), size: 9 };
    assert_eq!(place_cue(&catalog, Resolution::NoMatch, None), CueImport::Trash);
    assert_eq!(place_cue(&catalog, Resolution::AlreadyFiled(romfile), None), CueImport::Skip);
    match place_cue(&catalog, Resolution::Matched(cue), None) {
        CueImport::Tracks { cue_rom, roms } => {
            assert_eq!(cue_rom.id, 4);
            assert_eq!(roms.iter().map(|r| r.id).collect::<Vec<_>>(), vec![2, 3]);
        }
        other => panic!("{:?}", other),
    }
}
