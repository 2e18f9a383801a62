use oxyromon::catalog::Catalog;
use oxyromon::check_roms::{
    apply_moves, check_archive, check_chd, check_cso, check_other, check_romfile, check_system,
    romfiles_to_check, CheckedRomfile, Observed, RomfileCheck, RomfileMove,
};
use oxyromon::checksum::hash;
use oxyromon::import_roms::{
    create_or_update_romfile, import_archive, import_chd, import_cso, import_cue, import_other,
    track_names_sizes, track_spans, ArchiveImport, ChdImport, CueImport, Import, TrackContent,
};
use oxyromon::layout::{system_directory, trash_directory, Container};
use oxyromon::model::{Game, HashAlgorithm, Rom, Romfile, System};
use oxyromon::resolve::ContainerEntry;
use oxyromon::sevenzip::ArchiveType;

const ROM: &[u8] = b"content of the test game";
const TRACK_1: &[u8] = b"first track of the test game";
const TRACK_2: &[u8] = b"second track of the test game";
const CUE: &[u8] = b"FILE \"Test Game (USA, Europe) (Track 01).bin\" BINARY";

fn system() -> System {
    System { id: 1, name: "Test System".to_string(), arcade: false }
}

fn crc(content: &[u8]) -> String {
    hash(content, &None, HashAlgorithm::Crc).unwrap().1
}

fn rom(id: i64, game_id: i64, name: &str, content: &[u8]) -> Rom {
    Rom {
        id,
        name: name.to_string(),
        size: content.len() as i64,
        crc: Some(crc(content)),
        md5: None,
        sha1: None,
        game_id,
        romfile_id: None,
        parent_id: None,
    }
}

fn entry(name: &str, content: &[u8]) -> ContainerEntry {
    ContainerEntry { name: name.to_string(), size: content.len() as u64, hash: crc(content) }
}

fn nobody(_: &Vec<Rom>) -> Option<usize> {
    None
}

fn track(content: &[u8]) -> TrackContent {
    TrackContent { size: content.len() as u64, hash: crc(content) }
}

fn catalog_of_one_rom() -> Catalog {
    let mut catalog = Catalog::new();
    assert!(catalog.add_game(Game {
        id: 1,
        name: "Test Game (USA, Europe)".to_string(),
        jbfolder: false,
        system_id: 1,
        parent_id: None,
    }));
    assert!(catalog.add_rom(rom(1, 1, "Test Game (USA, Europe).rom", ROM)));
    catalog
}

fn catalog_of_one_disc() -> Catalog {
    let mut catalog = Catalog::new();
    assert!(catalog.add_game(Game {
        id: 1,
        name: "Test Game (USA, Europe)".to_string(),
        jbfolder: false,
        system_id: 1,
        parent_id: None,
    }));
    assert!(catalog.add_rom(rom(1, 1, "Test Game (USA, Europe) (Track 01).bin", TRACK_1)));
    assert!(catalog.add_rom(rom(2, 1, "Test Game (USA, Europe) (Track 02).bin", TRACK_2)));
    assert!(catalog.add_rom(rom(3, 1, "Test Game (USA, Europe).cue", CUE)));
    catalog
}

/// Imports the one rom as an archive of the given type.
fn import_as_archive(catalog: &mut Catalog, archive: ArchiveType) {
    let directory = system_directory("/roms", &system());
    let entries = vec![entry("Test Game (USA, Europe).rom", ROM)];
    let plan = import_archive(
        catalog, &directory, &system(), archive, &entries, HashAlgorithm::Crc, &nobody,
    );
    match plan {
        ArchiveImport::Repack { destination, roms, .. } => {
            create_or_update_romfile(catalog, &destination, 190, &roms).unwrap();
        }
        other => panic!("{:?}", other),
    }
}

fn import_as_file(catalog: &mut Catalog) {
    let directory = system_directory("/roms", &system());
    let plan = import_other(
        catalog, &directory, &system(), "/in/Test Game (USA, Europe).rom", "rom",
        ROM.len() as u64, &crc(ROM), HashAlgorithm::Crc, &nobody,
    );
    match plan {
        Import::Place { destination, rom } => {
            create_or_update_romfile(catalog, &destination, ROM.len() as u64, &vec![rom]).unwrap();
        }
        other => panic!("{:?}", other),
    }
}

/// Checks the system against what was found for each of its romfiles, and
/// moves what is not valid to quarantine without asking.
fn check(catalog: &mut Catalog, observe: &dyn Fn(&RomfileCheck) -> Observed) -> Vec<bool> {
    let trash = trash_directory("/roms", &system());
    let checked: Vec<CheckedRomfile> = romfiles_to_check(catalog, &system())
        .into_iter()
        .map(|check| {
            let observed = observe(&check);
            CheckedRomfile { check, observed }
        })
        .collect();
    let moves = check_system(&checked, &trash, HashAlgorithm::Crc);
    apply_moves(catalog, &moves, true)
}

#[test]
fn test_check_sevenzip() {
    let mut catalog = catalog_of_one_rom();
    import_as_archive(&mut catalog, ArchiveType::Sevenzip);

    let recorded = check(&mut catalog, &|check| {
        assert_eq!(check.container, Container::Archive(ArchiveType::Sevenzip));
        Observed::Entries(vec![entry("Test Game (USA, Europe).rom", ROM)])
    });

    assert_eq!(recorded, Vec::<bool>::new());
    let romfiles = catalog.romfiles();
    assert_eq!(romfiles.len(), 1);
    let romfile = &romfiles[0];
    assert!(!romfile.path.contains("/Trash/"));
    assert_eq!(romfile.path, "/roms/Test System/Test Game (USA, Europe).7z");
}

#[test]
fn test_check_zip() {
    let mut catalog = catalog_of_one_rom();
    import_as_archive(&mut catalog, ArchiveType::Zip);

    let recorded = check(&mut catalog, &|check| {
        assert_eq!(check.container, Container::Archive(ArchiveType::Zip));
        Observed::Entries(vec![entry("Test Game (USA, Europe).rom", ROM)])
    });

    assert_eq!(recorded, Vec::<bool>::new());
    let romfiles = catalog.romfiles();
    assert_eq!(romfiles.len(), 1);
    let romfile = &romfiles[0];
    assert!(!romfile.path.contains("/Trash/"));
    assert_eq!(romfile.path, "/roms/Test System/Test Game (USA, Europe).zip");
}

#[test]
fn test_check_chd() {
    let mut catalog = catalog_of_one_disc();
    let directory = system_directory("/roms", &system());
    let plan = import_cue(
        &catalog, &system(), "/in/Test Game (USA, Europe).cue", CUE.len() as u64, &crc(CUE),
        HashAlgorithm::Crc, &nobody,
    );
    let (cue_rom, roms) = match plan {
        CueImport::Tracks { cue_rom, roms } => (cue_rom, roms),
        other => panic!("{:?}", other),
    };
    let tracks = vec![track(TRACK_1), track(TRACK_2)];
    match import_chd(&directory, cue_rom, roms, &tracks, HashAlgorithm::Crc).unwrap() {
        ChdImport::Place { cue_destination, chd_destination, cue_rom, roms } => {
            create_or_update_romfile(&mut catalog, &cue_destination, CUE.len() as u64, &vec![cue_rom])
                .unwrap();
            create_or_update_romfile(&mut catalog, &chd_destination, 1234, &roms).unwrap();
        }
        other => panic!("{:?}", other),
    }

    let recorded = check(&mut catalog, &|check| match check.container {
        Container::Chd => {
            assert_eq!(check.roms.len(), 2);
            Observed::Tracks(vec![track(TRACK_1), track(TRACK_2)])
        }
        _ => Observed::Content { size: CUE.len() as u64, hash: crc(CUE) },
    });

    assert_eq!(recorded, Vec::<bool>::new());
    let romfiles = catalog.romfiles();
    assert_eq!(romfiles.len(), 2);
    let cue_romfile = &romfiles[0];
    assert!(!cue_romfile.path.contains("/Trash/"));
    assert_eq!(cue_romfile.path, "/roms/Test System/Test Game (USA, Europe).cue");
    let chd_romfile = &romfiles[1];
    assert!(!chd_romfile.path.contains("/Trash/"));
    assert_eq!(chd_romfile.path, "/roms/Test System/Test Game (USA, Europe).chd");
}

#[test]
fn test_check_cso() {
    let mut catalog = catalog_of_one_rom();
    let directory = system_directory("/roms", &system());
    let plan = import_cso(
        &catalog, &directory, &system(), "/in/Test Game (USA, Europe).cso", ROM.len() as u64,
        &crc(ROM), HashAlgorithm::Crc, &nobody,
    );
    match plan {
        Import::Place { destination, rom } => {
            create_or_update_romfile(&mut catalog, &destination, 99, &vec![rom]).unwrap();
        }
        other => panic!("{:?}", other),
    }

    let recorded = check(&mut catalog, &|check| {
        assert_eq!(check.container, Container::Cso);
        Observed::Content { size: ROM.len() as u64, hash: crc(ROM) }
    });

    assert_eq!(recorded, Vec::<bool>::new());
    let romfiles = catalog.romfiles();
    assert_eq!(romfiles.len(), 1);
    let romfile = &romfiles[0];
    assert!(!romfile.path.contains("/Trash/"));
    assert_eq!(romfile.path, "/roms/Test System/Test Game (USA, Europe).cso");
}

#[test]
fn test_check_other() {
    let mut catalog = catalog_of_one_rom();
    import_as_file(&mut catalog);

    let recorded = check(&mut catalog, &|check| {
        assert_eq!(check.container, Container::Other);
        Observed::Content { size: ROM.len() as u64, hash: crc(ROM) }
    });

    assert_eq!(recorded, Vec::<bool>::new());
    let romfiles = catalog.romfiles();
    assert_eq!(romfiles.len(), 1);
    let romfile = &romfiles[0];
    assert!(!romfile.path.contains("/Trash/"));
    assert_eq!(romfile.path, "/roms/Test System/Test Game (USA, Europe).rom");
}

#[test]
fn test_check_other_size_mismatch() {
    let mut catalog = catalog_of_one_rom();
    import_as_file(&mut catalog);

    // the file was cut short after it was filed
    let mut longer = ROM.to_vec();
    longer.resize(1024, 0);
    let cut = &longer[..512];
    let recorded = check(&mut catalog, &|_| Observed::Content {
        size: cut.len() as u64,
        hash: crc(cut),
    });

    assert_eq!(recorded, vec![true]);
    let romfiles = catalog.romfiles();
    assert_eq!(romfiles.len(), 1);
    let romfile = &romfiles[0];
    assert!(romfile.path.contains("/Trash/"));
    assert_eq!(romfile.path, "/roms/Test System/Trash/Test Game (USA, Europe).rom");
}

#[test]
fn test_check_other_crc_mismatch() {
    let mut catalog = catalog_of_one_rom();
    import_as_file(&mut catalog);

    let recorded = check(&mut catalog, &|_| Observed::Content {
        size: ROM.len() as u64,
        hash: "00000000".to_string(),
    });

    assert_eq!(recorded, vec![true]);
    let romfiles = catalog.romfiles();
    assert_eq!(romfiles.len(), 1);
    let romfile = &romfiles[0];
    assert!(romfile.path.contains("/Trash/"));
}

#[test]
fn moves_wait_for_confirmation() {
    let mut catalog = catalog_of_one_rom();
    import_as_file(&mut catalog);
    let checked: Vec<CheckedRomfile> = romfiles_to_check(&catalog, &system())
        .into_iter()
        .map(|check| CheckedRomfile {
            check,
            observed: Observed::Content { size: 1, hash: "00000000".to_string() },
        })
        .collect();
    let moves = check_system(&checked, "/roms/Test System/Trash", HashAlgorithm::Crc);
    assert_eq!(
        moves,
        vec![RomfileMove {
            romfile: Romfile {
                id: 1,
                path: "/roms/Test System/Test Game (USA, Europe).rom".to_string(),
                size: ROM.len() as u64,
            },
            destination: "/roms/Test System/Trash/Test Game (USA, Europe).rom".to_string(),
        }]
    );
    assert_eq!(apply_moves(&mut catalog, &moves, false), vec![false]);
    assert_eq!(catalog.romfiles()[0].path, "/roms/Test System/Test Game (USA, Europe).rom");
    assert_eq!(apply_moves(&mut catalog, &moves, true), vec![true]);
    assert_eq!(catalog.romfiles()[0].path, "/roms/Test System/Trash/Test Game (USA, Europe).rom");
    // the rom stays bound to its file, and the size is kept
    assert_eq!(catalog.roms()[0].romfile_id, Some(1));
    assert_eq!(catalog.romfiles()[0].size, ROM.len() as u64);
}

#[test]
fn move_onto_a_recorded_path_is_not_recorded() {
    let mut catalog = catalog_of_one_rom();
    import_as_file(&mut catalog);
    assert!(catalog.add_romfile(Romfile {
        id: 2,
        path: "/roms/Test System/Trash/Test Game (USA, Europe).rom".to_string(),
        size: 3,
    }));
    let moves = vec![
        RomfileMove {
            romfile: catalog.romfiles()[0].clone(),
            destination: "/roms/Test System/Trash/Test Game (USA, Europe).rom".to_string(),
        },
        RomfileMove {
            romfile: Romfile { id: 7, path: "/gone".to_string(), size: 0 },
            destination: "/roms/Test System/Trash/gone".to_string(),
        },
        RomfileMove {
            romfile: catalog.romfiles()[0].clone(),
            destination: "/roms/Test System/Trash/free.rom".to_string(),
        },
    ];
    assert_eq!(apply_moves(&mut catalog, &moves, true), vec![false, false, true]);
    assert_eq!(catalog.romfiles()[0].path, "/roms/Test System/Trash/free.rom");
    assert_eq!(catalog.romfiles().len(), 2);
}

#[test]
fn archive_is_checked_entry_by_entry() {
    let roms = || {
        vec![
            rom(1, 1, "one.bin", TRACK_1),
            rom(2, 1, "two.bin", TRACK_2),
        ]
    };
    let good = vec![entry("two.bin", TRACK_2), entry("one.bin", TRACK_1)];
    assert!(check_archive(&good, roms(), HashAlgorithm::Crc));
    let fewer = vec![entry("one.bin", TRACK_1)];
    assert!(!check_archive(&fewer, roms(), HashAlgorithm::Crc));
    let more = vec![entry("one.bin", TRACK_1), entry("two.bin", TRACK_2), entry("x", ROM)];
    assert!(!check_archive(&more, roms(), HashAlgorithm::Crc));
    let renamed = vec![entry("one.bin", TRACK_1), entry("2.bin", TRACK_2)];
    assert!(!check_archive(&renamed, roms(), HashAlgorithm::Crc));
    let swapped = vec![entry("one.bin", TRACK_2), entry("two.bin", TRACK_1)];
    assert!(!check_archive(&swapped, roms(), HashAlgorithm::Crc));
    let twice = vec![entry("one.bin", TRACK_1), entry("one.bin", TRACK_1)];
    assert!(!check_archive(&twice, roms(), HashAlgorithm::Crc));
    let mut resized = good.clone();
    resized[0].size += 1;
    assert!(!check_archive(&resized, roms(), HashAlgorithm::Crc));
    assert!(check_archive(&vec![], vec![], HashAlgorithm::Crc));
    // roms without a digest of the algorithm are never valid
    assert!(!check_archive(&good, roms(), HashAlgorithm::Md5));
}

#[test]
fn tracks_are_checked_in_order_by_size_and_digest() {
    let roms = vec![rom(1, 1, "one.bin", TRACK_1), rom(2, 1, "two.bin", TRACK_2)];
    assert!(check_chd(&vec![track(TRACK_1), track(TRACK_2)], &roms, HashAlgorithm::Crc));
    assert!(!check_chd(&vec![track(TRACK_2), track(TRACK_1)], &roms, HashAlgorithm::Crc));
    assert!(!check_chd(&vec![track(TRACK_1)], &roms, HashAlgorithm::Crc));
    assert!(!check_chd(
        &vec![track(TRACK_1), track(TRACK_2), track(ROM)],
        &roms,
        HashAlgorithm::Crc
    ));
    let mut rehashed = track(TRACK_2);
    rehashed.hash = "00000000".to_string();
    assert!(!check_chd(&vec![track(TRACK_1), rehashed], &roms, HashAlgorithm::Crc));
    let mut resized = track(TRACK_2);
    resized.size -= 1;
    assert!(!check_chd(&vec![track(TRACK_1), resized], &roms, HashAlgorithm::Crc));
}

#[test]
fn image_of_another_length_is_not_valid() {
    // the image is cut by the sizes of its roms; what was decoded is five bytes short
    let roms = vec![rom(1, 1, "one.bin", TRACK_1), rom(2, 1, "two.bin", TRACK_2)];
    let mut image = TRACK_1.to_vec();
    image.extend_from_slice(TRACK_2);
    let cut = |image: &[u8]| -> Vec<TrackContent> {
        track_spans(&track_names_sizes(&roms), image.len() as u64)
            .iter()
            .map(|span| {
                track(&image[span.offset as usize..(span.offset + span.size) as usize])
            })
            .collect()
    };
    assert!(check_chd(&cut(&image), &roms, HashAlgorithm::Crc));
    assert!(!check_chd(&cut(&image[..image.len() - 5]), &roms, HashAlgorithm::Crc));
    image.push(0);
    assert!(!check_chd(&cut(&image), &roms, HashAlgorithm::Crc));
}

#[test]
fn file_is_held_to_every_rom_it_backs() {
    let same = vec![rom(1, 1, "one.rom", ROM), rom(2, 1, "copy.rom", ROM)];
    let mixed = vec![rom(1, 1, "one.rom", ROM), rom(2, 1, "two.rom", TRACK_1)];
    let content = Observed::Content { size: ROM.len() as u64, hash: crc(ROM) };
    let check = |container, roms| RomfileCheck {
        romfile: Romfile { id: 1, path: "/roms/a".to_string(), size: 1 },
        container,
        roms,
    };
    for container in [Container::Other, Container::Cso, Container::Rvz] {
        assert!(check_romfile(&check(container, same.clone()), &content, HashAlgorithm::Crc));
        assert!(!check_romfile(&check(container, mixed.clone()), &content, HashAlgorithm::Crc));
        assert!(!check_romfile(&check(container, vec![]), &content, HashAlgorithm::Crc));
    }
    let reversed = vec![mixed[1].clone(), mixed[0].clone()];
    assert!(!check_romfile(&check(Container::Other, reversed), &content, HashAlgorithm::Crc));
}

#[test]
fn single_content_is_checked_by_size_and_digest() {
    let rom = rom(1, 1, "one.rom", ROM);
    let size = ROM.len() as u64;
    assert!(check_other(size, &crc(ROM), &rom, HashAlgorithm::Crc));
    assert!(!check_other(size - 1, &crc(ROM), &rom, HashAlgorithm::Crc));
    assert!(!check_other(size, &crc(TRACK_1), &rom, HashAlgorithm::Crc));
    assert!(check_cso(size, &crc(ROM), &rom, HashAlgorithm::Crc));
    assert!(!check_cso(size + 1, &crc(ROM), &rom, HashAlgorithm::Crc));
    let mut negative = rom.clone();
    negative.size = -1;
    assert!(!check_other(u64::MAX, &crc(ROM), &negative, HashAlgorithm::Crc));
}

#[test]
fn observation_of_another_kind_is_not_valid() {
    let check = RomfileCheck {
        romfile: Romfile { id: 1, path: "/roms/a.7z".to_string(), size: 1 },
        container: Container::Archive(ArchiveType::Sevenzip),
        roms: vec![rom(1, 1, "one.rom", ROM)],
    };
    let content = Observed::Content { size: ROM.len() as u64, hash: crc(ROM) };
    assert!(!check_romfile(&check, &content, HashAlgorithm::Crc));
    let entries = Observed::Entries(vec![entry("one.rom", ROM)]);
    assert!(check_romfile(&check, &entries, HashAlgorithm::Crc));
}

#[test]
fn only_romfiles_that_back_roms_of_the_system_are_checked() {
    let mut catalog = catalog_of_one_rom();
    assert!(catalog.add_game(Game {
        id: 2,
        name: "Elsewhere".to_string(),
        jbfolder: false,
        system_id: 2,
        parent_id: None,
    }));
    assert!(catalog.add_rom(rom(2, 2, "elsewhere.rom", TRACK_1)));
    import_as_file(&mut catalog);
    let elsewhere = catalog.roms()[1].clone();
    create_or_update_romfile(&mut catalog, "/roms/Other/elsewhere.rom", 5, &vec![elsewhere]).unwrap();
    create_or_update_romfile(&mut catalog, "/roms/Test System/Trash/junk", 5, &vec![]).unwrap();
    let checks = romfiles_to_check(&catalog, &system());
    assert_eq!(checks.len(), 1);
    assert_eq!(checks[0].romfile.id, 1);
    assert_eq!(checks[0].roms.len(), 1);
    assert_eq!(checks[0].roms[0].id, 1);
}
