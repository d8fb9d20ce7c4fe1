use bg3_refdb::collect::{
    build_pipeline_filter, collect_data_entries_native, collect_extracted_files, collect_files,
    collect_loca_entries_native, collect_mod_files, collect_mod_files_from_pak,
    localization_output_path, package_output_path, pick_data_entry, pick_loca_entry, FoundFile,
    PakItem,
};
use bg3_refdb::files::{
    by_priority, extract_mod_name, has_runtime_lsfx_sibling, module_priority,
    reference_db_file_type_for_path, sanitize_id, target_db_for_module, FileEntry, FileType,
    TargetDb,
};
use bg3_refdb::memory::available_kilobytes;
use bg3_refdb::pipeline::{
    divide_targets, is_work_file, note_collected, pak_jobs, progress_pct, report_pak, run_vanilla_pipeline,
    LocaOutcome, PakKind, PakOutcome,
};

fn found(list: &[&str]) -> Vec<FoundFile> {
    list.iter()
        .map(|p| {
            let sibling_exists = match has_runtime_lsfx_sibling(p) {
                Some(s) => list.iter().any(|q| *q == s),
                None => false,
            };
            FoundFile {
                path: format!("/work/{p}"),
                rel_path: p.to_string(),
                sibling_exists,
            }
        })
        .collect()
}

#[test]
fn reference_db_file_type_accepts_toolkit_lsefx_source() {
    let path = "Public/TestMod/Content/Assets/Effects/Effects/Actions/[PAK]_Cast/SpellCast_A.lsefx";
    assert_eq!(
        reference_db_file_type_for_path(path, false),
        Some(FileType::Effect)
    );
}

#[test]
fn reference_db_file_type_accepts_converted_runtime_lsfx_lsx() {
    let path = "Public/TestMod/Assets/Effects/Effects_Banks/SpellCast_A.lsfx.lsx";
    assert_eq!(reference_db_file_type_for_path(path, false), Some(FileType::Lsx));
}

#[test]
fn reference_db_file_type_accepts_runtime_lsfx_binary() {
    let path = "Public/TestMod/Assets/Effects/Effects_Banks/SpellCast_A.lsfx";
    assert_eq!(reference_db_file_type_for_path(path, false), Some(FileType::Lsx));
}

#[test]
fn collect_mod_files_includes_both_lsefx_and_converted_lsfx_lsx() {
    let files = collect_mod_files(
        &found(&[
            "Public/TestMod/Assets/Effects/Effects_Banks/SpellCast_A.lsfx.lsx",
            "Public/TestMod/Content/Assets/Effects/Effects/Actions/[PAK]_Cast/SpellCast_A.lsefx",
        ]),
        "TestMod",
    );
    assert_eq!(
        files.len(),
        2,
        "expected both .lsefx and .lsfx.lsx to be collected"
    );
    assert!(files
        .iter()
        .any(|f| f.file_type == FileType::Lsx && f.rel_path.ends_with("SpellCast_A.lsfx.lsx")));
    assert!(files
        .iter()
        .any(|f| f.file_type == FileType::Effect && f.rel_path.ends_with("SpellCast_A.lsefx")));
}

#[test]
fn collect_mod_files_prefers_runtime_lsfx_over_converted_sibling() {
    let files = collect_mod_files(
        &found(&[
            "Public/TestMod/Assets/Effects/Effects_Banks/SpellCast_A.lsfx",
            "Public/TestMod/Assets/Effects/Effects_Banks/SpellCast_A.lsfx.lsx",
        ]),
        "TestMod",
    );
    assert_eq!(
        files.len(),
        1,
        "expected converted lsfx.lsx sibling to be skipped"
    );
    assert!(files[0].rel_path.ends_with("SpellCast_A.lsfx"));
}

#[test]
fn collect_files_includes_top_level_mods_directories() {
    let files = collect_files(&found(&[
        "Gustav/Public/Gustav/Flags/flag.lsx",
        "Game/Mods/PhotoMode/meta.lsx",
    ]));
    let rel_paths: Vec<&str> = files.iter().map(|file| file.rel_path.as_str()).collect();

    assert!(rel_paths
        .iter()
        .any(|path| path == &"Gustav/Public/Gustav/Flags/flag.lsx"));
    assert!(rel_paths
        .iter()
        .any(|path| path == &"Game/Mods/PhotoMode/meta.lsx"));
}

#[test]
fn test_pipeline_filter_matches_honour() {
    let filter = build_pipeline_filter().unwrap();

    assert!(
        filter.matches_path("Public/Honour/Stats/Generated/Data/Passive.txt"),
        "Honour Stats should match"
    );
    assert!(
        filter.matches_path("Public/Honour/RootTemplates/SomeTemplate.lsf"),
        "Honour RootTemplates should match"
    );
    assert!(
        filter.matches_path("Public/HonourX/Stats/Generated/Data/Spell_Projectile.txt"),
        "HonourX Stats should match"
    );
    assert!(
        filter.matches_path("Public/Shared/Progressions/Progressions.lsf"),
        "Shared Progressions should match"
    );
    assert!(
        filter.matches_path("Public/Gustav/Races/Races.lsf"),
        "Gustav Races should match"
    );
    assert!(
        filter.matches_path("Public/GustavX/Feats/FeatDescriptions.lsf"),
        "GustavX FeatDescriptions should match"
    );
    assert!(
        filter.matches_path("Public/Gustav/Stats/Generated/Data/Armor.txt"),
        "Gustav Stats should match"
    );
    assert!(
        filter.matches_path("Public/SharedDev/Stats/Generated/Structure/ValueLists.txt"),
        "SharedDev Stats Structure should match"
    );
    assert!(
        filter.matches_path("Public/DiceSet_01/CustomDice/DiceSet01.lsf"),
        "DiceSet CustomDice should match"
    );
    assert!(
        filter.matches_path("Public/Engine/Content/UIBase.lsf"),
        "Engine Content should match"
    );
    assert!(
        filter.matches_path("Public/Shared/Progressions/Progressions.lsx"),
        "Already-converted .lsx should match"
    );
    assert!(
        filter.matches_path("Public/Gustav/AI/something.lsf"),
        "AI subfolder should match (previously missed)"
    );
    assert!(
        filter.matches_path("Public/GustavDev/ApprovalRatings/data.lsf"),
        "ApprovalRatings should match (previously missed)"
    );
    assert!(
        filter.matches_path("Public/Gustav/Gossips/gossips.lsf"),
        "Gossips should match (previously missed)"
    );
    assert!(
        filter.matches_path("Public/SharedDev/TadpolePowers/powers.lsf"),
        "TadpolePowers should match (previously missed)"
    );
    assert!(
        filter.matches_path("Public/SharedDev/CrowdCharacters/crowd.lsf"),
        "CrowdCharacters should match (previously missed)"
    );
    assert!(
        filter.matches_path("Public/Shared/ErrorDescriptions/errors.lsf"),
        "ErrorDescriptions should match (previously missed)"
    );
    assert!(
        filter.matches_path("Public/Game/Hints/hints.lsf"),
        "Hints should match (previously missed)"
    );
    assert!(
        filter.matches_path("Public/PhotoMode/PhotoMode/data.lsf"),
        "PhotoMode/PhotoMode should match (previously missed)"
    );
    assert!(
        filter.matches_path("Public/Gustav/Timeline/scene.lsf"),
        "Timeline extraction OK (filtered at collection)"
    );
    assert!(
        !filter.matches_path("Generated/Shared/something.lsf"),
        "Non-Public paths should not match"
    );
    assert!(
        !filter.matches_path("Public/Gustav/Progressions/texture.dds"),
        "Asset extensions (.dds) should not match"
    );
    assert!(
        !filter.matches_path("Public/Gustav/Progressions/model.GR2"),
        "Asset extensions (.GR2) should not match"
    );
    assert!(
        !filter.matches_path("Public/Shared/Progressions/image.png"),
        "Asset extensions (.png) should not match"
    );
    assert!(
        !filter.matches_path("Public/Shared/Assets/something.bnk"),
        ".bnk soundbanks should not match"
    );
    assert!(
        filter.matches_path("Public/Shared/Assets/Effects/Effects_Banks/VFX_Cast.lsfx"),
        "Effects .lsfx in Shared should match"
    );
    assert!(
        filter.matches_path("Public/SharedDev/Assets/Effects/VFX_Status.lsfx"),
        "Effects .lsfx in SharedDev should match"
    );
    assert!(
        filter.matches_path("Public/GustavX/Assets/Effects/VFX_Camp.lsfx"),
        "Effects .lsfx in GustavX should match"
    );
}

#[test]
fn test_collect_extracted_files_routes_honour() {
    let files = collect_extracted_files(&found(&[
        "Gustav/Public/Honour/Stats/Generated/Data/Passive.txt",
        "Gustav/Public/Gustav/Progressions/Progressions.lsf",
        "Localization/English/english.loca",
    ]));

    let honour_file = files.iter().find(|f| f.mod_name == "Honour");
    assert!(honour_file.is_some(), "Should find Honour file");
    let hf = honour_file.unwrap();
    assert_eq!(
        hf.target_db,
        TargetDb::Honor,
        "Honour should route to Honor DB"
    );
    assert_eq!(hf.file_type, FileType::Stats);

    let gustav_file = files.iter().find(|f| f.mod_name == "Gustav");
    assert!(gustav_file.is_some(), "Should find Gustav file");
    let gf = gustav_file.unwrap();
    assert_eq!(
        gf.target_db,
        TargetDb::Base,
        "Gustav should route to Base DB"
    );
    assert_eq!(gf.file_type, FileType::Lsx);

    let loca_file = files.iter().find(|f| f.file_type == FileType::Loca);
    assert!(loca_file.is_some(), "Should find loca file");
}

#[test]
fn test_localization_output_path_strips_duplicate_localization_prefix() {
    let root = "work/Localization";

    assert_eq!(
        localization_output_path(root, "Localization/English/english.loca"),
        "work/Localization/English/english.loca"
    );
    assert_eq!(
        localization_output_path(root, "English/english.loca"),
        "work/Localization/English/english.loca"
    );
}

#[test]
fn test_package_output_path_preserves_package_segments() {
    let root = "work/Gustav";

    assert_eq!(
        package_output_path(root, "Public/Gustav/Progressions/Progressions.lsx"),
        "work/Gustav/Public/Gustav/Progressions/Progressions.lsx"
    );
    assert_eq!(
        package_output_path(root, "Public\\Gustav\\Stats\\Generated\\Data\\Passive.txt"),
        "work/Gustav/Public/Gustav/Stats/Generated/Data/Passive.txt"
    );
}

#[test]
fn test_collect_extracted_files_skips_timeline() {
    let files = collect_extracted_files(&found(&[
        "Gustav/Public/Gustav/TimelineContent/scene.lsx",
        "Gustav/Public/Gustav/Progressions/Progressions.lsx",
    ]));

    assert_eq!(files.len(), 1, "Only non-timeline file should be collected");
    assert!(
        files[0].rel_path.contains("Progressions"),
        "Should keep Progressions"
    );
}

#[test]
fn test_collect_skips_timeline_dirs() {
    let files = collect_extracted_files(&found(&[
        "Gustav/Public/Gustav/Timeline/Scenes/act1_scene.lsx",
        "Gustav/Public/GustavDev/TimelineTemplates/template.lsx",
        "Gustav/Public/Gustav/AI/ai_data.lsx",
    ]));
    assert_eq!(files.len(), 1, "Only non-timeline file should be collected");
    assert!(files[0].rel_path.contains("AI"), "Should keep AI data");
}

#[test]
fn test_collect_priority_ordering() {
    let files = collect_extracted_files(&found(&[
        "Shared/Public/Shared/Progressions/Progressions.lsx",
        "Gustav/Public/Gustav/Progressions/Progressions.lsx",
        "GustavX/Public/GustavX/Progressions/Progressions.lsx",
    ]));
    assert_eq!(files.len(), 3);

    assert_eq!(files[0].mod_name, "GustavX", "Highest priority first");
    assert_eq!(files[1].mod_name, "Gustav", "Second highest");
    assert_eq!(files[2].mod_name, "Shared", "Lowest priority last");
}

#[test]
fn test_collect_extracted_files_includes_both_lsefx_and_converted_lsfx_lsx() {
    let files = collect_extracted_files(&found(&[
        "Effects/Public/Shared/Assets/Effects/Effects_Banks/keep.lsfx.lsx",
        "Effects/Public/Shared/Content/Assets/Effects/Effects/Actions/[PAK]_Cast/effect.lsefx",
    ]));
    assert_eq!(
        files.len(),
        2,
        "expected both .lsefx and .lsfx.lsx to be collected"
    );
    assert!(files
        .iter()
        .any(|f| f.file_type == FileType::Lsx && f.rel_path.ends_with("keep.lsfx.lsx")));
    assert!(files
        .iter()
        .any(|f| f.file_type == FileType::Effect && f.rel_path.ends_with("effect.lsefx")));
}

#[test]
fn test_collect_extracted_files_prefers_runtime_lsfx_over_converted_sibling() {
    let files = collect_extracted_files(&found(&[
        "Effects/Public/Shared/Assets/Effects/Effects_Banks/keep.lsfx",
        "Effects/Public/Shared/Assets/Effects/Effects_Banks/keep.lsfx.lsx",
    ]));
    assert_eq!(
        files.len(),
        1,
        "expected converted lsfx.lsx sibling to be skipped"
    );
    assert!(files[0].rel_path.ends_with("keep.lsfx"));
}

#[test]
fn progress_pct_calculates_correctly() {
    assert_eq!(progress_pct(0, 10), 0);
    assert_eq!(progress_pct(5, 10), 25);
    assert_eq!(progress_pct(10, 10), 50);
    assert_eq!(progress_pct(0, 0), -1);
}

#[test]
fn progress_is_that_of_floating_point() {
    for total in 1usize..60 {
        for current in 0..=total {
            let want = ((current as f64 / total as f64) * 50.0) as i32;
            assert_eq!(progress_pct(current, total), want, "{current}/{total}");
        }
    }
    let share = |current: usize, total: usize| ((current as f64 / total as f64) * 50.0) as i32;
    let mut seed = 88172645463325252u64;
    for _ in 0..20000 {
        let mut next = || {
            seed ^= seed << 13;
            seed ^= seed >> 7;
            seed ^= seed << 17;
            (seed >> (seed % 60)) as usize
        };
        let total = next().max(1);
        let current = next() % total;
        assert_eq!(progress_pct(current, total), share(current, total).min(50), "{current}/{total}");
        for n in 0..50usize {
            let near = (total / 50).saturating_mul(n);
            assert_eq!(progress_pct(near, total), share(near, total).min(50), "{near}/{total}");
        }
    }
    assert_eq!(progress_pct((1 << 59) - 1, 1 << 60), 25);
    assert_eq!(progress_pct(29, 50), 28);
    assert_eq!(progress_pct(usize::MAX, usize::MAX), 50);
    assert_eq!(progress_pct(usize::MAX, 1), 50);
    assert_eq!(progress_pct(1, usize::MAX), 0);
}

#[test]
fn work_files_are_told_by_extension() {
    let removed = ["lsx", "lsf", "lsfx", "txt", "png"]
        .iter()
        .filter(|e| is_work_file(e))
        .count();
    assert_eq!(removed, 4, "Should remove .lsx, .lsf, .lsfx, .txt but not .png");
    assert!(is_work_file("loca") && is_work_file("xml"));
}

#[test]
fn names_lead_to_modules_and_targets() {
    assert_eq!(extract_mod_name("Gustav/Public/Honour/Stats/x.txt"), "Honour");
    assert!(target_db_for_module("HonourX") == TargetDb::Honor);
    assert!(target_db_for_module("Gustav") == TargetDb::Base);
    assert!(module_priority("GustavX") > module_priority("Gustav"));
    assert!(module_priority("Gustav") > module_priority("Shared"));
    assert_eq!(sanitize_id("a-b.c d"), "a_b_c_d");
}

#[test]
fn higher_priority_comes_first_and_equals_keep_their_order() {
    let entry = |name: &str, priority: u8| {
        FileEntry::from_bytes(
            name.to_string(),
            FileType::Lsx,
            "M".to_string(),
            TargetDb::Base,
            priority,
            vec![],
        )
    };
    let sorted = by_priority(vec![entry("a", 1), entry("b", 9), entry("c", 1), entry("d", 9)]);
    let names: Vec<&str> = sorted.iter().map(|f| f.rel_path.as_str()).collect();
    assert_eq!(names, vec!["b", "d", "a", "c"]);
}

#[test]
fn files_are_divided_by_target() {
    let entry = |name: &str, target: TargetDb| {
        FileEntry::from_bytes(
            name.to_string(),
            FileType::Lsx,
            "M".to_string(),
            target,
            1,
            vec![],
        )
    };
    let d = divide_targets(vec![
        entry("a", TargetDb::Base),
        entry("b", TargetDb::Honor),
        entry("c", TargetDb::Base),
    ]);
    assert_eq!(d.base.len(), 2);
    assert_eq!(d.honor.len(), 1);
    assert_eq!(d.honor[0].rel_path, "b");
}

#[test]
fn packages_give_up_data_files() {
    let filter = build_pipeline_filter().unwrap();
    let item = PakItem {
        path: "Public/Honour/Stats/Generated/Data/Passive.txt".to_string(),
        deleted: false,
        size: 4,
    };
    let pick = pick_data_entry("Gustav", &item, &filter, false).unwrap().unwrap();
    assert_eq!(pick.mod_name, "Honour");
    assert!(pick.target_db == TargetDb::Honor);
    let file = pick.into_file(b"data".to_vec());
    assert!(file.file_type == FileType::Stats);
    assert_eq!(file.file_size(None), 4);

    let gone = PakItem { path: item.path.clone(), deleted: true, size: 4 };
    assert!(pick_data_entry("Gustav", &gone, &filter, false).unwrap().is_none());
    let picture = PakItem {
        path: "Public/Gustav/a.dds".to_string(),
        deleted: false,
        size: 4,
    };
    assert!(pick_data_entry("Gustav", &picture, &filter, false).unwrap().is_none());
    let loca = PakItem {
        path: "Localization/English/english.loca".to_string(),
        deleted: false,
        size: 9,
    };
    let pick = pick_loca_entry(&loca).unwrap().unwrap();
    assert!(pick.file_type == FileType::Loca);
}

#[test]
fn a_run_gathers_files_and_errors() {
    let jobs = pak_jobs(&vec![
        "DiceSet_01.pak".to_string(),
        "Patch8_Hotfix1.pak".to_string(),
    ]);
    assert!(jobs.iter().any(|j| j.kind == PakKind::Data));
    assert!(jobs.iter().any(|j| j.kind == PakKind::DiceSet));
    let file = |target: TargetDb| {
        FileEntry::from_bytes(
            "x.lsx".to_string(),
            FileType::Lsx,
            "M".to_string(),
            target,
            1,
            vec![1],
        )
    };
    let mut outcomes = Vec::new();
    for i in 0..jobs.len() {
        if i == 0 {
            outcomes.push(PakOutcome::Loaded {
                files: vec![file(TargetDb::Base), file(TargetDb::Honor)],
                note: "loaded".to_string(),
            });
        } else {
            outcomes.push(PakOutcome::Failed("no such file".to_string()));
        }
    }
    let noted = jobs.iter().skip(1).filter(|j| j.kind != PakKind::DiceSet).count();
    let run = run_vanilla_pipeline(&jobs, outcomes, "1.5", LocaOutcome::NoPak, "0.2", true);
    assert_eq!(run.paks_extracted, 1);
    let last: Vec<&str> =
        run.diagnostics[run.diagnostics.len() - 3..].iter().map(|s| s.as_str()).collect();
    assert_eq!(
        last,
        vec![
            "Phase 1 (extract): 1.5s, 1 paks, 2 files (streamed)",
            "No English localization pak found",
            "Phase 2 (localization): 0.2s, 0 loca files",
        ]
    );
    assert_eq!(note_collected("0.1", 2, 1, 1), "Phase 3 (collect): 0.1s, 2 total (1 base, 1 honor)");
    assert_eq!(run.base_files.len(), 1);
    assert_eq!(run.honor_files.len(), 1);
    assert_eq!(run.errors.len(), noted);
    let p = report_pak(&jobs[0], 0, jobs.len());
    assert_eq!(p.percent, 0);
}

#[test]
fn memory_is_read_from_what_the_system_tells() {
    let info = "MemTotal:       16303428 kB\nMemFree:         1234 kB\nMemAvailable:    8123456 kB\n";
    assert_eq!(available_kilobytes(info), Some(8123456));
    assert_eq!(available_kilobytes("MemTotal: 5 kB\n"), None);
    assert_eq!(available_kilobytes("MemAvailable:\n"), None);
    assert_eq!(available_kilobytes("MemAvailable: x kB"), None);
    assert_eq!(available_kilobytes("MemAvailable: -1 kB"), None);
}

#[test]
fn packages_are_read_as_a_whole() {
    let item = |path: &str, deleted: bool, size: u64| PakItem {
        path: path.to_string(),
        deleted,
        size,
    };
    let items = vec![
        item("Mods/Own/meta.png", false, 1),
        item("Public/Shared/Stats/Generated/Data/Passive.txt", false, 2),
        item("Public/Shared/Stats/Generated/Data/Gone.txt", true, 3),
        item("Localization/English/own.loca", false, 4),
    ];
    let siblings = vec![false; items.len()];

    let (picks, public) = collect_mod_files_from_pak("Own", &items, &siblings);
    let picks = picks.unwrap();
    assert!(public);
    assert_eq!(picks[0].0, 1);
    assert_eq!(picks[0].1.byte_limit, 2);
    assert_eq!(picks[0].1.mod_name, "Own");
    assert!(picks.iter().all(|(i, _)| *i != 0 && *i != 2));

    let filter = build_pipeline_filter().unwrap();
    let picks = collect_data_entries_native("Gustav", &items, &filter, &siblings).unwrap();
    let places: Vec<usize> = picks.iter().map(|(i, _)| *i).collect();
    assert_eq!(places, vec![1]);

    let picks = collect_loca_entries_native(&items).unwrap();
    let places: Vec<usize> = picks.iter().map(|(i, _)| *i).collect();
    assert_eq!(places, vec![3]);
    assert!(picks[0].1.file_type == FileType::Loca);

    let (picks, public) = collect_mod_files_from_pak("Own", &Vec::new(), &Vec::new());
    assert!(picks.unwrap().is_empty());
    assert!(!public);
}

#[test]
fn test_pipeline_filter_exposes_all_public_roots() {
    let filter = build_pipeline_filter().unwrap();
    for root in [
        "Public/Shared",
        "Public/SharedDev",
        "Public/Gustav",
        "Public/GustavDev",
        "Public/GustavX",
        "Public/Honour",
        "Public/HonourX",
        "Public/Engine",
        "Public/Game",
        "Public/PhotoMode",
    ] {
        assert!(filter.roots.contains(&root), "Filter should contain root: {root}");
    }
}

#[test]
fn test_cleanup_work_dir() {
    let extensions = ["lsx", "lsf", "lsfx", "txt", "png"];
    let removed = extensions.iter().filter(|e| is_work_file(e)).count();
    assert_eq!(removed, 4, "Should remove .lsx, .lsf, .lsfx, .txt but not .png");
    assert!(!is_work_file("png"), ".png should survive cleanup");
}
