use pamm::download::{resolve_url, DownloadStep};
use pamm::layout::{migration_moves, needs_migration, verify_remote_version, CURRENT_LAYOUT_VERSION};
use pamm::entries::{folder_entry, generic_file_entry, is_pbo_file_name, EntryKind, ManifestEntry};
use pamm::handle::{ClientRepoHandle, PackDiffInputs, PackEntry, RepoHandle, SavePackSettings};
use pamm::launch::{executable_launch_args, steam_launch_url, LaunchAction, LaunchMode, LaunchParams};
use pamm::manifest::{File, Folder, GenericFile, PBOFile, PBOPart, PackManifest, PackPart};
use pamm::media::{is_stale_media, referenced_media, valid_media_name};
use pamm::models::{
    AddonSettings, ChecksumIndex, PackConfig, PackUserSettings, PammError, RepoConfig,
    RepoUserSettings,
};
use pamm::pack_diff::{FileModification, PBOModification, PartDiff, PartModification};
use pamm::patch::{push_decimal, range_header, PartSource};
use pamm::paths::{join_path, path_components};
use pamm::publish::{
    classify_www_entry, dir_steps, stale_entries, BuildMode, BuildReport, ClearAction, DirStep,
    ExistingEntry, Materializer, SourceKind, WwwEntryAction,
};
use pamm::server::{is_key_file, ServerConfig, ServerRepoHandle};
use pamm::state::{name_less, pack_checksum, part_needs_update, sort_by_name, StateDiff, StateManifest};
use pamm::sync::{sync_pack_config, DummyConfigSyncInteractor};
use pamm::templating::{DatestampReplacementStrategy, ScriptTemplateContext, ScriptTemplateReplacementStrategy};

fn s(x: &str) -> String {
    x.to_string()
}

fn sha1(data: &[u8]) -> Vec<u8> {
    <sha1::Sha1 as sha1::Digest>::digest(data).to_vec()
}

fn generic(name: &str, checksum: u8) -> PackPart {
    PackPart::File(File::Generic(GenericFile { name: s(name), checksum: vec![checksum], length: 1 }))
}

fn folder(name: &str, checksum: u8, children: Vec<PackPart>) -> PackPart {
    PackPart::Folder(Folder { name: s(name), checksum: vec![checksum], children })
}

fn pbo_part(name: &str, checksum: u8, start: u64, length: u32) -> PBOPart {
    PBOPart { name: s(name), length, checksum: vec![checksum], start_offset: start }
}

fn pbo(name: &str, checksum: u8, parts: Vec<PBOPart>) -> PackPart {
    PackPart::File(File::PBO(PBOFile { name: s(name), checksum: vec![checksum], parts, blob_offset: 100 }))
}

fn manifest(required: Vec<PackPart>) -> PackManifest {
    PackManifest { name: s("core"), pack_checksum: vec![], required_addons: required, optional_addons: vec![] }
}

fn config(name: &str, addons: &[(&str, bool)], parent: Option<&str>) -> PackConfig {
    PackConfig {
        name: s(name),
        description: s(""),
        client_params: vec![s("-skipIntro")],
        addons: addons.iter().map(|(n, o)| (s(n), AddonSettings { is_optional: *o })).collect(),
        parent: parent.map(s),
    }
}

fn settings() -> PackUserSettings {
    PackUserSettings { launch_params: vec![s("-world=empty")], disabled_optionals: vec![] }
}

fn client(locals: &[&str]) -> ClientRepoHandle {
    let base = RepoHandle {
        repo_path: s("/repo"),
        repo_config: RepoConfig { name: s("repo"), description: s("d"), packs: vec![s("core")] },
        packs: vec![
            PackEntry { config: config("core", &[("@core_addon", false)], None), settings: Some(settings()) },
            PackEntry {
                config: config("my_mission", &[("@mission_addon", false)], Some("core")),
                settings: Some(settings()),
            },
        ],
    };
    let user = RepoUserSettings { remote: s("http://localhost/"), local_packs: locals.iter().map(|x| s(x)).collect() };
    ClientRepoHandle::open(base, Some(user)).unwrap()
}

#[test]
fn diff_of_a_manifest_with_itself_is_empty() {
    let m = manifest(vec![generic("a", 1), folder("f", 2, vec![generic("x", 3)])]);
    let d = m.determine_pack_diff(&m);
    assert!(d.required_changes.is_empty());
    assert!(d.optional_changes.is_empty());
    assert_eq!(d.pack_name, "core");
}

#[test]
fn diff_creates_deletes_and_modifies_by_name() {
    let old = manifest(vec![
        generic("kept", 1),
        generic("gone", 2),
        pbo("a.pbo", 3, vec![pbo_part("p1", 10, 0, 4), pbo_part("p2", 11, 4, 4)]),
        folder("dir", 4, vec![generic("inner", 5)]),
    ]);
    let new = manifest(vec![
        generic("kept", 1),
        generic("fresh", 6),
        pbo("a.pbo", 7, vec![pbo_part("p1", 10, 0, 4), pbo_part("p3", 12, 4, 8)]),
        folder("dir", 8, vec![generic("inner", 9)]),
    ]);
    let d = old.determine_pack_diff(&new);
    let c = &d.required_changes;
    assert_eq!(c.len(), 4);
    assert!(matches!(&c[0], PartDiff::Created(PackPart::File(File::Generic(g))) if g.name == "fresh"));
    assert!(matches!(&c[1], PartDiff::Deleted(n) if n == "gone"));
    match &c[2] {
        PartDiff::Modified(PartModification::File(FileModification::PBO(m))) => {
            assert_eq!(m.name, "a.pbo");
            assert_eq!(m.target_checksum, vec![7]);
            assert_eq!(m.required_parts, vec![vec![12u8]]);
            assert_eq!(m.new_order.len(), 2);
            assert_eq!(m.blob_offset, 100);
        }
        other => panic!("unexpected change {:?}", other),
    }
    match &c[3] {
        PartDiff::Modified(PartModification::Folder(f)) => {
            assert_eq!(f.name, "dir");
            assert_eq!(f.changes.len(), 1);
            assert!(matches!(
                &f.changes[0],
                PartDiff::Modified(PartModification::File(FileModification::GenericFile(g)))
                    if g.name == "inner" && g.target_checksum == vec![9u8]
            ));
        }
        other => panic!("unexpected change {:?}", other),
    }
}

#[test]
fn a_part_changing_kind_is_created_anew() {
    let old = manifest(vec![generic("x", 1)]);
    let new = manifest(vec![folder("x", 2, vec![])]);
    let d = old.determine_pack_diff(&new);
    assert_eq!(d.required_changes.len(), 1);
    assert!(matches!(&d.required_changes[0], PartDiff::Created(PackPart::Folder(f)) if f.name == "x"));
}

#[test]
fn download_plan_walks_the_diff_with_resolved_urls() {
    let old = manifest(vec![generic("gone", 2), folder("dir", 4, vec![generic("inner", 5)])]);
    let new = manifest(vec![
        folder("newdir", 6, vec![generic("child.txt", 7)]),
        folder("dir", 8, vec![generic("inner", 9)]),
    ]);
    let d = old.determine_pack_diff(&new);
    let plan = d.download_plan("/games/core", "http://host/repo/core/");
    assert!(plan.failed.is_none());
    let steps: Vec<String> = plan
        .steps
        .iter()
        .map(|st| match st {
            DownloadStep::CreateDir { path } => format!("mkdir {}", path),
            DownloadStep::Download { path, url } => format!("get {} {}", path, url),
            DownloadStep::PatchPbo { path, url, .. } => format!("patch {} {}", path, url),
            DownloadStep::DeleteFile { path } => format!("rm {}", path),
        })
        .collect();
    assert_eq!(
        steps,
        vec![
            s("mkdir /games/core/required/newdir"),
            s("get /games/core/required/newdir/child.txt http://host/repo/core/required/newdir/child.txt"),
            s("rm /games/core/required/gone"),
            s("get /games/core/required/dir/inner http://host/repo/core/required/dir/inner"),
        ]
    );
}

#[test]
fn download_plan_stops_at_an_invalid_base_url() {
    let d = manifest(vec![]).determine_pack_diff(&manifest(vec![generic("a", 1)]));
    let plan = d.download_plan("/games/core", "not a url");
    assert!(plan.steps.is_empty());
    assert_eq!(plan.failed, Some(s("required/")));
}

#[test]
fn pbo_patch_requests_the_header_and_the_changed_parts() {
    let m = PBOModification {
        name: s("a.pbo"),
        target_checksum: vec![1],
        new_order: vec![pbo_part("keep", 10, 0, 4), pbo_part("fetch", 12, 4, 8)],
        required_parts: vec![vec![12]],
        blob_offset: 100,
    };
    assert!(m.ranges_fit());
    let ranges = m.fetch_ranges();
    assert_eq!(ranges, vec![(0, 99), (104, 111)]);
    assert_eq!(range_header(&ranges), "bytes=0-99, 104-111");
    assert_eq!(m.part_sources(), vec![PartSource::FromArchive(s("keep")), PartSource::Fetched]);
}

#[test]
fn pbo_ranges_that_do_not_fit_are_detected() {
    let m = PBOModification {
        name: s("a.pbo"),
        target_checksum: vec![1],
        new_order: vec![],
        required_parts: vec![],
        blob_offset: 0,
    };
    assert!(!m.ranges_fit());
    let m = PBOModification {
        name: s("a.pbo"),
        target_checksum: vec![1],
        new_order: vec![pbo_part("big", 1, u64::MAX - 10, 4)],
        required_parts: vec![],
        blob_offset: 8,
    };
    assert!(!m.ranges_fit());
}

#[test]
fn decimal_notation() {
    let mut out = s("n=");
    push_decimal(&mut out, 0);
    push_decimal(&mut out, 10);
    push_decimal(&mut out, 18446744073709551615);
    assert_eq!(out, "n=01018446744073709551615");
    assert_eq!(range_header(&vec![]), "bytes=");
}

#[test]
fn build_pack_symlinks_point_into_per_pack_source() {
    let m = Materializer::new(BuildMode::Symlink, "/repo", "/repo/www");
    let rel = vec![s("core"), s("addons"), s("@addon1"), s("file.txt")];
    assert_eq!(m.link_target(&rel), "../../../../core/addons/@addon1/file.txt");
    assert_eq!(m.source_path(&rel), "/repo/core/addons/@addon1/file.txt");
    assert_eq!(m.dest_path(&rel), "/repo/www/core/addons/@addon1/file.txt");
}

#[test]
fn placing_clears_what_the_other_mode_left() {
    let link = Materializer::new(BuildMode::Symlink, "/s", "/d");
    let copy = Materializer::new(BuildMode::Copy, "/s", "/d");
    assert_eq!(link.clear_before_place(ExistingEntry::Dir), ClearAction::RemoveDir);
    assert_eq!(link.clear_before_place(ExistingEntry::File), ClearAction::RemoveFile);
    assert_eq!(link.clear_before_place(ExistingEntry::Symlink), ClearAction::Nothing);
    assert_eq!(copy.clear_before_place(ExistingEntry::Symlink), ClearAction::RemoveFile);
    assert_eq!(copy.clear_before_place(ExistingEntry::File), ClearAction::Nothing);
    assert_eq!(copy.clear_before_place(ExistingEntry::Missing), ClearAction::Nothing);
    let r = copy.file_report();
    assert_eq!((r.files_materialized, r.stale_removed, r.mode), (1, 0, BuildMode::Copy));
}

#[test]
fn build_pack_removes_stale_addon_subtree() {
    let src = vec![s("@addon1")];
    let dst = vec![s("@phantom"), s("@addon1")];
    assert_eq!(stale_entries(&src, &dst, &vec![]), vec![s("@phantom")]);
}

#[test]
fn rebuild_keeps_dotcache_out_of_www() {
    let src = vec![s("@addon1"), s(".cache")];
    let dst = vec![s("@addon1"), s(".cache")];
    assert_eq!(stale_entries(&src, &dst, &vec![s(".cache")]), vec![s(".cache")]);
}

#[test]
fn build_pack_skips_dotcache_in_source() {
    let entries = vec![(s(".cache"), SourceKind::Dir), (s("@addon1"), SourceKind::Dir)];
    let steps = dir_steps(&entries, &vec![s(".cache")]);
    assert_eq!(steps.len(), 1);
    assert!(matches!(&steps[0], DirStep::Enter(n) if n == "@addon1"));
}

#[test]
fn folder_steps_stop_at_the_first_odd_entry() {
    let entries = vec![
        (s("a.txt"), SourceKind::File),
        (s("sub"), SourceKind::Dir),
        (s("fifo"), SourceKind::Other),
        (s("b.txt"), SourceKind::File),
    ];
    let steps = dir_steps(&entries, &vec![]);
    assert_eq!(steps.len(), 3);
    assert!(matches!(&steps[0], DirStep::Place(n) if n == "a.txt"));
    assert!(matches!(&steps[1], DirStep::Enter(n) if n == "sub"));
    assert!(matches!(&steps[2], DirStep::Refuse(n) if n == "fifo"));
}

#[test]
fn build_reports_add_up() {
    let a = BuildReport { files_materialized: 2, stale_removed: 1, mode: BuildMode::Symlink };
    let b = BuildReport { files_materialized: 3, stale_removed: 0, mode: BuildMode::Symlink };
    let c = a.add(b);
    assert_eq!((c.files_materialized, c.stale_removed), (5, 1));
    let e = BuildReport::default();
    assert_eq!((e.files_materialized, e.stale_removed, e.mode), (0, 0, BuildMode::Symlink));
}

#[test]
fn build_prunes_stale_pack_dirs_but_keeps_unrelated_entries() {
    let packs = vec![s("core")];
    assert_eq!(classify_www_entry("oldpack", true, false, true, &packs), WwwEntryAction::RemoveDir);
    assert_eq!(classify_www_entry("core", true, false, true, &packs), WwwEntryAction::Keep);
    assert_eq!(classify_www_entry(".well-known", true, false, false, &packs), WwwEntryAction::Keep);
    assert_eq!(classify_www_entry("robots.txt", false, true, false, &packs), WwwEntryAction::Keep);
}

#[test]
fn build_prunes_legacy_v1_www_entries() {
    let packs = vec![s("core")];
    assert_eq!(classify_www_entry("core_pack_addons", true, false, false, &packs), WwwEntryAction::RemoveDir);
    assert_eq!(classify_www_entry("core.pack.config.json", false, true, false, &packs), WwwEntryAction::RemoveFile);
}

#[test]
fn state_plan_and_apply_match_the_disk() {
    let state = StateManifest {
        addons: vec![(s("required/@a"), vec![1]), (s("required/@gone"), vec![2])],
        pack_checksum: vec![],
    };
    let on_disk = vec![s("required/@a"), s("required/@new")];
    let plan = state.plan_addon_changes(&on_disk);
    assert_eq!(plan.removed, vec![s("required/@gone")]);
    assert_eq!(plan.created, vec![s("required/@new")]);
    assert_eq!(plan.potentially_modified, vec![s("required/@a")]);
    let diff = StateDiff { added: vec![(s("required/@new"), generic("@new", 9))], removed: plan.removed, modified: vec![] };
    let next = state.apply_pack_diff(&diff, vec![7]);
    let names: Vec<&String> = next.addons.iter().map(|(n, _)| n).collect();
    assert_eq!(names, vec!["required/@a", "required/@new"]);
    assert_eq!(next.addons[1].1, vec![9]);
    assert_eq!(next.pack_checksum, vec![7]);
    let again = next.plan_addon_changes(&on_disk);
    assert!(again.removed.is_empty() && again.created.is_empty());
    assert_eq!(again.potentially_modified, on_disk);
}

#[test]
fn parts_are_updated_only_when_their_checksum_changes() {
    let a = generic("x", 1);
    assert!(!part_needs_update(Some(&a), &generic("x", 1)));
    assert!(part_needs_update(Some(&a), &generic("x", 2)));
    assert!(part_needs_update(None, &a));
}

#[test]
fn names_sort_character_by_character() {
    assert!(name_less("a", "b"));
    assert!(name_less("ab", "abc"));
    assert!(!name_less("abc", "ab"));
    assert!(!name_less("same", "same"));
    assert!(name_less("B", "a"));
    let sorted = sort_by_name(vec![(s("c"), vec![3]), (s("a"), vec![1]), (s("b"), vec![2]), (s("a"), vec![4])]);
    let names: Vec<(String, Vec<u8>)> = sorted;
    assert_eq!(names, vec![(s("a"), vec![1]), (s("a"), vec![4]), (s("b"), vec![2]), (s("c"), vec![3])]);
}

#[test]
fn pack_checksum_hashes_part_checksums_in_name_order() {
    let r = pack_checksum(vec![(s("b.part"), vec![2, 2]), (s("a.part"), vec![1])]);
    assert_eq!(r, sha1(&[1, 2, 2]));
    assert_eq!(pack_checksum(vec![]), sha1(&[]));
}

#[test]
fn entries_hash_their_contents() {
    let e = generic_file_entry("a.txt", b"hello", 5);
    assert_eq!(e.name, "a.txt");
    assert_eq!(e.checksum, sha1(b"helloa.txt"));
    let f = folder_entry("dir", vec![e]);
    let mut expected = b"dir".to_vec();
    expected.extend(sha1(b"helloa.txt"));
    assert_eq!(f.checksum, sha1(&expected));
}

#[test]
fn pbo_file_names_are_recognised() {
    assert!(is_pbo_file_name("addon.pbo"));
    assert!(!is_pbo_file_name(".pbo"));
    assert!(!is_pbo_file_name("addon.pbo.bak"));
    assert!(!is_pbo_file_name("readme.txt"));
    assert!(is_pbo_file_name("x.pbo"));
    assert!(!is_pbo_file_name("a\nb.pbo"));
    assert!(!is_pbo_file_name("addon.PBO"));
}

#[test]
fn key_files_are_recognised() {
    assert!(is_key_file("server.bikey"));
    assert!(!is_key_file(".bikey"));
    assert!(!is_key_file("server.bisign"));
}

#[test]
fn paths_join_and_split() {
    assert_eq!(join_path("/a", "b"), "/a/b");
    assert_eq!(join_path("/a/", "b"), "/a/b");
    assert_eq!(join_path("/a", "/b"), "/b");
    assert_eq!(path_components("/a//b/./c/"), vec![s("/"), s("a"), s("b"), s("c")]);
    assert_eq!(path_components("./x"), vec![s("."), s("x")]);
}

#[test]
fn prunes_unreferenced_rejects_invalid_and_tolerates_failures() {
    assert!(valid_media_name("keep.png"));
    assert!(!valid_media_name("../escape.png"));
    let referenced = referenced_media(&vec![s("keep.png"), s("../escape.png")]);
    assert_eq!(referenced, vec![s("keep.png")]);
    assert!(is_stale_media("old.png", &referenced));
    assert!(is_stale_media("interrupted.png.part", &referenced));
    assert!(!is_stale_media("keep.png", &referenced));
}

#[test]
fn remote_operations_refuse_a_local_pack() {
    let h = client(&["my_mission"]);
    assert!(h.is_local_pack("my_mission"));
    assert!(h.is_local_pack("MY_MISSION"));
    assert_eq!(h.ensure_not_local("my_mission"), Err(PammError::LocalPackHasNoRemote(s("my_mission"))));
    assert_eq!(h.ensure_not_local("core"), Ok(()));
    let m = manifest(vec![]);
    let r = h.get_pack_diff("my_mission", true, false, &m, &m);
    assert!(matches!(r, Err(PammError::LocalPackHasNoRemote(n)) if n == "my_mission"));
    // Refused whatever the remote publishes, before its layout is looked at.
    let index = ChecksumIndex { checksums: vec![] };
    for version in [None, Some(1), Some(2)] {
        assert_eq!(
            h.quick_check_pack_up_to_date("my_mission", version, &index, None),
            Err(PammError::LocalPackHasNoRemote(s("my_mission")))
        );
    }
    let inputs = vec![
        PackDiffInputs { up_to_date: true, actual: manifest(vec![]), remote: manifest(vec![]) },
        PackDiffInputs { up_to_date: true, actual: manifest(vec![]), remote: manifest(vec![]) },
    ];
    assert!(matches!(
        h.get_pack_and_parents_diffs("my_mission", false, &inputs),
        Err(PammError::LocalPackHasNoRemote(n)) if n == "my_mission"
    ));
}

#[test]
fn a_local_pack_resolves_its_own_and_its_remote_parents_addons() {
    let h = client(&["my_mission"]);
    assert!(h.pack_chain_ends("my_mission"));
    let paths = h.get_addon_paths("my_mission", false).unwrap();
    assert_eq!(paths, vec![s("my_mission/addons/@mission_addon"), s("core/addons/@core_addon")]);
    assert_eq!(h.collect_pack_chain("my_mission").unwrap(), vec![s("core"), s("my_mission")]);
}

#[test]
fn unregistered_and_missing_packs_are_reported() {
    let h = client(&[]);
    assert!(matches!(h.get_pack("my_mission"), Err(PammError::PackNotFound(n)) if n == "my_mission"));
    assert!(matches!(h.get_pack("core"), Ok(c) if c.name == "core"));
    let no_settings = ClientRepoHandle::open(
        RepoHandle { repo_path: s("/r"), repo_config: RepoConfig { name: s("r"), description: s(""), packs: vec![] }, packs: vec![] },
        None,
    );
    assert!(matches!(no_settings, Err(PammError::MissingUserSettings)));
}

#[test]
fn up_to_date_packs_need_no_diff() {
    let h = client(&[]);
    let m = manifest(vec![generic("a", 1)]);
    assert!(matches!(h.get_pack_diff("core", false, true, &m, &m), Ok(None)));
    match h.get_pack_diff("core", true, true, &m, &m) {
        Ok(Some(d)) => assert!(d.required_changes.is_empty() && d.pack_name == "core"),
        other => panic!("unexpected {:?}", other),
    }
}

#[test]
fn quick_check_compares_indexes() {
    let h = client(&[]);
    let remote = ChecksumIndex { checksums: vec![(s("@core_addon"), vec![1])] };
    let same = ChecksumIndex { checksums: vec![(s("@core_addon"), vec![1])] };
    let stale = ChecksumIndex { checksums: vec![(s("@core_addon"), vec![2])] };
    assert_eq!(h.quick_check_pack_up_to_date("core", Some(2), &remote, Some(&same)), Ok(true));
    assert_eq!(h.quick_check_pack_up_to_date("core", Some(2), &remote, Some(&stale)), Ok(false));
    assert_eq!(h.quick_check_pack_up_to_date("core", Some(2), &remote, None), Ok(false));
}

#[test]
fn quick_check_refuses_a_remote_not_rebuilt() {
    let h = client(&[]);
    let remote = ChecksumIndex { checksums: vec![(s("@core_addon"), vec![1])] };
    let same = ChecksumIndex { checksums: vec![(s("@core_addon"), vec![1])] };
    assert_eq!(
        h.quick_check_pack_up_to_date("core", None, &remote, Some(&same)),
        Err(PammError::RemoteLayoutMismatch { found: 1, expected: 2 })
    );
    assert_eq!(
        h.quick_check_pack_up_to_date("core", Some(1), &remote, Some(&same)),
        Err(PammError::RemoteLayoutMismatch { found: 1, expected: 2 })
    );
    assert_eq!(
        h.quick_check_pack_up_to_date("core", Some(3), &remote, None),
        Err(PammError::RemoteLayoutMismatch { found: 3, expected: 2 })
    );
}

#[test]
fn remote_layout_versions_are_checked() {
    assert_eq!(CURRENT_LAYOUT_VERSION, 2);
    assert_eq!(verify_remote_version(Some(2)), Ok(()));
    assert_eq!(verify_remote_version(None), Err(PammError::RemoteLayoutMismatch { found: 1, expected: 2 }));
    assert_eq!(verify_remote_version(Some(1)), Err(PammError::RemoteLayoutMismatch { found: 1, expected: 2 }));
}

#[test]
fn deleted_packs_are_gone_and_added_packs_found() {
    let mut h = client(&[]);
    h.delete_pack("core", false);
    assert!(h.repo_handle().find_pack("core").is_some());
    h.delete_pack("core", true);
    assert!(h.repo_handle().find_pack("core").is_none());
    h.add_pack(config("extra", &[], None));
    let i = h.repo_handle().find_pack("extra").unwrap();
    assert_eq!(h.repo_handle().packs[i].config.name, "extra");
    assert!(h.save_pack_settings("nothing", settings()).is_err());
    assert!(h.save_pack_settings("extra", settings()).is_ok());
}

#[test]
fn launches_through_steam_or_the_executable() {
    let h = client(&[]);
    let mods = vec![s("/repo/core/addons/@core_addon")];
    match h.launch_pack("core", &LaunchParams::new(LaunchMode::Steam, false), &mods).unwrap() {
        LaunchAction::SteamPreset { preset_file_name, preset_body, launch_url } => {
            assert_eq!(preset_file_name, "pamm_core.txt");
            assert_eq!(preset_body, "-noLauncher\n-skipIntro\n-world=empty\n-mod=\"/repo/core/addons/@core_addon\"\n");
            assert_eq!(launch_url, "steam://run/107410//-par=pamm_core.txt/");
        }
        other => panic!("unexpected {:?}", other),
    }
    match h.launch_pack("core", &LaunchParams::new(LaunchMode::Executable, false), &mods).unwrap() {
        LaunchAction::Executable { args } => {
            assert_eq!(args, executable_launch_args(&[s("-skipIntro")], &[s("-world=empty")], &mods));
            assert_eq!(args[0], "-nolauncher");
        }
        other => panic!("unexpected {:?}", other),
    }
}

#[test]
fn steam_urls_encode_their_parameters() {
    let url = steam_launch_url(&[s("-name=a b")], &[s("C:/x y"), s("D:/z")]);
    assert_eq!(
        url,
        "steam://rungameid/107410// -nolauncher -name=a b %22-mod%3DC%3A%2Fx%20y%3BD%3A%2Fz%22"
    );
}

#[test]
fn replaces_datestamp_placeholder() {
    let context = ScriptTemplateContext::new("core", "some/template", "-mod=foo");
    let mut script = format!("deployed {}", "{DATESTAMP}");
    DatestampReplacementStrategy.apply(&context, &mut script);
    assert!(!script.contains("{DATESTAMP}"));
    let date_part = script.strip_prefix("deployed ").unwrap();
    assert!(chrono::NaiveDate::parse_from_str(date_part, "%Y-%m-%d").is_ok());
}

#[test]
fn deploy_pack_requires_server_directory() {
    let server = ServerRepoHandle {
        base: RepoHandle {
            repo_path: s("/srv/repo"),
            repo_config: RepoConfig { name: s("repo"), description: s("desc"), packs: vec![s("core")] },
            packs: vec![PackEntry { config: config("core", &[("@addon1", false)], None), settings: None }],
        },
        server_config: ServerConfig {
            server_dir: None,
            post_deploy_commands: vec![],
            script_templates: vec![],
            file_owner_uid: 0,
            file_group_gid: 0,
        },
    };
    assert!(matches!(server.deploy_pack("core"), Err(PammError::ServerDirNotSet)));
}

#[test]
fn deploy_plan_names_the_server_side_paths() {
    let server = ServerRepoHandle {
        base: RepoHandle {
            repo_path: s("/srv/repo"),
            repo_config: RepoConfig { name: s("repo"), description: s("desc"), packs: vec![s("core")] },
            packs: vec![PackEntry { config: config("core", &[("@addon1", false)], None), settings: None }],
        },
        server_config: ServerConfig {
            server_dir: Some(s("/srv/arma")),
            post_deploy_commands: vec![s("echo done")],
            script_templates: vec![(s("/srv/arma/start.sh"), s("start {DEPLOYED_PACK}::{MOD_LAUNCH_PARAM} on {DATESTAMP}"))],
            file_owner_uid: 0,
            file_group_gid: 0,
        },
    };
    let plan = server.deploy_pack_on("core", "2024-01-02").unwrap();
    assert_eq!(plan.pamm_dir, "/srv/arma/pamm");
    assert_eq!(plan.repo_link, "/srv/arma/pamm/repo");
    assert_eq!(plan.keys_dir, "/srv/arma/keys");
    assert_eq!(plan.addon_dirs, vec![s("core/addons/@addon1")]);
    assert_eq!(plan.mod_launch_param, "\"-mod=pamm/repo/core/addons/@addon1\"");
    assert_eq!(
        plan.scripts,
        vec![(s("/srv/arma/start.sh"), s("start core::\"-mod=pamm/repo/core/addons/@addon1\" on 2024-01-02"))]
    );
    assert_eq!(plan.post_deploy_commands, vec![s("echo done")]);
}

#[test]
fn config_sync_follows_the_remote() {
    let mut h = client(&[]);
    let remote = RepoConfig { name: s("repo"), description: s("new"), packs: vec![s("other")] };
    let published = vec![config("other", &[("@o", false)], None)];
    sync_pack_config(&mut h, remote, &published, &mut DummyConfigSyncInteractor::new()).unwrap();
    assert!(h.repo_handle().find_pack("core").is_none());
    assert!(h.repo_handle().find_pack("other").is_some());
    assert_eq!(h.repo_handle().repo_config.packs, vec![s("other")]);
}

#[test]
fn urls_resolve_against_their_base() {
    assert_eq!(resolve_url("http://host/repo/", "core/pack.config.json"), Some(s("http://host/repo/core/pack.config.json")));
    assert_eq!(resolve_url("http://host/repo/core", "x"), Some(s("http://host/repo/x")));
    assert_eq!(resolve_url("not a url", "x"), None);
    assert_eq!(pamm::media::media_url("http://host/repo/", "logo.png"), Some(s("http://host/repo/media/logo.png")));
}

#[test]
fn deploy_pack_skips_templates_without_placeholder() {
    let server = ServerRepoHandle {
        base: RepoHandle {
            repo_path: s("/srv/repo"),
            repo_config: RepoConfig { name: s("repo"), description: s("desc"), packs: vec![s("core")] },
            packs: vec![PackEntry { config: config("core", &[("@addon1", false)], None), settings: None }],
        },
        server_config: ServerConfig {
            server_dir: Some(s("/srv/arma")),
            post_deploy_commands: vec![],
            script_templates: vec![(s("/srv/arma/deploy-template.txt"), s("unchanged template"))],
            file_owner_uid: 0,
            file_group_gid: 0,
        },
    };
    let plan = server.deploy_pack("core").unwrap();
    assert_eq!(plan.scripts, vec![(s("/srv/arma/deploy-template.txt"), s("unchanged template"))]);
}

#[test]
fn build_pack_symlink_target_is_relative() {
    let m = Materializer::new(BuildMode::Symlink, "/tmp/pamm/repo", "/tmp/pamm/repo/www");
    let target = m.link_target(&vec![s("core"), s("addons"), s("@addon1"), s("file.txt")]);
    assert!(!target.starts_with('/'), "symlink target should be relative ({:?})", target);
    assert!(target.starts_with(".."));
}

#[test]
fn deploy_pack_writes_template_and_runs_post_deploy_commands() {
    let server = ServerRepoHandle {
        base: RepoHandle {
            repo_path: s("/srv/pamm/repo"),
            repo_config: RepoConfig { name: s("repo"), description: s("desc"), packs: vec![s("core")] },
            packs: vec![PackEntry { config: config("core", &[("@addon1", false)], None), settings: None }],
        },
        server_config: ServerConfig {
            server_dir: Some(s("/srv/server")),
            post_deploy_commands: vec![s("echo first > \"post-deploy.log\""), s("echo second >> \"post-deploy.log\"")],
            script_templates: vec![(s("/srv/server/deploy-template.txt"), s("start {DEPLOYED_PACK}::{MOD_LAUNCH_PARAM} end"))],
            file_owner_uid: 0,
            file_group_gid: 0,
        },
    };
    let plan = server.deploy_pack("core").unwrap();
    let param = format!("\"-mod={}\"", "pamm/repo/core/addons/@addon1");
    assert_eq!(plan.scripts[0].1, format!("start core::{} end", param));
    assert_eq!(plan.post_deploy_commands.len(), 2);
    assert_eq!(plan.repo_link, "/srv/server/pamm/repo");
}

#[test]
fn switched_off_optionals_are_left_out() {
    let mut c = config("core", &[("@a", false), ("@opt", true), ("@opt2", true)], None);
    let user = PackUserSettings { launch_params: vec![], disabled_optionals: vec![s("@opt"), s("@a")] };
    c.remove_disabled_optionals(&user);
    let names: Vec<&str> = c.addons.iter().map(|(n, _)| n.as_str()).collect();
    assert_eq!(names, vec!["@a", "@opt2"]);
}

struct KeepingInteractor;

impl pamm::sync::ConfigSyncInteractor for KeepingInteractor {
    fn confirm_pack_removal(&mut self, _pack_name: &str) -> Result<bool, PammError> {
        Ok(false)
    }

    fn notify_pack_added(&mut self, pack_name: &str) -> Result<(), PammError> {
        Err(PammError::Interaction(format!("cannot tell about {}", pack_name)))
    }
}

#[test]
fn a_refused_removal_keeps_the_pack() {
    let mut h = client(&[]);
    let remote = RepoConfig { name: s("repo"), description: s("new"), packs: vec![] };
    assert_eq!(sync_pack_config(&mut h, remote, &vec![], &mut KeepingInteractor), Ok(()));
    assert!(h.repo_handle().find_pack("core").is_some());
    assert!(h.repo_handle().repo_config.packs.is_empty());
}

#[test]
fn a_failed_notification_is_returned() {
    let mut h = client(&[]);
    let remote = RepoConfig { name: s("repo"), description: s("new"), packs: vec![s("core"), s("other")] };
    let published = vec![config("core", &[], None), config("other", &[], None)];
    assert_eq!(
        sync_pack_config(&mut h, remote, &published, &mut KeepingInteractor),
        Err(PammError::Interaction(s("cannot tell about other")))
    );
}

struct RefusingInteractor;

impl pamm::sync::ConfigSyncInteractor for RefusingInteractor {
    fn confirm_pack_removal(&mut self, pack_name: &str) -> Result<bool, PammError> {
        Err(PammError::Interaction(format!("cannot ask about {}", pack_name)))
    }

    fn notify_pack_added(&mut self, _pack_name: &str) -> Result<(), PammError> {
        Ok(())
    }
}

#[test]
fn every_error_has_its_input() {
    let mut h = client(&["my_mission"]);
    // A registered pack without a configuration.
    let mut base = RepoHandle {
        repo_path: s("/repo"),
        repo_config: RepoConfig { name: s("repo"), description: s(""), packs: vec![s("ghost"), s("bare")] },
        packs: vec![PackEntry { config: config("bare", &[], None), settings: None }],
    };
    assert!(matches!(base.get_pack("ghost"), Err(PammError::PackConfigMissing(n)) if n == "ghost"));
    base.upsert_pack(config("bare", &[("@x", false)], None));
    let bare = ClientRepoHandle::open(
        RepoHandle { repo_path: s("/r"), repo_config: base.repo_config, packs: vec![PackEntry { config: config("bare", &[], None), settings: None }] },
        Some(RepoUserSettings { remote: s("http://localhost/"), local_packs: vec![] }),
    )
    .unwrap();
    assert!(matches!(
        bare.launch_pack("bare", &LaunchParams::new(LaunchMode::Steam, false), &[]),
        Err(PammError::PackSettingsMissing(n)) if n == "bare"
    ));
    // A local pack that is not recorded.
    assert!(matches!(h.sync_local_pack("core", &vec![]), Err(PammError::LocalPackNotFound(n)) if n == "core"));
    assert!(h.sync_local_pack("my_mission", &vec![s("@new")]).is_ok());
    let i = h.repo_handle().find_pack("my_mission").unwrap();
    let names: Vec<&str> = h.repo_handle().packs[i].config.addons.iter().map(|(n, _)| n.as_str()).collect();
    assert_eq!(names, vec!["@mission_addon", "@new"]);
    // A diff applied to the wrong pack.
    let d = manifest(vec![]).determine_pack_diff(&manifest(vec![]));
    assert!(matches!(
        h.apply_pack_diff("my_mission", &d),
        Err(PammError::DiffPackMismatch { diff_pack, target_pack }) if diff_pack == "core" && target_pack == "my_mission"
    ));
    assert!(matches!(h.apply_pack_diff("core", &d), Ok(c) if c.name == "core"));
    // An interactor that fails.
    let remote = RepoConfig { name: s("repo"), description: s(""), packs: vec![] };
    assert!(matches!(
        sync_pack_config(&mut h, remote, &vec![], &mut RefusingInteractor),
        Err(PammError::Interaction(m)) if m == "cannot ask about core"
    ));
    // A remote pack without a published configuration.
    let remote = RepoConfig { name: s("repo"), description: s(""), packs: vec![s("core"), s("unpublished")] };
    let published = vec![config("core", &[], None)];
    assert!(matches!(
        sync_pack_config(&mut h, remote, &published, &mut DummyConfigSyncInteractor::new()),
        Err(PammError::PackConfigMissing(n)) if n == "unpublished"
    ));
}

#[test]
fn only_changed_pbo_parts_are_fetched() {
    let old = manifest(vec![pbo("a.pbo", 3, vec![pbo_part("p1", 10, 0, 4), pbo_part("p2", 11, 4, 4)])]);
    let new = manifest(vec![pbo("a.pbo", 7, vec![pbo_part("p1", 10, 0, 4), pbo_part("p3", 12, 4, 8), pbo_part("p2", 11, 12, 4)])]);
    let d = old.determine_pack_diff(&new);
    match &d.required_changes[0] {
        PartDiff::Modified(PartModification::File(FileModification::PBO(m))) => {
            assert_eq!(
                m.part_sources(),
                vec![PartSource::FromArchive(s("p1")), PartSource::Fetched, PartSource::FromArchive(s("p2"))]
            );
            assert_eq!(m.fetch_ranges(), vec![(0, 99), (104, 111)]);
        }
        other => panic!("unexpected change {:?}", other),
    }
}

#[test]
fn manifests_read_from_disk_are_sorted_and_checksummed() {
    let m = pamm::state::manifest_from_parts(
        "core",
        vec![generic("@b", 2), generic("@a", 1)],
        vec![generic("@z", 9), generic("@c", 3)],
    );
    let names = |v: &Vec<PackPart>| v.iter().map(|p| p.get_name().clone()).collect::<Vec<String>>();
    assert_eq!(names(&m.required_addons), vec![s("@a"), s("@b")]);
    assert_eq!(names(&m.optional_addons), vec![s("@c"), s("@z")]);
    assert_eq!(m.pack_checksum, sha1(&[1, 2, 3, 9]));
    assert_eq!(m.name, "core");
}

#[test]
fn sync_with_unchanged_pack_list_never_asks() {
    let mut h = client(&[]);
    let remote = RepoConfig { name: s("repo"), description: s("new"), packs: vec![s("core")] };
    let published = vec![config("core", &[("@core_addon", false), ("@more", false)], None)];
    assert_eq!(sync_pack_config(&mut h, remote, &published, &mut RefusingInteractor), Ok(()));
    let i = h.repo_handle().find_pack("core").unwrap();
    assert_eq!(h.repo_handle().packs[i].config.addons.len(), 2);
    assert_eq!(h.repo_handle().repo_config.description, "new");
}

#[test]
fn checksum_index_lists_each_addon() {
    let addons = vec![
        ManifestEntry { name: s("@a"), checksum: vec![1, 2], kind: EntryKind::Folder(vec![]) },
        ManifestEntry { name: s("@b"), checksum: vec![3], kind: EntryKind::Folder(vec![]) },
    ];
    let index = pamm::publish::checksum_index_of(&addons);
    assert_eq!(index.checksums, vec![(s("@a"), vec![1, 2]), (s("@b"), vec![3])]);
}

#[test]
fn a_publication_writes_indexes_config_and_version() {
    let server = ServerRepoHandle {
        base: RepoHandle {
            repo_path: s("/srv/repo"),
            repo_config: RepoConfig { name: s("repo"), description: s("desc"), packs: vec![s("core")] },
            packs: vec![],
        },
        server_config: ServerConfig {
            server_dir: None,
            post_deploy_commands: vec![],
            script_templates: vec![],
            file_owner_uid: 0,
            file_group_gid: 0,
        },
    };
    let addons = vec![ManifestEntry { name: s("@addon1"), checksum: vec![7], kind: EntryKind::Folder(vec![]) }];
    let before = config("core", &[("@gone", true), ("@addon1", true)], None);
    let p = server.pack_publication("core", before, &addons).unwrap();
    assert_eq!(p.checksum_index_path, "/srv/repo/www/core/indexes/checksum_index.pamm");
    assert_eq!(p.checksum_index.checksums, vec![(s("@addon1"), vec![7])]);
    assert_eq!(p.addon_index_paths, vec![s("/srv/repo/www/core/indexes/@addon1.index.pamm")]);
    assert_eq!(p.config.addons.len(), 1);
    assert_eq!(p.config.addons[0].0, "@addon1");
    assert!(p.config.addons[0].1.is_optional);
    assert_eq!(p.version_path, "/srv/repo/www/version.pamm");
    assert_eq!(p.layout_version, 2);
    let other = config("other", &[], None);
    assert!(matches!(server.pack_publication("other", other, &addons), Err(PammError::PackNotFound(n)) if n == "other"));
}

#[test]
fn deploy_without_server_dir_fails_whatever_the_parents() {
    let server = ServerRepoHandle {
        base: RepoHandle {
            repo_path: s("/srv/repo"),
            repo_config: RepoConfig { name: s("repo"), description: s("desc"), packs: vec![s("a"), s("b")] },
            packs: vec![
                PackEntry { config: config("a", &[], Some("b")), settings: None },
                PackEntry { config: config("b", &[], Some("a")), settings: None },
            ],
        },
        server_config: ServerConfig {
            server_dir: None,
            post_deploy_commands: vec![],
            script_templates: vec![],
            file_owner_uid: 0,
            file_group_gid: 0,
        },
    };
    assert!(matches!(server.deploy_pack("a"), Err(PammError::ServerDirNotSet)));
}

#[test]
fn todays_datestamp_has_the_date_form() {
    let ctx = pamm::templating::ScriptTemplateContext::new("core", "/t", "p");
    let mut content = s("{DATESTAMP}");
    pamm::templating::render_script_template(&ctx, &mut content);
    let b = content.as_bytes();
    assert!(b.len() >= 10);
    let n = b.len();
    assert_eq!(b[n - 3], b'-');
    assert_eq!(b[n - 6], b'-');
    assert!(b[..n - 6].iter().all(|c| c.is_ascii_digit()));
    assert!(b[n - 5..n - 3].iter().all(|c| c.is_ascii_digit()));
    assert!(b[n - 2..].iter().all(|c| c.is_ascii_digit()));
}

#[test]
fn first_layout_repos_move_into_pack_folders() {
    assert!(needs_migration(None));
    assert!(needs_migration(Some(1)));
    assert!(!needs_migration(Some(2)));
    assert_eq!(
        migration_moves(&vec![s("core")], true),
        vec![
            (s("core.pack.config.json"), s("core/pack.config.json")),
            (s("core.pack.settings.json"), s("core/pack.settings.json")),
            (s("core_pack_addons/indexes"), s("core/indexes")),
            (s("core_pack_addons"), s("core/addons")),
        ]
    );
    assert_eq!(
        migration_moves(&vec![s("a"), s("b")], false),
        vec![
            (s("a.pack.config.json"), s("a/pack.config.json")),
            (s("a_pack_addons"), s("a/addons")),
            (s("b.pack.config.json"), s("b/pack.config.json")),
            (s("b_pack_addons"), s("b/addons")),
        ]
    );
}

#[test]
fn joined_relative_paths_lead_to_the_target() {
    let from = "/srv/repo/www/core/addons/@a";
    let to = "/srv/repo/core/addons/@a/file.txt";
    let rel = pamm::paths::relative_path(from, to).unwrap();
    assert_eq!(rel, "../../../../core/addons/@a/file.txt");
    let joined = join_path(from, &rel);
    let mut resolved: Vec<String> = Vec::new();
    for c in path_components(&joined) {
        if c == ".." {
            resolved.pop();
        } else {
            resolved.push(c);
        }
    }
    assert_eq!(resolved, path_components(to));
}

#[test]
fn empty_new_parts_are_not_requested() {
    let m = PBOModification {
        name: s("a.pbo"),
        target_checksum: vec![1],
        new_order: vec![pbo_part("empty", 12, 0, 0), pbo_part("data", 13, 0, 3)],
        required_parts: vec![vec![12], vec![13]],
        blob_offset: 50,
    };
    assert!(m.ranges_fit());
    assert_eq!(m.fetch_ranges(), vec![(0, 49), (50, 52)]);
    assert_eq!(m.part_sources(), vec![PartSource::Empty, PartSource::Fetched]);
}

struct RecordingInteractor {
    calls: Vec<String>,
}

impl pamm::sync::ConfigSyncInteractor for RecordingInteractor {
    fn confirm_pack_removal(&mut self, pack_name: &str) -> Result<bool, PammError> {
        self.calls.push(format!("remove? {}", pack_name));
        Ok(true)
    }

    fn notify_pack_added(&mut self, pack_name: &str) -> Result<(), PammError> {
        self.calls.push(format!("added {}", pack_name));
        Ok(())
    }
}

#[test]
fn sync_asks_each_dropped_pack_once_before_any_notice() {
    let mut h = client(&[]);
    let remote = RepoConfig { name: s("repo"), description: s("d"), packs: vec![s("a"), s("b"), s("a")] };
    let published = vec![config("a", &[], None), config("b", &[], None)];
    let mut rec = RecordingInteractor { calls: vec![] };
    assert_eq!(sync_pack_config(&mut h, remote, &published, &mut rec), Ok(()));
    assert_eq!(rec.calls, vec![s("remove? core"), s("added a"), s("added b")]);
    assert!(h.repo_handle().find_pack("core").is_none());
}

#[test]
fn forced_refresh_stores_the_reread_part() {
    let same = pamm::state::update_part(Some(generic("@a", 1)), generic("@a", 1), false);
    assert!(same.is_none());
    let changed = pamm::state::update_part(Some(generic("@a", 1)), generic("@a", 2), false);
    assert_eq!(changed.map(|p| p.get_checksum().clone()), Some(vec![2]));
    let fresh = pamm::state::update_part(None, generic("@a", 1), false);
    assert!(fresh.is_some());
    let forced = pamm::state::update_part(Some(generic("@a", 1)), generic("@a", 1), true);
    assert_eq!(forced.map(|p| p.get_checksum().clone()), Some(vec![1]));
}

#[test]
fn fresh_cache_entries_are_reused() {
    let entry = || pamm::entries::FileCacheEntry {
        last_modified: 5,
        length: 7,
        part: ManifestEntry { name: s("f"), checksum: vec![9], kind: EntryKind::Folder(vec![]) },
    };
    assert_eq!(pamm::entries::reusable_cached_part(Some(entry()), 5, 7).map(|e| e.checksum), Some(vec![9]));
    assert!(pamm::entries::reusable_cached_part(Some(entry()), 6, 7).is_none());
    assert!(pamm::entries::reusable_cached_part(Some(entry()), 5, 8).is_none());
    assert!(pamm::entries::reusable_cached_part(None, 5, 7).is_none());
}
