use tmsu::api::config::{
    get_all_settings, run_config_get_setting_value, run_config_list_all_settings,
    run_config_update_setting, Setting,
};
use tmsu::api::copy::run_copy;
use tmsu::api::delete::{run_delete_tag, run_delete_value};
use tmsu::api::files::list_matching;
use tmsu::api::imply::{
    add_implications, delete_implications, run_imply_list, Implication, TagAndOptionalValue,
};
use tmsu::api::merge::{run_merge_tags, run_merge_values};
use tmsu::api::rename::{run_rename_tag, run_rename_value};
use tmsu::api::repair::{
    add_implied_file_tags, file_by_path, full_repair, manual_repair, Candidate, FileStat,
    FileState, Found, Move, Observation, Survey,
};
use tmsu::api::status::{database_status, files_status, PathReview, PathStatus};
use tmsu::api::{load_or_create_tag, load_or_create_value};
use tmsu::entities::settings::{SettingValue, Settings};
use tmsu::entities::{
    DirectoryFingerprintAlgorithm, File, FileFingerprintAlgorithm, FileId, FileSort, FileTag,
    ModTime, OptionalValueId, SymlinkFingerprintAlgorithm, Tag, TagId, TagIdValueIdPair, Value,
    ValueId,
};
use tmsu::errors::{Error, NameFault, NameKind, SettingFault};
use tmsu::implication::{
    check_for_implication_cycles, implications_for, transitive_implications_for, Edge, Node,
};
use tmsu::path::{AbsPath, CanonicalPath, ScopedPath};
use tmsu::storage::file::{build_query, SqlBuilder};
use tmsu::storage::{add_file_tag, meta, FileTagRow, Storage};

fn tag(id: u32, name: &str) -> Tag {
    Tag {
        id: TagId(id),
        name: name.to_string(),
    }
}

fn value(id: u32, name: &str) -> Value {
    Value {
        id: ValueId::from_unchecked(id),
        name: name.to_string(),
    }
}

fn time(secs: i64) -> ModTime {
    ModTime {
        secs,
        nanos: 0,
        offset: 0,
    }
}

fn file(id: u32, dir: &str, name: &str) -> File {
    File {
        id: FileId(id),
        dir: dir.to_string(),
        name: name.to_string(),
        fingerprint: "H".to_string(),
        mod_time: time(10),
        size: 100,
        is_dir: false,
    }
}

fn row(file: u32, tag: u32, value: u32) -> FileTagRow {
    FileTagRow { file, tag, value }
}

fn node(tag: u32, value: u32) -> Node {
    Node { tag, value }
}

fn edge(from: Node, to: Node) -> Edge {
    Edge {
        implying: from,
        implied: to,
    }
}

fn pair(tag: u32, value: u32) -> TagIdValueIdPair {
    TagIdValueIdPair {
        tag_id: TagId(tag),
        value_id: OptionalValueId::from_id(value),
    }
}

fn names(items: &[&str]) -> Vec<String> {
    items.iter().map(|s| s.to_string()).collect()
}

fn base() -> CanonicalPath {
    CanonicalPath::new("/tmp/r", Some("/tmp/r".to_string())).unwrap()
}

fn scoped(path: &str) -> ScopedPath {
    ScopedPath::new(&base(), path, &Vec::new())
}

fn sorted_edges(mut edges: Vec<Edge>) -> Vec<(u32, u32, u32, u32)> {
    let mut out: Vec<(u32, u32, u32, u32)> = edges
        .drain(..)
        .map(|e| (e.implying.tag, e.implying.value, e.implied.tag, e.implied.value))
        .collect();
    out.sort();
    out
}

/// mp3 (1) and music (2) as tags, 2020 (1) as a value; F1 has mp3, F2
/// has music, F3 has mp3 and music=2020.
fn small_store() -> Storage {
    let mut tx = Storage::new();
    tx.tags = vec![tag(1, "mp3"), tag(2, "music")];
    tx.values = vec![value(1, "2020")];
    tx.files = vec![file(1, "a", "f1"), file(2, "a", "f2"), file(3, "b", "f3")];
    tx.file_tags = vec![row(1, 1, 0), row(2, 2, 0), row(3, 1, 0), row(3, 2, 1)];
    tx.implications = vec![edge(node(1, 0), node(2, 0))];
    tx
}

#[test]
fn value_ids_keep_zero_for_absence() {
    assert_eq!(OptionalValueId::from_id(0).get(), None);
    assert_eq!(OptionalValueId::from_id(0).as_u32(), 0);
    assert_eq!(
        OptionalValueId::from_id(7).get(),
        Some(ValueId::from_unchecked(7))
    );
    assert_eq!(*ValueId::from_unchecked(7).as_u32(), 7);
    assert_eq!(OptionalValueId::from_opt_value(&None).as_u32(), 0);
    assert_eq!(
        OptionalValueId::from_opt_value(&Some(value(3, "x"))).as_u32(),
        3
    );
    let ft = FileTag {
        file_id: FileId(1),
        tag_id: TagId(2),
        value_id: OptionalValueId::from_id(3),
        explicit: true,
        implicit: false,
    };
    assert_eq!(ft.to_tag_id_value_id_pair(), pair(2, 3));
}

#[test]
fn file_paths_join_directory_and_name() {
    assert_eq!(file(1, ".", "x").to_path_buf(), "x");
    assert_eq!(file(1, "a/b", "x").to_path_buf(), "a/b/x");
    assert_eq!(file(1, "/abs", "x").to_path_buf(), "/abs/x");
}

#[test]
fn fingerprint_algorithms_by_name() {
    assert_eq!(
        FileFingerprintAlgorithm::from_name("dynamic:SHA256"),
        Ok(FileFingerprintAlgorithm::DynamicSha256)
    );
    assert_eq!(
        FileFingerprintAlgorithm::from_name("BLAKE2b"),
        Ok(FileFingerprintAlgorithm::RegularBlake2b)
    );
    assert_eq!(
        FileFingerprintAlgorithm::from_name("none"),
        Ok(FileFingerprintAlgorithm::NoFingerprint)
    );
    assert_eq!(
        FileFingerprintAlgorithm::from_name("sha256"),
        Err(Error::UnsupportedAlgorithm("sha256".to_string()))
    );
    assert_eq!(
        DirectoryFingerprintAlgorithm::from_name("dynamic:sumSizes"),
        Ok(DirectoryFingerprintAlgorithm::DynamicSumSizes)
    );
    assert!(DirectoryFingerprintAlgorithm::from_name("follow").is_err());
    assert_eq!(
        SymlinkFingerprintAlgorithm::from_name("targetNameNoExt"),
        Ok(SymlinkFingerprintAlgorithm::TargetNameNoExt)
    );
    assert!(SymlinkFingerprintAlgorithm::from_name("").is_err());
}

#[test]
fn settings_start_from_their_defaults() {
    let settings = Settings::new();
    assert!(settings.auto_create_tags());
    assert!(settings.auto_create_values());
    assert!(settings.report_duplicates());
    assert_eq!(settings.file_fingerprint_algorithm(), "dynamic:SHA256");
    assert_eq!(settings.directory_fingerprint_algorithm(), "none");
    assert_eq!(settings.symlink_fingerprint_algorithm(), "follow");
    let listed: Vec<(String, String)> = settings
        .list()
        .into_iter()
        .map(|s| (s.name, s.value.as_str()))
        .collect();
    assert_eq!(
        listed,
        vec![
            ("autoCreateTags".to_string(), "yes".to_string()),
            ("autoCreateValues".to_string(), "yes".to_string()),
            ("directoryFingerprintAlgorithm".to_string(), "none".to_string()),
            (
                "fileFingerprintAlgorithm".to_string(),
                "dynamic:SHA256".to_string()
            ),
            ("reportDuplicates".to_string(), "yes".to_string()),
            ("symlinkFingerprintAlgorithm".to_string(), "follow".to_string()),
        ]
    );
}

#[test]
fn settings_take_what_their_type_accepts() {
    let mut settings = Settings::new();
    for yes in ["yes", "Yes", "YES", "true", "True", "TRUE"] {
        assert_eq!(settings.set("autoCreateTags", "no"), Ok(()));
        assert_eq!(settings.set("autoCreateTags", yes), Ok(()));
        assert!(settings.auto_create_tags());
    }
    for no in ["no", "No", "NO", "false", "False", "FALSE"] {
        assert_eq!(settings.set("reportDuplicates", no), Ok(()));
        assert!(!settings.report_duplicates());
        assert_eq!(settings.set("reportDuplicates", "yes"), Ok(()));
    }
    assert_eq!(
        settings.set("autoCreateValues", "yEs"),
        Err(Error::InvalidSetting(
            "autoCreateValues".to_string(),
            SettingFault::InvalidBoolean
        ))
    );
    assert!(settings.auto_create_values());
    assert_eq!(
        settings.set("fileFingerprintAlgorithm", ""),
        Err(Error::InvalidSetting(
            "fileFingerprintAlgorithm".to_string(),
            SettingFault::Unspecified
        ))
    );
    assert_eq!(settings.set("fileFingerprintAlgorithm", "MD5"), Ok(()));
    assert_eq!(settings.file_fingerprint_algorithm(), "MD5");
    assert_eq!(
        settings.set("noSuchThing", "x"),
        Err(Error::NoSuchSetting("noSuchThing".to_string()))
    );
    assert_eq!(settings.get("noSuchThing"), None);
    assert_eq!(
        settings.get("autoCreateTags"),
        Some(SettingValue::Boolean(true))
    );
    assert_eq!(
        settings.get("symlinkFingerprintAlgorithm"),
        Some(SettingValue::Text("follow".to_string()))
    );
}

#[test]
fn config_requests() {
    let rows = vec![
        Setting {
            name: "autoCreateTags".to_string(),
            value: "no".to_string(),
        },
        Setting {
            name: "unknown".to_string(),
            value: "x".to_string(),
        },
        Setting {
            name: "reportDuplicates".to_string(),
            value: "maybe".to_string(),
        },
    ];
    let settings = get_all_settings(&rows);
    assert!(!settings.auto_create_tags());
    assert!(settings.report_duplicates());
    let all = run_config_list_all_settings(&settings);
    assert_eq!(all.len(), 6);
    assert_eq!(all[0].name, "autoCreateTags");
    assert_eq!(all[0].value, "no");
    assert_eq!(
        run_config_get_setting_value(&settings, "autoCreateTags"),
        Ok("no".to_string())
    );
    assert_eq!(
        run_config_get_setting_value(&settings, "nope"),
        Err(Error::NoSuchSetting("nope".to_string()))
    );
    let stored = run_config_update_setting("autoCreateValues", "False").unwrap();
    assert_eq!(stored.name, "autoCreateValues");
    assert_eq!(stored.value, "False");
    assert!(run_config_update_setting("autoCreateValues", "nah").is_err());
    assert!(run_config_update_setting("nope", "yes").is_err());
}

#[test]
fn closure_follows_implications_through_others() {
    // a=1, b=2, c=3, d=4; value x=9
    let edges = vec![
        edge(node(1, 0), node(2, 0)),
        edge(node(2, 0), node(3, 9)),
        edge(node(3, 0), node(4, 0)),
        edge(node(4, 5), node(1, 0)),
    ];
    let from_a = implications_for(&edges, &vec![node(1, 0)]);
    assert_eq!(
        sorted_edges(from_a),
        vec![(1, 0, 2, 0), (2, 0, 3, 9), (3, 0, 4, 0)]
    );
    // an implying pair with a value applies only to that value
    let from_d = implications_for(&edges, &vec![node(4, 0)]);
    assert_eq!(sorted_edges(from_d), vec![]);
    let from_d5 = transitive_implications_for(&edges, &pair(4, 5));
    assert_eq!(
        sorted_edges(from_d5),
        vec![(1, 0, 2, 0), (2, 0, 3, 9), (3, 0, 4, 0), (4, 5, 1, 0)]
    );
}

#[test]
fn closure_of_a_union_holds_both_closures() {
    let edges = vec![
        edge(node(1, 0), node(2, 0)),
        edge(node(3, 0), node(4, 0)),
        edge(node(2, 0), node(5, 0)),
    ];
    let s1 = vec![node(1, 0)];
    let s2 = vec![node(3, 0)];
    let both = vec![node(1, 0), node(3, 0)];
    let c1 = sorted_edges(implications_for(&edges, &s1));
    let c2 = sorted_edges(implications_for(&edges, &s2));
    let c = sorted_edges(implications_for(&edges, &both));
    for e in c1.iter().chain(c2.iter()) {
        assert!(c.contains(e));
    }
    assert_eq!(c, vec![(1, 0, 2, 0), (2, 0, 5, 0), (3, 0, 4, 0)]);
}

#[test]
fn cycles_are_refused() {
    // a=1, b=2, c=3
    let edges = vec![edge(node(1, 0), node(2, 0)), edge(node(2, 0), node(3, 0))];
    assert_eq!(
        check_for_implication_cycles(&edges, &pair(3, 0), &pair(1, 0)),
        Err(Error::ImplicationCycle)
    );
    // an implying pair with a value meets nothing on the way
    assert_eq!(
        check_for_implication_cycles(&edges, &pair(3, 7), &pair(1, 0)),
        Ok(())
    );
    // a pair cannot imply itself, nor its tag with any value
    assert_eq!(
        check_for_implication_cycles(&edges, &pair(1, 0), &pair(1, 0)),
        Err(Error::ImplicationCycle)
    );
    assert_eq!(
        check_for_implication_cycles(&Vec::new(), &pair(1, 0), &pair(1, 4)),
        Err(Error::ImplicationCycle)
    );
    assert_eq!(
        check_for_implication_cycles(&Vec::new(), &pair(1, 4), &pair(1, 0)),
        Ok(())
    );
    // mutual implication
    assert_eq!(
        check_for_implication_cycles(&edges, &pair(2, 0), &pair(1, 0)),
        Err(Error::ImplicationCycle)
    );
    assert_eq!(
        check_for_implication_cycles(&edges, &pair(1, 0), &pair(3, 0)),
        Ok(())
    );
}

#[test]
fn an_implying_pair_without_value_meets_every_value() {
    // a -> b, b -> c=x: c without value would cycle through c=x
    let edges = vec![edge(node(1, 0), node(2, 0)), edge(node(2, 0), node(3, 9))];
    assert_eq!(
        check_for_implication_cycles(&edges, &pair(3, 0), &pair(1, 0)),
        Err(Error::ImplicationCycle)
    );
    assert_eq!(
        check_for_implication_cycles(&edges, &pair(3, 9), &pair(1, 0)),
        Err(Error::ImplicationCycle)
    );
    assert_eq!(
        check_for_implication_cycles(&edges, &pair(3, 8), &pair(1, 0)),
        Ok(())
    );
}

#[test]
fn an_implication_with_a_value_is_not_followed_from_the_bare_tag() {
    // a -> b, b=x -> c: from a the walk ends at b
    let edges = vec![edge(node(1, 0), node(2, 0)), edge(node(2, 9), node(3, 0))];
    assert_eq!(
        sorted_edges(implications_for(&edges, &vec![node(1, 0)])),
        vec![(1, 0, 2, 0)]
    );
    assert_eq!(
        check_for_implication_cycles(&edges, &pair(3, 0), &pair(1, 0)),
        Ok(())
    );
    assert_eq!(
        check_for_implication_cycles(&edges, &pair(3, 0), &pair(2, 9)),
        Err(Error::ImplicationCycle)
    );
}

fn named(tag: &str, value: Option<&str>) -> TagAndOptionalValue {
    TagAndOptionalValue {
        tag_name: tag.to_string(),
        value_name: value.map(|v| v.to_string()),
    }
}

#[test]
fn implications_are_added_listed_and_removed_by_name() {
    let mut tx = small_store();
    let settings = Settings::new();
    let wanted = vec![Implication {
        implying: named("flac", None),
        implied: named("music", Some("lossless")),
    }];
    assert_eq!(add_implications(&mut tx, &wanted, &settings), Ok(()));
    assert_eq!(tx.tags.len(), 3);
    assert_eq!(tx.tags[2], tag(3, "flac"));
    assert_eq!(tx.values[1], value(2, "lossless"));
    assert_eq!(tx.implications[1], edge(node(3, 0), node(2, 2)));

    let listed = run_imply_list(&tx);
    assert_eq!(listed.implications.len(), 2);
    assert_eq!(listed.implications[0].implying, named("mp3", None));
    assert_eq!(listed.implications[0].implied, named("music", None));
    assert_eq!(listed.implications[1], wanted[0]);

    // music -> mp3 would close a cycle
    let back = vec![Implication {
        implying: named("music", None),
        implied: named("mp3", None),
    }];
    assert_eq!(
        add_implications(&mut tx, &back, &settings),
        Err(Error::ImplicationCycle)
    );
    assert_eq!(tx.implications.len(), 2);

    assert_eq!(delete_implications(&mut tx, &wanted), Ok(()));
    assert_eq!(tx.implications, vec![edge(node(1, 0), node(2, 0))]);
    assert_eq!(
        delete_implications(&mut tx, &wanted),
        Err(Error::NoSuchImplication)
    );
    let unknown = vec![Implication {
        implying: named("nothing", None),
        implied: named("mp3", None),
    }];
    assert_eq!(
        delete_implications(&mut tx, &unknown),
        Err(Error::NoSuchTag("nothing".to_string()))
    );
}

#[test]
fn tags_and_values_are_made_only_where_allowed() {
    let mut tx = small_store();
    let mut settings = Settings::new();
    assert_eq!(load_or_create_tag(&mut tx, "mp3", &settings), Ok(tag(1, "mp3")));
    assert_eq!(load_or_create_tag(&mut tx, "new", &settings), Ok(tag(3, "new")));
    assert_eq!(
        load_or_create_tag(&mut tx, "and", &settings),
        Err(Error::InvalidName(NameKind::Tag, NameFault::LogicalOperator))
    );
    assert_eq!(
        load_or_create_value(&mut tx, "..", &settings),
        Err(Error::InvalidName(NameKind::Value, NameFault::Dots))
    );
    settings.set("autoCreateTags", "no").unwrap();
    settings.set("autoCreateValues", "no").unwrap();
    assert_eq!(
        load_or_create_tag(&mut tx, "other", &settings),
        Err(Error::NoSuchTag("other".to_string()))
    );
    assert_eq!(
        load_or_create_value(&mut tx, "other", &settings),
        Err(Error::NoSuchValue("other".to_string()))
    );
    assert_eq!(
        load_or_create_value(&mut tx, "2020", &settings),
        Ok(value(1, "2020"))
    );
    assert_eq!(tx.tags.len(), 3);
    assert_eq!(tx.values.len(), 1);
}

#[test]
fn deleting_a_tag_takes_what_hangs_on_it() {
    let mut tx = small_store();
    assert_eq!(run_delete_tag(&mut tx, &names(&["mp3"])), Ok(()));
    assert_eq!(tx.tags, vec![tag(2, "music")]);
    assert_eq!(tx.file_tags, vec![row(2, 2, 0), row(3, 2, 1)]);
    // F1 had no other tag and is gone
    assert_eq!(tx.files, vec![file(2, "a", "f2"), file(3, "b", "f3")]);
    assert_eq!(tx.implications, vec![]);
    assert_eq!(
        run_delete_tag(&mut tx, &names(&["music", "mp3"])),
        Err(Error::NoSuchTag("mp3".to_string()))
    );
    assert_eq!(tx.files, vec![]);
}

#[test]
fn deleting_a_value_takes_what_hangs_on_it() {
    let mut tx = small_store();
    tx.implications.push(edge(node(2, 1), node(1, 0)));
    assert_eq!(run_delete_value(&mut tx, &names(&["2020"])), Ok(()));
    assert_eq!(tx.values, vec![]);
    assert_eq!(tx.file_tags, vec![row(1, 1, 0), row(2, 2, 0), row(3, 1, 0)]);
    assert_eq!(tx.files.len(), 3);
    assert_eq!(tx.implications, vec![edge(node(1, 0), node(2, 0))]);
    assert_eq!(
        run_delete_value(&mut tx, &names(&["2020"])),
        Err(Error::NoSuchValue("2020".to_string()))
    );
}

#[test]
fn a_file_goes_with_its_last_file_tag() {
    let mut tx = small_store();
    let f1 = scoped("a/f1");
    assert_eq!(file_by_path(&tx, &f1), Some(file(1, "a", "f1")));
    meta::delete_file_tag(&mut tx, &FileId(1), &TagId(1), &OptionalValueId::from_id(0));
    assert_eq!(file_by_path(&tx, &f1), None);
    // F3 keeps one of its two
    meta::delete_file_tag(&mut tx, &FileId(3), &TagId(1), &OptionalValueId::from_id(0));
    assert_eq!(file_by_path(&tx, &scoped("b/f3")), Some(file(3, "b", "f3")));
    meta::delete_file_tags_by_file_id(&mut tx, &FileId(3));
    assert_eq!(file_by_path(&tx, &scoped("b/f3")), None);
    assert_eq!(tx.files, vec![file(2, "a", "f2")]);
}

#[test]
fn adding_a_file_tag_twice_adds_it_once() {
    let mut tx = small_store();
    assert_eq!(
        add_file_tag(&mut tx, &FileId(1), &TagId(2), OptionalValueId::from_id(1)),
        1
    );
    assert_eq!(
        add_file_tag(&mut tx, &FileId(1), &TagId(2), OptionalValueId::from_id(1)),
        0
    );
    assert_eq!(tx.file_tags.len(), 5);
}

#[test]
fn merged_tags_leave_their_files_to_the_destination() {
    let mut tx = small_store();
    assert_eq!(run_merge_tags(&mut tx, &names(&["mp3"]), "music"), Ok(()));
    assert_eq!(tx.tags, vec![tag(2, "music")]);
    assert_eq!(
        tx.file_tags,
        vec![row(2, 2, 0), row(3, 2, 1), row(1, 2, 0), row(3, 2, 0)]
    );
    assert_eq!(tx.files.len(), 3);
    for f in [1, 2, 3] {
        assert!(tx.file_tags.iter().any(|r| r.file == f && r.tag == 2));
    }
    assert_eq!(
        run_merge_tags(&mut tx, &names(&["music"]), "music"),
        Err(Error::MergeIntoItself(NameKind::Tag, "music".to_string()))
    );
    assert_eq!(
        run_merge_tags(&mut tx, &names(&["gone"]), "music"),
        Err(Error::NoSuchTag("gone".to_string()))
    );
    assert_eq!(
        run_merge_tags(&mut tx, &names(&["music"]), "gone"),
        Err(Error::NoSuchTag("gone".to_string()))
    );
}

#[test]
fn merged_values_leave_their_file_tags_to_the_destination() {
    let mut tx = small_store();
    tx.values.push(value(2, "twenty"));
    tx.file_tags.push(row(1, 1, 2));
    assert_eq!(run_merge_values(&mut tx, &names(&["2020"]), "twenty"), Ok(()));
    assert_eq!(tx.values, vec![value(2, "twenty")]);
    assert_eq!(
        tx.file_tags,
        vec![
            row(1, 1, 0),
            row(2, 2, 0),
            row(3, 1, 0),
            row(1, 1, 2),
            row(3, 2, 2)
        ]
    );
    assert_eq!(
        run_merge_values(&mut tx, &names(&["twenty"]), "twenty"),
        Err(Error::MergeIntoItself(NameKind::Value, "twenty".to_string()))
    );
}

#[test]
fn renaming_needs_a_free_and_valid_name() {
    let mut tx = small_store();
    assert_eq!(run_rename_tag(&mut tx, "mp3", "ogg"), Ok(()));
    assert_eq!(tx.tags, vec![tag(1, "ogg"), tag(2, "music")]);
    assert_eq!(
        run_rename_tag(&mut tx, "ogg", "music"),
        Err(Error::NameTaken(NameKind::Tag, "music".to_string()))
    );
    assert_eq!(
        run_rename_tag(&mut tx, "ogg", "or"),
        Err(Error::InvalidName(NameKind::Tag, NameFault::LogicalOperator))
    );
    assert_eq!(
        run_rename_tag(&mut tx, "mp3", "x"),
        Err(Error::NoSuchTag("mp3".to_string()))
    );
    assert_eq!(run_rename_value(&mut tx, "2020", "2021"), Ok(()));
    assert_eq!(tx.values, vec![value(1, "2021")]);
    assert_eq!(
        run_rename_value(&mut tx, "2020", "x"),
        Err(Error::NoSuchValue("2020".to_string()))
    );
    tx.tags.push(tag(1, "twin"));
    assert_eq!(
        run_rename_tag(&mut tx, "ogg", "wav"),
        Err(Error::UnaffectedRows(1, 2))
    );
}

#[test]
fn a_copied_tag_stands_on_the_same_files() {
    let mut tx = small_store();
    assert_eq!(run_copy(&mut tx, "music", &names(&["sound", "audio"])), Ok(()));
    assert_eq!(tx.tags[2], tag(3, "sound"));
    assert_eq!(tx.tags[3], tag(4, "audio"));
    assert_eq!(
        tx.file_tags[4..].to_vec(),
        vec![row(2, 3, 0), row(3, 3, 1), row(2, 4, 0), row(3, 4, 1)]
    );
    assert_eq!(
        run_copy(&mut tx, "music", &names(&["mp3"])),
        Err(Error::NameTaken(NameKind::Tag, "mp3".to_string()))
    );
    assert_eq!(
        run_copy(&mut tx, "nothing", &names(&["x"])),
        Err(Error::NoSuchTag("nothing".to_string()))
    );
}

#[test]
fn implied_file_tags_are_added_and_marked() {
    let edges = vec![edge(node(1, 0), node(2, 0)), edge(node(2, 0), node(3, 4))];
    let explicit = vec![
        FileTag {
            file_id: FileId(7),
            tag_id: TagId(1),
            value_id: OptionalValueId::from_id(0),
            explicit: true,
            implicit: false,
        },
        FileTag {
            file_id: FileId(7),
            tag_id: TagId(2),
            value_id: OptionalValueId::from_id(0),
            explicit: true,
            implicit: false,
        },
    ];
    let all = add_implied_file_tags(&edges, explicit);
    assert_eq!(all.len(), 3);
    assert!(all[0].explicit && !all[0].implicit);
    assert!(all[1].explicit && all[1].implicit);
    assert_eq!(
        all[2],
        FileTag {
            file_id: FileId(7),
            tag_id: TagId(3),
            value_id: OptionalValueId::from_id(4),
            explicit: false,
            implicit: true,
        }
    );
}

fn found_at(path: &str, size: u64, secs: i64, fingerprint: &str) -> Observation {
    Observation {
        path: scoped(path),
        stat: FileStat {
            size,
            mod_time: time(secs),
            is_dir: false,
        },
        fingerprint: fingerprint.to_string(),
    }
}

#[test]
fn repair_finds_a_moved_file_by_size_and_fingerprint() {
    let mut tx = Storage::new();
    tx.tags = vec![tag(1, "t")];
    tx.files = vec![file(1, "a", "f")];
    tx.file_tags = vec![row(1, 1, 0)];
    let db_files = vec![file(1, "a", "f")];
    let survey = Survey {
        stats: vec![None],
        observed: vec![None],
        candidates: vec![
            Candidate {
                path: scoped("c/other"),
                size: 100,
                mod_time: time(5),
                fingerprint: "X".to_string(),
            },
            Candidate {
                path: scoped("b/f"),
                size: 100,
                mod_time: time(77),
                fingerprint: "H".to_string(),
            },
        ],
    };
    let report = full_repair(&mut tx, &db_files, &survey, false, false, false, false);
    assert_eq!(report.statuses.missing, vec![0]);
    assert_eq!(
        report.moved,
        vec![Move {
            file: 0,
            candidate: 1
        }]
    );
    assert_eq!(tx.files[0].dir, "b");
    assert_eq!(tx.files[0].name, "f");
    assert_eq!(tx.files[0].mod_time, time(77));
    assert_eq!(tx.files[0].size, 100);
}

#[test]
fn repair_refreshes_modified_files_and_removes_missing_ones() {
    let mut tx = small_store();
    let db_files = vec![file(1, "a", "f1"), file(2, "a", "f2"), file(3, "b", "f3")];
    let survey = Survey {
        stats: vec![
            Some(FileStat {
                size: 100,
                mod_time: time(10),
                is_dir: false,
            }),
            Some(FileStat {
                size: 120,
                mod_time: time(11),
                is_dir: false,
            }),
            None,
        ],
        observed: vec![
            Some(found_at("a/f1", 100, 10, "H1")),
            Some(found_at("a/f2", 120, 11, "H2")),
            None,
        ],
        candidates: Vec::new(),
    };

    // pretending writes nothing
    let report = full_repair(&mut tx, &db_files, &survey, true, true, true, true);
    assert_eq!(report.statuses.unmodified, vec![0]);
    assert_eq!(report.statuses.modified, vec![1]);
    assert_eq!(report.statuses.missing, vec![2]);
    assert_eq!(tx.files, db_files);
    assert_eq!(tx.file_tags.len(), 4);

    let report = full_repair(&mut tx, &db_files, &survey, true, false, false, false);
    assert_eq!(report.recalculated, Vec::<usize>::new());
    assert_eq!(report.updated, vec![1]);
    assert_eq!(tx.files.len(), 2);
    assert_eq!(tx.files[0].fingerprint, "H");
    assert_eq!(tx.files[1].fingerprint, "H2");
    assert_eq!(tx.files[1].size, 120);
    assert_eq!(tx.files[1].mod_time, time(11));
    assert_eq!(tx.file_tags, vec![row(1, 1, 0), row(2, 2, 0)]);
}

#[test]
fn repair_can_drop_file_tags_that_are_implied_anyway() {
    let mut tx = small_store();
    // F3 has mp3 and music=2020; give it plain music too, which mp3 implies
    tx.file_tags.push(row(3, 2, 0));
    let db_files = vec![file(3, "b", "f3")];
    let survey = Survey {
        stats: vec![Some(FileStat {
            size: 100,
            mod_time: time(10),
            is_dir: false,
        })],
        observed: vec![Some(found_at("b/f3", 100, 10, "H"))],
        candidates: Vec::new(),
    };
    full_repair(&mut tx, &db_files, &survey, false, false, true, false);
    assert_eq!(
        tx.file_tags,
        vec![row(1, 1, 0), row(2, 2, 0), row(3, 1, 0), row(3, 2, 1)]
    );
    assert_eq!(tx.files.len(), 3);
}

#[test]
fn manual_repair_moves_what_is_stored_under_a_path() {
    let mut tx = small_store();
    let seen = Some(found_at("c", 1, 2, "D"));
    assert_eq!(
        manual_repair(&mut tx, &scoped("a"), &scoped("c"), &None, false),
        Err(Error::FileNotFound("/tmp/r/c".to_string()))
    );
    assert_eq!(
        manual_repair(&mut tx, &scoped("a"), &scoped("c"), &seen, true),
        Ok(Found {
            at_path: false,
            below: 2
        })
    );
    assert_eq!(tx.files[0].dir, "a");
    assert_eq!(
        manual_repair(&mut tx, &scoped("a"), &scoped("c"), &seen, false),
        Ok(Found {
            at_path: false,
            below: 2
        })
    );
    assert_eq!(tx.files[0].dir, ".");
    assert_eq!(tx.files[0].name, "c");
    assert_eq!(tx.files[1].name, "c");
    assert_eq!(tx.files[2].dir, "b");
    assert_eq!(
        manual_repair(&mut tx, &scoped("zzz"), &scoped("c"), &None, false),
        Ok(Found {
            at_path: false,
            below: 0
        })
    );
}

#[test]
fn status_of_files_of_the_store() {
    let root = AbsPath::from_unchecked("/tmp/r".to_string());
    let db_files = vec![file(1, "a", "f1"), file(2, "a", "f2"), file(3, "/out", "f3")];
    let stats = vec![
        Some(FileStat {
            size: 100,
            mod_time: time(10),
            is_dir: false,
        }),
        Some(FileStat {
            size: 100,
            mod_time: time(11),
            is_dir: false,
        }),
        None,
    ];
    let (report, top) = database_status(&db_files, &root, &stats);
    let seen: Vec<(String, PathStatus)> = report
        .entries
        .into_iter()
        .map(|e| (e.path.0, e.status))
        .collect();
    assert_eq!(
        seen,
        vec![
            ("/tmp/r/a/f1".to_string(), PathStatus::Tagged),
            ("/tmp/r/a/f2".to_string(), PathStatus::Modified),
            ("/out/f3".to_string(), PathStatus::Missing),
        ]
    );
    assert_eq!(
        top,
        vec![
            "/out/f3".to_string(),
            "/tmp/r/a/f1".to_string(),
            "/tmp/r/a/f2".to_string()
        ]
    );
}

#[test]
fn status_of_given_paths() {
    let root = AbsPath::from_unchecked("/tmp/r".to_string());
    let review = PathReview {
        path: AbsPath::from_unchecked("/tmp/r/a".to_string()),
        is_symlink: false,
        file: None,
        below: vec![file(1, "a", "f1")],
        below_stats: vec![None],
        found: vec![
            AbsPath::from_unchecked("/tmp/r/a/f1".to_string()),
            AbsPath::from_unchecked("/tmp/r/a/new".to_string()),
        ],
    };
    let report = files_status(&vec![review], &root, true, false);
    let seen: Vec<(String, PathStatus)> = report
        .entries
        .into_iter()
        .map(|e| (e.path.0, e.status))
        .collect();
    assert_eq!(
        seen,
        vec![
            ("/tmp/r/a/f1".to_string(), PathStatus::Missing),
            ("/tmp/r/a".to_string(), PathStatus::Untagged),
            ("/tmp/r/a/new".to_string(), PathStatus::Untagged),
        ]
    );
}

#[test]
fn file_states() {
    let f = file(1, "a", "f");
    let same = FileStat {
        size: 100,
        mod_time: ModTime {
            secs: 10,
            nanos: 0,
            offset: 3600,
        },
        is_dir: false,
    };
    let other = FileStat {
        size: 100,
        mod_time: time(9),
        is_dir: false,
    };
    assert_eq!(
        tmsu::api::repair::check_state(&f, &Some(same)),
        FileState::Unmodified
    );
    assert_eq!(
        tmsu::api::repair::check_state(&f, &Some(other)),
        FileState::Modified
    );
    assert_eq!(tmsu::api::repair::check_state(&f, &None), FileState::Missing);
}

fn query_text(builder: &SqlBuilder) -> String {
    builder
        .sql()
        .split_whitespace()
        .collect::<Vec<&str>>()
        .join(" ")
}

#[test]
fn query_without_expression_selects_everything() {
    let builder = build_query(None, false, false, None, Some(FileSort::Id), &Vec::new());
    assert_eq!(
        query_text(&builder),
        "SELECT id, directory, name, fingerprint, mod_time, size, is_dir FROM file WHERE 1 == 1 ORDER BY id"
    );
    assert_eq!(builder.params(), Vec::<String>::new());
}

#[test]
fn query_for_explicit_tags_and_comparisons() {
    let tx = small_store();
    let builder = list_matching(
        &tx,
        "mp3 and not music = 2020",
        true,
        true,
        None,
        Some(FileSort::Name),
        &names(&["2020"]),
    )
    .unwrap();
    assert_eq!(
        query_text(&builder),
        "SELECT id, directory, name, fingerprint, mod_time, size, is_dir FROM file WHERE \
         id IN (SELECT file_id FROM file_tag WHERE tag_id = (SELECT id FROM tag WHERE name \
         COLLATE NOCASE = ? ) ) AND NOT \
         id IN (SELECT file_id FROM file_tag WHERE tag_id = (SELECT id FROM tag WHERE name \
         COLLATE NOCASE = ? ) AND value_id = (SELECT id FROM value WHERE name \
         COLLATE NOCASE = ? ) ) ORDER BY directory || '/' || name"
    );
    assert_eq!(builder.params(), names(&["mp3", "music", "2020"]));
}

#[test]
fn query_compares_numbers_as_numbers_and_turns_inequality_round() {
    let tx = small_store();
    let builder = list_matching(&tx, "music != 2020", false, false, None, None, &names(&["2020"]))
        .unwrap();
    let text = query_text(&builder);
    assert!(text.contains("WHERE NOT id IN (WITH RECURSIVE impft"));
    assert!(text.contains("WHERE t.name = ? AND CAST(v.name AS float) == ?"));
    let builder = list_matching(&tx, "music < 2020", false, false, None, None, &Vec::new())
        .unwrap();
    let text = query_text(&builder);
    assert!(text.contains("WHERE t.name = ? AND v.name < ?"));
    assert!(!text.contains("NOT"));
}

#[test]
fn query_names_must_be_known() {
    let tx = small_store();
    let none = Vec::new();
    assert_eq!(
        list_matching(&tx, "mp3 or jazz", false, false, None, None, &none).err(),
        Some(Error::NoSuchTag("jazz".to_string()))
    );
    assert_eq!(
        list_matching(&tx, "MP3", false, false, None, None, &none).err(),
        Some(Error::NoSuchTag("MP3".to_string()))
    );
    assert!(list_matching(&tx, "MP3", false, true, None, None, &none).is_ok());
    assert_eq!(
        list_matching(&tx, "music = 1999", false, false, None, None, &none).err(),
        Some(Error::NoSuchValue("1999".to_string()))
    );
    // values under other comparisons need not exist
    assert!(list_matching(&tx, "music > 1999", false, false, None, None, &none).is_ok());
    assert_eq!(
        list_matching(&tx, "mp3 (", false, false, None, None, &none).err(),
        Some(Error::QueryParsingError("mp3 (".to_string()))
    );
    assert!(list_matching(&tx, "   ", false, false, None, None, &none).is_ok());
}

#[test]
fn query_under_a_path() {
    let inside = scoped("sub/dir");
    let builder = build_query(None, false, false, Some(&inside), None, &Vec::new());
    assert!(query_text(&builder).ends_with(
        "WHERE 1 == 1 AND ( directory = ? OR directory LIKE ? OR (directory = ? AND name = ? ) )"
    ));
    assert_eq!(
        builder.params(),
        names(&["sub/dir", "sub/dir/%", "/tmp/r/sub", "dir"])
    );
    let root = scoped(".");
    let builder = build_query(None, false, false, Some(&root), None, &Vec::new());
    assert!(query_text(&builder).ends_with(
        "WHERE 1 == 1 AND ( directory NOT LIKE '/%' OR (directory = ? AND name = ? ) )"
    ));
    assert_eq!(builder.params(), names(&["/tmp", "r"]));
    let above = scoped("/tmp");
    let builder = build_query(None, false, false, Some(&above), None, &Vec::new());
    assert!(query_text(&builder).contains("OR directory LIKE ? OR directory NOT LIKE '/%'"));
}

#[test]
fn tags_are_listed_by_name_by_value_and_by_file() {
    let mut tx = small_store();
    tx.tags.push(tag(3, "Album"));
    tx.file_tags.push(row(1, 3, 1));
    let all = tmsu::api::tags::list_all_tags(&tx);
    assert_eq!(all.len(), 1);
    assert_eq!(all[0].value_name, None);
    assert_eq!(all[0].tag_names, names(&["Album", "mp3", "music"]));

    let by_value = tmsu::api::tags::list_tags_for_values(&tx, &names(&["2020"])).unwrap();
    assert_eq!(by_value.len(), 1);
    assert_eq!(by_value[0].value_name, Some("2020".to_string()));
    assert_eq!(by_value[0].tag_names, names(&["Album", "music"]));
    assert_eq!(
        tmsu::api::tags::list_tags_for_values(&tx, &names(&["1999"])).err(),
        Some(Error::NoSuchValue("1999".to_string()))
    );
    let none = tmsu::api::tags::list_tags_for_values(&tx, &Vec::new()).unwrap();
    assert_eq!(none[0].tag_names.len(), 3);

    let paths = vec![
        tmsu::api::tags::GivenPath {
            given: "b/f3".to_string(),
            scoped: scoped("b/f3"),
        },
        tmsu::api::tags::GivenPath {
            given: "nowhere".to_string(),
            scoped: scoped("nowhere"),
        },
        tmsu::api::tags::GivenPath {
            given: "./a/f1".to_string(),
            scoped: scoped("a/f1"),
        },
    ];
    let groups = tmsu::api::tags::list_tags_for_paths(&tx, &paths, false).unwrap();
    assert_eq!(groups.len(), 2);
    assert_eq!(groups[0].path, "b/f3");
    let shown: Vec<(String, Option<String>, bool, bool)> = groups[0]
        .tags
        .iter()
        .map(|t| (t.tag_name.clone(), t.value_name.clone(), t.explicit, t.implicit))
        .collect();
    assert_eq!(
        shown,
        vec![
            ("mp3".to_string(), None, true, false),
            ("music".to_string(), Some("2020".to_string()), true, false),
            ("music".to_string(), None, false, true),
        ]
    );
    assert_eq!(groups[1].path, "./a/f1");
    let explicit = tmsu::api::tags::list_tags_for_paths(&tx, &paths, true).unwrap();
    assert_eq!(explicit[1].tags.len(), 2);
    assert_eq!(explicit[1].tags[0].tag_name, "Album");

    tx.file_tags.push(row(2, 9, 0));
    assert_eq!(
        tmsu::api::tags::list_tags_for_paths(
            &tx,
            &vec![tmsu::api::tags::GivenPath {
                given: "a/f2".to_string(),
                scoped: scoped("a/f2"),
            }],
            true
        )
        .err(),
        Some(Error::UnknownTagId(9))
    );
}

#[test]
fn values_are_listed_by_name_and_by_tag() {
    let mut tx = small_store();
    tx.values.push(value(2, "1999"));
    tx.file_tags.push(row(1, 2, 2));
    let all = tmsu::api::values::run_values(&tx, &Vec::new()).unwrap();
    assert_eq!(all.value_groups.len(), 1);
    assert_eq!(all.value_groups[0].tag_name, None);
    assert_eq!(all.value_groups[0].value_names, names(&["1999", "2020"]));
    let by_tag = tmsu::api::values::run_values(&tx, &names(&["music", "mp3"])).unwrap();
    assert_eq!(by_tag.value_groups.len(), 2);
    assert_eq!(by_tag.value_groups[0].tag_name, Some("music".to_string()));
    assert_eq!(by_tag.value_groups[0].value_names, names(&["1999", "2020"]));
    assert_eq!(by_tag.value_groups[1].value_names, Vec::<String>::new());
    assert_eq!(
        tmsu::api::values::run_values(&tx, &names(&["jazz"])).err(),
        Some(Error::NoSuchTag("jazz".to_string()))
    );
}

#[test]
fn untagged_paths_are_those_without_a_file() {
    let tx = small_store();
    let found = vec![scoped("a"), scoped("a/f1"), scoped("a/new"), scoped("/else")];
    let untagged: Vec<String> = tmsu::api::untagged::list_untagged_for_paths(&tx, &found)
        .into_iter()
        .map(|p| p.0)
        .collect();
    assert_eq!(untagged, names(&["/tmp/r/a", "/tmp/r/a/new", "/else"]));
}

#[test]
fn tag_usage_counts_file_tags_by_tag() {
    let mut tx = small_store();
    tx.tags.push(tag(3, "Unused"));
    tx.tags.push(tag(4, "Album"));
    tx.file_tags.push(row(1, 4, 0));
    let usage: Vec<(u32, String, u32)> = tmsu::api::tags::tag_usage(&tx)
        .into_iter()
        .map(|c| (c.id.0, c.name, c.file_count))
        .collect();
    assert_eq!(
        usage,
        vec![
            (4, "Album".to_string(), 1),
            (1, "mp3".to_string(), 2),
            (2, "music".to_string(), 2),
        ]
    );
}

#[test]
fn tags_are_found_by_their_names() {
    let tx = small_store();
    assert_eq!(
        tmsu::api::tags::tags_by_names(&tx, &names(&["MUSIC", "mp3"]), false),
        vec![tag(1, "mp3")]
    );
    assert_eq!(
        tmsu::api::tags::tags_by_names(&tx, &names(&["MUSIC", "mp3"]), true),
        vec![tag(1, "mp3"), tag(2, "music")]
    );
    assert_eq!(
        tmsu::api::tags::tags_by_names(&tx, &Vec::new(), true),
        Vec::<Tag>::new()
    );
}

#[test]
fn rationalizing_removes_only_what_is_implied_anyway() {
    let mut tx = small_store();
    // F2 has music alone: nothing implies it there. F3 gets plain music,
    // which its mp3 implies, twice over.
    tx.file_tags.push(row(3, 2, 0));
    tx.files.push(file(4, "c", "f4"));
    tx.file_tags.push(row(4, 2, 0));
    let db_files = vec![file(2, "a", "f2"), file(3, "b", "f3"), file(9, "x", "none")];
    tmsu::api::repair::rationalize_file_tags(&mut tx, &db_files);
    assert_eq!(
        tx.file_tags,
        vec![row(1, 1, 0), row(2, 2, 0), row(3, 1, 0), row(3, 2, 1), row(4, 2, 0)]
    );
    assert_eq!(tx.files.len(), 4);
    // a file that is not listed keeps what is implied
    tx.file_tags.push(row(1, 2, 0));
    tmsu::api::repair::rationalize_file_tags(&mut tx, &db_files);
    assert_eq!(tx.file_tags.len(), 6);
    tmsu::api::repair::rationalize_file_tags(&mut tx, &vec![file(1, "a", "f1")]);
    assert_eq!(tx.file_tags.len(), 5);
    assert!(!tx.file_tags.contains(&row(1, 2, 0)));
}

#[test]
fn stored_settings_override_the_defaults_in_their_order() {
    let rows = vec![
        Setting {
            name: "fileFingerprintAlgorithm".to_string(),
            value: "MD5".to_string(),
        },
        Setting {
            name: "fileFingerprintAlgorithm".to_string(),
            value: "".to_string(),
        },
        Setting {
            name: "autoCreateValues".to_string(),
            value: "no".to_string(),
        },
        Setting {
            name: "autoCreateValues".to_string(),
            value: "TRUE".to_string(),
        },
        Setting {
            name: "symlinkFingerprintAlgorithm".to_string(),
            value: "targetName".to_string(),
        },
    ];
    let settings = get_all_settings(&rows);
    assert_eq!(settings.file_fingerprint_algorithm(), "MD5");
    assert!(settings.auto_create_values());
    assert!(settings.auto_create_tags());
    assert_eq!(settings.symlink_fingerprint_algorithm(), "targetName");
    assert_eq!(settings.directory_fingerprint_algorithm(), "none");
    let none = get_all_settings(&Vec::new());
    assert_eq!(none.file_fingerprint_algorithm(), "dynamic:SHA256");
}

#[test]
fn tag_data_comes_by_tag_name_and_fails_on_unknown_numbers() {
    let mut tx = small_store();
    tx.tags.push(tag(3, "Album"));
    tx.file_tags.push(row(3, 3, 0));
    let data = tmsu::api::tags::tag_data_by_file_id(&tx, &FileId(3), true).unwrap();
    let shown: Vec<(String, Option<String>)> = data
        .iter()
        .map(|t| (t.tag_name.clone(), t.value_name.clone()))
        .collect();
    assert_eq!(
        shown,
        vec![
            ("Album".to_string(), None),
            ("mp3".to_string(), None),
            ("music".to_string(), Some("2020".to_string())),
        ]
    );
    assert_eq!(
        tmsu::api::tags::tag_data_by_file_id(&tx, &FileId(77), false),
        Ok(Vec::new())
    );
    tx.file_tags.push(row(3, 1, 8));
    assert_eq!(
        tmsu::api::tags::tag_data_by_file_id(&tx, &FileId(3), true),
        Err(Error::UnknownValueId(8))
    );
    tx.file_tags.insert(0, row(3, 9, 8));
    assert_eq!(
        tmsu::api::tags::tag_data_by_file_id(&tx, &FileId(3), false),
        Err(Error::UnknownTagId(9))
    );
}
