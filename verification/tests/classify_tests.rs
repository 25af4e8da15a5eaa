use wallrot::cache::{MetaTable, Orientation, WallpaperMeta};
use wallrot::classify::{
    detect_orientation, has_allowed_extension, parse_dims, ClassifyState, FileCheck,
};

fn s(text: &str) -> String {
    String::from(text)
}

#[test]
fn filter_accepts_known_extensions() {
    assert!(has_allowed_extension(&s("/w/a.jpg")));
    assert!(has_allowed_extension(&s("/w/a.jpeg")));
    assert!(has_allowed_extension(&s("/w/a.png")));
    assert!(has_allowed_extension(&s("/w/a.webp")));
    assert!(has_allowed_extension(&s("/w/a.jxl")));
    assert!(has_allowed_extension(&s("/w/a.JPG")));
    assert!(has_allowed_extension(&s("/w/a.JpEg")));
    assert!(has_allowed_extension(&s("/w/a.PNG")));
}

#[test]
fn filter_rejects_other_files() {
    assert!(!has_allowed_extension(&s("/w/readme.txt")));
    assert!(!has_allowed_extension(&s("/w/a.jpgx")));
    assert!(!has_allowed_extension(&s("jpg")));
    assert!(!has_allowed_extension(&s("/w/a.svg")));
    assert!(!has_allowed_extension(&s("")));
    assert!(!has_allowed_extension(&s("/w/a.gif")));
}

#[test]
fn parse_dims_reads_two_numbers() {
    assert_eq!(parse_dims("3840 2160"), Some((3840, 2160)));
    assert_eq!(parse_dims("  1920 \t 1080  trailing"), Some((1920, 1080)));
    assert_eq!(parse_dims("1 1"), Some((1, 1)));
    assert_eq!(parse_dims("4294967295 1"), Some((4294967295, 1)));
}

#[test]
fn parse_dims_rejects_bad_output() {
    assert_eq!(parse_dims(""), None);
    assert_eq!(parse_dims("100"), None);
    assert_eq!(parse_dims("12a 5"), None);
    assert_eq!(parse_dims("4294967296 1"), None);
    assert_eq!(parse_dims("-3 5"), None);
}

#[test]
fn orientation_from_probe_output() {
    assert_eq!(detect_orientation(Some("200 100")), Orientation::Landscape);
    assert_eq!(detect_orientation(Some("100 200")), Orientation::Portrait);
    // a tie counts as landscape
    assert_eq!(detect_orientation(Some("128 128")), Orientation::Landscape);
    assert_eq!(detect_orientation(Some("junk")), Orientation::Unknown);
    assert_eq!(detect_orientation(None), Orientation::Unknown);
}

#[test]
fn classifier_ignores_non_matching_files() {
    let mut st = ClassifyState::begin(MetaTable::new());
    let txt = s("/w/readme.txt");
    assert_eq!(st.check_file(&txt, Some(5)), FileCheck::NotImage);
    assert!(st.landscape.is_empty());
    assert!(st.portrait.is_empty());
    assert!(st.seen.is_empty());
    st.finish();
    assert_eq!(st.table.entries().len(), 0);
    assert_eq!(st.table.lookup(&txt), None);
}

#[test]
fn cache_hit_reuses_stored_orientation() {
    let mut table = MetaTable::new();
    let a = s("/w/a.jpg");
    table.insert(
        &a,
        WallpaperMeta { orientation: Orientation::Landscape, mtime: 10 },
    );
    let mut st = ClassifyState::begin(table);
    // the stored mtime matches: no probe is requested
    assert_eq!(
        st.check_file(&a, Some(10)),
        FileCheck::Cached(Orientation::Landscape)
    );
    assert_eq!(
        st.table.lookup(&a),
        Some(WallpaperMeta { orientation: Orientation::Landscape, mtime: 10 })
    );
    assert_eq!(st.landscape, vec![a.clone()]);
    assert!(st.portrait.is_empty());
}

#[test]
fn changed_mtime_forces_probe() {
    let mut table = MetaTable::new();
    let a = s("/w/a.jpg");
    table.insert(
        &a,
        WallpaperMeta { orientation: Orientation::Landscape, mtime: 10 },
    );
    let mut st = ClassifyState::begin(table);
    assert_eq!(st.check_file(&a, Some(11)), FileCheck::NeedsProbe);
    // the file was replaced by a taller one
    st.apply_probe(&a, 11, Some((100, 300)));
    assert_eq!(
        st.table.lookup(&a),
        Some(WallpaperMeta { orientation: Orientation::Portrait, mtime: 11 })
    );
    assert_eq!(st.portrait, vec![a.clone()]);
    assert!(st.landscape.is_empty());
}

#[test]
fn unreadable_mtime_skips_classification() {
    let mut st = ClassifyState::begin(MetaTable::new());
    let a = s("/w/a.jpg");
    assert_eq!(st.check_file(&a, None), FileCheck::NoMtime);
    assert!(st.landscape.is_empty());
    assert!(st.portrait.is_empty());
    // the file still counts as seen, so a stale entry for it would survive
    assert_eq!(st.seen, vec![a.clone()]);
}

#[test]
fn failed_probe_is_not_recorded() {
    let mut st = ClassifyState::begin(MetaTable::new());
    let a = s("/w/a.jpg");
    assert_eq!(st.check_file(&a, Some(3)), FileCheck::NeedsProbe);
    st.apply_probe(&a, 3, None);
    assert_eq!(st.table.lookup(&a), None);
    assert!(st.landscape.is_empty());
    assert!(st.portrait.is_empty());
    // the next run must probe again
    let mut again = ClassifyState::begin(MetaTable::new());
    assert_eq!(again.check_file(&a, Some(3)), FileCheck::NeedsProbe);
}

#[test]
fn pruning_drops_paths_the_scan_missed() {
    let mut table = MetaTable::new();
    let a = s("/w/a.jpg");
    let b = s("/w/b.jpg");
    table.insert(
        &a,
        WallpaperMeta { orientation: Orientation::Landscape, mtime: 1 },
    );
    table.insert(
        &b,
        WallpaperMeta { orientation: Orientation::Portrait, mtime: 2 },
    );
    let mut st = ClassifyState::begin(table);
    // only a.jpg still exists
    assert_eq!(
        st.check_file(&a, Some(1)),
        FileCheck::Cached(Orientation::Landscape)
    );
    st.finish();
    assert_eq!(
        st.table.lookup(&a),
        Some(WallpaperMeta { orientation: Orientation::Landscape, mtime: 1 })
    );
    assert_eq!(st.table.lookup(&b), None);
    assert_eq!(st.table.entries().len(), 1);
}

#[test]
fn insert_overwrites_in_place() {
    let mut table = MetaTable::new();
    let a = s("/w/a.jpg");
    let b = s("/w/b.png");
    table.insert(
        &a,
        WallpaperMeta { orientation: Orientation::Landscape, mtime: 1 },
    );
    table.insert(
        &b,
        WallpaperMeta { orientation: Orientation::Portrait, mtime: 9 },
    );
    table.insert(
        &a,
        WallpaperMeta { orientation: Orientation::Portrait, mtime: 2 },
    );
    assert_eq!(
        table.lookup(&a),
        Some(WallpaperMeta { orientation: Orientation::Portrait, mtime: 2 })
    );
    assert_eq!(
        table.lookup(&b),
        Some(WallpaperMeta { orientation: Orientation::Portrait, mtime: 9 })
    );
    assert_eq!(table.entries().len(), 2);
}
