use wallrot::blur::{blur_cache_path, blur_decision, BlurAction};
use wallrot::cache::MetaTable;
use wallrot::classify::{ClassifyState, FileCheck};
use wallrot::numtext::{format_index, parse_index};
use wallrot::rotate::{plan_rotation, select_wallpaper, MonitorInfo, RotationState};

fn s(text: &str) -> String {
    String::from(text)
}

#[test]
fn rotation_selects_by_index_modulo_length() {
    // list of size 3, starting index 5: item list[5 % 3] = list[2], then 6
    let landscape = vec![s("/w/a.jpg"), s("/w/b.jpg"), s("/w/c.jpg")];
    let portrait: Vec<String> = Vec::new();
    let mut state = RotationState { landscape_index: 5, portrait_index: 0 };
    let picked = select_wallpaper(&mut state, 0, &landscape, &portrait);
    assert_eq!(picked, Some(s("/w/c.jpg")));
    assert_eq!(state.landscape_index, 6);
    assert_eq!(state.portrait_index, 0);
}

#[test]
fn empty_list_skips_and_keeps_index() {
    let landscape: Vec<String> = Vec::new();
    let portrait: Vec<String> = Vec::new();
    let mut state = RotationState { landscape_index: 7, portrait_index: 9 };
    assert_eq!(select_wallpaper(&mut state, 0, &landscape, &portrait), None);
    assert_eq!(select_wallpaper(&mut state, 1, &landscape, &portrait), None);
    assert_eq!(state.landscape_index, 7);
    assert_eq!(state.portrait_index, 9);
}

#[test]
fn odd_transform_draws_from_portrait() {
    let landscape = vec![s("/w/wide.jpg")];
    let portrait = vec![s("/w/tall1.jpg"), s("/w/tall2.jpg")];
    let mut state = RotationState { landscape_index: 0, portrait_index: 3 };
    let picked = select_wallpaper(&mut state, 3, &landscape, &portrait);
    assert_eq!(picked, Some(s("/w/tall2.jpg")));
    assert_eq!(state.portrait_index, 4);
    assert_eq!(state.landscape_index, 0);
}

#[test]
fn scenario_two_landscape_one_portrait_two_monitors() {
    // classify 2 landscape files and 1 portrait file, all freshly probed
    let mut st = ClassifyState::begin(MetaTable::new());
    let l1 = s("/w/l1.jpg");
    let l2 = s("/w/l2.png");
    let p1 = s("/w/p1.jpg");
    assert_eq!(st.check_file(&l1, Some(1)), FileCheck::NeedsProbe);
    st.apply_probe(&l1, 1, Some((200, 100)));
    assert_eq!(st.check_file(&l2, Some(2)), FileCheck::NeedsProbe);
    st.apply_probe(&l2, 2, Some((300, 200)));
    assert_eq!(st.check_file(&p1, Some(3)), FileCheck::NeedsProbe);
    st.apply_probe(&p1, 3, Some((100, 300)));
    st.finish();
    assert_eq!(st.landscape, vec![l1.clone(), l2.clone()]);
    assert_eq!(st.portrait, vec![p1.clone()]);

    // two monitors: an even and an odd transform
    let monitors = vec![
        MonitorInfo { name: s("DP-1"), transform: 0 },
        MonitorInfo { name: s("HDMI-1"), transform: 1 },
    ];
    let mut state = RotationState { landscape_index: 0, portrait_index: 5 };
    let plan = plan_rotation(&monitors, &st.landscape, &st.portrait, &mut state);
    assert_eq!(plan.len(), 2);
    assert_eq!(plan[0].monitor, s("DP-1"));
    assert_eq!(plan[0].wallpaper, Some(l1.clone()));
    assert_eq!(plan[1].monitor, s("HDMI-1"));
    // the sole portrait image is picked whatever the counter reads
    assert_eq!(plan[1].wallpaper, Some(p1.clone()));
    assert_eq!(state.landscape_index, 1);
    // the portrait counter advances even though only one portrait exists
    assert_eq!(state.portrait_index, 6);
}

#[test]
fn scenario_empty_directory_changes_nothing() {
    let mut st = ClassifyState::begin(MetaTable::new());
    st.finish();
    assert!(st.landscape.is_empty());
    assert!(st.portrait.is_empty());
    assert_eq!(st.table.entries().len(), 0);

    let monitors = vec![
        MonitorInfo { name: s("DP-1"), transform: 0 },
        MonitorInfo { name: s("HDMI-1"), transform: 1 },
    ];
    // with nothing to hand out, even a counter at the limit stays put
    let mut state = RotationState { landscape_index: u64::MAX, portrait_index: 9 };
    let plan = plan_rotation(&monitors, &st.landscape, &st.portrait, &mut state);
    assert_eq!(plan.len(), 2);
    assert_eq!(plan[0].wallpaper, None);
    assert_eq!(plan[1].wallpaper, None);
    assert_eq!(state.landscape_index, u64::MAX);
    assert_eq!(state.portrait_index, 9);
}

#[test]
fn index_text_round_trips() {
    assert_eq!(parse_index(&format_index(0)), 0);
    assert_eq!(parse_index(&format_index(6)), 6);
    assert_eq!(parse_index(&format_index(1234567890)), 1234567890);
    assert_eq!(parse_index(&format_index(u64::MAX)), u64::MAX);
}

#[test]
fn format_index_writes_plain_decimal() {
    assert_eq!(format_index(0), s("0"));
    assert_eq!(format_index(7), s("7"));
    assert_eq!(format_index(120), s("120"));
    assert_eq!(format_index(18446744073709551615), s("18446744073709551615"));
}

#[test]
fn unreadable_index_text_reads_as_zero() {
    assert_eq!(parse_index(""), 0);
    assert_eq!(parse_index("   "), 0);
    assert_eq!(parse_index("abc"), 0);
    assert_eq!(parse_index("-1"), 0);
    assert_eq!(parse_index("12x"), 0);
    // one past u64::MAX
    assert_eq!(parse_index("18446744073709551616"), 0);
}

#[test]
fn index_text_tolerates_surrounding_whitespace() {
    assert_eq!(parse_index("42\n"), 42);
    assert_eq!(parse_index(" 7 "), 7);
    assert_eq!(parse_index("\t19\r\n"), 19);
}

#[test]
fn blur_skips_when_fresh() {
    // equal times count as fresh: a just-written derivative is kept
    assert_eq!(blur_decision(Some(5), true, Some(5)), BlurAction::SkipFresh);
    assert_eq!(blur_decision(Some(5), true, Some(7)), BlurAction::SkipFresh);
}

#[test]
fn blur_second_call_after_generation_is_a_no_op() {
    // first call: no derivative yet, so it is produced
    assert_eq!(
        blur_decision(Some(5), false, None),
        BlurAction::Regenerate { create_parent: true }
    );
    // second call with the source unchanged: the derivative is newer, skip
    assert_eq!(blur_decision(Some(5), true, Some(6)), BlurAction::SkipFresh);
}

#[test]
fn blur_regenerates_after_source_touch() {
    // the derivative exists, then the source's mtime moves past it
    assert_eq!(blur_decision(Some(5), true, Some(6)), BlurAction::SkipFresh);
    assert_eq!(
        blur_decision(Some(8), true, Some(6)),
        BlurAction::Regenerate { create_parent: false }
    );
}

#[test]
fn blur_handles_unreadable_times() {
    assert_eq!(blur_decision(None, true, Some(9)), BlurAction::SkipMissingSource);
    // an unreadable derivative time counts as maximally stale, whatever
    // the source's time reads
    assert_eq!(
        blur_decision(Some(1), true, None),
        BlurAction::Regenerate { create_parent: false }
    );
    assert_eq!(
        blur_decision(Some(0), true, None),
        BlurAction::Regenerate { create_parent: false }
    );
}

#[test]
fn blur_cache_path_hashes_the_source_path() {
    let source = s("/w/a.jpg");
    let expected = format!(
        "/tmp/hyprlock-cache/{}.png",
        blake3::hash("/w/a.jpg".as_bytes()).to_hex()
    );
    assert_eq!(blur_cache_path(&source), expected);
}

#[test]
fn blur_cache_paths_differ_per_source() {
    let one = blur_cache_path(&s("/w/a.jpg"));
    let two = blur_cache_path(&s("/w/b.jpg"));
    assert_ne!(one, two);
    assert!(one.starts_with("/tmp/hyprlock-cache/"));
    assert!(one.ends_with(".png"));
}
