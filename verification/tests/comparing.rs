use geminus::diff::content::{compare_contents, probed, ContentRead, Digest, Probe, Reading};
use geminus::diff::levels::{level2, link_targets_match, DiffRun};
use geminus::diff::paths::PathMap;
use geminus::diff::scan::{ScanTree, Seen};
use geminus::diff::tree::{build_tree, DiffNode};
use geminus::diff::watch::{compute_hash_timeout, watch_report, Watch, Watchdog};
use geminus::diff::{
    compare_paths, is_excluded_dir, mode_to_str, same_device, start_compare, CompareMode,
    CompareStage, DiffStatus, HashError, ProgressPhase, ScannedFile,
};
use geminus::sys::System;

fn file(size: u64, modified: i64) -> ScannedFile {
    ScannedFile { is_dir: false, is_symlink: false, hidden: false, size, modified }
}

fn dir() -> ScannedFile {
    ScannedFile { is_dir: true, is_symlink: false, hidden: false, size: 0, modified: 0 }
}

fn link() -> ScannedFile {
    ScannedFile { is_dir: false, is_symlink: true, hidden: false, size: 3, modified: 0 }
}

fn table(list: &[(&str, ScannedFile)]) -> PathMap<ScannedFile> {
    PathMap::new(&list.iter().map(|(p, f)| (p.to_string(), *f)).collect())
}

fn digest(bytes: &[u8]) -> Reading {
    let read = ContentRead::open(true).unwrap();
    let read = match read.next(false, Some(bytes)) {
        Ok(r) => r,
        Err(end) => return end,
    };
    match read.next(false, Some(&[])) {
        Ok(_) => panic!("the file was read to its end"),
        Err(end) => end,
    }
}

#[test]
fn a_table_keeps_the_last_entry_and_its_order() {
    let t = PathMap::new(&vec![
        ("b".to_string(), 1),
        ("a".to_string(), 2),
        ("b".to_string(), 3),
        ("a/c".to_string(), 4),
    ]);
    assert_eq!(t.len(), 3);
    assert_eq!((t.key_at(0).as_str(), t.value_at(0)), ("a", 2));
    assert_eq!((t.key_at(1).as_str(), t.value_at(1)), ("a/c", 4));
    assert_eq!((t.key_at(2).as_str(), t.value_at(2)), ("b", 3));
    assert_eq!(t.get("b"), Some(3));
    assert_eq!(t.get("x"), None);
    assert_eq!(t.find("a/c"), Some(1));
    let many: Vec<(String, usize)> = (0..300).map(|i| (format!("k{}", (i * 7) % 300), i)).collect();
    let t = PathMap::new(&many);
    for (k, v) in &many {
        assert_eq!(t.get(k), Some(*v));
    }
}

fn seen(name: &str, rel: &str, is_dir: bool) -> Seen<String> {
    Seen {
        is_dir,
        is_symlink: false,
        hidden: false,
        size: 5,
        modified: Some(7),
        name: Some(name.to_string()),
        os_rel: Some(rel.to_string()),
        path: format!("/r/{}", rel),
    }
}

#[test]
fn a_side_is_gone_through_without_litter() {
    let mut scan = ScanTree::new(System::Linux, ProgressPhase::ScanA, "/r", 0, 0);
    assert!(scan.has_room());
    assert_eq!(scan.next_dir(), Some("/r"));
    assert!(scan.entry("/r/sub", seen("sub", "sub", true)).is_none());
    scan.entry("/r/f", seen("f", "f", false));
    scan.entry("/r/part", seen(".geminus-part-1-2", ".geminus-part-1-2", false));
    scan.entry("/r/node_modules", seen("node_modules", "node_modules", true));
    scan.entry("/r/empty", seen("", "", false));
    let mut outside = seen("x", "x", true);
    outside.os_rel = None;
    scan.entry("/x", outside);
    scan.failed();
    assert_eq!(scan.next_dir(), Some("/r/sub"));
    assert_eq!(scan.next_dir(), None);
    assert_eq!((scan.count, scan.errors, scan.excluded), (2, 1, 1));
    let (map, report) = scan.finish("/r");
    assert_eq!(map.len(), 2);
    assert_eq!(map.get("sub").unwrap().size, 0);
    assert_eq!(map.get("f"), Some(file(5, 7)));
    assert_eq!((report.phase.name(), report.count, report.total), ("scan_a", 2, 2));
    assert_eq!(report.current_path, "/r");
}

#[test]
fn around_every_listed_position_a_folder_is_listed() {
    let mut scan = ScanTree::new(System::Linux, ProgressPhase::ScanA, "", 0, 0);
    let tree = [
        ("", vec![("a", true, false), ("l", false, true), ("target", true, false)]),
        ("a", vec![("b", true, false), ("f", false, false)]),
        ("a/b", vec![("g", false, false)]),
    ];
    for (dir, entries) in tree {
        assert_eq!(scan.next_dir(), Some(dir));
        for (name, is_dir, is_symlink) in entries {
            let rel = if dir.is_empty() { name.to_string() } else { format!("{}/{}", dir, name) };
            let mut what = seen(name, &rel, is_dir);
            what.is_symlink = is_symlink;
            let place = match rel.as_str() {
                "a" => "a",
                "a/b" => "a/b",
                _ => "?",
            };
            scan.entry(place, what);
        }
    }
    assert_eq!(scan.next_dir(), None);
    let (map, _) = scan.finish("");
    assert_eq!(map.len(), 5);
    for i in 0..map.len() {
        let key = map.key_at(i).clone();
        assert!(!key.is_empty());
        if let Some(cut) = key.rfind('/') {
            let above = map.get(&key[..cut]).unwrap();
            assert!(above.is_dir && !above.is_symlink && above.size == 0);
        }
    }
}

#[test]
fn a_scan_reports_every_five_hundred_items() {
    let mut scan = ScanTree::new(System::Windows, ProgressPhase::ScanB, 0, 0, 0);
    let mut reports = 0;
    for i in 0..1000 {
        let name = format!("f{}", i);
        if let Some(p) = scan.entry(0, seen(&name, &format!("d\\{}", name), false)) {
            reports += 1;
            assert_eq!((p.phase.name(), p.count, p.total), ("scan_b", reports * 500, 0));
        }
    }
    assert_eq!(reports, 2);
    let (map, _) = scan.finish("r");
    assert!(map.get("d/f7").is_some());
}

#[test]
fn times_that_do_not_fit_come_round() {
    let mut scan = ScanTree::new(System::Linux, ProgressPhase::ScanA, 0, 0, 0);
    let mut odd = seen("a", "a", false);
    odd.modified = Some(u64::MAX);
    scan.entry(0, odd);
    let mut none = seen("b", "b", false);
    none.modified = None;
    scan.entry(0, none);
    let (map, _) = scan.finish("");
    assert_eq!(map.get("a").unwrap().modified, -1);
    assert_eq!(map.get("b").unwrap().modified, 0);
}

#[test]
fn folders_that_are_left_out() {
    for name in [".git", ".rustup", ".cargo", "node_modules", "target", "__pycache__", ".venv",
                 ".cache", "Trash", ".Trash-1000"] {
        assert!(is_excluded_dir(System::Linux, name));
    }
    assert!(!is_excluded_dir(System::Linux, "trash"));
    assert!(!is_excluded_dir(System::Linux, ".Trash"));
    assert!(!is_excluded_dir(System::Linux, "$RECYCLE.BIN"));
    assert!(is_excluded_dir(System::Windows, "$recycle.bin"));
}

#[test]
fn what_the_second_level_says() {
    let same = Some(DiffStatus::Same);
    let diff = Some(DiffStatus::Diff);
    assert_eq!(level2(&file(1, 10), &file(1, 12), false), None);
    assert_eq!(level2(&file(1, 10), &file(1, 8), false), None);
    assert_eq!(level2(&file(1, 10), &file(1, 13), false), diff);
    assert_eq!(level2(&file(1, 10), &file(2, 10), false), diff);
    assert_eq!(level2(&file(1, i64::MIN), &file(1, i64::MAX), false), diff);
    assert_eq!(level2(&dir(), &dir(), false), same);
    assert_eq!(level2(&dir(), &file(0, 0), false), diff);
    assert_eq!(level2(&link(), &link(), true), same);
    assert_eq!(level2(&link(), &link(), false), diff);
    assert_eq!(level2(&link(), &file(3, 0), true), diff);
    assert!(link_targets_match(Some(true)));
    assert!(!link_targets_match(Some(false)));
    assert!(!link_targets_match(None));
}

fn run(mode: CompareMode) -> DiffRun {
    let a = table(&[
        ("dir", dir()),
        ("dir/same", file(4, 100)),
        ("dir/time", file(4, 100)),
        ("gone", file(1, 1)),
        ("link", link()),
    ]);
    let b = table(&[
        ("dir", dir()),
        ("dir/new", file(9, 9)),
        ("dir/same", file(4, 101)),
        ("dir/time", file(4, 200)),
        ("link", link()),
    ]);
    let mut run = DiffRun::new(a, b, mode);
    let mut links = Vec::new();
    while run.more_a() {
        if run.is_link_pair() {
            links.push(run.key_a().clone());
        }
        run = run.step_a(true).0;
    }
    assert_eq!(links, vec!["link".to_string()]);
    while run.more_b() {
        run = run.step_b();
    }
    run.settle_fast()
}

#[test]
fn a_fast_comparison_reads_nothing() {
    let done = run(CompareMode::Fast);
    assert!(done.is_complete());
    assert!(done.last_report(0).is_none());
    let found = done.finish();
    assert_eq!(found.statuses.len(), 6);
    assert_eq!(found.statuses.get("dir"), Some(DiffStatus::Same));
    assert_eq!(found.statuses.get("dir/same"), Some(DiffStatus::Same));
    assert_eq!(found.statuses.get("dir/time"), Some(DiffStatus::Diff));
    assert_eq!(found.statuses.get("dir/new"), Some(DiffStatus::OnlyB));
    assert_eq!(found.statuses.get("gone"), Some(DiffStatus::OnlyA));
    assert_eq!(found.statuses.get("link"), Some(DiffStatus::Same));
    assert_eq!((found.unreadable, found.aborted), (0, 0));
}

#[test]
fn a_deep_comparison_reads_the_content() {
    let pending = run(CompareMode::Deep);
    assert!(!pending.is_complete());
    assert_eq!(pending.bytes_total(), 8);
    let (pending, next) = pending.next_content(0);
    assert_eq!(next, Some(("dir/same".to_string(), 4)));
    let (done, report) = pending.content(digest(b"abcd"), digest(b"abcx"), 8);
    assert!(report.is_none());
    let (done, next) = done.next_content(0);
    assert!(next.is_none());
    let last = done.last_report(8).unwrap();
    assert_eq!((last.phase.name(), last.count, last.total, last.bytes_total), ("diff_l3", 1, 1, 8));
    assert_eq!(last.current_path, "dir/same");
    assert_eq!(done.finish().statuses.get("dir/same"), Some(DiffStatus::Diff));
}

#[test]
fn what_cannot_be_read_is_not_called_different() {
    let (pending, _) = run(CompareMode::Deep).next_content(7);
    let (done, _) = pending.content(digest(b"abcd"), Err(HashError::Timeout), 0);
    let found = done.finish();
    assert_eq!(found.statuses.get("dir/same"), Some(DiffStatus::Unreadable));
    assert_eq!((found.unreadable, found.aborted), (1, 0));
}

#[test]
fn a_disk_that_does_not_answer_is_given_up() {
    let (done, next) = run(CompareMode::Deep).next_content(8);
    assert!(next.is_none());
    assert!(done.is_complete());
    let found = done.finish();
    assert_eq!(found.statuses.get("dir/same"), Some(DiffStatus::Unreadable));
    assert_eq!((found.unreadable, found.aborted), (0, 1));
}

#[test]
fn progress_of_both_levels() {
    let list: Vec<(String, ScannedFile)> =
        (0..1200).map(|i| (format!("f{:04}", i), file(2, 0))).collect();
    let mut run = DiffRun::new(PathMap::new(&list), PathMap::new(&list), CompareMode::Deep);
    let mut reports = Vec::new();
    while run.more_a() {
        let (next, report) = run.step_a(false);
        run = next;
        if let Some(p) = report {
            assert_eq!((p.phase.name(), p.total), ("diff_l2", 1200));
            reports.push(p.count);
        }
    }
    assert_eq!(reports, vec![500, 1000]);
    while run.more_b() {
        run = run.step_b();
    }
    let same = digest(b"ab");
    let mut reports = Vec::new();
    loop {
        let (next, wanted) = run.next_content(0);
        run = next;
        if wanted.is_none() {
            break;
        }
        let (next, report) = run.content(same, same, 4);
        run = next;
        if let Some(p) = report {
            assert_eq!((p.total, p.bytes_done, p.bytes_total), (1200, 4, 4800));
            reports.push(p.count);
        }
    }
    assert_eq!(reports.len(), 24);
    assert_eq!(reports[0], 50);
    let found = run.finish();
    assert_eq!(found.statuses.get("f0007"), Some(DiffStatus::Same));
}

#[test]
fn too_many_bytes_to_count_stay_at_the_highest_number() {
    let list = vec![("a".to_string(), file(u64::MAX, 0)), ("b".to_string(), file(1, 0))];
    let mut run = DiffRun::new(PathMap::new(&list), PathMap::new(&list), CompareMode::Deep);
    while run.more_a() {
        run = run.step_a(false).0;
    }
    assert_eq!(run.bytes_total(), u64::MAX);
}

#[test]
fn contents_are_told_apart_by_their_digest() {
    let d: Digest = digest(b"abc").unwrap();
    assert_eq!(
        &d.bytes[..8],
        &[0x64, 0x37, 0xb3, 0xac, 0x38, 0x46, 0x51, 0x33]
    );
    assert_eq!(d.bytes, *blake3::hash(b"abc").as_bytes());
    let read = ContentRead::open(true).unwrap();
    assert_eq!(read.len(), 0);
    let read = read.next(false, Some(b"a")).ok().unwrap();
    let read = read.next(false, Some(b"bc")).ok().unwrap();
    assert_eq!(read.len(), 3);
    let whole = match read.next(false, Some(b"")) {
        Err(end) => end,
        Ok(_) => panic!("the file was read to its end"),
    };
    assert_eq!(compare_contents(&whole, &digest(b"abc")), DiffStatus::Same);
    assert_eq!(compare_contents(&whole, &digest(b"abd")), DiffStatus::Diff);
    assert_eq!(compare_contents(&whole, &Err(HashError::Failed)), DiffStatus::Unreadable);
    assert_eq!(compare_contents(&Err(HashError::Timeout), &whole), DiffStatus::Unreadable);
}

#[test]
fn a_reading_that_breaks_off_has_failed() {
    assert!(matches!(ContentRead::open(false), Err(HashError::Failed)));
    let read = ContentRead::open(true).unwrap();
    assert!(matches!(read.next(true, Some(b"x")), Err(Err(HashError::Failed))));
    let read = ContentRead::open(true).unwrap();
    assert!(matches!(read.next(false, None), Err(Err(HashError::Failed))));
    assert_eq!(probed(Probe::Ready), Ok(()));
    assert_eq!(probed(Probe::Refused), Err((HashError::Failed, false)));
    assert_eq!(probed(Probe::Gone), Err((HashError::Failed, false)));
    assert_eq!(probed(Probe::Silent), Err((HashError::Timeout, true)));
}

const SEC: u64 = 1_000_000_000;

#[test]
fn a_file_gets_time_by_its_size() {
    assert_eq!(compute_hash_timeout(0), 30);
    assert_eq!(compute_hash_timeout(5 * 1024 * 1024 - 1), 30);
    assert_eq!(compute_hash_timeout(5 * 1024 * 1024), 31);
    assert_eq!(compute_hash_timeout(100 * 5 * 1024 * 1024), 130);
    assert_eq!(compute_hash_timeout(u64::MAX), 7200);
}

#[test]
fn a_reader_that_stands_still_is_reported_and_given_up() {
    let mut w = Watchdog::new(0);
    assert!(w.is_at(0));
    assert_eq!(w.look(SEC, 1), Watch::Report);
    assert_eq!(w.look(2 * SEC, 2), Watch::Wait);
    assert_eq!(w.look(3 * SEC + 1, 3), Watch::Report);
    assert_eq!(w.look(8 * SEC, 3), Watch::Wait);
    assert_eq!(w.look(8 * SEC + 2, 3), Watch::Stalled);
    assert_eq!(w.look(9 * SEC, 3), Watch::Wait);
    assert_eq!(w.look(10 * SEC + 3, 3), Watch::Stalled);
    assert_eq!(w.look(18 * SEC + 1, 3), Watch::Stalled);
    assert_eq!(w.look(18 * SEC + 2, 3), Watch::GiveUp);
    assert!(!w.is_at(0));
}

#[test]
fn a_reader_is_given_up_when_its_time_is_over() {
    let mut w = Watchdog::new(0);
    for i in 1..=30 {
        assert_ne!(w.look(i * SEC, i), Watch::GiveUp);
    }
    assert_eq!(w.look(30 * SEC + 1, 31), Watch::GiveUp);
    assert!(watch_report(Watch::Wait, "p", 1, 2).is_none());
    assert!(watch_report(Watch::GiveUp, "p", 1, 2).is_none());
    let p = watch_report(Watch::Report, "p", 1, 2).unwrap();
    assert_eq!((p.phase.name(), p.count, p.bytes_done, p.bytes_total), ("diff_l3", 0, 1, 2));
    assert_eq!(watch_report(Watch::Stalled, "p", 1, 2).unwrap().phase.name(), "diff_l3_stalled");
}

fn names(nodes: &[DiffNode]) -> Vec<&str> {
    nodes.iter().map(|n| n.n.as_str()).collect()
}

#[test]
fn the_tree_shows_differences_all_the_way_up() {
    let found = run(CompareMode::Fast).finish();
    let tree = build_tree(&found.a, &found.b, &found.statuses);
    assert_eq!(names(&tree), vec!["dir", "gone", "link"]);
    assert_eq!((tree[0].t, tree[0].s), ('d', DiffStatus::Diff));
    assert_eq!(names(&tree[0].ch), vec!["new", "same", "time"]);
    assert_eq!((tree[0].ch[0].s, tree[0].ch[0].size_a, tree[0].ch[0].size_b), (DiffStatus::OnlyB, None, Some(9)));
    assert_eq!((tree[0].size_a, tree[0].size_b), (None, None));
    assert_eq!((tree[2].link_a, tree[2].link_b, tree[2].t), (true, true, 'f'));
    let whole = compare_paths(&found, 3, 4, CompareMode::Fast);
    assert_eq!((whole.total_a, whole.total_b, whole.errors, whole.excluded), (5, 5, 3, 4));
    assert_eq!((whole.unreadable, whole.aborted, whole.mode.as_str()), (0, 0, "fast"));
    assert_eq!(names(&whole.tree), vec!["dir", "gone", "link"]);
}

fn statuses(list: &[(&str, DiffStatus)]) -> PathMap<DiffStatus> {
    PathMap::new(&list.iter().map(|(p, s)| (p.to_string(), *s)).collect())
}

#[test]
fn the_tree_is_ordered_like_a_file_manager() {
    let a = table(&[("b", dir()), ("B", dir()), ("a", dir()), ("B/x", file(1, 1)), ("b/x", file(1, 1))]);
    let s = statuses(&[
        ("b", DiffStatus::Same),
        ("B", DiffStatus::Same),
        ("a", DiffStatus::Same),
        ("B/x", DiffStatus::Same),
        ("b/x", DiffStatus::Diff),
    ]);
    let tree = build_tree(&a, &a, &s);
    assert_eq!(names(&tree), vec!["a", "B", "b"]);
    assert_eq!(tree[1].s, DiffStatus::Same);
    assert_eq!(tree[2].s, DiffStatus::Diff);
    assert_eq!(tree[2].ch.len(), 1);
}

#[test]
fn what_a_listed_folder_holds_is_shown_in_it() {
    let inside = ["\u{130}/x", "\u{130}", "A\u{3a3}/b", "A\u{3a3}", "a\u{3c3}", "k-", "K/a", "K"];
    let found: Vec<(&str, ScannedFile)> =
        inside.iter().map(|p| (*p, if p.contains('/') { file(1, 1) } else { dir() })).collect();
    let same: Vec<(&str, DiffStatus)> = inside.iter().map(|p| (*p, DiffStatus::Same)).collect();
    let a = table(&found);
    let tree = build_tree(&a, &a, &statuses(&same));
    assert_eq!(tree.len(), 5);
    for node in &tree {
        let holds = matches!(node.n.as_str(), "\u{130}" | "A\u{3a3}" | "K");
        assert_eq!(node.ch.len(), if holds { 1 } else { 0 });
    }
}

#[test]
fn a_one_sided_folder_keeps_its_status() {
    let a = table(&[("d", dir()), ("d/x", file(1, 1))]);
    let b = table(&[]);
    let s = statuses(&[("d", DiffStatus::OnlyA), ("d/x", DiffStatus::OnlyA)]);
    let tree = build_tree(&a, &b, &s);
    assert_eq!(tree[0].s, DiffStatus::OnlyA);
    assert_eq!(tree[0].ch[0].size_a, Some(1));
    assert_eq!(tree[0].ch[0].size_b, None);
    let lonely = statuses(&[("d/x", DiffStatus::OnlyA)]);
    let tree = build_tree(&a, &b, &lonely);
    assert_eq!(names(&tree), vec!["x"]);
}

#[test]
fn hidden_on_one_side_only_is_shown() {
    let hidden = ScannedFile { hidden: true, ..file(1, 1) };
    let a = table(&[("x", hidden), ("y", hidden), ("z", hidden)]);
    let b = table(&[("x", hidden), ("y", file(1, 1))]);
    let s = statuses(&[("x", DiffStatus::Same), ("y", DiffStatus::Same), ("z", DiffStatus::OnlyA)]);
    let tree = build_tree(&a, &b, &s);
    assert_eq!((tree[0].h, tree[1].h, tree[2].h), (true, false, true));
}

#[test]
fn a_comparison_needs_two_folders() {
    let start = |a: bool, b: bool| start_compare("A".to_string(), a, "B".to_string(), b);
    assert!(start(true, true).is_ok());
    let e = start(false, false).unwrap_err();
    assert_eq!((e.code.as_str(), e.detail.as_str()), ("path_not_a_folder", "A"));
    let e = start(true, false).unwrap_err();
    assert_eq!((e.code.as_str(), e.detail.as_str()), ("path_not_a_folder", "B"));
    let dev = |s: &str| Some(s.to_string());
    assert!(same_device(&dev("1"), &dev("1")));
    assert!(!same_device(&dev("1"), &dev("2")));
    assert!(same_device(&None, &dev("2")));
    assert!(same_device(&dev("1"), &None));
    assert_eq!((mode_to_str(CompareMode::Fast), mode_to_str(CompareMode::Deep)), ("fast", "deep"));
}

#[test]
fn the_stages_of_a_comparison() {
    let stage = CompareStage::ScanA.next(false);
    assert!(matches!(stage, CompareStage::ScanB));
    let stage = stage.next(false);
    assert!(matches!(stage, CompareStage::Diff));
    assert!(matches!(stage.next(false), CompareStage::Complete));
    assert!(matches!(stage.next(true), CompareStage::Stopped("diff")));
    assert!(matches!(CompareStage::ScanA.next(true), CompareStage::Stopped("scan_a")));
    assert!(matches!(CompareStage::ScanB.next(true), CompareStage::Stopped("scan_b")));
}
