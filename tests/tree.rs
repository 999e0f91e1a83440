use prj::list::{Args, Listing};
use prj::names::{parse_month, parse_u32, parse_year};
use prj::search;
use prj::{Command, Entry, Month, Project, ProjectDir, Year};

fn dir(name: &str) -> Entry {
    Entry { name: Some(name.to_string()), is_dir: true }
}

fn file(name: &str) -> Entry {
    Entry { name: Some(name.to_string()), is_dir: false }
}

/// Walks a tree given as the listing of each directory; returns the printed
/// paths and the directories that were read.
fn walk(root: &str, args: &Args, tree: &[(&str, Vec<Entry>)]) -> (Vec<String>, Vec<String>) {
    let mut l = Listing::new(&ProjectDir::new(root), args);
    let mut printed = Vec::new();
    let mut reads = Vec::new();
    while let Some(p) = l.next_read() {
        let entries: Vec<Entry> = tree
            .iter()
            .find(|(q, _)| *q == p)
            .map(|(_, es)| {
                es.iter()
                    .map(|e| Entry { name: e.name.clone(), is_dir: e.is_dir })
                    .collect()
            })
            .unwrap_or_default();
        reads.push(p);
        printed.extend(l.feed(&entries));
    }
    (printed, reads)
}

#[test]
fn year_names_in_range_are_years() {
    assert_eq!(parse_year("2024"), Some(2024));
    assert_eq!(parse_year("1900"), Some(1900));
    assert_eq!(parse_year("2500"), Some(2500));
    assert_eq!(parse_year("02024"), Some(2024));
    assert_eq!(parse_year("+2024"), Some(2024));
}

#[test]
fn other_names_are_not_years() {
    assert_eq!(parse_year("1899"), None);
    assert_eq!(parse_year("2501"), None);
    assert_eq!(parse_year("abc"), None);
    assert_eq!(parse_year(""), None);
    assert_eq!(parse_year("-2024"), None);
    assert_eq!(parse_year("20 24"), None);
    assert_eq!(parse_year("99999999999"), None);
}

#[test]
fn u32_bounds() {
    assert_eq!(parse_u32("4294967295"), Some(u32::MAX));
    assert_eq!(parse_u32("4294967296"), None);
    assert_eq!(parse_u32("0"), Some(0));
    assert_eq!(parse_u32("+"), None);
    assert_eq!(parse_u32(""), None);
    assert_eq!(parse_u32("12a"), None);
}

#[test]
fn month_names_are_two_characters() {
    assert_eq!(parse_month("07"), Some(7));
    assert_eq!(parse_month("01"), Some(1));
    assert_eq!(parse_month("12"), Some(12));
    assert_eq!(parse_month("7"), None);
    assert_eq!(parse_month("13"), None);
    assert_eq!(parse_month("00"), None);
    assert_eq!(parse_month("007"), None);
    assert_eq!(parse_month("ab"), None);
    assert_eq!(parse_month("+7"), None);
    assert_eq!(parse_month("+1"), None);
    assert_eq!(parse_month(" 7"), None);
    assert_eq!(parse_month("09"), Some(9));
    assert_eq!(parse_month("10"), Some(10));
}

#[test]
fn derived_paths() {
    let root = ProjectDir::new("/home/u/Documents");
    let y = Year::from_path(&root, "2024").unwrap();
    assert_eq!(y.year(), 2024);
    assert_eq!(y.path(), "/home/u/Documents/2024");
    let m = Month::from_path(&y, "07").unwrap();
    assert_eq!(m.month(), 7);
    assert_eq!(m.path(), "/home/u/Documents/2024/07");
    let p = Project::from_path(&m, "my project, v2");
    assert_eq!(p.name(), "my project, v2");
    assert_eq!(p.path(), "/home/u/Documents/2024/07/my project, v2");
}

#[test]
fn year_written_without_padding() {
    let root = ProjectDir::new("/d/");
    let y = Year::from_path(&root, "02024").unwrap();
    assert_eq!(y.path(), "/d/2024");
    let empty = ProjectDir::new("");
    assert_eq!(Year::from_path(&empty, "1999").unwrap().path(), "1999");
}

#[test]
fn bad_names_give_nothing() {
    let root = ProjectDir::new("/d");
    assert!(Year::from_path(&root, "abc").is_none());
    let y = Year::from_path(&root, "2024").unwrap();
    assert!(Month::from_path(&y, "1").is_none());
    assert!(Month::from_path(&y, "13").is_none());
    assert!(Month::from_path(&y, "+7").is_none());
}

#[test]
fn project_root_under_home() {
    let d = ProjectDir::for_home(Some("/home/u".to_string())).unwrap();
    assert_eq!(d.path(), "/home/u/Documents");
    let d = ProjectDir::for_home(Some("/home/u/".to_string())).unwrap();
    assert_eq!(d.path(), "/home/u/Documents");
    assert!(ProjectDir::for_home(None).is_err());
}

#[test]
fn project_root_of_user() {
    if let Ok(d) = ProjectDir::for_user() {
        assert!(d.path().ends_with("Documents"));
        assert_ne!(d.path(), "");
    }
}

#[test]
fn years_skip_other_entries() {
    let root = ProjectDir::new("/d");
    let es = vec![dir("2024"), dir("abc"), Entry { name: None, is_dir: true }, file("1999")];
    let ys: Vec<u32> = root.years(&es).iter().map(|y| y.year()).collect();
    assert_eq!(ys, vec![2024]);
}

#[test]
fn months_skip_other_entries() {
    let root = ProjectDir::new("/d");
    let y = Year::from_path(&root, "2024").unwrap();
    let es = vec![dir("01"), dir("1"), dir("13"), dir("12"), dir("notes")];
    let ms: Vec<u32> = y.months(&es).iter().map(|m| m.month()).collect();
    assert_eq!(ms, vec![1, 12]);
}

#[test]
fn files_are_neither_years_nor_months() {
    let root = ProjectDir::new("/d");
    assert!(root.years(&vec![file("2024")]).is_empty());
    let y = Year::from_path(&root, "2024").unwrap();
    let ms: Vec<u32> = y.months(&vec![file("05"), dir("06")]).iter().map(|m| m.month()).collect();
    assert_eq!(ms, vec![6]);
    let tree = vec![
        ("D", vec![file("2024"), dir("2023")]),
        ("D/2023", vec![file("01"), dir("02")]),
        ("D/2023/02", vec![dir("p")]),
    ];
    let (printed, reads) = walk("D", &Args::new(None), &tree);
    assert_eq!(printed, vec!["D/2023/02/p".to_string()]);
    assert_eq!(reads, vec!["D", "D/2023", "D/2023/02"]);
}

#[test]
fn only_directories_are_projects() {
    let root = ProjectDir::new("/d");
    let y = Year::from_path(&root, "2024").unwrap();
    let m = Month::from_path(&y, "03").unwrap();
    let es = vec![file("readme.txt"), dir("alpha")];
    let ps = m.projects(&es);
    assert_eq!(ps.len(), 1);
    assert_eq!(ps[0].name(), "alpha");
    assert_eq!(ps[0].path(), "/d/2024/03/alpha");
    let e = Entry { name: None, is_dir: true };
    assert!(Project::from_entry(&m, &e).is_none());
}

#[test]
fn listing_skips_bad_years_and_months() {
    let tree = vec![
        ("Documents", vec![dir("2024"), dir("abc")]),
        ("Documents/2024", vec![dir("01"), dir("13")]),
        ("Documents/2024/01", vec![dir("alpha")]),
        ("Documents/2024/13", vec![dir("bad")]),
        ("Documents/abc", vec![dir("01")]),
        ("Documents/abc/01", vec![dir("x")]),
    ];
    let (printed, reads) = walk("Documents", &Args::new(None), &tree);
    assert_eq!(printed, vec!["Documents/2024/01/alpha".to_string()]);
    assert_eq!(reads, vec!["Documents", "Documents/2024", "Documents/2024/01"]);
}

#[test]
fn single_digit_month_gives_nothing() {
    let tree = vec![
        ("Documents", vec![dir("2024")]),
        ("Documents/2024", vec![dir("1")]),
        ("Documents/2024/1", vec![dir("x")]),
    ];
    let (printed, _) = walk("Documents", &Args::new(None), &tree);
    assert!(printed.is_empty());
}

#[test]
fn signed_month_name_is_ignored() {
    let tree = vec![
        ("D", vec![dir("2024")]),
        ("D/2024", vec![dir("+7"), dir("07")]),
        ("D/2024/07", vec![dir("p")]),
        ("D/2024/+7", vec![dir("q")]),
    ];
    let (printed, reads) = walk("D", &Args::new(None), &tree);
    assert_eq!(printed, vec!["D/2024/07/p".to_string()]);
    assert_eq!(reads, vec!["D", "D/2024", "D/2024/07"]);
}

#[test]
fn month_with_file_and_directory() {
    let tree = vec![
        ("D", vec![dir("2023")]),
        ("D/2023", vec![dir("05")]),
        ("D/2023/05", vec![file("notes.txt"), dir("proj")]),
    ];
    let (printed, _) = walk("D", &Args::new(None), &tree);
    assert_eq!(printed, vec!["D/2023/05/proj".to_string()]);
}

#[test]
fn listing_goes_depth_first() {
    let tree = vec![
        ("D", vec![dir("2023"), dir("2024")]),
        ("D/2023", vec![dir("02"), dir("01")]),
        ("D/2023/02", vec![dir("b"), dir("a")]),
        ("D/2023/01", vec![dir("c")]),
        ("D/2024", vec![dir("12")]),
        ("D/2024/12", vec![dir("d")]),
    ];
    let (printed, _) = walk("D", &Args::new(None), &tree);
    assert_eq!(printed, vec!["D/2023/02/b", "D/2023/02/a", "D/2023/01/c", "D/2024/12/d"]);
}

#[test]
fn listing_same_set_in_any_order() {
    let t1 = vec![
        ("D", vec![dir("2023"), dir("2024")]),
        ("D/2023", vec![dir("01")]),
        ("D/2023/01", vec![dir("a"), dir("b")]),
        ("D/2024", vec![dir("02")]),
        ("D/2024/02", vec![dir("c")]),
    ];
    let t2 = vec![
        ("D", vec![dir("2024"), dir("2023")]),
        ("D/2023", vec![dir("01")]),
        ("D/2023/01", vec![dir("b"), dir("a")]),
        ("D/2024", vec![dir("02")]),
        ("D/2024/02", vec![dir("c")]),
    ];
    let (mut p1, _) = walk("D", &Args::new(None), &t1);
    let (mut p2, _) = walk("D", &Args::new(None), &t2);
    assert_ne!(p1, p2);
    p1.sort();
    p2.sort();
    assert_eq!(p1, p2);
    let (again, _) = walk("D", &Args::new(None), &t1);
    let (first, _) = walk("D", &Args::new(None), &t1);
    assert_eq!(again, first);
}

#[test]
fn year_filter_excludes_and_skips_reads() {
    let tree = vec![
        ("D", vec![dir("2023"), dir("2024")]),
        ("D/2023", vec![dir("01")]),
        ("D/2023/01", vec![dir("old")]),
        ("D/2024", vec![dir("01")]),
        ("D/2024/01", vec![dir("new")]),
    ];
    let (printed, reads) = walk("D", &Args::new(Some(vec![2024])), &tree);
    assert_eq!(printed, vec!["D/2024/01/new".to_string()]);
    assert!(reads.iter().all(|r| !r.starts_with("D/2023")));
    let (printed, _) = walk("D", &Args::new(Some(vec![])), &tree);
    assert!(printed.is_empty());
}

#[test]
fn args_admit_years() {
    let a = Args::new(Some(vec![2020, 2024]));
    assert!(a.admits(2024));
    assert!(!a.admits(2023));
    assert!(Args::new(None).admits(1999));
    assert_eq!(a.year(), &Some(vec![2020, 2024]));
}

#[test]
fn commands_pick_their_walk() {
    let d = ProjectDir::new("/d");
    let s = Command::Search(search::Args::new(Some(vec![2024])));
    assert!(s.run(&d).is_none());
    let l = Command::List(Args::new(None));
    let w = l.run(&d).unwrap();
    assert_eq!(w.next_read(), Some("/d".to_string()));
}

#[test]
fn empty_root_lists_nothing() {
    let (printed, reads) = walk("D", &Args::new(None), &[]);
    assert!(printed.is_empty());
    assert_eq!(reads, vec!["D"]);
}
