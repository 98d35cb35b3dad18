use loc_count::args::{get_args, split_extensions};
use loc_count::lines::count_lines;
use loc_count::tally::Tally;
use loc_count::walk::{get_files, is_included, Entry};

fn file(path: &str, ext: Option<&str>) -> Entry {
    Entry { path: path.to_string(), is_dir: false, extension: ext.map(|e| e.to_string()) }
}

fn dir(path: &str) -> Entry {
    Entry { path: path.to_string(), is_dir: true, extension: None }
}

#[test]
fn empty_file_has_no_lines() {
    assert_eq!(count_lines(""), 0);
}

#[test]
fn last_line_without_newline_counts() {
    assert_eq!(count_lines("a\nb\nc"), 3);
}

#[test]
fn trailing_newline_adds_no_line() {
    assert_eq!(count_lines("a\nb\nc\n"), 3);
}

#[test]
fn crlf_lines_count_once() {
    assert_eq!(count_lines("a\r\nb\r\n"), 2);
    assert_eq!(count_lines("\n\n"), 2);
    assert_eq!(count_lines("é\nü"), 2);
}

#[test]
fn filter_rs_selects_rust_files() {
    let entries = vec![file("./a.rs", Some("rs")), file("./b.txt", Some("txt")), dir("./sub"), file("./sub/c.rs", Some("rs"))];
    let filter = vec!["rs".to_string()];
    let mut files = get_files(&entries, &filter);
    files.sort();
    assert_eq!(files, vec!["./a.rs".to_string(), "./sub/c.rs".to_string()]);
}

#[test]
fn empty_filter_takes_every_file_with_an_extension() {
    let entries = vec![file("./a.rs", Some("rs")), file("./Makefile", None), dir("./sub.d"), file("./sub.d/b.txt", Some("txt"))];
    let files = get_files(&entries, &Vec::new());
    assert_eq!(files, vec!["./a.rs".to_string(), "./sub.d/b.txt".to_string()]);
}

#[test]
fn directories_and_extensionless_files_are_never_included() {
    let filter = vec!["d".to_string()];
    assert!(!is_included(&Entry { path: "x.d".to_string(), is_dir: true, extension: Some("d".to_string()) }, &filter));
    assert!(!is_included(&file("x", None), &filter));
    assert!(!is_included(&file("x", None), &Vec::new()));
    assert!(is_included(&file("x.d", Some("d")), &filter));
}

#[test]
fn total_is_sum_of_counts() {
    let mut t = Tally::new();
    assert_eq!(t.total(), 0);
    assert!(t.add(3));
    assert!(t.add(0));
    assert!(t.add(7));
    assert_eq!(t.total(), 10);
}

#[test]
fn total_refuses_overflow() {
    let mut t = Tally::new();
    assert!(t.add(usize::MAX));
    assert!(!t.add(1));
    assert_eq!(t.total(), usize::MAX);
}

#[test]
fn same_input_gives_same_file_list_and_counts() {
    let entries = vec![file("./a.rs", Some("rs")), file("./b.rs", Some("rs"))];
    let filter = vec!["rs".to_string()];
    assert_eq!(get_files(&entries, &filter), get_files(&entries, &filter));
    assert_eq!(count_lines("x\ny"), count_lines("x\ny"));
}

#[test]
fn arguments_default() {
    let args = get_args(&Vec::new());
    assert_eq!(args.directory, ".");
    assert!(args.file_ext.is_empty());
}

#[test]
fn arguments_directory_and_extensions() {
    let argv = vec!["src".to_string(), "rs,toml".to_string(), "extra".to_string()];
    let args = get_args(&argv);
    assert_eq!(args.directory, "src");
    assert_eq!(args.file_ext, vec!["rs".to_string(), "toml".to_string()]);
}

#[test]
fn extensions_split_as_written() {
    assert_eq!(split_extensions(" rs,.md,"), vec![" rs".to_string(), ".md".to_string(), String::new()]);
    assert_eq!(split_extensions(""), vec![String::new()]);
}

#[test]
fn walk_meets_entries_depth_first() {
    let mut walk = loc_count::walk::Walk::start(".".to_string(), true, true).unwrap();
    assert_eq!(walk.next_dir(), Some(".".to_string()));
    walk.enter(vec![file("./a.rs", Some("rs")), dir("./sub"), file("./b.txt", Some("txt"))]);
    assert_eq!(walk.next_dir(), Some("./sub".to_string()));
    walk.enter(vec![file("./sub/c.rs", Some("rs"))]);
    assert_eq!(walk.next_dir(), None);
    let paths: Vec<String> = walk.entries().iter().map(|e| e.path.clone()).collect();
    assert_eq!(paths, vec![".", "./a.rs", "./sub", "./sub/c.rs", "./b.txt"]);
    let files = get_files(walk.entries(), &vec!["rs".to_string()]);
    assert_eq!(files, vec!["./a.rs".to_string(), "./sub/c.rs".to_string()]);
}

#[test]
fn walk_of_a_missing_root_is_an_error() {
    assert!(loc_count::walk::Walk::start("missing".to_string(), false, false).is_none());
}

#[test]
fn walk_of_a_root_that_is_a_file_meets_nothing() {
    let mut walk = loc_count::walk::Walk::start("a.rs".to_string(), true, false).unwrap();
    assert_eq!(walk.next_dir(), None);
    assert!(walk.entries().is_empty());
    assert!(get_files(walk.entries(), &Vec::new()).is_empty());
}

#[test]
fn file_set_does_not_depend_on_listing_order() {
    let filter = vec!["rs".to_string()];
    let one = vec![file("./a.rs", Some("rs")), file("./b.txt", Some("txt")), file("./c.rs", Some("rs"))];
    let two = vec![file("./c.rs", Some("rs")), file("./a.rs", Some("rs")), file("./b.txt", Some("txt"))];
    let mut f1 = get_files(&one, &filter);
    let mut f2 = get_files(&two, &filter);
    f1.sort();
    f2.sort();
    assert_eq!(f1, f2);
}

#[test]
fn total_does_not_depend_on_order() {
    let mut one = Tally::new();
    let mut two = Tally::new();
    for n in [4usize, 0, 9, 2] {
        assert!(one.add(n));
    }
    for n in [2usize, 9, 4, 0] {
        assert!(two.add(n));
    }
    assert_eq!(one.total(), 15);
    assert_eq!(one.total(), two.total());
}
