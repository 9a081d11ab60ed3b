use linecount::args::Args;
use linecount::entry::{DirEntry, Ending, EntryKind, Listing};
use linecount::error::CountError;
use linecount::filter::NameFilter;
use linecount::lines::count_lines;
use linecount::session::{Action, Event, Session};
use std::io::{Error, ErrorKind};
use std::path::{Path, PathBuf};

/// What a path of the pretended file system holds.
enum Node {
    File(Vec<u8>),
    Directory(Vec<String>),
    Socket,
    Unreadable,
}

/// A file system held in memory.
struct Tree {
    nodes: Vec<(PathBuf, Node)>,
}

impl Tree {
    fn node(&self, path: &Path) -> Option<&Node> {
        self.nodes.iter().find(|(p, _)| p.as_path() == path).map(|(_, n)| n)
    }

    fn is_file(&self, path: &Path) -> bool {
        matches!(self.node(path), Some(Node::File(_)) | Some(Node::Unreadable))
    }

    fn list(&self, dir: &Path) -> Listing {
        let names = match self.node(dir) {
            Some(Node::Directory(names)) => names,
            _ => {
                return Listing {
                    entries: vec![],
                    ending: Ending::ReadFailed(Error::from(ErrorKind::NotFound)),
                }
            },
        };
        let mut entries = Vec::new();
        for name in names {
            let path = dir.join(name);
            let kind = match self.node(&path) {
                Some(Node::File(_)) | Some(Node::Unreadable) => EntryKind::File,
                Some(Node::Directory(_)) => EntryKind::Directory,
                Some(Node::Socket) => EntryKind::Other,
                None => {
                    return Listing {
                        entries,
                        ending: Ending::MetadataFailed(path, Error::from(ErrorKind::NotFound)),
                    }
                },
            };
            entries.push(DirEntry { path, name: Some(name.clone()), kind });
        }
        Listing { entries, ending: Ending::Complete }
    }

    fn count(&self, file: &Path) -> Result<usize, Error> {
        match self.node(file) {
            Some(Node::File(bytes)) => Ok(count_lines(bytes)),
            _ => Err(Error::from(ErrorKind::PermissionDenied)),
        }
    }

    fn answer(&self, action: Action) -> Result<Event, Result<usize, CountError>> {
        match action {
            Action::Probe(path) => Ok(Event::Probed(self.is_file(&path))),
            Action::List(directories) => {
                Ok(Event::Listed(directories.iter().map(|d| self.list(d)).collect()))
            },
            Action::Count(files) => {
                Ok(Event::Counted(files.iter().map(|f| self.count(f)).collect()))
            },
            Action::Done(total) => Err(Ok(total)),
            Action::Fail(e) => Err(Err(e)),
        }
    }

    fn run(&self, args: Args) -> Result<usize, CountError> {
        let (mut session, mut action) = Session::open(args);
        loop {
            match self.answer(action) {
                Ok(event) => action = session.step(event),
                Err(outcome) => return outcome,
            }
        }
    }
}

fn text(lines: usize) -> Node {
    let mut bytes = Vec::new();
    for i in 0..lines {
        bytes.extend_from_slice(format!("line {}\n", i).as_bytes());
    }
    Node::File(bytes)
}

fn directory(names: &[&str]) -> Node {
    Node::Directory(names.iter().map(|n| n.to_string()).collect())
}

/// `./test` holds a lock file of 532 lines; `./test/.a` holds another of 532
/// lines; `./test/b` holds two files of 1 and 14 lines that are no lock files.
fn fixture() -> Tree {
    Tree {
        nodes: vec![
            (PathBuf::from("./test"), directory(&["Cargo.lock", ".a", "b"])),
            (PathBuf::from("./test/Cargo.lock"), text(532)),
            (PathBuf::from("./test/.a"), directory(&["Cargo.lock"])),
            (PathBuf::from("./test/.a/Cargo.lock"), text(532)),
            (PathBuf::from("./test/b"), directory(&["one.txt", "main.rs"])),
            (PathBuf::from("./test/b/one.txt"), text(1)),
            (PathBuf::from("./test/b/main.rs"), text(14)),
        ],
    }
}

fn get_line_count(args: &Args) -> Result<usize, CountError> {
    fixture().run(Args {
        paths: args.paths.clone(),
        no_recurse: args.no_recurse,
        regex_string: args.regex_string.clone(),
        regex_not: args.regex_not,
    })
}

fn settings(paths: &[&str], no_recurse: bool, pattern: &str, regex_not: bool) -> Args {
    Args {
        paths: paths.iter().map(PathBuf::from).collect(),
        no_recurse,
        regex_string: pattern.to_string(),
        regex_not,
    }
}

#[test]
fn test_glob() {
    let mut args = Args {
        paths: vec![PathBuf::from("./test")],
        no_recurse: true,
        regex_string: ".*".to_string(),
        regex_not: false,
    };

    assert_eq!(get_line_count(&args).unwrap(), 532);

    args.paths = vec![
        PathBuf::from("./test"),
        PathBuf::from("./test/.a/Cargo.lock"),
        PathBuf::from("./test/b/"),
    ];
    args.regex_string = "(\\.lock)$".to_string();
    assert_eq!(get_line_count(&args).unwrap(), 532 * 2);

    // only files found in a directory are held against the pattern, a named file is not
    args.regex_not = true;
    assert_eq!(get_line_count(&args).unwrap(), 532 + 1 + 14);
}

#[test]
fn test_glob_recurse() {
    let mut args = Args {
        paths: vec![PathBuf::from("./test")],
        no_recurse: false,
        regex_string: ".*".to_string(),
        regex_not: false,
    };
    assert_eq!(get_line_count(&args).unwrap(), 532 * 2 + 1 + 14);

    args.regex_string = "(\\.lock)$".to_string();
    assert_eq!(get_line_count(&args).unwrap(), 532 * 2);

    args.regex_not = true;
    assert_eq!(get_line_count(&args).unwrap(), 1 + 14);
}

#[test]
fn no_paths_count_zero_lines() {
    let (_, action) = Session::open(settings(&[], false, ".*", false));
    assert!(matches!(action, Action::Done(0)));
}

#[test]
fn session_first_probes_the_first_path() {
    let (_, action) = Session::open(settings(&["./test", "./other"], false, ".*", false));
    match action {
        Action::Probe(path) => assert_eq!(path, PathBuf::from("./test")),
        other => panic!("unexpected action: {:?}", other),
    }
}

#[test]
fn session_asks_the_questions_of_a_recursive_walk_in_order() {
    let tree = fixture();
    let (mut session, action) = Session::open(settings(&["./test"], false, "(\\.rs)$", false));
    let action = session.step(tree.answer(action).ok().unwrap());
    match &action {
        Action::List(directories) => assert_eq!(directories, &vec![PathBuf::from("./test")]),
        other => panic!("unexpected action: {:?}", other),
    }
    let action = session.step(tree.answer(action).ok().unwrap());
    match &action {
        Action::List(directories) => assert_eq!(
            directories,
            &vec![PathBuf::from("./test/.a"), PathBuf::from("./test/b")]
        ),
        other => panic!("unexpected action: {:?}", other),
    }
    let action = session.step(tree.answer(action).ok().unwrap());
    match &action {
        Action::Count(files) => assert_eq!(files, &vec![PathBuf::from("./test/b/main.rs")]),
        other => panic!("unexpected action: {:?}", other),
    }
    let action = session.step(tree.answer(action).ok().unwrap());
    assert!(matches!(action, Action::Done(14)));
}

#[test]
fn session_asks_the_questions_of_a_flat_walk_in_order() {
    let tree = fixture();
    let (mut session, action) = Session::open(settings(&["./test/b"], true, ".*", false));
    let action = session.step(tree.answer(action).ok().unwrap());
    assert!(matches!(action, Action::List(_)));
    let action = session.step(tree.answer(action).ok().unwrap());
    match &action {
        Action::Count(files) => assert_eq!(
            files,
            &vec![PathBuf::from("./test/b/one.txt"), PathBuf::from("./test/b/main.rs")]
        ),
        other => panic!("unexpected action: {:?}", other),
    }
    let action = session.step(tree.answer(action).ok().unwrap());
    assert!(matches!(action, Action::Done(15)));
}

#[test]
fn named_file_is_counted_whatever_the_filter() {
    let tree = fixture();
    let filters = [(".*", false), (".*", true), ("(\\.lock)$", true), ("nothing", false)];
    for (pattern, invert) in filters {
        let args = settings(&["./test/.a/Cargo.lock"], false, pattern, invert);
        assert_eq!(tree.run(args).unwrap(), 532);
        let args = settings(&["./test/b/one.txt", "./test/b/main.rs"], true, pattern, invert);
        assert_eq!(tree.run(args).unwrap(), 15);
    }
}

#[test]
fn invalid_pattern_fails_the_run_whatever_the_paths() {
    let tree = fixture();
    let args = settings(&["./test/b/main.rs"], false, "(unclosed", false);
    assert!(matches!(tree.run(args), Err(CountError::InvalidPattern(_))));
    let args = settings(&["./test/b/main.rs", "./test"], false, "(unclosed", false);
    assert!(matches!(tree.run(args), Err(CountError::InvalidPattern(_))));
    let args = settings(&["./test"], true, "[", true);
    assert!(matches!(tree.run(args), Err(CountError::InvalidPattern(_))));
    let args = settings(&[], false, "(", false);
    assert!(matches!(tree.run(args), Err(CountError::InvalidPattern(_))));
}

#[test]
fn invalid_pattern_fails_the_run_before_any_question() {
    let (mut session, action) = Session::open(settings(&["a", "b"], false, "(", false));
    match action {
        Action::Fail(CountError::InvalidPattern(cause)) => {
            assert_eq!(cause, regex::Regex::new("(").unwrap_err())
        },
        other => panic!("unexpected action: {:?}", other),
    }
    assert!(matches!(
        session.step(Event::Probed(true)),
        Action::Fail(CountError::UnexpectedEvent)
    ));
}

#[test]
fn invalid_pattern_comes_before_an_unreadable_file() {
    let tree = odd_tree();
    let args = settings(&["top/sub/locked.txt", "top"], false, "a{2,1}", false);
    assert!(matches!(tree.run(args), Err(CountError::InvalidPattern(_))));
}

#[test]
fn with_filter_fails_the_run_without_a_filter() {
    let paths = vec![PathBuf::from("./test/b/main.rs")];
    let (_, action) = Session::with_filter(paths, true, NameFilter::new("[", false));
    assert!(matches!(action, Action::Fail(CountError::InvalidPattern(_))));
    let (_, action) = Session::with_filter(vec![], false, Err(CountError::UnexpectedEvent));
    assert!(matches!(action, Action::Fail(CountError::UnexpectedEvent)));
}

#[test]
fn total_over_two_paths_is_the_sum_of_their_totals() {
    let tree = fixture();
    for no_recurse in [false, true] {
        for (pattern, invert) in [(".*", false), ("(\\.lock)$", false), ("(\\.lock)$", true)] {
            let a = tree.run(settings(&["./test"], no_recurse, pattern, invert)).unwrap();
            let b = tree.run(settings(&["./test/b"], no_recurse, pattern, invert)).unwrap();
            let both =
                tree.run(settings(&["./test", "./test/b"], no_recurse, pattern, invert)).unwrap();
            let swapped =
                tree.run(settings(&["./test/b", "./test"], no_recurse, pattern, invert)).unwrap();
            assert_eq!(both, a + b);
            assert_eq!(swapped, a + b);
        }
    }
    let both = tree.run(settings(&["./test", "./test/b"], false, ".*", false)).unwrap();
    assert_eq!(both, 1079 + 15);
}

#[test]
fn recursive_and_flat_agree_on_a_directory_of_files() {
    let tree = fixture();
    for dir in ["./test/b", "./test/.a"] {
        let flat = tree.run(settings(&[dir], true, ".*", false)).unwrap();
        let deep = tree.run(settings(&[dir], false, ".*", false)).unwrap();
        assert_eq!(flat, deep);
    }
    assert_eq!(tree.run(settings(&["./test/b"], false, ".*", false)).unwrap(), 15);
}

#[test]
fn every_file_of_the_tree_is_counted_with_the_flag_or_without() {
    let tree = fixture();
    let all = tree.run(settings(&["./test"], false, ".*", false)).unwrap();
    for pattern in ["(\\.lock)$", "(\\.rs)$", "^C", "o", "nothing"] {
        let with = tree.run(settings(&["./test"], false, pattern, false)).unwrap();
        let without = tree.run(settings(&["./test"], false, pattern, true)).unwrap();
        assert_eq!(with + without, all);
    }
    assert_eq!(all, 1079);
    assert_eq!(tree.run(settings(&["./test"], false, "(\\.rs)$", true)).unwrap(), 1065);
}

#[test]
fn directory_of_files_counts_the_sum_over_its_children() {
    let tree = fixture();
    for no_recurse in [false, true] {
        assert_eq!(tree.run(settings(&["./test/b"], no_recurse, ".*", false)).unwrap(), 1 + 14);
        assert_eq!(tree.run(settings(&["./test/.a"], no_recurse, ".*", false)).unwrap(), 532);
    }
}

#[test]
fn filtered_out_directory_names_are_still_walked() {
    let tree = fixture();
    let args = settings(&["./test"], false, "^(main\\.rs)$", false);
    assert_eq!(tree.run(args).unwrap(), 14);
}

#[test]
fn missing_directory_fails_the_run() {
    let tree = fixture();
    match tree.run(settings(&["./test/b", "./nowhere"], false, ".*", false)) {
        Err(CountError::DirectoryRead(path, cause)) => {
            assert_eq!(path, PathBuf::from("./nowhere"));
            assert_eq!(cause.kind(), ErrorKind::NotFound);
        },
        other => panic!("unexpected outcome: {:?}", other),
    }
}

fn odd_tree() -> Tree {
    Tree {
        nodes: vec![
            (PathBuf::from("top"), directory(&["a.txt", "sock.txt", "sub"])),
            (PathBuf::from("top/a.txt"), text(3)),
            (PathBuf::from("top/sock.txt"), Node::Socket),
            (PathBuf::from("top/sub"), directory(&["locked.txt", "ghost.txt"])),
            (PathBuf::from("top/sub/locked.txt"), Node::Unreadable),
        ],
    }
}

#[test]
fn entry_of_another_kind_fails_a_walk_only_if_it_passes_the_filter() {
    let tree = odd_tree();
    for no_recurse in [false, true] {
        match tree.run(settings(&["top"], no_recurse, "(\\.txt)$", false)) {
            Err(CountError::UnsupportedEntryKind(path)) => {
                assert_eq!(path, PathBuf::from("top/sock.txt"))
            },
            other => panic!("unexpected outcome: {:?}", other),
        }
    }
    assert_eq!(tree.run(settings(&["top"], true, "^a", false)).unwrap(), 3);
    assert_eq!(tree.run(settings(&["top"], true, "sock", true)).unwrap(), 3);
}

#[test]
fn entry_without_metadata_fails_the_walk() {
    let tree = odd_tree();
    match tree.run(settings(&["top"], false, "^[a-z]+\\.txt$", true)) {
        Err(CountError::Metadata(path, _)) => assert_eq!(path, PathBuf::from("top/sub/ghost.txt")),
        other => panic!("unexpected outcome: {:?}", other),
    }
}

#[test]
fn unreadable_file_fails_the_run() {
    let tree = odd_tree();
    match tree.run(settings(&["top/a.txt", "top/sub/locked.txt"], false, ".*", false)) {
        Err(CountError::FileOpen(path, cause)) => {
            assert_eq!(path, PathBuf::from("top/sub/locked.txt"));
            assert_eq!(cause.kind(), ErrorKind::PermissionDenied);
        },
        other => panic!("unexpected outcome: {:?}", other),
    }
}

#[test]
fn file_name_that_is_no_text_fails_the_walk() {
    let (mut session, _) = Session::open(settings(&["d"], false, ".*", false));
    session.step(Event::Probed(false));
    let listing = Listing {
        entries: vec![DirEntry { path: PathBuf::from("d/odd"), name: None, kind: EntryKind::File }],
        ending: Ending::Complete,
    };
    match session.step(Event::Listed(vec![listing])) {
        Action::Fail(CountError::NameDecode(path)) => assert_eq!(path, PathBuf::from("d/odd")),
        other => panic!("unexpected action: {:?}", other),
    }
}

#[test]
fn total_beyond_the_largest_number_fails_the_run() {
    let (mut session, _) = Session::open(settings(&["a", "b", "c"], false, ".*", false));
    assert!(matches!(session.step(Event::Probed(true)), Action::Count(_)));
    assert!(matches!(session.step(Event::Counted(vec![Ok(usize::MAX - 1)])), Action::Probe(_)));
    assert!(matches!(session.step(Event::Probed(true)), Action::Count(_)));
    match session.step(Event::Counted(vec![Ok(2)])) {
        Action::Fail(CountError::Overflow(path)) => assert_eq!(path, PathBuf::from("b")),
        other => panic!("unexpected action: {:?}", other),
    }
    assert!(matches!(
        session.step(Event::Probed(true)),
        Action::Fail(CountError::UnexpectedEvent)
    ));
}

#[test]
fn total_may_reach_the_largest_number_over_paths() {
    let (mut session, _) = Session::open(settings(&["a", "b"], false, ".*", false));
    session.step(Event::Probed(true));
    session.step(Event::Counted(vec![Ok(usize::MAX - 1)]));
    session.step(Event::Probed(true));
    match session.step(Event::Counted(vec![Ok(1)])) {
        Action::Done(total) => assert_eq!(total, usize::MAX),
        other => panic!("unexpected action: {:?}", other),
    }
}

#[test]
fn files_of_one_directory_overflow_at_the_file_that_does_it() {
    let (mut session, _) = Session::open(settings(&["d"], true, ".*", false));
    session.step(Event::Probed(false));
    let entries = ["x", "y", "z"]
        .iter()
        .map(|n| DirEntry {
            path: PathBuf::from("d").join(n),
            name: Some(n.to_string()),
            kind: EntryKind::File,
        })
        .collect();
    let action = session.step(Event::Listed(vec![Listing { entries, ending: Ending::Complete }]));
    assert!(matches!(action, Action::Count(_)));
    match session.step(Event::Counted(vec![Ok(usize::MAX), Ok(0), Ok(1)])) {
        Action::Fail(CountError::Overflow(path)) => assert_eq!(path, PathBuf::from("d/z")),
        other => panic!("unexpected action: {:?}", other),
    }
}

#[test]
fn answer_that_does_not_fit_the_question_ends_the_run() {
    let (mut session, _) = Session::open(settings(&["a"], false, ".*", false));
    assert!(matches!(
        session.step(Event::Counted(vec![Ok(1)])),
        Action::Fail(CountError::UnexpectedEvent)
    ));
    let (mut session, _) = Session::open(settings(&["a"], false, ".*", false));
    session.step(Event::Probed(false));
    assert!(matches!(
        session.step(Event::Listed(vec![])),
        Action::Fail(CountError::UnexpectedEvent)
    ));
    let (mut session, _) = Session::open(settings(&["a"], false, ".*", false));
    session.step(Event::Probed(true));
    assert!(matches!(
        session.step(Event::Counted(vec![Ok(1), Ok(2)])),
        Action::Fail(CountError::UnexpectedEvent)
    ));
}

#[test]
fn finished_run_takes_no_more_events() {
    let (mut session, action) = Session::open(settings(&[], false, ".*", false));
    assert!(matches!(action, Action::Done(0)));
    assert!(matches!(
        session.step(Event::Probed(true)),
        Action::Fail(CountError::UnexpectedEvent)
    ));
    let (mut session, _) = Session::open(settings(&["a"], false, ".*", false));
    session.step(Event::Probed(true));
    assert!(matches!(session.step(Event::Counted(vec![Ok(7)])), Action::Done(7)));
    assert!(matches!(
        session.step(Event::Counted(vec![Ok(7)])),
        Action::Fail(CountError::UnexpectedEvent)
    ));
}

#[test]
fn with_filter_uses_the_filter_it_is_given() {
    let tree = fixture();
    let filter = NameFilter::new("(\\.txt)$", false);
    let (mut session, mut action) =
        Session::with_filter(vec![PathBuf::from("./test")], true, filter);
    let total = loop {
        match tree.answer(action) {
            Ok(event) => action = session.step(event),
            Err(outcome) => break outcome,
        }
    };
    assert_eq!(total.unwrap(), 1);
    let filter = NameFilter::new("(\\.txt)$", true);
    let (mut session, mut action) =
        Session::with_filter(vec![PathBuf::from("./test/b")], false, filter);
    let total = loop {
        match tree.answer(action) {
            Ok(event) => action = session.step(event),
            Err(outcome) => break outcome,
        }
    };
    assert_eq!(total.unwrap(), 14);
}

#[test]
fn empty_directory_counts_zero_lines() {
    let tree = Tree { nodes: vec![(PathBuf::from("empty"), directory(&[]))] };
    assert_eq!(tree.run(settings(&["empty"], false, ".*", false)).unwrap(), 0);
    assert_eq!(tree.run(settings(&["empty"], true, ".*", false)).unwrap(), 0);
}
