use csv_processor::coordinator::Coordinator;
use csv_processor::record::{parse_line, MatchRecord};
use csv_processor::scan::{scan_content, scan_lines};
use csv_processor::search::{Action, Reply, Search, Step};
use csv_processor::walker::{Entry, EntryKind, Visit, Walker};

fn dir(path: &str) -> Entry {
    Entry { path: path.to_string(), kind: EntryKind::Directory, extension: None }
}

fn file(path: &str) -> Entry {
    let extension = path.rsplit_once('.').map(|(_, e)| e.to_string());
    Entry { path: path.to_string(), kind: EntryKind::File, extension }
}

fn other(path: &str) -> Entry {
    Entry { path: path.to_string(), kind: EntryKind::Other, extension: Some("csv".to_string()) }
}

/// A small tree: `root` holds `a.csv` and the directory `sub`, which holds
/// `b.csv`, a text file and a directory that cannot be listed.
fn answer(action: &Action) -> Option<Reply> {
    match action {
        Action::ReadDir(p) => Some(match p.as_str() {
            "root" => Reply::Listing(vec![
                file("root/notes.txt"),
                dir("root/sub"),
                other("root/pipe.csv"),
                file("root/a.csv"),
                file("root/upper.CSV"),
            ]),
            "root/sub" => Reply::Listing(vec![dir("root/sub/locked"), file("root/sub/b.csv")]),
            _ => Reply::Failed("permission denied".to_string()),
        }),
        Action::ReadFile(p) => Some(match p.as_str() {
            "root/a.csv" => Reply::Content(
                b"email,name,other\nx@x.com,X,y@x.com\nalice@x.com,Jane,bob@x.com\n".to_vec(),
            ),
            "root/sub/b.csv" => Reply::Content(b"carol@x.com,Carol,dave@x.com\r\n".to_vec()),
            _ => Reply::Failed("no such file".to_string()),
        }),
        Action::Done(_) => None,
    }
}

fn drive(first: Step) -> (Option<MatchRecord>, Vec<String>, Vec<String>) {
    let mut asked = Vec::new();
    let mut log = Vec::new();
    let mut step = first;
    loop {
        log.extend(step.notes);
        match &step.action {
            Action::ReadDir(p) => asked.push(format!("dir {}", p)),
            Action::ReadFile(p) => asked.push(format!("file {}", p)),
            Action::Done(_) => {}
        }
        match answer(&step.action) {
            Some(reply) => step = step.search.step(reply),
            None => {
                assert!(step.search.is_over());
                match step.action {
                    Action::Done(outcome) => return (outcome, asked, log),
                    _ => unreachable!(),
                }
            }
        }
    }
}

#[test]
fn match_in_top_level_file_gives_the_expected_line() {
    let mut coordinator = Coordinator::new();
    coordinator.register(1);
    let (outcome, _, _) = drive(Search::start("ALICE@X.COM", "root", &coordinator));
    let record = outcome.as_ref().unwrap();
    assert_eq!(record.target, "ALICE@X.COM");
    assert_eq!(record.path, "root/a.csv");
    assert_eq!(record.row, 3);
    assert_eq!(record.text, "alice@x.com,Jane,bob@x.com");
    let line = coordinator.settle(&outcome);
    assert_eq!(line.as_deref(), Some("3,alice@x.com,Jane,bob@x.com\n"));
    assert_eq!(coordinator.progress(), (1, 1));
    assert!(coordinator.is_complete());
}

#[test]
fn match_is_found_in_a_nested_directory() {
    let coordinator = Coordinator::new();
    let (outcome, asked, log) = drive(Search::start("dave@X.com", "root", &coordinator));
    let record = outcome.unwrap();
    assert_eq!(record.path, "root/sub/b.csv");
    assert_eq!(record.row, 1);
    assert_eq!(record.text, "carol@x.com,Carol,dave@x.com");
    assert_eq!(asked, vec!["dir root", "dir root/sub", "dir root/sub/locked", "file root/sub/b.csv"]);
    assert_eq!(
        log,
        vec![
            "Starting search...",
            "Searching in folder: root",
            "Searching in folder: root/sub",
            "Searching in folder: root/sub/locked",
            "Error reading root/sub/locked: permission denied",
            "Searching file: root/sub/b.csv",
        ]
    );
}

#[test]
fn absent_target_gives_no_match_and_no_line() {
    let mut coordinator = Coordinator::new();
    coordinator.register(1);
    let (outcome, asked, _) = drive(Search::start("nobody@x.com", "root", &coordinator));
    assert!(outcome.is_none());
    assert_eq!(
        asked,
        vec!["dir root", "dir root/sub", "dir root/sub/locked", "file root/sub/b.csv", "file root/a.csv"]
    );
    assert_eq!(coordinator.settle(&outcome), None);
    assert_eq!(coordinator.progress(), (1, 1));
}

#[test]
fn a_target_listed_twice_is_recorded_once() {
    let mut coordinator = Coordinator::new();
    coordinator.register(2);
    let (first, _, _) = drive(Search::start("alice@x.com", "root", &coordinator));
    let (second, _, _) = drive(Search::start("alice@x.com", "root", &coordinator));
    assert!(first.is_some() && second.is_some());
    assert!(coordinator.settle(&first).is_some());
    assert!(coordinator.settle(&second).is_none());
    assert_eq!(coordinator.progress(), (2, 2));
    let (third, asked, log) = drive(Search::start("alice@x.com", "root", &coordinator));
    assert!(third.is_none());
    assert!(asked.is_empty());
    assert_eq!(log, vec!["Starting search..."]);
}

#[test]
fn a_finished_search_stays_finished() {
    let coordinator = Coordinator::new();
    let step = Search::start("alice@x.com", "root", &coordinator);
    let step = step.search.step(Reply::Listing(vec![file("a.csv")]));
    let step = step.search.step(Reply::Content(b"alice@x.com,,\n".to_vec()));
    assert!(step.search.is_over());
    let again = step.search.step(Reply::Content(b"alice@x.com,,\nalice@x.com,,\n".to_vec()));
    match again.action {
        Action::Done(Some(r)) => {
            assert_eq!(r.row, 1);
            assert_eq!(r.path, "a.csv");
        }
        _ => panic!("the match was lost"),
    }
    assert!(again.notes.is_empty());
    assert_eq!(again.search.target(), "alice@x.com");
}

#[test]
fn a_reply_of_the_wrong_kind_gives_the_entry_up() {
    let coordinator = Coordinator::new();
    let step = Search::start("alice@x.com", "root", &coordinator);
    let step = step.search.step(Reply::Content(b"alice@x.com,,\n".to_vec()));
    assert!(matches!(step.action, Action::Done(None)));
    assert_eq!(step.notes, vec!["Unexpected reply for root"]);
}

#[test]
fn counts_never_pass_the_total() {
    let mut coordinator = Coordinator::new();
    assert_eq!(coordinator.progress(), (0, 0));
    assert!(!coordinator.mark_target_done());
    coordinator.register(3);
    assert!(!coordinator.is_complete());
    assert!(!coordinator.mark_target_done());
    assert!(!coordinator.mark_target_done());
    assert_eq!(coordinator.progress(), (2, 3));
    assert!(coordinator.mark_target_done());
    assert_eq!(coordinator.progress(), (3, 3));
    assert!(!coordinator.mark_target_done());
    assert_eq!(coordinator.progress(), (3, 3));
    assert!(coordinator.is_complete());
}

#[test]
fn claims_are_won_once_per_exact_target() {
    let mut coordinator = Coordinator::new();
    assert!(!coordinator.is_found("a@x.com"));
    assert!(coordinator.try_claim("a@x.com"));
    assert!(coordinator.try_claim("b@x.com"));
    assert!(coordinator.try_claim("A@x.com"));
    assert!(!coordinator.try_claim("a@x.com"));
    assert!(coordinator.is_found("a@x.com"));
    coordinator.register(1);
    assert!(!coordinator.is_found("a@x.com"));
    assert!(coordinator.try_claim("a@x.com"));
}

#[test]
fn a_match_after_an_undecodable_line_is_still_found() {
    let mut content = Vec::new();
    for row in 1..=10 {
        match row {
            5 => content.extend_from_slice(b"br\xffken,\x81,\xfe\n"),
            10 => content.extend_from_slice(b"x,y,alice@x.com\n"),
            _ => content.extend_from_slice(b"a,b,c\n"),
        }
    }
    let scan = scan_content(&content, "alice@x.com").unwrap();
    let hit = scan.hit.unwrap();
    assert_eq!(hit.row, 10);
    assert_eq!(hit.text, "x,y,alice@x.com");

    let target: Vec<char> = "alice@x.com".chars().collect();
    let scan = scan_lines(&content, &target);
    assert_eq!(scan.undecodable, vec![5]);
    let hit = scan.hit.unwrap();
    assert_eq!(hit.row, 10);
    assert_eq!(hit.text, "x,y,alice@x.com");
}

#[test]
fn undecodable_lines_after_the_hit_are_not_reported() {
    let target: Vec<char> = "t".chars().collect();
    let scan = scan_lines(b"\xff\nt,,\n\xff\n", &target);
    assert_eq!(scan.undecodable, vec![1]);
    assert_eq!(scan.hit.unwrap().row, 2);
    let scan = scan_lines(b"\xff\nu,,\n\xff", &target);
    assert_eq!(scan.undecodable, vec![1, 3]);
    assert!(scan.hit.is_none());
}

#[test]
fn result_lines_read_back() {
    let record = MatchRecord {
        target: "t".to_string(),
        path: "p".to_string(),
        row: 120,
        text: "a, b ,c,,".to_string(),
    };
    let line = record.to_line();
    assert_eq!(line, "120,a, b ,c,,\n");
    assert_eq!(parse_line(&line), Some((120, "a, b ,c,,".to_string())));
    assert_eq!(parse_line("7,\n"), Some((7, String::new())));
    assert_eq!(parse_line("007,x\n"), Some((7, "x".to_string())));
    assert_eq!(parse_line("7,x"), None);
    assert_eq!(parse_line(",x\n"), None);
    assert_eq!(parse_line("7x\n"), None);
    assert_eq!(parse_line("7a,x\n"), None);
    assert_eq!(parse_line("\n"), None);
    assert_eq!(parse_line(""), None);
    let max = format!("{},x\n", usize::MAX);
    assert_eq!(parse_line(&max), Some((usize::MAX, "x".to_string())));
    let over = format!("{}0,x\n", usize::MAX);
    assert_eq!(parse_line(&over), None);
    assert_eq!(parse_line("18446744073709551616,x\n"), None);
}

#[test]
fn walker_visits_depth_first_in_listing_order() {
    let walker = Walker::new("r");
    assert_eq!(walker.remaining(), 1);
    let (walker, visit) = walker.next();
    assert!(matches!(visit, Visit::Directory(p) if p == "r"));
    let walker = walker.descend(vec![file("r/1.csv"), dir("r/d"), file("r/2.csv")]);
    let (walker, visit) = walker.next();
    assert!(matches!(visit, Visit::Candidate(p) if p == "r/1.csv"));
    let (walker, visit) = walker.next();
    assert!(matches!(visit, Visit::Directory(p) if p == "r/d"));
    let walker = walker.descend(vec![file("r/d/skip.txt"), file("r/d/3.csv"), other("r/d/x.csv")]);
    let (walker, visit) = walker.next();
    assert!(matches!(visit, Visit::Candidate(p) if p == "r/d/3.csv"));
    let (walker, visit) = walker.next();
    assert!(matches!(visit, Visit::Candidate(p) if p == "r/2.csv"));
    let (walker, visit) = walker.next();
    assert!(matches!(visit, Visit::Done));
    assert_eq!(walker.remaining(), 0);
    assert!(file("a.csv").is_candidate());
    assert!(!file("a.CSV").is_candidate());
    assert!(!file("a.csvx").is_candidate());
    assert!(!file("csv").is_candidate());
    assert!(!dir("d.csv").is_candidate());
}

#[test]
fn progress_counts_up_to_its_total() {
    let mut progress = csv_processor::coordinator::ProgressState::new(2);
    assert_eq!(progress.counts(), (0, 2));
    assert!(!progress.advance());
    assert!(progress.advance());
    assert!(!progress.advance());
    assert_eq!(progress.counts(), (2, 2));
    let mut none = csv_processor::coordinator::ProgressState::new(0);
    assert!(!none.advance());
    assert_eq!(none.counts(), (0, 0));
}

#[test]
fn found_set_takes_each_target_once() {
    let mut found = csv_processor::coordinator::FoundSet::new();
    assert!(!found.contains("a@x.com"));
    assert!(found.insert("a@x.com"));
    assert!(!found.insert("a@x.com"));
    assert!(found.insert(""));
    assert!(found.contains("a@x.com") && found.contains(""));
    assert!(!found.contains("A@x.com"));
}

#[test]
fn an_empty_walk_is_done() {
    let walker = Walker::empty();
    assert_eq!(walker.remaining(), 0);
    let (walker, visit) = walker.next();
    assert!(matches!(visit, Visit::Done));
    let walker = walker.descend(Vec::new());
    assert_eq!(walker.remaining(), 0);
}

#[test]
fn a_file_that_cannot_be_read_is_noted_and_passed() {
    let coordinator = Coordinator::new();
    let step = Search::start("t", "root", &coordinator);
    let step = step.search.step(Reply::Listing(vec![file("root/a.csv"), file("root/b.csv")]));
    assert!(matches!(&step.action, Action::ReadFile(p) if p == "root/a.csv"));
    let step = step.search.step(Reply::Failed("locked".to_string()));
    assert_eq!(step.notes, vec!["Error reading root/a.csv: locked", "Searching file: root/b.csv"]);
    assert!(matches!(&step.action, Action::ReadFile(p) if p == "root/b.csv"));
    let step = step.search.step(Reply::Content(b"\xff\n\nt\nx,y,T\n".to_vec()));
    assert!(step.notes.is_empty());
    match step.action {
        Action::Done(Some(r)) => {
            assert_eq!((r.row, r.text.as_str(), r.path.as_str(), r.target.as_str()), (4, "x,y,T", "root/b.csv", "t"));
        }
        _ => panic!("no match"),
    }
}
