use md2html::clean::{expected, orphans};
use md2html::depgraph::{affected, Affected};
use md2html::file_watcher::{DirEntry, FileWatcher};
use md2html::fingerprint::fingerprint;
use md2html::scheduler::{
    advance, distinct_paths, generate, Event, Failure, Phase, Report, Scheduler, Source,
};
use md2html::watcher::{diff, holds, ChangeSet, Observation, Watcher};

const POST: &str = "<!-- title -->/<!-- content -->";
const LIST: &str = "<ul><!-- posts --></ul>";
const ITEM: &str = "<li><!-- title --></li>";

fn source(path: &str, text: &str) -> Source {
    Source { path: String::from(path), bytes: Some(text.as_bytes().to_vec()) }
}

fn unreadable(path: &str) -> Source {
    Source { path: String::from(path), bytes: None }
}

fn templates() -> Vec<Source> {
    vec![
        source("templates/post.html", POST),
        source("templates/post_list.html", LIST),
        source("templates/post_list_item.html", ITEM),
    ]
}

fn site(posts: &[(&str, &str)]) -> Vec<Source> {
    let mut catalog = templates();
    for (path, text) in posts {
        catalog.push(source(path, text));
    }
    catalog
}

fn scheduler() -> Scheduler {
    Scheduler::new(String::from(LIST), String::from(ITEM), String::from(POST)).unwrap()
}

fn started(posts: &[(&str, &str)]) -> Scheduler {
    let mut scheduler = scheduler();
    scheduler.tick(&site(posts));
    scheduler
}

fn written(report: &Report) -> Vec<(&str, &str)> {
    report
        .outcomes
        .iter()
        .filter_map(|o| o.result.as_ref().ok().map(|p| (p.build_path.as_str(), p.html.as_str())))
        .collect()
}

fn failed(report: &Report) -> Vec<(&str, Failure)> {
    report
        .outcomes
        .iter()
        .filter_map(|o| o.result.as_ref().err().map(|e| (o.path.as_str(), *e)))
        .collect()
}

fn observation(path: &str, bytes: Option<&str>) -> Observation {
    Observation {
        path: String::from(path),
        fingerprint: bytes.map(|b| fingerprint(b.as_bytes())),
    }
}

fn strings(items: &[&str]) -> Vec<String> {
    items.iter().map(|s| String::from(*s)).collect()
}

#[test]
fn the_first_look_finds_everything_added() {
    let mut watcher = Watcher::new();
    let observed = vec![observation("m/a.md", Some("a")), observation("m/b.md", Some("b"))];
    let changes = watcher.update(&observed);
    assert_eq!(changes.added, ["m/a.md", "m/b.md"]);
    assert!(changes.modified.is_empty());
    assert!(changes.removed.is_empty());
    assert_eq!(watcher.len(), 2);
    assert_eq!(watcher.fingerprint("m/a.md"), Some(fingerprint(b"a").as_str()));
    assert_eq!(watcher.fingerprint("m/c.md"), None);
}

#[test]
fn a_second_look_at_the_same_sources_finds_nothing() {
    let mut watcher = Watcher::new();
    let observed = vec![observation("m/a.md", Some("a")), observation("m/b.md", Some("b"))];
    watcher.update(&observed);
    let changes = watcher.update(&observed);
    assert!(changes.is_empty());
    assert_eq!(watcher.len(), 2);
}

#[test]
fn exactly_the_modified_source_is_reported() {
    let mut watcher = Watcher::new();
    watcher.update(&vec![
        observation("m/a.md", Some("a")),
        observation("m/b.md", Some("b")),
        observation("m/c.md", Some("c")),
    ]);
    let now = vec![
        observation("m/c.md", Some("c")),
        observation("m/b.md", Some("b changed")),
        observation("m/a.md", Some("a")),
    ];
    let found = diff(&now, &watcher);
    assert!(found.added.is_empty());
    assert_eq!(found.modified, ["m/b.md"]);
    assert!(found.removed.is_empty());
    let changes = watcher.update(&now);
    assert_eq!(changes.modified, ["m/b.md"]);
    assert!(changes.touches("m/b.md"));
    assert!(!changes.touches("m/a.md"));
    assert_eq!(watcher.fingerprint("m/b.md"), Some(fingerprint(b"b changed").as_str()));
}

#[test]
fn added_modified_and_removed_are_told_apart() {
    let mut watcher = Watcher::new();
    watcher.update(&vec![
        observation("m/a.md", Some("a")),
        observation("m/b.md", Some("b")),
        observation("m/c.md", Some("c")),
    ]);
    let changes = watcher.update(&vec![
        observation("m/d.md", Some("d")),
        observation("m/a.md", Some("A")),
        observation("m/c.md", Some("c")),
    ]);
    assert_eq!(changes.added, ["m/d.md"]);
    assert_eq!(changes.modified, ["m/a.md"]);
    assert_eq!(changes.removed, ["m/b.md"]);
    assert_eq!(watcher.len(), 3);
    assert_eq!(watcher.fingerprint("m/b.md"), None);
    assert_eq!(watcher.md(), ["m/a.md", "m/c.md", "m/d.md"]);
}

#[test]
fn a_source_that_cannot_be_read_counts_as_unchanged() {
    let mut watcher = Watcher::new();
    watcher.update(&vec![observation("m/a.md", Some("a"))]);
    let changes = watcher.update(&vec![observation("m/a.md", None), observation("m/b.md", None)]);
    assert!(changes.is_empty());
    assert_eq!(watcher.fingerprint("m/a.md"), Some(fingerprint(b"a").as_str()));
    assert_eq!(watcher.fingerprint("m/b.md"), None);
    let changes = watcher.update(&vec![observation("m/a.md", Some("a")), observation("m/b.md", Some("b"))]);
    assert_eq!(changes.added, ["m/b.md"]);
    assert!(changes.modified.is_empty());
}

#[test]
fn md_gives_the_posts_among_the_known_sources() {
    let mut watcher = Watcher::new();
    watcher.update(&vec![
        observation("templates/post.html", Some("t")),
        observation("m/a.md", Some("a")),
        observation("m/B.MD", Some("b")),
    ]);
    assert_eq!(watcher.md(), ["m/a.md", "m/B.MD"]);
}

#[test]
fn holds_looks_a_path_up() {
    let paths = strings(&["a", "b"]);
    assert!(holds(&paths, "b"));
    assert!(!holds(&paths, "c"));
}

fn changes(added: &[&str], modified: &[&str], removed: &[&str]) -> ChangeSet {
    ChangeSet { added: strings(added), modified: strings(modified), removed: strings(removed) }
}

#[test]
fn the_dependency_table_holds() {
    let every = Affected { every_post: true, listing: true };
    let listing = Affected { every_post: false, listing: true };
    let nothing = Affected { every_post: false, listing: false };
    assert_eq!(affected(&changes(&[], &[], &[])), nothing);
    assert_eq!(affected(&changes(&[], &["templates/post.html"], &[])), every);
    assert_eq!(affected(&changes(&["templates/post.html"], &[], &[])), every);
    assert_eq!(affected(&changes(&[], &["templates/header.html"], &[])), every);
    assert_eq!(affected(&changes(&[], &["templates/post_list.html"], &[])), listing);
    assert_eq!(affected(&changes(&[], &["templates/post_list_item.html"], &[])), listing);
    assert_eq!(affected(&changes(&["m/a.md"], &[], &[])), listing);
    assert_eq!(affected(&changes(&[], &["m/a.md"], &[])), listing);
    assert_eq!(affected(&changes(&[], &[], &["m/a.md"])), listing);
    assert_eq!(affected(&changes(&[], &[], &["templates/post.html"])), listing);
}

#[test]
fn the_phases_follow_the_cycle() {
    assert_eq!(advance(Phase::Idle, Event::Poll), Phase::Scanning);
    assert_eq!(advance(Phase::Scanning, Event::Scanned), Phase::Diffing);
    assert_eq!(advance(Phase::Diffing, Event::Changed), Phase::Regenerating);
    assert_eq!(advance(Phase::Diffing, Event::Unchanged), Phase::Idle);
    assert_eq!(advance(Phase::Regenerating, Event::Regenerated), Phase::AggregateCheck);
    assert_eq!(advance(Phase::AggregateCheck, Event::Listed), Phase::Idle);
    assert_eq!(advance(Phase::Idle, Event::Missing), Phase::Fatal);
    assert_eq!(advance(Phase::Fatal, Event::Poll), Phase::Fatal);
    assert_eq!(advance(Phase::Scanning, Event::Poll), Phase::Scanning);
    assert_eq!(advance(Phase::Idle, Event::Listed), Phase::Idle);
}

#[test]
fn a_scheduler_needs_a_listing_skeleton_with_marker() {
    assert!(Scheduler::new(String::from("<ul></ul>"), String::from(ITEM), String::from(POST)).is_none());
    let scheduler = scheduler();
    assert_eq!(scheduler.posts().len(), 0);
    assert_eq!(scheduler.watcher().len(), 0);
}

#[test]
fn the_first_tick_makes_the_page_and_the_listing() {
    let mut scheduler = scheduler();
    let report = scheduler.tick(&site(&[("markdown/hello.md", "~~~\ntitle: Hello\n~~~\nBody text")]));
    assert_eq!(written(&report), [("build/hello.html", "Hello/<p>Body text</p>\n")]);
    assert!(failed(&report).is_empty());
    assert_eq!(report.listing.as_deref(), Some("<ul><li>Hello</li></ul>"));
    assert!(report.deleted.is_empty());
    assert!(report.rejected.is_empty());
    assert_eq!(
        report.phases,
        [Phase::Scanning, Phase::Diffing, Phase::Regenerating, Phase::AggregateCheck, Phase::Idle]
    );
    assert_eq!(scheduler.posts().get("markdown/hello.md").unwrap().metadata.title, "Hello");
}

#[test]
fn a_second_tick_without_changes_makes_nothing() {
    let catalog = site(&[("markdown/hello.md", "~~~\ntitle: Hello\n~~~\nBody text")]);
    let mut scheduler = scheduler();
    scheduler.tick(&catalog);
    let report = scheduler.tick(&catalog);
    assert!(report.changes.is_empty());
    assert!(report.outcomes.is_empty());
    assert!(report.deleted.is_empty());
    assert!(report.rejected.is_empty());
    assert_eq!(report.listing, None);
    assert_eq!(report.phases, [Phase::Scanning, Phase::Diffing, Phase::Idle]);
    assert_eq!(scheduler.posts().len(), 1);
    assert_eq!(scheduler.posts().build(), "<ul><li>Hello</li></ul>");
}

#[test]
fn a_modified_post_is_the_only_page_made_anew() {
    let mut scheduler = started(&[("m/a.md", "~~~\ntitle: A\n~~~\na"), ("m/b.md", "~~~\ntitle: B\n~~~\nb")]);
    let report = scheduler.tick(&site(&[("m/a.md", "~~~\ntitle: A\n~~~\na"), ("m/b.md", "~~~\ntitle: B2\n~~~\nb")]));
    assert!(report.changes.added.is_empty());
    assert_eq!(report.changes.modified, ["m/b.md"]);
    assert!(report.changes.removed.is_empty());
    assert_eq!(written(&report), [("build/b.html", "B2/<p>b</p>\n")]);
    assert_eq!(report.listing.as_deref(), Some("<ul><li>A</li><li>B2</li></ul>"));
}

#[test]
fn a_new_page_skeleton_makes_every_page_anew() {
    let posts = [("m/a.md", "~~~\ntitle: A\n~~~\na"), ("m/b.md", "~~~\ntitle: B\n~~~\nb"), ("m/c.md", "c")];
    let mut scheduler = started(&posts);
    let mut catalog = site(&posts);
    catalog[0] = source("templates/post.html", "<!-- title -->|<!-- content -->");
    let report = scheduler.tick(&catalog);
    assert_eq!(report.changes.modified, ["templates/post.html"]);
    assert_eq!(report.outcomes.len(), 3);
    assert_eq!(
        written(&report),
        [
            ("build/a.html", "A|<p>a</p>\n"),
            ("build/b.html", "B|<p>b</p>\n"),
            ("build/c.html", "|<p>c</p>\n"),
        ]
    );
    assert!(report.listing.is_some());
}

#[test]
fn a_new_entry_skeleton_makes_the_listing_anew_and_no_page() {
    let posts = [("m/a.md", "~~~\ntitle: A\n~~~\na"), ("m/b.md", "~~~\ntitle: B\n~~~\nb")];
    let mut scheduler = started(&posts);
    let mut catalog = site(&posts);
    catalog[2] = source("templates/post_list_item.html", "<p><!-- title --></p>");
    let report = scheduler.tick(&catalog);
    assert_eq!(report.changes.modified, ["templates/post_list_item.html"]);
    assert!(report.outcomes.is_empty());
    assert_eq!(report.listing.as_deref(), Some("<ul><p>A</p><p>B</p></ul>"));
}

#[test]
fn a_new_listing_skeleton_makes_the_listing_anew_and_no_page() {
    let posts = [("m/a.md", "~~~\ntitle: A\n~~~\na")];
    let mut scheduler = started(&posts);
    let mut catalog = site(&posts);
    catalog[1] = source("templates/post_list.html", "<ol><!-- posts --></ol>");
    let report = scheduler.tick(&catalog);
    assert!(report.outcomes.is_empty());
    assert_eq!(report.listing.as_deref(), Some("<ol><li>A</li></ol>"));
}

#[test]
fn a_listing_skeleton_without_marker_is_rejected_and_the_old_one_stays() {
    let posts = [("m/a.md", "~~~\ntitle: A\n~~~\na")];
    let mut scheduler = started(&posts);
    let mut catalog = site(&posts);
    catalog[1] = source("templates/post_list.html", "<ol></ol>");
    let report = scheduler.tick(&catalog);
    assert_eq!(report.rejected.len(), 1);
    assert_eq!(report.rejected[0].path, "templates/post_list.html");
    assert_eq!(report.rejected[0].reason, Failure::NoMarker);
    assert_eq!(report.listing.as_deref(), Some("<ul><li>A</li></ul>"));
}

#[test]
fn a_template_that_is_not_text_is_rejected() {
    let mut scheduler = started(&[]);
    let mut catalog = templates();
    catalog[0] = Source { path: String::from("templates/post.html"), bytes: Some(vec![0xff, 0xfe]) };
    let report = scheduler.tick(&catalog);
    assert_eq!(report.rejected.len(), 1);
    assert_eq!(report.rejected[0].path, "templates/post.html");
    assert_eq!(report.rejected[0].reason, Failure::NotText);
    assert_eq!(scheduler.posts().post_template(), POST);
}

#[test]
fn a_removed_post_loses_its_page_and_its_entry() {
    let mut scheduler = started(&[("m/a.md", "~~~\ntitle: A\n~~~\na"), ("m/b.md", "~~~\ntitle: B\n~~~\nb")]);
    let report = scheduler.tick(&site(&[("m/b.md", "~~~\ntitle: B\n~~~\nb")]));
    assert_eq!(report.changes.removed, ["m/a.md"]);
    assert_eq!(report.deleted, ["build/a.html"]);
    assert!(report.outcomes.is_empty());
    assert_eq!(report.listing.as_deref(), Some("<ul><li>B</li></ul>"));
    assert!(scheduler.posts().get("m/a.md").is_none());
    assert_eq!(scheduler.posts().len(), 1);
}

#[test]
fn one_bad_post_does_not_keep_the_others_back() {
    let mut scheduler = scheduler();
    let report = scheduler.tick(&site(&[
        ("m/bad.md", "~~~\ntitle: Broken\nno end of the block"),
        ("m/good.md", "~~~\ntitle: Good\n~~~\nfine"),
    ]));
    assert_eq!(failed(&report), [("m/bad.md", Failure::Unterminated)]);
    assert_eq!(written(&report), [("build/good.html", "Good/<p>fine</p>\n")]);
    assert_eq!(report.listing.as_deref(), Some("<ul><li>Good</li></ul>"));
    assert!(scheduler.posts().get("m/bad.md").is_none());
}

#[test]
fn a_post_that_fails_keeps_its_old_page() {
    let mut scheduler = started(&[("m/a.md", "~~~\ntitle: A\n~~~\na")]);
    let report = scheduler.tick(&site(&[("m/a.md", "~~~\ntitle: A2\n")]));
    assert_eq!(failed(&report), [("m/a.md", Failure::Unterminated)]);
    assert_eq!(scheduler.posts().get("m/a.md").unwrap().metadata.title, "A");
    assert_eq!(report.listing.as_deref(), Some("<ul><li>A</li></ul>"));
    let again = scheduler.tick(&site(&[("m/a.md", "~~~\ntitle: A2\n")]));
    assert!(again.changes.is_empty());
}

#[test]
fn a_post_that_is_not_text_fails_alone() {
    let mut scheduler = scheduler();
    let mut catalog = site(&[("m/a.md", "fine")]);
    catalog.push(Source { path: String::from("m/b.md"), bytes: Some(vec![b'a', 0x80]) });
    let report = scheduler.tick(&catalog);
    assert_eq!(failed(&report), [("m/b.md", Failure::NotText)]);
    assert_eq!(written(&report), [("build/a.html", "/<p>fine</p>\n")]);
}

#[test]
fn a_post_that_cannot_be_read_is_left_as_it_is() {
    let mut scheduler = started(&[("m/a.md", "~~~\ntitle: A\n~~~\na")]);
    let mut catalog = templates();
    catalog.push(unreadable("m/a.md"));
    let report = scheduler.tick(&catalog);
    assert!(report.changes.is_empty());
    assert_eq!(report.listing, None);
    assert_eq!(scheduler.posts().len(), 1);
    catalog[0] = source("templates/post.html", "<!-- content -->");
    let report = scheduler.tick(&catalog);
    assert!(report.outcomes.is_empty());
    assert!(report.listing.is_some());
}

#[test]
fn files_that_are_no_sources_are_passed_over() {
    let mut scheduler = scheduler();
    let mut catalog = site(&[("m/a.md", "a")]);
    catalog.push(source("m/notes.txt", "notes"));
    let report = scheduler.tick(&catalog);
    assert_eq!(
        report.changes.added,
        ["templates/post.html", "templates/post_list.html", "templates/post_list_item.html", "m/a.md"]
    );
    assert_eq!(scheduler.watcher().len(), 4);
}

#[test]
fn the_listing_shows_the_latest_first() {
    let mut scheduler = scheduler();
    let report = scheduler.tick(&site(&[
        ("m/a.md", "~~~\ntitle: old\ndate: 1/1/2020\n~~~\n"),
        ("m/b.md", "~~~\ntitle: new\ndate: 2/1/2020\n~~~\n"),
        ("m/c.md", "~~~\ntitle: undated\n~~~\n"),
    ]));
    assert_eq!(report.listing.as_deref(), Some("<ul><li>new</li><li>old</li><li>undated</li></ul>"));
}

#[test]
fn generate_says_why_a_page_cannot_be_made() {
    assert_eq!(generate(POST, "m/a.md", b"~~~\nopen").unwrap_err(), Failure::Unterminated);
    assert_eq!(generate(POST, "m/a.md", &[0xc3, 0x28]).unwrap_err(), Failure::NotText);
    let post = generate(POST, "m/a.md", "~~~\ntitle: é\n~~~\nü".as_bytes()).unwrap();
    assert_eq!(post.html, "é/<p>ü</p>\n");
}

#[test]
fn a_catalog_names_each_path_once() {
    assert!(distinct_paths(&site(&[("m/a.md", "a"), ("m/b.md", "b")])));
    assert!(!distinct_paths(&site(&[("m/a.md", "a"), ("m/a.md", "b")])));
    assert!(distinct_paths(&Vec::new()));
}

#[test]
fn the_files_without_source_are_the_orphans() {
    let sources = strings(&["markdown/a.md", "markdown/b.md", "markdown/notes.txt"]);
    assert_eq!(expected(&sources), ["build/a.html", "build/b.html", "build/post_list.html"]);
    let built = strings(&["build/a.html", "build/old.html", "build/post_list.html", "build/style.css"]);
    assert_eq!(orphans(&sources, &built), ["build/old.html", "build/style.css"]);
    assert!(orphans(&sources, &Vec::new()).is_empty());
}

fn entry(path: &str, is_folder: bool, bytes: &str) -> DirEntry {
    DirEntry {
        path: String::from(path),
        is_folder,
        fingerprint: if is_folder { String::new() } else { fingerprint(bytes.as_bytes()) },
    }
}

#[test]
fn the_picture_of_a_directory_holds_its_posts() {
    let look = |b: &str| {
        vec![
            entry("markdown", true, ""),
            entry("markdown/a.md", false, "a"),
            entry("markdown/b.md", false, b),
            entry("markdown/notes.txt", false, "n"),
            entry("markdown/folder.md", true, ""),
        ]
    };
    let mut watcher = FileWatcher::new(look("b"));
    assert_eq!(watcher.len(), 2);
    assert!(!watcher.update(look("b")));
    assert!(watcher.update(look("changed")));
    assert!(!watcher.update(look("changed")));
    assert!(watcher.update(vec![entry("markdown/a.md", false, "a")]));
    assert_eq!(watcher.len(), 1);
}

#[test]
fn a_stale_record_makes_its_source_modified() {
    let mut watcher = Watcher::new();
    let observed = vec![observation("m/a.md", Some("a")), observation("m/b.md", Some("b"))];
    watcher.update(&observed);
    assert!(watcher.invalidate("m/a.md"));
    assert!(!watcher.invalidate("m/c.md"));
    assert_eq!(watcher.len(), 2);
    assert_eq!(watcher.fingerprint("m/a.md"), Some("!"));
    let changes = watcher.update(&observed);
    assert!(changes.added.is_empty());
    assert_eq!(changes.modified, ["m/a.md"]);
    assert!(changes.removed.is_empty());
    assert!(watcher.invalidate("m/b.md"));
    let changes = watcher.update(&vec![observation("m/a.md", Some("a")), observation("m/b.md", None)]);
    assert!(changes.is_empty());
    let changes = watcher.update(&vec![observation("m/a.md", Some("a"))]);
    assert_eq!(changes.removed, ["m/b.md"]);
}

#[test]
fn a_page_is_made_anew_after_a_retry() {
    let posts = [("m/a.md", "~~~\ntitle: A\n~~~\na"), ("m/b.md", "~~~\ntitle: B\n~~~\nb")];
    let mut scheduler = started(&posts);
    assert!(scheduler.retry("m/b.md"));
    assert!(!scheduler.retry("m/c.md"));
    let report = scheduler.tick(&site(&posts));
    assert_eq!(report.changes.modified, ["m/b.md"]);
    assert_eq!(written(&report), [("build/b.html", "B/<p>b</p>\n")]);
    assert_eq!(report.listing.as_deref(), Some("<ul><li>A</li><li>B</li></ul>"));
    assert!(scheduler.retry("templates/post_list.html"));
    let report = scheduler.tick(&site(&posts));
    assert!(report.outcomes.is_empty());
    assert!(report.listing.is_some());
}

#[test]
fn a_post_that_goes_after_a_retry_loses_its_page() {
    let posts = [("m/a.md", "~~~\ntitle: A\n~~~\na"), ("m/b.md", "~~~\ntitle: B\n~~~\nb")];
    let mut scheduler = started(&posts);
    assert!(scheduler.retry("m/b.md"));
    let report = scheduler.tick(&site(&posts[..1]));
    assert_eq!(report.changes.removed, ["m/b.md"]);
    assert_eq!(report.deleted, ["build/b.html"]);
    assert!(scheduler.posts().get("m/b.md").is_none());
}
