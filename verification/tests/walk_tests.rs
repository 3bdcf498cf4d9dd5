use mdox::fetch::{fetch_remote_content, FetchError, Fetched, RemoteResponse};
use mdox::local::{discover_linked_documents, start_local, LinkedDocument};
use mdox::remote::{discover_remote_linked_documents, RemoteLinkedDocument};
use mdox::traversal::{Reply, Request, Substrate};
use mdox::snapshot::Snapshot;
use mdox::walk::{run, Document, Source, Walk};
use std::collections::HashMap;

/// A directory tree held in memory: canonical path to content.
struct Disk {
    files: HashMap<String, String>,
    reads: Vec<String>,
}

impl Disk {
    fn new(files: &[(&str, &str)]) -> Disk {
        Disk {
            files: files.iter().map(|(path, content)| (path.to_string(), content.to_string())).collect(),
            reads: Vec::new(),
        }
    }

    fn canonical(&self, path: &str) -> Option<String> {
        let mut parts: Vec<&str> = Vec::new();
        for part in path.split('/') {
            match part {
                "" | "." => {}
                ".." => {
                    parts.pop();
                }
                name => parts.push(name),
            }
        }
        let clean = format!("/{}", parts.join("/"));
        if self.files.contains_key(&clean) {
            Some(clean)
        } else {
            None
        }
    }

    fn read(&mut self, path: &str) -> Fetched {
        self.reads.push(path.to_string());
        match self.files.get(path) {
            Some(content) => Ok(content.clone()),
            None => Err(FetchError::Io("No such file or directory".to_string())),
        }
    }
}

fn run_local(disk: &mut Disk, root: &str, max_depth: usize) -> Walk {
    let mut walk = Walk::start(Substrate::Local, root, max_depth);
    let mut steps = 0;
    loop {
        let reply = match walk.request() {
            Request::Done => return walk,
            Request::Read(path) => Reply::Content(disk.read(&path)),
            Request::Title(path) => Reply::Content(disk.read(&path)),
            Request::Resolve(path) => Reply::Resolved(disk.canonical(&path)),
        };
        walk = walk.deliver(reply);
        steps += 1;
        assert!(steps < 10_000, "the walk does not end");
    }
}

fn local(disk: &mut Disk, root: &str, max_depth: usize) -> Vec<(String, String)> {
    let walk = run_local(disk, root, max_depth);
    assert!(walk.failure().is_none());
    let stepped: Vec<(String, String)> = walk
        .linked_documents()
        .into_iter()
        .map(|LinkedDocument { path, title }| (path, title))
        .collect();
    // Driving the walk by hand and letting the library drive it come to the same.
    let mut again = Disk { files: disk.files.clone(), reads: Vec::new() };
    let driven: Vec<(String, String)> = discover_linked_documents(&mut again, root, max_depth)
        .unwrap()
        .into_iter()
        .map(|LinkedDocument { path, title }| (path, title))
        .collect();
    assert_eq!(stepped, driven);
    assert_eq!(disk.reads, again.reads);
    stepped
}

fn pairs(expected: &[(&str, &str)]) -> Vec<(String, String)> {
    expected.iter().map(|(a, b)| (a.to_string(), b.to_string())).collect()
}

/// A web held in memory: URL to response.
struct Web {
    pages: HashMap<String, (u16, String, String)>,
    fetched: Vec<String>,
}

impl Web {
    fn new(pages: &[(&str, &str)]) -> Web {
        Web {
            pages: pages
                .iter()
                .map(|(url, body)| (url.to_string(), (200, "text/markdown".to_string(), body.to_string())))
                .collect(),
            fetched: Vec::new(),
        }
    }

    fn fetch(&mut self, url: &str) -> Fetched {
        self.fetched.push(url.to_string());
        let (status, content_type, body) = match self.pages.get(url) {
            Some(page) => page.clone(),
            None => (404, "text/plain".to_string(), "not found".to_string()),
        };
        fetch_remote_content(RemoteResponse {
            status,
            reason: if status == 404 { Some("Not Found".to_string()) } else { Some("OK".to_string()) },
            content_type: Some(content_type),
            body: Ok(body),
        })
    }
}

fn run_remote(web: &mut Web, root: &str, max_depth: usize) -> Walk {
    let mut walk = Walk::start(Substrate::Remote, root, max_depth);
    let mut steps = 0;
    loop {
        let reply = match walk.request() {
            Request::Done => return walk,
            Request::Read(url) => Reply::Content(web.fetch(&url)),
            Request::Title(url) => Reply::Content(web.fetch(&url)),
            Request::Resolve(_) => panic!("a remote walk asked for a path"),
        };
        walk = walk.deliver(reply);
        steps += 1;
        assert!(steps < 10_000, "the walk does not end");
    }
}

fn remote(web: &mut Web, root: &str, max_depth: usize) -> Vec<(String, String)> {
    let walk = run_remote(web, root, max_depth);
    assert!(walk.failure().is_none());
    let stepped: Vec<(String, String)> = walk
        .remote_documents()
        .into_iter()
        .map(|RemoteLinkedDocument { url, title }| (url, title))
        .collect();
    // Driving the walk by hand and letting the library drive it come to the same.
    let mut again = Web { pages: web.pages.clone(), fetched: Vec::new() };
    let driven: Vec<(String, String)> =
        discover_remote_linked_documents(&mut again, root.to_string(), max_depth)
            .unwrap()
            .into_iter()
            .map(|RemoteLinkedDocument { url, title }| (url, title))
            .collect();
    assert_eq!(stepped, driven);
    assert_eq!(web.fetched, again.fetched);
    stepped
}

#[test]
fn local_depth_1() {
    let mut disk = Disk::new(&[
        ("/docs/A.md", "# Alpha\n\nSee [beta](B.md) and [notes](notes.txt).\n"),
        ("/docs/B.md", "# Beta\n\n[gamma](C.md)\n"),
        ("/docs/C.md", "# Gamma\n"),
        ("/docs/notes.txt", "plain notes"),
    ]);
    assert_eq!(local(&mut disk, "/docs/A.md", 1), pairs(&[("/docs/B.md", "Beta")]));
    // B is read for its title and never for its links.
    assert_eq!(disk.reads, vec!["/docs/A.md", "/docs/B.md"]);
}

#[test]
fn local_missing_title() {
    let mut disk = Disk::new(&[
        ("/docs/A.md", "[beta](B.md)\n"),
        ("/docs/B.md", "no heading in here\n"),
    ]);
    assert_eq!(local(&mut disk, "/docs/A.md", 1), pairs(&[("/docs/B.md", "B.md")]));
}

#[test]
fn local_missing_root_is_not_found() {
    let mut disk = Disk::new(&[]);
    match discover_linked_documents(&mut disk, "/docs/A.md", 3) {
        Err(message) => assert_eq!(message, "File does not exist: /docs/A.md"),
        Ok(_) => panic!("a walk started from nothing"),
    }
    assert!(disk.reads.is_empty());
}

#[test]
fn depth_zero_reads_nothing() {
    let mut disk = Disk::new(&[("/docs/A.md", "[beta](B.md)\n"), ("/docs/B.md", "# Beta\n")]);
    assert_eq!(local(&mut disk, "/docs/A.md", 0), pairs(&[]));
    assert!(disk.reads.is_empty());
    let mut web = Web::new(&[("https://h/a.md", "[b](b.md)\n")]);
    assert_eq!(remote(&mut web, "https://h/a.md", 0), pairs(&[]));
    assert!(web.fetched.is_empty());
}

#[test]
fn discovery_is_breadth_first() {
    let mut disk = Disk::new(&[
        ("/d/A.md", "[b](B.md) [c](C.md)\n"),
        ("/d/B.md", "# B\n\n[d](D.md)\n"),
        ("/d/C.md", "# C\n\n[e](E.md) [d](D.md)\n"),
        ("/d/D.md", "# D\n\n[f](F.md)\n"),
        ("/d/E.md", "# E\n"),
        ("/d/F.md", "# F\n"),
    ]);
    assert_eq!(
        local(&mut disk, "/d/A.md", 2),
        pairs(&[("/d/B.md", "B"), ("/d/C.md", "C"), ("/d/D.md", "D"), ("/d/E.md", "E")])
    );
    let mut disk = Disk::new(&[
        ("/d/A.md", "[b](B.md) [c](C.md)\n"),
        ("/d/B.md", "# B\n\n[d](D.md)\n"),
        ("/d/C.md", "# C\n\n[e](E.md) [d](D.md)\n"),
        ("/d/D.md", "# D\n\n[f](F.md)\n"),
        ("/d/E.md", "# E\n"),
        ("/d/F.md", "# F\n"),
    ]);
    assert_eq!(
        local(&mut disk, "/d/A.md", 3),
        pairs(&[("/d/B.md", "B"), ("/d/C.md", "C"), ("/d/D.md", "D"), ("/d/E.md", "E"), ("/d/F.md", "F")])
    );
}

#[test]
fn depth_bound_is_respected() {
    let mut disk = Disk::new(&[
        ("/d/A.md", "[b](B.md)\n"),
        ("/d/B.md", "# B\n\n[c](C.md)\n"),
        ("/d/C.md", "# C\n\n[d](D.md)\n"),
        ("/d/D.md", "# D\n"),
    ]);
    let walk = run_local(&mut disk, "/d/A.md", 2);
    let found: Vec<Document> = walk.found();
    assert_eq!(found.len(), 2);
    assert_eq!((found[0].location.as_str(), found[0].depth, found[0].parent), ("/d/B.md", 1, 0));
    assert_eq!((found[1].location.as_str(), found[1].depth, found[1].parent), ("/d/C.md", 2, 1));
    // C, at the bound, is read once, for its title; D is never read.
    assert_eq!(disk.reads, vec!["/d/A.md", "/d/B.md", "/d/B.md", "/d/C.md"]);
}

#[test]
fn dead_links_are_tolerated() {
    let mut disk = Disk::new(&[
        ("/d/A.md", "[gone](missing.md) [b](B.md) [also gone](sub/none.md) [c](C.md)\n"),
        ("/d/B.md", "# B\n"),
        ("/d/C.md", "# C\n"),
    ]);
    assert_eq!(local(&mut disk, "/d/A.md", 5), pairs(&[("/d/B.md", "B"), ("/d/C.md", "C")]));
    let mut web = Web::new(&[
        ("https://h/a.md", "[gone](gone.md) [b](b.md)\n"),
        ("https://h/b.md", "# B\n"),
    ]);
    // A remote link is accepted before it is fetched: one that cannot be fetched is
    // listed under the name in its URL and leads nowhere.
    assert_eq!(
        remote(&mut web, "https://h/a.md", 5),
        pairs(&[("https://h/gone.md", "gone.md"), ("https://h/b.md", "B")])
    );
}

#[test]
fn an_unreadable_document_is_a_dead_end() {
    let mut disk = Disk::new(&[("/d/A.md", "[b](B.md) [c](C.md)\n"), ("/d/C.md", "# C\n")]);
    // B resolves, but cannot be read.
    let mut walk = Walk::start(Substrate::Local, "/d/A.md", 3);
    loop {
        let reply = match walk.request() {
            Request::Done => break,
            Request::Read(path) => Reply::Content(disk.read(&path)),
            Request::Title(path) => Reply::Content(disk.read(&path)),
            Request::Resolve(path) => Reply::Resolved(Some(path)),
        };
        walk = walk.deliver(reply);
    }
    let found: Vec<(String, String)> =
        walk.linked_documents().into_iter().map(|d| (d.path, d.title)).collect();
    assert_eq!(found, pairs(&[("/d/B.md", "B.md"), ("/d/C.md", "C")]));
}

#[test]
fn cycles_end() {
    let mut disk = Disk::new(&[
        ("/d/A.md", "# A\n\n[b](B.md) [self](A.md)\n"),
        ("/d/B.md", "# B\n\n[a](A.md) [b](./B.md) [up](../d/A.md#top)\n"),
    ]);
    assert_eq!(local(&mut disk, "/d/A.md", 50), pairs(&[("/d/B.md", "B")]));
    let mut web = Web::new(&[
        ("https://h/a.md", "[b](b.md) [a](a.md)\n"),
        ("https://h/b.md", "# B\n\n[a](https://h/a.md) [b](./b.md)\n"),
    ]);
    assert_eq!(remote(&mut web, "https://h/a.md", 50), pairs(&[("https://h/b.md", "B")]));
}

#[test]
fn no_location_is_returned_twice() {
    let mut disk = Disk::new(&[
        ("/d/A.md", "[b](B.md) [b again](B.md#x) [c](C.md) [b](./B.md)\n"),
        ("/d/B.md", "# B\n\n[c](C.md) [a](A.md)\n"),
        ("/d/C.md", "# C\n\n[b](B.md)\n"),
    ]);
    assert_eq!(local(&mut disk, "/d/A.md", 4), pairs(&[("/d/B.md", "B"), ("/d/C.md", "C")]));
}

#[test]
fn remote_links_resolve_against_the_document_that_holds_them() {
    let mut web = Web::new(&[
        ("https://h/docs/index.md", "# Index\n\n[guide](guide/intro.md) [api](api)\n"),
        ("https://h/docs/guide/intro.md", "## Sub\n\n# Intro\n\n[next](next.md)\n"),
        ("https://h/docs/guide/next.md", "## Only a sub heading\n"),
        ("https://h/docs/api", "# API\n"),
    ]);
    assert_eq!(
        remote(&mut web, "https://h/docs/index.md", 2),
        pairs(&[
            ("https://h/docs/guide/intro.md", "Intro"),
            ("https://h/docs/api", "API"),
            ("https://h/docs/guide/next.md", "next.md"),
        ])
    );
}

#[test]
fn remote_binary_target_yields_no_further_links() {
    let mut web = Web::new(&[
        ("https://h/a.md", "[blob](blob.md) [b](b.md)\n"),
        ("https://h/blob.md", "\u{0}\u{1}\u{2}[c](c.md)"),
        ("https://h/b.md", "# B\n"),
        ("https://h/c.md", "# C\n"),
    ]);
    assert_eq!(
        remote(&mut web, "https://h/a.md", 3),
        pairs(&[("https://h/blob.md", "blob.md"), ("https://h/b.md", "B")])
    );
    assert!(matches!(web.fetch("https://h/blob.md"), Err(FetchError::BinaryContent)));
}

#[test]
fn remote_github_root_is_replaced_by_its_readme() {
    let main = "https://raw.githubusercontent.com/acme/widgets/refs/heads/main/README.md";
    let mut web = Web::new(&[
        (main, "# Widgets\n\n[docs](docs/usage.md)\n"),
        (
            "https://raw.githubusercontent.com/acme/widgets/refs/heads/main/docs/usage.md",
            "# Usage\n",
        ),
    ]);
    assert_eq!(
        remote(&mut web, "https://github.com/acme/widgets", 1),
        pairs(&[(
            "https://raw.githubusercontent.com/acme/widgets/refs/heads/main/docs/usage.md",
            "Usage"
        )])
    );
    // The README is fetched once.
    assert_eq!(web.fetched.iter().filter(|url| url.as_str() == main).count(), 1);
}

#[test]
fn remote_github_root_falls_back_to_master() {
    let master = "https://raw.githubusercontent.com/acme/widgets/refs/heads/master/README.md";
    let mut web = Web::new(&[(master, "# Widgets\n\n[more](MORE.md)\n")]);
    assert_eq!(
        remote(&mut web, "https://github.com/acme/widgets/", 1),
        pairs(&[(
            "https://raw.githubusercontent.com/acme/widgets/refs/heads/master/MORE.md",
            "MORE.md"
        )])
    );
    assert_eq!(
        web.fetched[..2],
        [
            "https://raw.githubusercontent.com/acme/widgets/refs/heads/main/README.md".to_string(),
            master.to_string()
        ]
    );
}

#[test]
fn remote_github_root_without_readme_fails() {
    let mut web = Web::new(&[]);
    assert_eq!(
        discover_remote_linked_documents(&mut web, "https://github.com/acme/widgets".to_string(), 2)
            .unwrap_err(),
        "Could not find README.md in main or master branch: HTTP error 404: Not Found"
    );
    let mut web = Web::new(&[]);
    let walk = run_remote(&mut web, "https://github.com/acme/widgets", 2);
    assert!(walk.is_done());
    let error = walk.failure().unwrap();
    assert_eq!(
        error.message(),
        "Could not find README.md in main or master branch: HTTP error 404: Not Found"
    );
    assert!(walk.remote_documents().is_empty());
    assert_eq!(web.fetched.len(), 2);
}

#[test]
fn a_reply_of_the_wrong_kind_changes_nothing() {
    let walk = Walk::start(Substrate::Local, "/d/A.md", 1);
    assert!(matches!(walk.request(), Request::Resolve(path) if path == "/d/A.md"));
    let walk = walk.deliver(Reply::Content(Ok("[b](B.md)".to_string())));
    assert!(matches!(walk.request(), Request::Resolve(path) if path == "/d/A.md"));
    let walk = walk.deliver(Reply::Resolved(Some("/d/A.md".to_string())));
    assert!(matches!(walk.request(), Request::Read(path) if path == "/d/A.md"));
    let walk = walk.deliver(Reply::Resolved(Some("/d/B.md".to_string())));
    assert!(matches!(walk.request(), Request::Read(path) if path == "/d/A.md"));
    let walk = walk.deliver(Reply::Content(Ok("[b](B.md)".to_string())));
    assert!(matches!(walk.request(), Request::Resolve(_)));
    let walk = walk.deliver(Reply::Content(Ok("# B".to_string())));
    assert!(matches!(walk.request(), Request::Resolve(_)));
    let walk = walk.deliver(Reply::Resolved(Some("/d/B.md".to_string())));
    assert!(matches!(walk.request(), Request::Title(path) if path == "/d/B.md"));
    let walk = walk.deliver(Reply::Content(Ok("# B".to_string())));
    assert!(walk.is_done());
    let walk = walk.deliver(Reply::Content(Ok("# B".to_string())));
    assert!(walk.is_done());
    assert_eq!(walk.linked_documents().len(), 1);
}

#[test]
fn a_resolved_path_must_name_a_new_markdown_document() {
    let walk = Walk::start(Substrate::Local, "/d/A.md", 2);
    let walk = walk.deliver(Reply::Resolved(Some("/d/A.md".to_string())));
    let walk = walk.deliver(Reply::Content(Ok("[t](notes.txt) [a](A.md) [b](B.md)".to_string())));
    // Not markdown.
    let walk = walk.deliver(Reply::Resolved(Some("/d/notes.txt".to_string())));
    assert!(matches!(walk.request(), Request::Resolve(_)));
    // The root.
    let walk = walk.deliver(Reply::Resolved(Some("/d/A.md".to_string())));
    assert!(matches!(walk.request(), Request::Resolve(_)));
    // New.
    let walk = walk.deliver(Reply::Resolved(Some("/d/B.md".to_string())));
    assert!(matches!(walk.request(), Request::Title(path) if path == "/d/B.md"));
}

impl Source for Disk {
    fn is_there(&mut self, path: &str) -> bool {
        self.canonical(path).is_some()
    }

    fn read(&mut self, location: &str) -> Fetched {
        Disk::read(self, location)
    }

    fn title(&mut self, location: &str) -> Fetched {
        Disk::read(self, location)
    }

    fn resolve(&mut self, path: &str) -> Option<String> {
        self.canonical(path)
    }
}

impl Source for Web {
    fn is_there(&mut self, _path: &str) -> bool {
        false
    }

    fn read(&mut self, location: &str) -> Fetched {
        self.fetch(location)
    }

    fn title(&mut self, location: &str) -> Fetched {
        self.fetch(location)
    }

    fn resolve(&mut self, _path: &str) -> Option<String> {
        None
    }
}

#[test]
fn run_drives_a_walk_to_its_end() {
    let mut disk = Disk::new(&[
        ("/d/A.md", "[b](B.md) [c](sub/C.md)\n"),
        ("/d/B.md", "# B\n\n[a](A.md)\n"),
        ("/d/sub/C.md", "# C\n\n[b](../B.md) [d](D.md)\n"),
        ("/d/sub/D.md", "plain\n"),
    ]);
    let walk = Walk::start(Substrate::Local, "/d/A.md", 2);
    let done = run(walk, &mut disk);
    assert!(done.is_done());
    let found: Vec<(String, String)> =
        done.linked_documents().into_iter().map(|d| (d.path, d.title)).collect();
    assert_eq!(found, pairs(&[("/d/B.md", "B"), ("/d/sub/C.md", "C"), ("/d/sub/D.md", "D.md")]));
}

#[test]
fn a_snapshot_is_a_source() {
    let mut snapshot = Snapshot::new();
    snapshot.hold("https://h/a.md", "[b](b.md) [c](c.md)\n");
    snapshot.hold("https://h/b.md", "# B\n\n[a](a.md) [d](d.md)\n");
    snapshot.hold("https://h/b.md", "# Shadowed\n");
    snapshot.hold("https://h/d.md", "# D\n");
    assert_eq!(snapshot.fetch("https://h/b.md").unwrap(), "# B\n\n[a](a.md) [d](d.md)\n");
    assert!(matches!(snapshot.fetch("https://h/c.md"), Err(FetchError::NotFound(at)) if at == "https://h/c.md"));
    assert_eq!(snapshot.canonical("https://h/d.md"), Some("https://h/d.md".to_string()));
    assert_eq!(snapshot.canonical("https://h/x.md"), None);
    let found: Vec<(String, String)> =
        discover_remote_linked_documents(&mut snapshot, "https://h/a.md".to_string(), 2)
            .unwrap()
            .into_iter()
            .map(|d| (d.url, d.title))
            .collect();
    assert_eq!(
        found,
        pairs(&[("https://h/b.md", "B"), ("https://h/c.md", "c.md"), ("https://h/d.md", "D")])
    );
}

#[test]
fn a_task_that_did_not_come_back_has_its_message() {
    let error: FetchError = FetchError::TaskFailed("cancelled".to_string());
    assert_eq!(error.message(), "Task failed: cancelled");
}

#[test]
fn a_walk_over_a_snapshot_needs_no_driver() {
    let mut snapshot = Snapshot::new();
    snapshot.hold("/d/A.md", "[b](B.md) [n](notes.txt) [gone](gone.md)\n");
    snapshot.hold("/d/B.md", "# Beta\n\n[a](A.md) [c](C.md)\n");
    snapshot.hold("/d/C.md", "no heading\n");
    snapshot.hold("/d/notes.txt", "notes\n");
    let done = snapshot.walk(Substrate::Local, "/d/A.md", 1);
    assert!(done.is_done());
    let found: Vec<(String, String)> =
        done.linked_documents().into_iter().map(|d| (d.path, d.title)).collect();
    assert_eq!(found, pairs(&[("/d/B.md", "Beta")]));
    let done = snapshot.walk(Substrate::Local, "/d/A.md", 2);
    let found: Vec<(String, String)> =
        done.linked_documents().into_iter().map(|d| (d.path, d.title)).collect();
    assert_eq!(found, pairs(&[("/d/B.md", "Beta"), ("/d/C.md", "C.md")]));
}

#[test]
fn the_walk_on_disk_starts_only_where_the_root_exists() {
    match start_local(false, "/d/A.md", 3) {
        Err(message) => assert_eq!(message, "File does not exist: /d/A.md"),
        Ok(_) => panic!("a walk started from nothing"),
    }
    let walk = start_local(true, "/d/A.md", 3).unwrap();
    assert!(matches!(walk.request(), Request::Resolve(path) if path == "/d/A.md"));
    let walk = start_local(true, "/d/A.md", 0).unwrap();
    assert!(matches!(walk.request(), Request::Resolve(path) if path == "/d/A.md"));
    let walk = walk.deliver(Reply::Resolved(Some("/d/A.md".to_string())));
    assert!(walk.is_done());
}

#[test]
fn the_root_is_not_returned_under_any_spelling() {
    for root in ["/d/A.md", "/d//A.md", "/d/./A.md", "/d/sub/../A.md"] {
        let mut disk = Disk::new(&[
            ("/d/A.md", "[b](B.md) [self](./A.md)\n"),
            ("/d/B.md", "# B\n\n[a](A.md) [up](../d/A.md)\n"),
            ("/d/sub/C.md", "# C\n"),
        ]);
        assert_eq!(
            discover_linked_documents(&mut disk, root, 5)
                .unwrap()
                .into_iter()
                .map(|d| (d.path, d.title))
                .collect::<Vec<_>>(),
            pairs(&[("/d/B.md", "B")]),
            "{root}"
        );
        assert_eq!(disk.reads, vec!["/d/A.md", "/d/B.md", "/d/B.md"], "{root}");
    }
}

#[test]
fn a_root_without_canonical_form_is_walked_under_its_own_name() {
    let walk = Walk::start(Substrate::Local, "A.md", 1);
    let walk = walk.deliver(Reply::Resolved(None));
    assert!(matches!(walk.request(), Request::Read(path) if path == "A.md"));
}

#[test]
fn an_existing_root_that_cannot_be_read_gives_no_documents() {
    struct Folder;
    impl Source for Folder {
        fn is_there(&mut self, _path: &str) -> bool {
            true
        }
        fn read(&mut self, _location: &str) -> Fetched {
            Err(FetchError::Io("Is a directory".to_string()))
        }
        fn title(&mut self, _location: &str) -> Fetched {
            Err(FetchError::Io("Is a directory".to_string()))
        }
        fn resolve(&mut self, path: &str) -> Option<String> {
            Some(path.to_string())
        }
    }
    assert_eq!(discover_linked_documents(&mut Folder, "/d", 3).unwrap().len(), 0);
}

#[test]
fn the_url_that_the_caller_gave_is_not_returned() {
    let readme = "https://raw.githubusercontent.com/acme/notes.md/refs/heads/main/README.md";
    let mut web = Web::new(&[
        (readme, "# Notes\n\n[home](https://github.com/acme/notes.md) [me](README.md) [x](x.md)\n"),
        ("https://github.com/acme/notes.md", "# Home\n"),
    ]);
    assert_eq!(
        remote(&mut web, "https://github.com/acme/notes.md", 2),
        pairs(&[(
            "https://raw.githubusercontent.com/acme/notes.md/refs/heads/main/x.md",
            "x.md"
        )])
    );
}
