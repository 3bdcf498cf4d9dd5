use mdox::fetch::{FetchError, Fetched};
use mdox::github::{
    detect_and_convert_github_url, fetch_github_readme, fetch_remote_file, github_repository_of,
    open_remote_file, readme_lookup_of, readme_url_of, Branch, Opened,
};
use mdox::walk::Source;
use regex::Regex;

/// A host that serves the pages it is given and answers 404 for the rest.
struct Host {
    pages: Vec<(String, String)>,
    asked: Vec<String>,
}

impl Host {
    fn new(pages: &[(&str, &str)]) -> Host {
        Host {
            pages: pages.iter().map(|(url, body)| (url.to_string(), body.to_string())).collect(),
            asked: Vec::new(),
        }
    }
}

impl Source for Host {
    fn is_there(&mut self, _path: &str) -> bool {
        false
    }

    fn read(&mut self, location: &str) -> Fetched {
        self.asked.push(location.to_string());
        match self.pages.iter().find(|(url, _)| url == location) {
            Some((_, body)) => Ok(body.clone()),
            None => Err(not_found()),
        }
    }

    fn title(&mut self, location: &str) -> Fetched {
        self.read(location)
    }

    fn resolve(&mut self, _path: &str) -> Option<String> {
        None
    }
}

const MAIN: &str = "https://raw.githubusercontent.com/acme/widgets/refs/heads/main/README.md";
const MASTER: &str = "https://raw.githubusercontent.com/acme/widgets/refs/heads/master/README.md";

fn not_found() -> FetchError {
    FetchError::HttpStatus { code: 404, reason: "Not Found".to_string() }
}

#[test]
fn a_repository_url_converts_to_the_readme_on_main() {
    assert_eq!(detect_and_convert_github_url("https://github.com/acme/widgets"), Some(MAIN.to_string()));
    assert_eq!(detect_and_convert_github_url("https://github.com/acme/widgets/"), Some(MAIN.to_string()));
    assert_eq!(detect_and_convert_github_url("https://github.com/acme/widgets.git"), Some(MAIN.to_string()));
    assert_eq!(detect_and_convert_github_url("https://github.com/acme/widgets.git/"), Some(MAIN.to_string()));
}

#[test]
fn other_urls_convert_to_nothing() {
    for url in [
        "https://github.com/acme",
        "https://github.com/acme/",
        "https://github.com//widgets",
        "https://github.com/acme/widgets/tree/main",
        "https://github.com/acme/widgets//",
        "http://github.com/acme/widgets",
        "https://gitlab.com/acme/widgets",
        "https://github.com/",
        "",
    ] {
        assert_eq!(detect_and_convert_github_url(url), None, "{url}");
    }
}

#[test]
fn owner_and_repository_are_taken_apart() {
    assert_eq!(
        github_repository_of("https://github.com/acme/widgets.git"),
        Some(("acme".to_string(), "widgets".to_string()))
    );
    assert_eq!(
        github_repository_of("https://github.com/a/.git"),
        Some(("a".to_string(), ".git".to_string()))
    );
    assert_eq!(
        github_repository_of("https://github.com/a/b.git.git"),
        Some(("a".to_string(), "b.git".to_string()))
    );
}

#[test]
fn the_shape_is_that_of_the_pattern() {
    let pattern = Regex::new(r"^https://github\.com/([^/]+)/([^/]+?)(?:\.git)?/?$").unwrap();
    let pieces = ["", "a", "b.c", "/", "//", ".git", ".git/", "x.git", "git", ".", "\n", "a/b", "\u{e9}"];
    let mut urls: Vec<String> = Vec::new();
    for prefix in ["https://github.com/", "https://github.com", "http://github.com/", "https://github.comX/"] {
        for first in pieces {
            for second in pieces {
                for third in pieces {
                    urls.push(format!("{prefix}{first}{second}{third}"));
                    urls.push(format!("{prefix}{first}/{second}{third}"));
                }
            }
        }
    }
    for url in urls {
        let expected = pattern.captures(&url).map(|found| {
            (found.get(1).unwrap().as_str().to_string(), found.get(2).unwrap().as_str().to_string())
        });
        assert_eq!(github_repository_of(&url), expected, "{url:?}");
    }
}

#[test]
fn readme_urls_name_the_branch() {
    assert_eq!(readme_url_of("acme", "widgets", Branch::Main), MAIN);
    assert_eq!(readme_url_of("acme", "widgets", Branch::Master), MASTER);
}

#[test]
fn remote_github_shorthand_finds_the_readme_on_main() {
    let opening = open_remote_file("https://github.com/acme/widgets");
    assert_eq!(opening.url, MAIN);
    match opening.settle(Ok("# Widgets".to_string())) {
        Opened::Loaded { content, url } => {
            assert_eq!(content, "# Widgets");
            assert_eq!(url, MAIN);
        }
        _ => panic!("the README on main was not taken"),
    }
}

#[test]
fn remote_github_shorthand_falls_back_to_master() {
    let opening = readme_lookup_of("acme", "widgets");
    assert_eq!(opening.url, MAIN);
    let retry = match opening.settle(Err(not_found())) {
        Opened::Retry(next) => next,
        _ => panic!("master was not tried"),
    };
    assert_eq!(retry.url, MASTER);
    assert_eq!(retry.fallback, None);
    match retry.settle(Ok("# Old".to_string())) {
        Opened::Loaded { content, url } => {
            assert_eq!(content, "# Old");
            assert_eq!(url, MASTER);
        }
        _ => panic!("the README on master was not taken"),
    }
}

#[test]
fn remote_github_shorthand_fails_when_both_branches_fail() {
    let opening = readme_lookup_of("acme", "widgets");
    let retry = match opening.settle(Err(FetchError::Timeout("timed out".to_string()))) {
        Opened::Retry(next) => next,
        _ => panic!("master was not tried"),
    };
    match retry.settle(Err(not_found())) {
        Opened::Failed(error) => {
            assert!(matches!(&error, FetchError::ReadmeMissing(_)));
            assert_eq!(
                error.message(),
                "Could not find README.md in main or master branch: HTTP error 404: Not Found"
            );
        }
        _ => panic!("the lookup did not fail"),
    }
}

#[test]
fn an_ordinary_url_is_opened_as_it_is() {
    let opening = open_remote_file("https://example.com/docs/a.md");
    assert_eq!(opening.url, "https://example.com/docs/a.md");
    assert_eq!(opening.fallback, None);
    assert!(!opening.readme);
    match opening.settle(Err(not_found())) {
        Opened::Failed(error) => assert_eq!(error.message(), "HTTP error 404: Not Found"),
        _ => panic!("the failure was not final"),
    }
}

#[test]
fn remote_github_shorthand() {
    // The README is on main.
    let mut host = Host::new(&[(MAIN, "# Widgets"), (MASTER, "# Old")]);
    assert_eq!(
        fetch_remote_file(&mut host, "https://github.com/acme/widgets"),
        Ok(("# Widgets".to_string(), MAIN.to_string()))
    );
    assert_eq!(host.asked, vec![MAIN]);
    // Main answers 404: master is tried.
    let mut host = Host::new(&[(MASTER, "# Old")]);
    assert_eq!(
        fetch_remote_file(&mut host, "https://github.com/acme/widgets"),
        Ok(("# Old".to_string(), MASTER.to_string()))
    );
    assert_eq!(host.asked, vec![MAIN, MASTER]);
    // Both fail.
    let mut host = Host::new(&[]);
    assert_eq!(
        fetch_remote_file(&mut host, "https://github.com/acme/widgets"),
        Err("Could not find README.md in main or master branch: HTTP error 404: Not Found".to_string())
    );
    assert_eq!(host.asked, vec![MAIN, MASTER]);
}

#[test]
fn the_readme_of_a_repository_is_fetched_by_owner_and_name() {
    let mut host = Host::new(&[(MASTER, "# Old")]);
    assert_eq!(
        fetch_github_readme(&mut host, "acme", "widgets"),
        Ok(("# Old".to_string(), MASTER.to_string()))
    );
    let mut host = Host::new(&[]);
    assert_eq!(
        fetch_github_readme(&mut host, "acme", "widgets"),
        Err("Could not find README.md in main or master branch: HTTP error 404: Not Found".to_string())
    );
}

#[test]
fn an_ordinary_remote_file_is_fetched_once() {
    let mut host = Host::new(&[("https://h/a.md", "# A")]);
    assert_eq!(
        fetch_remote_file(&mut host, "https://h/a.md"),
        Ok(("# A".to_string(), "https://h/a.md".to_string()))
    );
    assert_eq!(
        fetch_remote_file(&mut host, "https://h/b.md"),
        Err("HTTP error 404: Not Found".to_string())
    );
    assert_eq!(host.asked, vec!["https://h/a.md", "https://h/b.md"]);
}
