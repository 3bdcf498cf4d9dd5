//! The GitHub convenience: a URL that names a repository stands for the README of
//! that repository, looked for on the `main` branch first and on `master` second.

use crate::fetch::{fetched_view, message_of, FetchError, Fetched};
use crate::text::{
    before_first, chars_of, contains_char, ends_with, find_first, join, optional_view,
    starts_with,
};
use crate::walk::Source;
use vstd::prelude::*;
use vstd::string::*;

verus! {

/// `s` without one trailing slash, if it has one.
pub open spec fn without_trailing_slash(s: Seq<char>) -> Seq<char> {
    if s.len() > 0 && s.last() == '/' {
        s.drop_last()
    } else {
        s
    }
}

/// `s` without a trailing `.git`, unless that would leave nothing.
pub open spec fn without_git_suffix(s: Seq<char>) -> Seq<char> {
    if ".git"@.is_suffix_of(s) && s.len() > ".git"@.len() {
        s.take(s.len() - ".git"@.len())
    } else {
        s
    }
}

/// The owner and the repository that a URL of the shape
/// `https://github.com/<owner>/<repo>` names. Owner and repository are not empty and
/// hold no slash; one trailing slash and a trailing `.git` are not part of the
/// repository's name. Any other URL names none.
pub open spec fn github_repository(url: Seq<char>) -> Option<(Seq<char>, Seq<char>)> {
    let prefix = "https://github.com/"@;
    let rest = without_trailing_slash(url.skip(prefix.len() as int));
    let owner = before_first(rest, '/');
    let tail = rest.skip(owner.len() as int + 1);
    if prefix.is_prefix_of(url) && 0 < owner.len() < rest.len() && tail.len() > 0
        && !tail.contains('/') {
        Some((owner, without_git_suffix(tail)))
    } else {
        None
    }
}

/// A branch on which a README is looked for.
#[derive(Clone, Copy, Debug, PartialEq, Eq, Structural)]
pub enum Branch {
    Main,
    Master,
}

impl Branch {
    /// The name of the branch.
    pub open spec fn name(self) -> Seq<char> {
        match self {
            Branch::Main => "main"@,
            Branch::Master => "master"@,
        }
    }

    /// The name of the branch.
    pub fn text(self) -> (name: &'static str)
        ensures
            name@ == self.name(),
    {
        match self {
            Branch::Main => "main",
            Branch::Master => "master",
        }
    }
}

/// The URL under which GitHub serves the raw README of a repository on a branch.
pub open spec fn readme_url(owner: Seq<char>, repo: Seq<char>, branch: Branch) -> Seq<char> {
    "https://raw.githubusercontent.com/"@ + owner + "/"@ + repo + "/refs/heads/"@ + branch.name()
        + "/README.md"@
}

/// The URL under which GitHub serves the raw README of a repository on a branch.
pub fn readme_url_of(owner: &str, repo: &str, branch: Branch) -> (url: String)
    ensures
        url@ == readme_url(owner@, repo@, branch),
{
    let url = join("https://raw.githubusercontent.com/", owner);
    let url = url.concat("/");
    let url = url.concat(repo);
    let url = url.concat("/refs/heads/");
    let url = url.concat(branch.text());
    url.concat("/README.md")
}

/// The view of an optional pair of strings.
pub open spec fn pair_view(pair: Option<(String, String)>) -> Option<(Seq<char>, Seq<char>)> {
    match pair {
        Some((first, second)) => Some((first@, second@)),
        None => None,
    }
}

/// The owner and the repository that `url` names, if it has the shape of a GitHub
/// repository URL.
pub fn github_repository_of(url: &str) -> (named: Option<(String, String)>)
    ensures
        pair_view(named) == github_repository(url@),
{
    let prefix = "https://github.com/";
    if !starts_with(url, prefix) {
        return None;
    }
    let start: usize = prefix.unicode_len();
    let total: usize = url.unicode_len();
    let after = url.substring_char(start, total);
    assert(after@ == url@.skip(start as int));
    let after_chars = chars_of(after);
    let rest = if after_chars.len() > 0 && after_chars[after_chars.len() - 1] == '/' {
        assert(after@.drop_last() == after@.subrange(0, after@.len() - 1));
        after.substring_char(0, after_chars.len() - 1)
    } else {
        after
    };
    assert(rest@ == without_trailing_slash(url@.skip(start as int)));
    let rest_chars = chars_of(rest);
    let slash: usize = find_first(&rest_chars, '/');
    assert(before_first(rest@, '/').len() == slash);
    if slash == 0 || slash >= rest_chars.len() {
        return None;
    }
    let owner = rest.substring_char(0, slash);
    assert(owner@ == before_first(rest@, '/'));
    let tail = rest.substring_char(slash + 1, rest_chars.len());
    assert(tail@ == rest@.skip(slash + 1));
    let tail_len: usize = tail.unicode_len();
    if tail_len == 0 || contains_char(tail, '/') {
        return None;
    }
    let suffix = ".git";
    let suffix_len: usize = suffix.unicode_len();
    let repo = if ends_with(tail, suffix) && tail_len > suffix_len {
        assert(tail@.take(tail@.len() - suffix@.len()) == tail@.subrange(
            0,
            tail@.len() - suffix@.len(),
        ));
        tail.substring_char(0, tail_len - suffix_len)
    } else {
        tail
    };
    Some((owner.to_owned(), repo.to_owned()))
}

/// The README URL, on the main branch, that a GitHub repository URL stands for.
pub open spec fn github_readme(url: Seq<char>) -> Option<Seq<char>> {
    match github_repository(url) {
        Some((owner, repo)) => Some(readme_url(owner, repo, Branch::Main)),
        None => None,
    }
}

/// Detects a GitHub repository URL and converts it to the URL of the repository's
/// raw README on the main branch.
pub fn detect_and_convert_github_url(url: &str) -> (readme: Option<String>)
    ensures
        optional_view(readme) == github_readme(url@),
{
    match github_repository_of(url) {
        Some((owner, repo)) => Some(readme_url_of(owner.as_str(), repo.as_str(), Branch::Main)),
        None => None,
    }
}

/// A remote document that is being opened: the URL to fetch now, and the URL to
/// fetch instead should the first fail. `T` is the type of text.
pub struct Opening<T = String> {
    /// The URL to fetch.
    pub url: T,
    /// The URL to try when `url` cannot be fetched.
    pub fallback: Option<T>,
    /// Whether the URLs are those of a repository's README.
    pub readme: bool,
}

impl View for Opening<String> {
    type V = Opening<Seq<char>>;

    open spec fn view(&self) -> Opening<Seq<char>> {
        Opening { url: self.url@, fallback: optional_view(self.fallback), readme: self.readme }
    }
}

/// How opening a remote document went on after one fetch.
pub enum Opened<T = String> {
    /// The document was fetched from `url`.
    Loaded { content: T, url: T },
    /// The fetch failed and another URL is to be tried.
    Retry(Opening<T>),
    /// The document cannot be had.
    Failed(FetchError<T>),
}

impl View for Opened<String> {
    type V = Opened<Seq<char>>;

    open spec fn view(&self) -> Opened<Seq<char>> {
        match self {
            Opened::Loaded { content, url } => Opened::Loaded { content: content@, url: url@ },
            Opened::Retry(opening) => Opened::Retry(opening@),
            Opened::Failed(error) => Opened::Failed(error@),
        }
    }
}

/// The lookup of a repository's README: main branch first, master as the fallback.
pub open spec fn readme_lookup(owner: Seq<char>, repo: Seq<char>) -> Opening<Seq<char>> {
    Opening {
        url: readme_url(owner, repo, Branch::Main),
        fallback: Some(readme_url(owner, repo, Branch::Master)),
        readme: true,
    }
}

/// How `url` is opened: as the README of the repository it names, or as itself.
pub open spec fn opening_of(url: Seq<char>) -> Opening<Seq<char>> {
    match github_repository(url) {
        Some((owner, repo)) => readme_lookup(owner, repo),
        None => Opening { url, fallback: None, readme: false },
    }
}

/// The failure in which an opening ends when the last fetch fails with `error`: for
/// a README, that the README is on neither branch; else the error itself.
pub open spec fn final_failure(readme: bool, error: FetchError<Seq<char>>) -> FetchError<
    Seq<char>,
> {
    if readme {
        FetchError::ReadmeMissing(message_of(error))
    } else {
        error
    }
}

/// What one fetch makes of an opening. Content ends it. A failure moves it on to the
/// fallback where there is one; where there is none, the failure is final.
pub open spec fn settled(
    opening: Opening<Seq<char>>,
    fetched: Result<Seq<char>, FetchError<Seq<char>>>,
) -> Opened<Seq<char>> {
    match fetched {
        Ok(content) => Opened::Loaded { content, url: opening.url },
        Err(error) => match opening.fallback {
            Some(next) => Opened::Retry(Opening { url: next, fallback: None, readme: opening.readme }),
            None => Opened::Failed(final_failure(opening.readme, error)),
        },
    }
}

/// Starts the lookup of the README of `repo` of `username`: the URL to fetch first
/// is that of the main branch.
pub fn readme_lookup_of(username: &str, repo: &str) -> (opening: Opening<String>)
    ensures
        opening@ == readme_lookup(username@, repo@),
{
    Opening {
        url: readme_url_of(username, repo, Branch::Main),
        fallback: Some(readme_url_of(username, repo, Branch::Master)),
        readme: true,
    }
}

/// Starts opening the remote document at `url`.
pub fn open_remote_file(url: &str) -> (opening: Opening<String>)
    ensures
        opening@ == opening_of(url@),
{
    match github_repository_of(url) {
        Some((owner, repo)) => readme_lookup_of(owner.as_str(), repo.as_str()),
        None => Opening { url: url.to_owned(), fallback: None, readme: false },
    }
}

/// The failure in which an opening ends when the last fetch fails with `error`.
pub fn final_failure_of(readme: bool, error: FetchError<String>) -> (failure: FetchError<String>)
    ensures
        failure@ == final_failure(readme, error@),
{
    if readme {
        FetchError::ReadmeMissing(error.message())
    } else {
        error
    }
}

impl Opening<String> {
    /// Takes the outcome of fetching `self.url` and says how the opening goes on.
    pub fn settle(self, fetched: Fetched) -> (opened: Opened<String>)
        ensures
            opened@ == settled(self@, fetched_view(fetched)),
    {
        match fetched {
            Ok(content) => Opened::Loaded { content, url: self.url },
            Err(error) => match self.fallback {
                Some(next) => Opened::Retry(
                    Opening { url: next, fallback: None, readme: self.readme },
                ),
                None => Opened::Failed(final_failure_of(self.readme, error)),
            },
        }
    }
}

/// What an opening comes to when fetching its URL gives `first` and fetching its
/// fallback, should it come to that, gives `second`: the content together with the
/// URL that it came from, or the failure.
pub open spec fn opened_by(
    opening: Opening<Seq<char>>,
    first: Result<Seq<char>, FetchError<Seq<char>>>,
    second: Result<Seq<char>, FetchError<Seq<char>>>,
) -> Result<(Seq<char>, Seq<char>), FetchError<Seq<char>>> {
    match (first, opening.fallback) {
        (Ok(content), _) => Ok((content, opening.url)),
        (Err(error), None) => Err(final_failure(opening.readme, error)),
        (Err(_), Some(next)) => match second {
            Ok(content) => Ok((content, next)),
            Err(error) => Err(final_failure(opening.readme, error)),
        },
    }
}

/// The view of content and URL, or of a failure.
pub open spec fn loaded_view(loaded: Result<(String, String), FetchError<String>>) -> Result<
    (Seq<char>, Seq<char>),
    FetchError<Seq<char>>,
> {
    match loaded {
        Ok((content, url)) => Ok((content@, url@)),
        Err(error) => Err(error@),
    }
}

/// The view of content and URL, or of a message.
pub open spec fn outcome_view(outcome: Result<(String, String), String>) -> Result<
    (Seq<char>, Seq<char>),
    Seq<char>,
> {
    match outcome {
        Ok((content, url)) => Ok((content@, url@)),
        Err(message) => Err(message@),
    }
}

/// A failure turned into its message.
pub open spec fn told(
    loaded: Result<(Seq<char>, Seq<char>), FetchError<Seq<char>>>,
) -> Result<(Seq<char>, Seq<char>), Seq<char>> {
    match loaded {
        Ok(pair) => Ok(pair),
        Err(error) => Err(message_of(error)),
    }
}

/// Carries out an opening: fetches its URL from `source`, and its fallback where
/// the first fetch fails. What comes back is what the opening comes to, given what
/// the source gave.
pub fn open_with<S: Source>(source: &mut S, opening: Opening<String>) -> (loaded: Result<
    (String, String),
    FetchError<String>,
>)
    ensures
        exists|
            first: Result<Seq<char>, FetchError<Seq<char>>>,
            second: Result<Seq<char>, FetchError<Seq<char>>>,
        | loaded_view(loaded) == opened_by(opening@, first, second),
{
    let ghost plan = opening@;
    let first = source.read(opening.url.as_str());
    match opening.settle(first) {
        Opened::Loaded { content, url } => {
            assert(loaded_view(Ok((content, url))) == opened_by(
                plan,
                fetched_view(first),
                fetched_view(first),
            ));
            Ok((content, url))
        },
        Opened::Failed(error) => {
            assert(loaded_view(Err(error)) == opened_by(
                plan,
                fetched_view(first),
                fetched_view(first),
            ));
            Err(error)
        },
        Opened::Retry(next) => {
            let second = source.read(next.url.as_str());
            let loaded = match second {
                Ok(content) => Ok((content, next.url)),
                Err(error) => Err(final_failure_of(next.readme, error)),
            };
            assert(loaded_view(loaded) == opened_by(
                plan,
                fetched_view(first),
                fetched_view(second),
            ));
            loaded
        },
    }
}

/// Tries to fetch the README of `repo` of `username` from `source`, on the main
/// branch first and on the master branch second. Gives the content and the URL that
/// it came from, or the message that the README is on neither branch.
pub fn fetch_github_readme<S: Source>(source: &mut S, username: &str, repo: &str) -> (outcome:
    Result<(String, String), String>)
    ensures
        exists|
            first: Result<Seq<char>, FetchError<Seq<char>>>,
            second: Result<Seq<char>, FetchError<Seq<char>>>,
        | outcome_view(outcome) == told(opened_by(readme_lookup(username@, repo@), first, second)),
{
    match open_with(source, readme_lookup_of(username, repo)) {
        Ok(loaded) => Ok(loaded),
        Err(error) => Err(error.message()),
    }
}

/// Fetches the remote document at `url` from `source`; a URL that names a GitHub
/// repository stands for the repository's README. Gives the content and the URL
/// that it came from, or the message of the failure.
pub fn fetch_remote_file<S: Source>(source: &mut S, url: &str) -> (outcome: Result<
    (String, String),
    String,
>)
    ensures
        exists|
            first: Result<Seq<char>, FetchError<Seq<char>>>,
            second: Result<Seq<char>, FetchError<Seq<char>>>,
        | outcome_view(outcome) == told(opened_by(opening_of(url@), first, second)),
{
    match open_with(source, open_remote_file(url)) {
        Ok(loaded) => Ok(loaded),
        Err(error) => Err(error.message()),
    }
}

} // verus!
