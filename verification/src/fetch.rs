//! What a content fetcher hands to the traversal: the text of a document, or a
//! classified failure. The rules by which an HTTP response counts as a text document
//! are here; sending the request is the caller's part.

use crate::text::{contains_text, join, occurs_in, optional_view};
use vstd::prelude::*;
use vstd::string::*;

verus! {

/// Why a document could not be fetched. `T` is the type of text: `String` in
/// executable code, `Seq<char>` in specifications.
#[derive(Debug)]
pub enum FetchError<T = String> {
    /// Nothing exists at the location; the field is the location.
    NotFound(T),
    /// A local document could not be read; the field says why.
    Io(T),
    /// The HTTP client could not be set up; the field says why.
    Client(T),
    /// The request could not be sent or was not answered; the field says why.
    Network(T),
    /// The request was not answered within the time limit; the field is what the
    /// client says of it.
    Timeout(T),
    /// The server answered with a status outside the 2xx range.
    HttpStatus { code: u16, reason: T },
    /// The response declares a content type that does not name text.
    WrongContentType(T),
    /// The body of the response could not be read; the field says why.
    Body(T),
    /// The body of the response is empty.
    Empty,
    /// The body holds too many control characters to be text.
    BinaryContent,
    /// A repository has no README on its main or on its master branch; the field is
    /// the message of the failure on the master branch.
    ReadmeMissing(T),
    /// The work was handed to a background task that did not come back; the field
    /// says why.
    TaskFailed(T),
}

impl View for FetchError<String> {
    type V = FetchError<Seq<char>>;

    open spec fn view(&self) -> FetchError<Seq<char>> {
        match self {
            FetchError::NotFound(location) => FetchError::NotFound(location@),
            FetchError::Io(detail) => FetchError::Io(detail@),
            FetchError::Client(detail) => FetchError::Client(detail@),
            FetchError::Network(detail) => FetchError::Network(detail@),
            FetchError::Timeout(detail) => FetchError::Timeout(detail@),
            FetchError::HttpStatus { code, reason } => FetchError::HttpStatus {
                code: *code,
                reason: reason@,
            },
            FetchError::WrongContentType(declared) => FetchError::WrongContentType(declared@),
            FetchError::Body(detail) => FetchError::Body(detail@),
            FetchError::Empty => FetchError::Empty,
            FetchError::BinaryContent => FetchError::BinaryContent,
            FetchError::ReadmeMissing(detail) => FetchError::ReadmeMissing(detail@),
            FetchError::TaskFailed(detail) => FetchError::TaskFailed(detail@),
        }
    }
}

/// The outcome of fetching one document.
pub type Fetched = Result<String, FetchError<String>>;

/// The view of a fetch outcome.
pub open spec fn fetched_view(fetched: Fetched) -> Result<Seq<char>, FetchError<Seq<char>>> {
    match fetched {
        Ok(content) => Ok(content@),
        Err(error) => Err(error@),
    }
}

/// The decimal digit for `d`, which is below ten.
pub open spec fn digit(d: nat) -> char {
    if d == 0 {
        '0'
    } else if d == 1 {
        '1'
    } else if d == 2 {
        '2'
    } else if d == 3 {
        '3'
    } else if d == 4 {
        '4'
    } else if d == 5 {
        '5'
    } else if d == 6 {
        '6'
    } else if d == 7 {
        '7'
    } else if d == 8 {
        '8'
    } else {
        '9'
    }
}

/// `n` written in decimal, without leading zeros.
pub open spec fn decimal(n: nat) -> Seq<char>
    decreases n,
{
    if n < 10 {
        seq![digit(n)]
    } else {
        decimal(n / 10).push(digit(n % 10))
    }
}

/// The message that describes `error` to a person.
pub open spec fn message_of(error: FetchError<Seq<char>>) -> Seq<char> {
    match error {
        FetchError::NotFound(location) => "File does not exist: "@ + location,
        FetchError::Io(detail) => "Failed to read file: "@ + detail,
        FetchError::Client(detail) => "Failed to create HTTP client: "@ + detail,
        FetchError::Network(detail) => "Failed to fetch URL: "@ + detail,
        FetchError::Timeout(detail) => "Failed to fetch URL: "@ + detail,
        FetchError::HttpStatus { code, reason } => "HTTP error "@ + decimal(code as nat) + ": "@
            + reason,
        FetchError::WrongContentType(declared) => "Invalid content type: "@ + declared
            + ". Expected text/markdown or text/plain"@,
        FetchError::Body(detail) => "Failed to read response body: "@ + detail,
        FetchError::Empty => "File is empty"@,
        FetchError::BinaryContent => "File appears to be binary, not a text file"@,
        FetchError::ReadmeMissing(detail) => "Could not find README.md in main or master branch: "@
            + detail,
        FetchError::TaskFailed(detail) => "Task failed: "@ + detail,
    }
}

fn digit_text(d: u16) -> (text: &'static str)
    requires
        d < 10,
    ensures
        text@ == seq![digit(d as nat)],
{
    proof {
        reveal_strlit("0");
        reveal_strlit("1");
        reveal_strlit("2");
        reveal_strlit("3");
        reveal_strlit("4");
        reveal_strlit("5");
        reveal_strlit("6");
        reveal_strlit("7");
        reveal_strlit("8");
        reveal_strlit("9");
    }
    let text = if d == 0 {
        "0"
    } else if d == 1 {
        "1"
    } else if d == 2 {
        "2"
    } else if d == 3 {
        "3"
    } else if d == 4 {
        "4"
    } else if d == 5 {
        "5"
    } else if d == 6 {
        "6"
    } else if d == 7 {
        "7"
    } else if d == 8 {
        "8"
    } else {
        "9"
    };
    assert(text@ =~= seq![digit(d as nat)]);
    text
}

/// `n` written in decimal.
pub fn decimal_text(n: u16) -> (text: String)
    ensures
        text@ == decimal(n as nat),
    decreases n,
{
    if n < 10 {
        digit_text(n).to_owned()
    } else {
        let high = decimal_text(n / 10);
        let low = digit_text(n % 10);
        let text = high.concat(low);
        assert(text@ =~= decimal((n / 10) as nat).push(digit((n % 10) as nat)));
        text
    }
}

impl FetchError<String> {
    /// The message that describes this failure to a person.
    pub fn message(&self) -> (text: String)
        ensures
            text@ == message_of(self@),
    {
        match self {
            FetchError::NotFound(location) => join("File does not exist: ", location.as_str()),
            FetchError::Io(detail) => join("Failed to read file: ", detail.as_str()),
            FetchError::Client(detail) => join("Failed to create HTTP client: ", detail.as_str()),
            FetchError::Network(detail) => join("Failed to fetch URL: ", detail.as_str()),
            FetchError::Timeout(detail) => join("Failed to fetch URL: ", detail.as_str()),
            FetchError::HttpStatus { code, reason } => {
                let number = decimal_text(*code);
                let head = join("HTTP error ", number.as_str());
                let head = head.concat(": ");
                head.concat(reason.as_str())
            },
            FetchError::WrongContentType(declared) => {
                let head = join("Invalid content type: ", declared.as_str());
                head.concat(". Expected text/markdown or text/plain")
            },
            FetchError::Body(detail) => join("Failed to read response body: ", detail.as_str()),
            FetchError::Empty => "File is empty".to_owned(),
            FetchError::BinaryContent => "File appears to be binary, not a text file".to_owned(),
            FetchError::ReadmeMissing(detail) => join(
                "Could not find README.md in main or master branch: ",
                detail.as_str(),
            ),
            FetchError::TaskFailed(detail) => join("Task failed: ", detail.as_str()),
        }
    }

    /// A copy of this failure.
    pub fn duplicate(&self) -> (copy: Self)
        ensures
            copy@ == self@,
    {
        match self {
            FetchError::NotFound(location) => FetchError::NotFound(location.clone()),
            FetchError::Io(detail) => FetchError::Io(detail.clone()),
            FetchError::Client(detail) => FetchError::Client(detail.clone()),
            FetchError::Network(detail) => FetchError::Network(detail.clone()),
            FetchError::Timeout(detail) => FetchError::Timeout(detail.clone()),
            FetchError::HttpStatus { code, reason } => FetchError::HttpStatus {
                code: *code,
                reason: reason.clone(),
            },
            FetchError::WrongContentType(declared) => FetchError::WrongContentType(
                declared.clone(),
            ),
            FetchError::Body(detail) => FetchError::Body(detail.clone()),
            FetchError::Empty => FetchError::Empty,
            FetchError::BinaryContent => FetchError::BinaryContent,
            FetchError::ReadmeMissing(detail) => FetchError::ReadmeMissing(detail.clone()),
            FetchError::TaskFailed(detail) => FetchError::TaskFailed(detail.clone()),
        }
    }
}

/// What an HTTP client read of one response.
pub struct RemoteResponse {
    /// The status code.
    pub status: u16,
    /// The standard reason phrase of the status, where it has one.
    pub reason: Option<String>,
    /// The declared content type, where the response has one that is readable text.
    pub content_type: Option<String>,
    /// The body as text, or why it could not be read.
    pub body: Result<String, String>,
}

/// A status in the 2xx range.
pub open spec fn is_success(status: u16) -> bool {
    200 <= status && status < 300
}

/// A declared content type passes when it names text, markdown or plain. An empty
/// one passes too: a type that is declared as nothing counts as one that is absent.
pub open spec fn names_text(content_type: Seq<char>) -> bool {
    content_type.len() == 0 || occurs_in("text"@, content_type) || occurs_in(
        "markdown"@,
        content_type,
    ) || occurs_in("plain"@, content_type)
}

/// A control character that text is not expected to hold: any control character but
/// line feed, carriage return and tab.
pub open spec fn is_stray_control(c: char) -> bool {
    let n = c as int;
    (n < 0x20 || (0x7f <= n && n <= 0x9f)) && c != '\n' && c != '\r' && c != '\t'
}

/// The number of stray control characters in `body`.
pub open spec fn stray_controls(body: Seq<char>) -> nat
    decreases body.len(),
{
    if body.len() == 0 {
        0
    } else {
        stray_controls(body.drop_last()) + if is_stray_control(body.last()) {
            1nat
        } else {
            0nat
        }
    }
}

/// A body counts as binary when more than a tenth of its characters are stray
/// control characters.
pub open spec fn looks_binary(body: Seq<char>) -> bool {
    10 * stray_controls(body) > body.len()
}

/// What a body that was read yields: the text, unless it is empty or looks binary.
pub open spec fn checked_body(body: Seq<char>) -> Result<Seq<char>, FetchError<Seq<char>>> {
    if body.len() == 0 {
        Err(FetchError::Empty)
    } else if looks_binary(body) {
        Err(FetchError::BinaryContent)
    } else {
        Ok(body)
    }
}

/// What status and declared content type say before the body is looked at: the
/// failure they amount to, if any. A response without a declared content type is
/// taken as one that declares the empty type, which counts as absent and passes.
pub open spec fn checked_head(
    status: u16,
    reason: Option<Seq<char>>,
    content_type: Option<Seq<char>>,
) -> Option<FetchError<Seq<char>>> {
    let declared = match content_type {
        Some(text) => text,
        None => Seq::empty(),
    };
    if !is_success(status) {
        Some(
            FetchError::HttpStatus {
                code: status,
                reason: match reason {
                    Some(text) => text,
                    None => "Unknown error"@,
                },
            },
        )
    } else if !names_text(declared) {
        Some(FetchError::WrongContentType(declared))
    } else {
        None
    }
}

/// What a response yields: the first failure among bad status, wrong content type,
/// unreadable body, empty body and binary body, in this order, else the body.
pub open spec fn checked_response(
    status: u16,
    reason: Option<Seq<char>>,
    content_type: Option<Seq<char>>,
    body: Result<Seq<char>, Seq<char>>,
) -> Result<Seq<char>, FetchError<Seq<char>>> {
    match checked_head(status, reason, content_type) {
        Some(error) => Err(error),
        None => match body {
            Err(detail) => Err(FetchError::Body(detail)),
            Ok(text) => checked_body(text),
        },
    }
}

/// The view of a body that was read or not.
pub open spec fn body_view(body: Result<String, String>) -> Result<Seq<char>, Seq<char>> {
    match body {
        Ok(text) => Ok(text@),
        Err(detail) => Err(detail@),
    }
}

/// Whether `c` is a stray control character.
pub fn char_is_stray_control(c: char) -> (r: bool)
    ensures
        r == is_stray_control(c),
{
    let n: u32 = c as u32;
    (n < 0x20 || (0x7f <= n && n <= 0x9f)) && c != '\n' && c != '\r' && c != '\t'
}

/// Whether `body` looks binary.
pub fn body_looks_binary(body: &str) -> (r: bool)
    ensures
        r == looks_binary(body@),
{
    let total: usize = body.unicode_len();
    let mut strays: usize = 0;
    let chars = body.chars();
    for c in it: chars
        invariant
            it.seq() == body@,
            total == body@.len(),
            strays == stray_controls(body@.take(it.index())),
            strays <= it.index(),
    {
        assert(body@.take(it.index() + 1).drop_last() == body@.take(it.index()));
        if char_is_stray_control(c) {
            strays += 1;
        }
    }
    assert(body@.take(body@.len() as int) == body@);
    strays > total / 10
}

/// Checks the status and the declared content type of a response.
pub fn check_head(status: u16, reason: &Option<String>, content_type: &Option<String>) -> (r:
    Option<FetchError<String>>)
    ensures
        match r {
            Some(error) => Some(error@),
            None => None,
        } == checked_head(status, optional_view(*reason), optional_view(*content_type)),
{
    if !(200 <= status && status < 300) {
        let phrase = match reason {
            Some(text) => text.clone(),
            None => "Unknown error".to_owned(),
        };
        return Some(FetchError::HttpStatus { code: status, reason: phrase });
    }
    let declared = match content_type {
        Some(text) => text.clone(),
        None => String::new(),
    };
    let passes = declared.as_str().unicode_len() == 0 || contains_text(declared.as_str(), "text")
        || contains_text(declared.as_str(), "markdown") || contains_text(
        declared.as_str(),
        "plain",
    );
    if passes {
        None
    } else {
        Some(FetchError::WrongContentType(declared))
    }
}

/// Whether the body of a response with this status and declared content type is
/// wanted: it is where the two amount to no failure. A caller that reads bodies at
/// a cost can leave the others unread.
pub fn body_is_wanted(status: u16, content_type: &Option<String>) -> (wanted: bool)
    ensures
        wanted == (checked_head(status, None, optional_view(*content_type)) is None),
        forall|reason: Option<Seq<char>>|
            wanted == (#[trigger] checked_head(status, reason, optional_view(*content_type))
                is None),
{
    check_head(status, &None, content_type).is_none()
}

/// Checks a body that was read.
pub fn check_body(body: String) -> (r: Fetched)
    ensures
        fetched_view(r) == checked_body(body@),
{
    if body.as_str().unicode_len() == 0 {
        Err(FetchError::Empty)
    } else if body_looks_binary(body.as_str()) {
        Err(FetchError::BinaryContent)
    } else {
        Ok(body)
    }
}

/// Turns what an HTTP client read of a response into the document's text or the
/// failure that the response amounts to.
pub fn fetch_remote_content(response: RemoteResponse) -> (r: Fetched)
    ensures
        fetched_view(r) == checked_response(
            response.status,
            optional_view(response.reason),
            optional_view(response.content_type),
            body_view(response.body),
        ),
{
    match check_head(response.status, &response.reason, &response.content_type) {
        Some(error) => Err(error),
        None => match response.body {
            Err(detail) => Err(FetchError::Body(detail)),
            Ok(text) => check_body(text),
        },
    }
}

} // verus!
