//! Documents fetched from outside sources for the assistant.

use vstd::prelude::*;

verus! {

/// Why a document could not be loaded.
#[derive(Debug, Clone, PartialEq, Eq)]
pub enum LoadError {
    NetworkRequestError(String),
    ProcessingError(String),
    UnknownError(String),
}

/// What is known of a document besides its content.
pub struct DocumentMetadata {
    pub name: String,
    pub kind: String,
    pub comment: Option<String>,
}

/// The transcript of a video.
pub struct Transcript {
    pub text: String,
}

/// Loads the readable text of a web article.
pub struct WebArticleLoader {}

/// A location of the reading list.
#[derive(Debug, Clone, Copy, PartialEq, Eq, Structural)]
pub enum Location {
    New,
    Later,
    Shortlist,
    Archive,
    Feed,
}

/// The name the reading-list API uses for a location.
pub open spec fn location_name(l: Location) -> Seq<char> {
    match l {
        Location::New => "new"@,
        Location::Later => "later"@,
        Location::Shortlist => "shortlist"@,
        Location::Archive => "archive"@,
        Location::Feed => "feed"@,
    }
}

impl Location {
    /// The name the reading-list API uses for the location.
    pub fn as_str(&self) -> (r: &'static str)
        ensures
            r@ == location_name(*self),
    {
        proof {
            reveal_strlit("new");
            reveal_strlit("later");
            reveal_strlit("shortlist");
            reveal_strlit("archive");
            reveal_strlit("feed");
        }
        match self {
            Location::New => "new",
            Location::Later => "later",
            Location::Shortlist => "shortlist",
            Location::Archive => "archive",
            Location::Feed => "feed",
        }
    }
}

/// A client of the reading-list API.
pub struct ReadwiseClient {
    token: String,
}

impl ReadwiseClient {
    /// A client that authenticates with the given token.
    pub fn new(token: String) -> (c: ReadwiseClient)
        ensures
            c.token() == token@,
    {
        ReadwiseClient { token }
    }

    /// The API token.
    pub closed spec fn token(&self) -> Seq<char> {
        self.token@
    }

    /// The API token.
    pub fn token_str(&self) -> (r: &str)
        ensures
            r@ == self.token(),
    {
        self.token.as_str()
    }
}

} // verus!
