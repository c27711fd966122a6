//! What the combining service answers, and how an answer is classified.

use vstd::prelude::*;
use crate::finite_item::FiniteItem;
use crate::item::{nothing_name, Item, ItemView, NOTHING, PLACEHOLDER_EMOJI};
use crate::pair::names_equal;

verus! {

/// The mathematical value of a [`Response`].
pub struct ResponseView {
    pub result: Seq<char>,
    pub emoji: Option<Seq<char>>,
    pub is_new: bool,
}

/// The glyph an answer gives its item: its own, or the placeholder.
pub open spec fn glyph_of(r: ResponseView) -> Seq<char> {
    match r.emoji {
        Some(e) => e,
        None => PLACEHOLDER_EMOJI@,
    }
}

/// A successful answer: the name of the resulting item, its glyph if the
/// service gave one, and whether it was a first discovery.
#[derive(Debug, Clone)]
pub struct Response {
    result: String,
    emoji: Option<String>,
    is_new: bool,
}

impl View for Response {
    type V = ResponseView;

    closed spec fn view(&self) -> ResponseView {
        ResponseView {
            result: self.result@,
            emoji: match self.emoji {
                Some(e) => Some(e@),
                None => None,
            },
            is_new: self.is_new,
        }
    }
}

/// An answer that is not a failure: an item, or the sentinel that stands for none.
#[derive(Debug, Clone)]
pub enum ResponseSuccess {
    Produced(Response),
    Nothing,
}

/// Why a combination could not be resolved.
#[derive(Debug, Clone, Copy, PartialEq, Eq, Structural)]
pub enum ResponseFailure {
    /// The transport failed, or the service answered with an unexpected status.
    NetworkError,
    /// The body of a successful answer did not have the expected shape.
    ParsingError,
    /// A proxy in front of the service refused the request.
    CloudflareError,
    /// The service asked for fewer requests.
    Timeout,
    /// The service refused the request.
    NotAllowed,
}

/// Whether a failure ends the scan; otherwise its pair is skipped.
pub open spec fn is_fatal_spec(f: ResponseFailure) -> bool {
    !(f is NetworkError)
}

/// The short description of each failure.
pub open spec fn message_of(f: ResponseFailure) -> Seq<char> {
    match f {
        ResponseFailure::NetworkError => "a network error occured"@,
        ResponseFailure::ParsingError => "a parsing error occured"@,
        ResponseFailure::CloudflareError => "a cloudflare error occured"@,
        ResponseFailure::Timeout => "a timeout occured"@,
        ResponseFailure::NotAllowed => "not allowed was returned"@,
    }
}

impl ResponseFailure {
    /// Whether this failure ends the scan; a network failure only skips its pair.
    pub fn is_fatal(&self) -> (r: bool)
        ensures
            r == is_fatal_spec(*self),
    {
        !matches!(self, ResponseFailure::NetworkError)
    }

    /// A short description of the failure.
    pub fn message(&self) -> (r: &'static str)
        ensures
            r@ == message_of(*self),
    {
        match self {
            ResponseFailure::NetworkError => "a network error occured",
            ResponseFailure::ParsingError => "a parsing error occured",
            ResponseFailure::CloudflareError => "a cloudflare error occured",
            ResponseFailure::Timeout => "a timeout occured",
            ResponseFailure::NotAllowed => "not allowed was returned",
        }
    }
}

/// HTTP status of a successful answer.
pub const STATUS_OK: u16 = 200;
/// HTTP status of a refused request.
pub const STATUS_FORBIDDEN: u16 = 403;
/// HTTP status of a request over the rate limit.
pub const STATUS_TOO_MANY_REQUESTS: u16 = 429;

/// The classification of an answer with HTTP status `status`, whose body was
/// read as `body` (`None`: it did not have the expected shape).
pub open spec fn classify_spec(status: u16, body: Option<ResponseView>) -> Result<Option<ResponseView>, ResponseFailure> {
    if status == STATUS_FORBIDDEN {
        Err(ResponseFailure::NotAllowed)
    } else if status == STATUS_TOO_MANY_REQUESTS {
        Err(ResponseFailure::Timeout)
    } else if status != STATUS_OK {
        Err(ResponseFailure::NetworkError)
    } else {
        match body {
            None => Err(ResponseFailure::ParsingError),
            Some(r) => if r.result == nothing_name() { Ok(None) } else { Ok(Some(r)) },
        }
    }
}

/// The view of a classified answer: `Ok(None)` for the sentinel.
pub open spec fn outcome_view(o: Result<ResponseSuccess, ResponseFailure>) -> Result<Option<ResponseView>, ResponseFailure> {
    match o {
        Ok(ResponseSuccess::Produced(r)) => Ok(Some(r@)),
        Ok(ResponseSuccess::Nothing) => Ok(None),
        Err(f) => Err(f),
    }
}

/// Classifies an answer by its HTTP status and its body, read as `body`
/// (`None` where it did not have the expected shape).
pub fn classify(status: u16, body: Option<Response>) -> (r: Result<ResponseSuccess, ResponseFailure>)
    ensures
        outcome_view(r) == classify_spec(status, match body { Some(b) => Some(b@), None => None }),
{
    if status == STATUS_FORBIDDEN {
        Err(ResponseFailure::NotAllowed)
    } else if status == STATUS_TOO_MANY_REQUESTS {
        Err(ResponseFailure::Timeout)
    } else if status != STATUS_OK {
        Err(ResponseFailure::NetworkError)
    } else {
        match body {
            None => Err(ResponseFailure::ParsingError),
            Some(b) => if b.is_nothing() { Ok(ResponseSuccess::Nothing) } else { Ok(ResponseSuccess::Produced(b)) },
        }
    }
}

/// The address of the combining service, up to the first name.
pub const URL_PREFIX: &'static str = "https://neal.fun/api/infinite-craft/pair?first=";
/// The part of the address between the two names.
pub const URL_SECOND: &'static str = "&second=";
/// The page that the service expects as the referrer of each request.
pub const REFERER: &'static str = "https://neal.fun/infinite-craft/";

/// The address that asks the service to combine `first` and `second`, both
/// written as they are.
pub fn request_url(first: &str, second: &str) -> (r: String)
    ensures
        r@ == URL_PREFIX@ + first@ + URL_SECOND@ + second@,
{
    let mut r = URL_PREFIX.to_string();
    r.append(first);
    r.append(URL_SECOND);
    r.append(second);
    r
}

impl Response {
    pub fn new(result: String, emoji: Option<String>, is_new: bool) -> (r: Response)
        ensures
            r@ == (ResponseView {
                result: result@,
                emoji: match emoji { Some(e) => Some(e@), None => None },
                is_new,
            }),
    {
        Response { result, emoji, is_new }
    }

    pub fn name(&self) -> (r: &str)
        ensures
            r@ == self@.result,
    {
        self.result.as_str()
    }

    pub fn is_new(&self) -> (r: bool)
        ensures
            r == self@.is_new,
    {
        self.is_new
    }

    pub fn emoji(&self) -> (r: Option<&str>)
        ensures
            match r { Some(e) => self@.emoji == Some(e@), None => self@.emoji is None },
    {
        match &self.emoji {
            Some(e) => Some(e.as_str()),
            None => None,
        }
    }

    /// Whether the answer names the sentinel that stands for no item.
    pub fn is_nothing(&self) -> (r: bool)
        ensures
            r == (self@.result == nothing_name()),
    {
        names_equal(self.result.as_str(), NOTHING)
    }

    /// The glyph of the answer's item: its own, or the placeholder.
    pub fn glyph(&self) -> (r: &str)
        ensures
            r@ == glyph_of(self@),
    {
        match &self.emoji {
            Some(e) => e.as_str(),
            None => PLACEHOLDER_EMOJI,
        }
    }

    /// The answer's item as a record with no parents.
    pub fn to_finite_item(self) -> (r: FiniteItem)
        ensures
            r@ == (ItemView { name: self@.result, emoji: glyph_of(self@), is_new: self@.is_new, parents: seq![] }),
    {
        let r = FiniteItem::new(self.result.as_str(), self.glyph(), self.is_new, Vec::new());
        assert(crate::finite_item::str_pairs_view(Seq::<(&str, &str)>::empty()) =~= seq![]);
        r
    }

    /// The answer's item, made by `first` and `second`.
    pub fn to_item_with_parents(self, first: &str, second: &str) -> (r: Item)
        ensures
            r@ == (ItemView { name: self@.result, emoji: glyph_of(self@), is_new: self@.is_new, parents: seq![(first@, second@)] }),
    {
        Item::new_with_parents(self.result.as_str(), self.glyph(), self.is_new, first, second)
    }

    /// The text that shows the answer: its glyph, or a cross where it has none, and its name.
    pub fn label(&self) -> (r: String)
        ensures
            r@ == (match self@.emoji { Some(e) => e, None => "❌"@ }) + " "@ + self@.result,
    {
        let mut r = match &self.emoji {
            Some(e) => e.clone(),
            None => "❌".to_string(),
        };
        r.append(" ");
        r.append(self.result.as_str());
        r
    }
}

} // verus!
