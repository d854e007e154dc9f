//! Validated absolute URLs for the stream shard, held in the
//! normalized text form that the `url` crate produces.
use vstd::prelude::*;

verus! {

/// What `url::Url::parse` makes of a text: the normalized
/// serialization on success, nothing on rejection.
pub uninterp spec fn url_normal(s: Seq<char>) -> Option<Seq<char>>;

/// A validated absolute URL in normalized text form.
#[derive(Debug, Clone, PartialEq, Eq)]
pub struct ShardUrl {
    pub text: String,
}

impl View for ShardUrl {
    type V = Seq<char>;

    open spec fn view(&self) -> Seq<char> {
        self.text@
    }
}

impl DeepView for ShardUrl {
    type V = Seq<char>;

    open spec fn deep_view(&self) -> Seq<char> {
        self.text@
    }
}

/// Relies on `url::Url::parse` and `url::Url::as_str`: parsing is a
/// function of the text alone, and the serialization of a parsed URL
/// parses back to itself unchanged.
#[verifier::external_body]
fn url_parse_normalize(s: &str) -> (r: Option<String>)
    ensures
        match r {
            Some(t) => url_normal(s@) == Some(t@) && url_normal(t@) == Some(t@),
            None => url_normal(s@) is None,
        },
{
    match url::Url::parse(s) {
        Ok(u) => Some(String::from(u.as_str())),
        Err(_) => None,
    }
}

impl ShardUrl {
    /// The text is already in normal form, so re-validating it changes
    /// nothing.
    pub open spec fn wf(&self) -> bool {
        url_normal(self.text@) == Some(self.text@)
    }

    /// Validates a URL text; `Some` exactly when the `url` crate
    /// accepts it.
    pub fn parse(s: &str) -> (r: Option<ShardUrl>)
        ensures
            match r {
                Some(u) => url_normal(s@) == Some(u@) && u.wf(),
                None => url_normal(s@) is None,
            },
    {
        match url_parse_normalize(s) {
            Some(t) => Some(ShardUrl { text: t }),
            None => None,
        }
    }

    /// The normalized text.
    pub fn as_str(&self) -> (r: &str)
        ensures
            r@ == self@,
    {
        self.text.as_str()
    }
}

} // verus!
