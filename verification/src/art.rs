//! Album art: the outcome of downloading a cover. The download itself
//! happens outside this library.

use vstd::prelude::*;

use crate::text::owned;

verus! {

/// Why a cover could not be loaded. No variant carries the request URL.
#[derive(Debug, Clone, Copy, PartialEq, Eq)]
pub enum ArtLoadError {
    Worker,
    Request,
    Read,
    EmptyBody,
}

/// The user-facing text of an artwork error, as its `Display` gives it.
pub open spec fn spec_art_message(e: ArtLoadError) -> Seq<char> {
    match e {
        ArtLoadError::Worker => "artwork worker failed"@,
        ArtLoadError::Request => "artwork request failed"@,
        ArtLoadError::Read => "artwork response read failed"@,
        ArtLoadError::EmptyBody => "artwork response was empty"@,
    }
}

impl ArtLoadError {
    /// The user-facing text of the error (what `Display` gives).
    pub fn message(&self) -> (m: String)
        ensures
            m@ == spec_art_message(*self),
    {
        match self {
            ArtLoadError::Worker => owned("artwork worker failed"),
            ArtLoadError::Request => owned("artwork request failed"),
            ArtLoadError::Read => owned("artwork response read failed"),
            ArtLoadError::EmptyBody => owned("artwork response was empty"),
        }
    }
}

/// The downloaded cover bytes, refused when empty.
pub fn check_art_body(bytes: Vec<u8>) -> (r: Result<Vec<u8>, ArtLoadError>)
    ensures
        bytes@.len() == 0 ==> r == Err::<Vec<u8>, ArtLoadError>(ArtLoadError::EmptyBody),
        bytes@.len() > 0 ==> (r matches Ok(b) && b@ == bytes@),
{
    if bytes.len() == 0 {
        Err(ArtLoadError::EmptyBody)
    } else {
        Ok(bytes)
    }
}

} // verus!
