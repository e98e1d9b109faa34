//! What the auth service says of a join token.

use crate::text::strs;
use vstd::prelude::*;

verus! {

/// The claims of a join token, as the auth service returned them.
#[derive(Debug)]
pub struct ValidatedClaims {
    /// Whether the token is live.
    pub valid: bool,
    /// Whom the token was issued to.
    pub subject: String,
    /// The network that the token is bound to.
    pub network: String,
    /// The tags that the token grants.
    pub tags: Vec<String>,
    /// The fixed addresses that the token grants.
    pub requested_ulas: Vec<String>,
    /// The kind of token.
    pub kind: String,
    /// When the token expires, in seconds since the UNIX epoch.
    pub exp: i64,
}

/// What `ValidatedClaims` hold.
#[verifier::ext_equal]
pub struct ClaimsView {
    pub valid: bool,
    pub subject: Seq<char>,
    pub network: Seq<char>,
    pub tags: Seq<Seq<char>>,
    pub requested_ulas: Seq<Seq<char>>,
    pub kind: Seq<char>,
    pub exp: i64,
}

impl View for ValidatedClaims {
    type V = ClaimsView;

    open spec fn view(&self) -> ClaimsView {
        ClaimsView {
            valid: self.valid,
            subject: self.subject@,
            network: self.network@,
            tags: strs(self.tags@),
            requested_ulas: strs(self.requested_ulas@),
            kind: self.kind@,
            exp: self.exp,
        }
    }
}

/// The claims, where there are any.
pub open spec fn opt_claims(c: Option<ValidatedClaims>) -> Option<ClaimsView> {
    match c {
        Some(c) => Some(c@),
        None => None,
    }
}

/// Why the auth service gave no claims.
#[derive(Debug)]
pub enum ValidationError {
    /// The token is of the wrong kind, which is named.
    WrongKind(String),
    /// The service could not be reached, or its answer not be understood.
    Failed(String),
}

/// What the auth service answered.
pub enum ReplyView {
    Claims(ClaimsView),
    WrongKind(Seq<char>),
    Failed(Seq<char>),
}

/// What an answer of the auth service holds.
pub open spec fn reply_view(r: Result<ValidatedClaims, ValidationError>) -> ReplyView {
    match r {
        Ok(c) => ReplyView::Claims(c@),
        Err(ValidationError::WrongKind(k)) => ReplyView::WrongKind(k@),
        Err(ValidationError::Failed(e)) => ReplyView::Failed(e@),
    }
}

} // verus!
