use vstd::prelude::*;

use vstd::string::{StrSliceExecFns, StringExecFns, StringSliceAdditionalSpecFns};

use crate::snapshot::{HeaderPair, ResponseSnapshot, SnapshotView};

verus! {

/// Declares anyhow::Error, the cause that a `PublishError` carries. Nothing
/// is assumed of it: it is only held and moved.
#[verifier::external_type_specification]
#[verifier::external_body]
pub struct ExAnyhowError(anyhow::Error);

/// Status of a response to a request that could not be authenticated.
pub const STATUS_UNAUTHORIZED: u16 = 401;

/// Status of a response to a request that failed for an unexpected reason.
pub const STATUS_INTERNAL_SERVER_ERROR: u16 = 500;

/// The name of the header that tells a client how to authenticate.
pub const WWW_AUTHENTICATE: &'static str = "www-authenticate";

/// The challenge sent with an authentication failure.
pub const PUBLISH_CHALLENGE: &'static str = "Basic realm=\"publish\"";

/// A newsletter issue as submitted by the publishing form.
#[derive(Debug)]
pub struct FormDataNews {
    pub title: String,
    pub html: String,
    pub text: String,
}

/// Why publishing a newsletter issue failed.
#[derive(Debug)]
pub enum PublishError {
    /// The publisher could not be authenticated.
    AuthError(anyhow::Error),
    /// Anything else went wrong: reading subscribers, sending an email.
    UnexpectedError(anyhow::Error),
}

/// The response that a publishing error is answered with: a 500 with no
/// header for an unexpected error, a 401 with a basic-authentication
/// challenge for an authentication failure; the body is empty in both.
pub open spec fn publish_error_response(auth: bool) -> SnapshotView {
    if auth {
        SnapshotView {
            status_code: STATUS_UNAUTHORIZED,
            headers: seq![(WWW_AUTHENTICATE@, PUBLISH_CHALLENGE.spec_bytes())],
            body: Seq::empty(),
        }
    } else {
        SnapshotView {
            status_code: STATUS_INTERNAL_SERVER_ERROR,
            headers: Seq::empty(),
            body: Seq::empty(),
        }
    }
}

impl PublishError {
    /// The response sent to the client for this error.
    pub fn error_response(&self) -> (r: ResponseSnapshot)
        ensures
            r@ == publish_error_response(self is AuthError),
    {
        match self {
            PublishError::UnexpectedError(_) => {
                let r = ResponseSnapshot {
                    status_code: STATUS_INTERNAL_SERVER_ERROR,
                    headers: Vec::new(),
                    body: Vec::new(),
                };
                proof {
                    assert(r@.headers =~= Seq::empty());
                    assert(r@.body =~= Seq::<u8>::empty());
                }
                r
            },
            PublishError::AuthError(_) => {
                let challenge = HeaderPair {
                    name: String::from_str(WWW_AUTHENTICATE),
                    value: PUBLISH_CHALLENGE.as_bytes_vec(),
                };
                let mut headers: Vec<HeaderPair> = Vec::new();
                headers.push(challenge);
                let r = ResponseSnapshot {
                    status_code: STATUS_UNAUTHORIZED,
                    headers,
                    body: Vec::new(),
                };
                proof {
                    assert(r@.headers =~= seq![(WWW_AUTHENTICATE@, PUBLISH_CHALLENGE.spec_bytes())]);
                    assert(r@.body =~= Seq::<u8>::empty());
                }
                r
            },
        }
    }
}

impl From<anyhow::Error> for PublishError {
    fn from(e: anyhow::Error) -> (r: PublishError)
        ensures
            r is UnexpectedError,
    {
        PublishError::UnexpectedError(e)
    }
}

impl vstd::std_specs::convert::FromSpecImpl<anyhow::Error> for PublishError {
    open spec fn obeys_from_spec() -> bool {
        false
    }

    open spec fn from_spec(e: anyhow::Error) -> PublishError {
        PublishError::UnexpectedError(e)
    }
}

} // verus!
