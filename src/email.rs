use vstd::prelude::*;

use vstd::string::StringExecFns;

verus! {

/// The path, under the email service's base URL, that accepts a message.
pub const MAIL_SEND_PATH: &'static str = "/v5/mail/send";

/// The address that a message is posted to.
pub fn mail_send_url(base_url: &str) -> (r: String)
    ensures
        r@ == base_url@ + MAIL_SEND_PATH@,
{
    let mut url = String::from_str(base_url);
    url.append(MAIL_SEND_PATH);
    url
}

} // verus!
