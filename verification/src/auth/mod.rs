//! Who may connect.

pub mod pwd_file;

use crate::broker;
use crate::messages::ReturnCode;
use vstd::prelude::*;

verus! {

/// The answer to the question whether a user may connect.
#[derive(Debug)]
pub struct AuthResponse {
    pub return_code: ReturnCode,
    /// The tenant of the user.
    pub tenant: Option<String>,
}

/// The contents of an answer.
#[verifier::ext_equal]
pub struct AuthResponseView {
    pub return_code: ReturnCode,
    pub tenant: Option<Seq<char>>,
}

impl View for AuthResponse {
    type V = AuthResponseView;

    open spec fn view(&self) -> AuthResponseView {
        AuthResponseView {
            return_code: self.return_code,
            tenant: broker::optional_text(self.tenant),
        }
    }
}

} // verus!
