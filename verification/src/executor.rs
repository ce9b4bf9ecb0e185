//! Actions that may run, and how they end.

use crate::action::{ActionEnvelope, ActionView, CanonicalValue};
use crate::approval::DispatchAuthorization;
use vstd::prelude::*;

verus! {

/// An action together with what lets it run.
#[derive(Debug)]
pub struct AuthorizedAction {
    action: ActionEnvelope,
    authorization: DispatchAuthorization,
}

/// The model of an `AuthorizedAction`.
pub struct AuthorizedView {
    pub action: ActionView,
    pub authorization: DispatchAuthorization,
}

impl View for AuthorizedAction {
    type V = AuthorizedView;

    closed spec fn view(&self) -> AuthorizedView {
        AuthorizedView { action: self.action@, authorization: self.authorization }
    }
}

impl AuthorizedAction {
    pub(crate) fn new(action: ActionEnvelope, authorization: DispatchAuthorization) -> (r:
        AuthorizedAction)
        ensures
            r@ == (AuthorizedView { action: action@, authorization }),
    {
        AuthorizedAction { action, authorization }
    }

    /// The action.
    pub fn action(&self) -> (r: &ActionEnvelope)
        ensures
            r@ == self@.action,
    {
        &self.action
    }

    /// What lets it run.
    pub fn authorization(&self) -> (r: DispatchAuthorization)
        ensures
            r == self@.authorization,
    {
        self.authorization
    }
}

/// How an action ended.
#[derive(Clone, Debug, PartialEq, Eq)]
pub enum ExecutionOutcome {
    Succeeded(CanonicalValue),
    Failed(String),
    Unknown(String),
}

/// The failure of an executor before there is an outcome.
#[derive(Clone, Debug, PartialEq, Eq)]
pub struct ExecutorError {
    message: String,
}

impl View for ExecutorError {
    type V = Seq<char>;

    closed spec fn view(&self) -> Seq<char> {
        self.message@
    }
}

impl ExecutorError {
    /// A failure with the given message.
    pub fn new(message: String) -> (r: ExecutorError)
        ensures
            r@ == message@,
    {
        ExecutorError { message }
    }

    /// The whole message.
    pub fn to_text(&self) -> (r: String)
        ensures
            r@ == "executor failed before producing an outcome: "@ + self@,
    {
        let mut out = "executor failed before producing an outcome: ".to_owned();
        out.append(self.message.as_str());
        out
    }
}

} // verus!
