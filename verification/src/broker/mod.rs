//! Brokers: who is subscribed to what, and what is kept for later.

pub mod matching;
pub mod persist;
pub mod persistsql;
pub mod requests;
pub mod router;
pub mod store;
pub mod subscribers;
pub mod topic;
pub mod topics;

use crate::text::text_equal;
use vstd::prelude::*;

verus! {

/// What can go wrong in a broker.
#[derive(Debug, PartialEq, Eq)]
pub enum BrokerError {
    /// The persistent store failed.
    PersistError(String),
}

impl BrokerError {
    /// What happened, in words.
    pub open spec fn text(&self) -> Seq<char> {
        match self {
            BrokerError::PersistError(s) => s@,
        }
    }
}

/// A broker of a tenant.
#[derive(PartialEq, Eq, Debug)]
pub struct BrokerId {
    pub tenant_id: Option<String>,
    pub broker_id: String,
}

/// A broker of a tenant.
#[verifier::ext_equal]
pub struct BrokerIdView {
    pub tenant_id: Option<Seq<char>>,
    pub broker_id: Seq<char>,
}

/// The text of a string, if there is one.
pub open spec fn optional_text(s: Option<String>) -> Option<Seq<char>> {
    match s {
        Some(t) => Some(t@),
        None => None,
    }
}

impl View for BrokerId {
    type V = BrokerIdView;

    open spec fn view(&self) -> BrokerIdView {
        BrokerIdView {
            tenant_id: optional_text(self.tenant_id),
            broker_id: self.broker_id@,
        }
    }
}

impl Clone for BrokerId {
    fn clone(&self) -> (r: Self)
        ensures
            r@ == self@,
    {
        BrokerId {
            tenant_id: match &self.tenant_id {
                Some(t) => Some(t.clone()),
                None => None,
            },
            broker_id: self.broker_id.clone(),
        }
    }
}

impl BrokerId {
    /// Whether both are the same broker.
    pub fn same(&self, other: &BrokerId) -> (r: bool)
        ensures
            r == (self@ == other@),
    {
        let tenants = match (&self.tenant_id, &other.tenant_id) {
            (Some(a), Some(b)) => text_equal(a, b),
            (None, None) => true,
            _ => false,
        };
        tenants && text_equal(&self.broker_id, &other.broker_id)
    }
}

} // verus!
