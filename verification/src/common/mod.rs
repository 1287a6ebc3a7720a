//! Accounts, contacts and call states shared across the softphone.
use vstd::prelude::*;

verus! {

/// A SIP account.
#[derive(Debug, Clone)]
pub struct Account {
    pub name: String,
    pub username: String,
    pub domain: String,
    pub password: Option<String>,
    pub proxy: Option<String>,
}

/// The mathematical value of an `Account`.
pub struct AccountView {
    pub name: Seq<char>,
    pub username: Seq<char>,
    pub domain: Seq<char>,
    pub password: Option<Seq<char>>,
    pub proxy: Option<Seq<char>>,
}

pub open spec fn opt_text(o: Option<String>) -> Option<Seq<char>> {
    match o {
        Some(s) => Some(s@),
        None => None,
    }
}

impl View for Account {
    type V = AccountView;

    open spec fn view(&self) -> AccountView {
        AccountView {
            name: self.name@,
            username: self.username@,
            domain: self.domain@,
            password: opt_text(self.password),
            proxy: opt_text(self.proxy),
        }
    }
}

/// The state of a call.
#[derive(Debug, Clone, Copy, PartialEq, Eq, Structural)]
pub enum CallState {
    Idle,
    Calling,
    Ringing,
    Connected,
    OnHold,
    Disconnected,
}

/// An address-book entry.
#[derive(Debug, Clone)]
pub struct Contact {
    pub name: String,
    pub sip_uri: String,
}

} // verus!
