//! Connection bindings and session records, and the expiry checks on them.

use crate::pool::{expired_at, SessionView};
use vstd::prelude::*;

verus! {

/// An endpoint address paired with the live connection made to it.
#[derive(Clone, Debug)]
pub struct Binding<C> {
    pub webdriver: String,
    pub client: C,
}

/// A leased session: its identifier (given by the remote peer), its optional
/// expiry, and the connection binding it owns.
#[derive(Clone, Debug)]
pub struct Session<C> {
    pub id: String,
    /// Expiry instant in milliseconds since the Unix epoch; `None` never expires.
    pub expires_at: Option<i64>,
    pub webdriver: String,
    pub client: C,
}

impl<C> View for Session<C> {
    type V = SessionView;

    open spec fn view(&self) -> SessionView {
        SessionView { id: self.id@, expires_at: self.expires_at, webdriver: self.webdriver@ }
    }
}

/// Relies on chrono's `From<SystemTime> for DateTime<Utc>` and
/// `DateTime::timestamp_millis`: the wall-clock time now, in milliseconds
/// since the Unix epoch (negative for a clock set before 1970). Nothing is
/// promised of its value.
#[verifier::external_body]
pub(crate) fn now_millis() -> (r: i64) {
    chrono::DateTime::<chrono::Utc>::from(std::time::SystemTime::now()).timestamp_millis()
}

impl<C> Session<C> {
    /// Whether the session has expired at instant `now` (milliseconds since
    /// the Unix epoch): it has an expiry and `now` is past it.
    pub fn has_expired_at(&self, now: i64) -> (r: bool)
        ensures
            r == expired_at(self@, now),
    {
        match self.expires_at {
            Some(t) => now > t,
            None => false,
        }
    }

    /// Whether the session has expired now, by the wall clock.
    pub fn has_expired(&self) -> (r: bool)
        ensures
            exists|now: i64| r == expired_at(self@, now),
            self.expires_at.is_none() ==> !r,
    {
        let now = now_millis();
        self.has_expired_at(now)
    }
}

} // verus!
