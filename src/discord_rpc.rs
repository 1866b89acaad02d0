use vstd::prelude::*;

verus! {

/// The state of a rich-presence session: the connected client, if any, and
/// when the session started (seconds since the Unix epoch).
pub struct Presence<C> {
    pub client: Option<C>,
    pub start_timestamp: Option<i64>,
}

/// What to show as the current activity.
#[derive(Debug)]
pub struct ActivityPlan {
    pub details: Option<String>,
    pub state: Option<String>,
    pub start_timestamp: Option<i64>,
}

/// An optional text, copied.
fn copy_text(s: Option<&str>) -> (r: Option<String>)
    ensures
        match s {
            Some(t) => r is Some && r->0@ == t@,
            None => r is None,
        },
{
    match s {
        Some(t) => Some(t.to_owned()),
        None => None,
    }
}

impl<C> Presence<C> {
    /// A session that is not connected.
    pub fn new() -> (r: Self)
        ensures
            r.client is None,
            r.start_timestamp is None,
    {
        Presence { client: None, start_timestamp: None }
    }

    /// Whether a client is connected.
    pub fn is_connected(&self) -> (r: bool)
        ensures
            r == self.client is Some,
    {
        self.client.is_some()
    }

    /// Records a client that has just connected, at `now`. A session that is
    /// already connected is kept as it is.
    pub fn connect(&mut self, client: C, now: i64)
        ensures
            old(self).client is Some ==> *final(self) == *old(self),
            old(self).client is None ==> final(self).client == Some(client)
                && final(self).start_timestamp == Some(now),
    {
        if self.client.is_none() {
            self.client = Some(client);
            self.start_timestamp = Some(now);
        }
    }

    /// The activity to show for `details` and `state`, stamped with the start
    /// of the session; `None` when no client is connected.
    pub fn update_activity(&self, details: Option<&str>, state: Option<&str>) -> (r: Option<
        ActivityPlan,
    >)
        ensures
            self.client is None ==> r is None,
            self.client is Some ==> r is Some && r->0.start_timestamp == self.start_timestamp
                && (match details {
                Some(d) => r->0.details is Some && r->0.details->0@ == d@,
                None => r->0.details is None,
            }) && (match state {
                Some(s) => r->0.state is Some && r->0.state->0@ == s@,
                None => r->0.state is None,
            }),
    {
        if self.client.is_none() {
            return None;
        }
        Some(
            ActivityPlan {
                details: copy_text(details),
                state: copy_text(state),
                start_timestamp: self.start_timestamp,
            },
        )
    }

    /// Ends the session: hands back the client to be closed, if one was
    /// connected, and forgets the start time.
    pub fn disconnect(&mut self) -> (r: Option<C>)
        ensures
            r == old(self).client,
            final(self).client is None,
            final(self).start_timestamp is None,
    {
        self.start_timestamp = None;
        self.client.take()
    }
}

} // verus!
