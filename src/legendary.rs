use vstd::prelude::*;
use crate::types::{CommandOutput, EventType, StreamEvent, StreamEventView};

verus! {

/// The text that `String::from_utf8_lossy` makes of a byte string.
pub uninterp spec fn utf8_lossy(bytes: Seq<u8>) -> Seq<char>;

/// The text that `str::trim` leaves of a string.
pub uninterp spec fn trimmed(s: Seq<char>) -> Seq<char>;

/// Relies on `String::from_utf8_lossy`: decodes the bytes, replacing invalid
/// sequences; the result depends on the bytes alone.
#[verifier::external_body]
fn lossy_text(bytes: &Vec<u8>) -> (r: String)
    ensures
        r@ == utf8_lossy(bytes@),
{
    String::from_utf8_lossy(bytes).into_owned()
}

/// Relies on `str::trim`: drops leading and trailing whitespace; the result
/// depends on the text alone.
#[verifier::external_body]
fn trim_text(s: &String) -> (r: String)
    ensures
        r@ == trimmed(s@),
{
    s.trim().to_string()
}

/// What the channel of a spawned child process delivers.
#[derive(Debug)]
pub enum ChildEvent {
    /// A chunk of standard output.
    Stdout(Vec<u8>),
    /// A chunk of standard error.
    Stderr(Vec<u8>),
    /// The process ended, with its exit code or the signal that ended it.
    Terminated { code: Option<i32>, signal: Option<i32> },
    /// The transport failed while reading from the process.
    Error(String),
    /// Anything else the channel may carry; it is not published.
    Other,
}

/// The event published for a child event on stream `id`, if any.
pub open spec fn stream_event_of(id: Seq<char>, e: ChildEvent) -> Option<StreamEventView> {
    match e {
        ChildEvent::Stdout(b) => Some(
            StreamEventView {
                stream_id: id,
                event_type: EventType::Stdout,
                data: utf8_lossy(b@),
                code: None,
                signal: None,
            },
        ),
        ChildEvent::Stderr(b) => Some(
            StreamEventView {
                stream_id: id,
                event_type: EventType::Stderr,
                data: utf8_lossy(b@),
                code: None,
                signal: None,
            },
        ),
        ChildEvent::Terminated { code, signal } => Some(
            StreamEventView {
                stream_id: id,
                event_type: EventType::Terminated,
                data: Seq::empty(),
                code,
                signal,
            },
        ),
        ChildEvent::Error(msg) => Some(
            StreamEventView {
                stream_id: id,
                event_type: EventType::Error,
                data: msg@,
                code: None,
                signal: None,
            },
        ),
        ChildEvent::Other => None,
    }
}

/// Whether the child event ends its stream.
pub open spec fn ends_stream(e: ChildEvent) -> bool {
    e is Terminated || e is Error
}

/// What a drain that has `finished` publishes for child event `e`.
pub open spec fn drain_output(id: Seq<char>, finished: bool, e: ChildEvent) -> Option<StreamEventView> {
    if finished {
        None
    } else {
        stream_event_of(id, e)
    }
}

/// The events published for a run of child events, fed one by one to a drain
/// of stream `id` that starts in state `finished`.
pub open spec fn drained(id: Seq<char>, finished: bool, evs: Seq<ChildEvent>) -> Seq<StreamEventView>
    decreases evs.len(),
{
    if evs.len() == 0 {
        Seq::empty()
    } else {
        let e = evs[0];
        let rest = drained(id, finished || ends_stream(e), evs.drop_first());
        match drain_output(id, finished, e) {
            Some(x) => seq![x] + rest,
            None => rest,
        }
    }
}

/// A drain that has finished publishes nothing more.
pub proof fn lemma_finished_drain_is_silent(id: Seq<char>, evs: Seq<ChildEvent>)
    ensures
        drained(id, true, evs) == Seq::<StreamEventView>::empty(),
    decreases evs.len(),
{
    if evs.len() > 0 {
        lemma_finished_drain_is_silent(id, evs.drop_first());
    }
}

/// Whatever a child process delivers, the events published for its stream
/// hold at most one terminal event, and it is the last one.
pub proof fn lemma_terminal_is_last(id: Seq<char>, evs: Seq<ChildEvent>)
    ensures
        forall|i: int|
            0 <= i < drained(id, false, evs).len() && (
            #[trigger] drained(id, false, evs)[i]).event_type.is_terminal() ==> i == drained(
                id,
                false,
                evs,
            ).len() - 1,
    decreases evs.len(),
{
    if evs.len() > 0 {
        let e = evs[0];
        let rest = evs.drop_first();
        if ends_stream(e) {
            lemma_finished_drain_is_silent(id, rest);
        } else {
            lemma_terminal_is_last(id, rest);
            let s = drained(id, false, evs);
            let r = drained(id, false, rest);
            match stream_event_of(id, e) {
                Some(x) => {
                    assert(s == seq![x] + r);
                    assert forall|i: int| 0 <= i < s.len() && (#[trigger] s[i]).event_type.is_terminal()
                        implies i == s.len() - 1 by {
                        if i > 0 {
                            assert(s[i] == r[i - 1]);
                        }
                    }
                },
                None => {},
            }
        }
    }
}

/// The live streams, keyed by the caller's stream id. Each id holds at most one
/// handle; being in the table means that the stream can still be cancelled.
pub struct StreamTable<H> {
    entries: Vec<(String, H)>,
    model: Ghost<Map<Seq<char>, H>>,
}

impl<H> StreamTable<H> {
    /// The live streams as a map from stream id to handle.
    pub closed spec fn view(&self) -> Map<Seq<char>, H> {
        self.model@
    }

    /// Each stream id occurs once, and the entries are exactly the map.
    pub closed spec fn wf(&self) -> bool {
        &&& forall|i: int, j: int|
            0 <= i < j < self.entries.len() ==> self.entries[i].0@ != self.entries[j].0@
        &&& forall|i: int|
            0 <= i < self.entries.len() ==> #[trigger] self.model@.contains_key(self.entries[i].0@)
                && self.model@[self.entries[i].0@] == self.entries[i].1
        &&& forall|k: Seq<char>|
            #[trigger] self.model@.contains_key(k) ==> exists|i: int|
                0 <= i < self.entries.len() && self.entries[i].0@ == k
    }

    /// An empty table.
    pub fn new() -> (r: Self)
        ensures
            r.wf(),
            r.view() == Map::<Seq<char>, H>::empty(),
    {
        StreamTable { entries: Vec::new(), model: Ghost(Map::empty()) }
    }

    /// The position of `id` in the table, if it is live.
    fn index_of(&self, id: &String) -> (r: Option<usize>)
        requires
            self.wf(),
        ensures
            match r {
                Some(i) => i < self.entries.len() && self.entries[i as int].0@ == id@,
                None => !self.view().contains_key(id@),
            },
    {
        let mut i: usize = 0;
        while i < self.entries.len()
            invariant
                self.wf(),
                i <= self.entries.len(),
                forall|k: int| 0 <= k < i ==> #[trigger] self.entries[k].0@ != id@,
            decreases self.entries.len() - i,
        {
            if self.entries[i].0 == *id {
                return Some(i);
            }
            i = i + 1;
        }
        assert forall|k: Seq<char>| #[trigger] self.model@.contains_key(k) implies k != id@ by {
            let j = choose|j: int| 0 <= j < self.entries.len() && self.entries[j].0@ == k;
            assert(self.entries[j].0@ != id@);
        }
        None
    }

    /// Whether no stream is live.
    pub fn is_empty(&self) -> (r: bool)
        requires
            self.wf(),
        ensures
            r == (self.view().dom() == Set::<Seq<char>>::empty()),
    {
        if self.entries.len() == 0 {
            assert(self.view().dom() =~= Set::<Seq<char>>::empty());
            true
        } else {
            assert(self.view().contains_key(self.entries[0].0@));
            false
        }
    }

    /// Registers a freshly spawned stream. A live stream under the same id is
    /// replaced and can no longer be cancelled by id.
    pub fn insert(&mut self, stream_id: String, handle: H)
        requires
            old(self).wf(),
        ensures
            final(self).wf(),
            final(self).view() == old(self).view().insert(stream_id@, handle),
    {
        let ghost m = self.model@.insert(stream_id@, handle);
        match self.index_of(&stream_id) {
            Some(i) => {
                self.entries.set(i, (stream_id, handle));
                self.model = Ghost(m);
                assert forall|k: int| 0 <= k < self.entries.len() && k != i implies
                    #[trigger] self.entries[k].0@ != self.entries[i as int].0@ by {
                    assert(old(self).entries[k].0@ != old(self).entries[i as int].0@);
                }
                assert forall|k: Seq<char>| #[trigger] m.contains_key(k) implies exists|j: int|
                    0 <= j < self.entries.len() && self.entries[j].0@ == k by {
                    if k != self.entries[i as int].0@ {
                        assert(old(self).model@.contains_key(k));
                        let j = choose|j: int| 0 <= j < old(self).entries.len() && old(self).entries[j].0@ == k;
                        assert(self.entries[j].0@ == k);
                    }
                }
            },
            None => {
                let ghost key = stream_id@;
                self.entries.push((stream_id, handle));
                self.model = Ghost(m);
                assert forall|k: int| 0 <= k < old(self).entries.len() implies
                    #[trigger] self.entries[k].0@ != key by {
                    assert(old(self).model@.contains_key(old(self).entries[k].0@));
                }
                assert forall|k: Seq<char>| #[trigger] m.contains_key(k) implies exists|j: int|
                    0 <= j < self.entries.len() && self.entries[j].0@ == k by {
                    if k != key {
                        assert(old(self).model@.contains_key(k));
                        let j = choose|j: int| 0 <= j < old(self).entries.len() && old(self).entries[j].0@ == k;
                        assert(self.entries[j].0@ == k);
                    } else {
                        assert(self.entries[self.entries.len() - 1].0@ == k);
                    }
                }
            },
        }
    }

    /// Takes the stream `stream_id` out of the table and hands back its handle,
    /// or `None` if no such stream is live.
    pub fn remove(&mut self, stream_id: &str) -> (r: Option<H>)
        requires
            old(self).wf(),
        ensures
            final(self).wf(),
            final(self).view() == old(self).view().remove(stream_id@),
            r == (if old(self).view().contains_key(stream_id@) {
                Some(old(self).view()[stream_id@])
            } else {
                None
            }),
    {
        let key = stream_id.to_owned();
        match self.index_of(&key) {
            Some(i) => {
                let ghost m = self.model@.remove(key@);
                assert(self.model@.contains_key(self.entries[i as int].0@));
                let (_, handle) = self.entries.remove(i);
                self.model = Ghost(m);
                assert forall|a: int, b: int| 0 <= a < b < self.entries.len() implies
                    self.entries[a].0@ != self.entries[b].0@ by {
                    let a0 = if a < i { a } else { a + 1 };
                    let b0 = if b < i { b } else { b + 1 };
                    assert(old(self).entries[a0].0@ != old(self).entries[b0].0@);
                }
                assert forall|a: int| 0 <= a < self.entries.len() implies
                    #[trigger] m.contains_key(self.entries[a].0@)
                    && m[self.entries[a].0@] == self.entries[a].1 by {
                    let a0 = if a < i { a } else { a + 1 };
                    assert(old(self).entries[a0] == self.entries[a]);
                    assert(old(self).entries[a0].0@ != old(self).entries[i as int].0@);
                    assert(old(self).model@.contains_key(old(self).entries[a0].0@));
                }
                assert forall|k: Seq<char>| #[trigger] m.contains_key(k) implies exists|j: int|
                    0 <= j < self.entries.len() && self.entries[j].0@ == k by {
                    let j0 = choose|j: int| 0 <= j < old(self).entries.len() && old(self).entries[j].0@ == k;
                    if j0 < i {
                        assert(self.entries[j0].0@ == k);
                    } else {
                        assert(j0 != i);
                        assert(self.entries[j0 - 1].0@ == k);
                    }
                }
                Some(handle)
            },
            None => {
                assert(self.model@.remove(key@) =~= self.model@);
                None
            },
        }
    }

    /// Forgets every live stream.
    pub fn clear(&mut self)
        requires
            old(self).wf(),
        ensures
            final(self).wf(),
            final(self).view() == Map::<Seq<char>, H>::empty(),
    {
        self.entries = Vec::new();
        self.model = Ghost(Map::empty());
    }

    /// Prepares the sweep that terminates every process of the supervised
    /// executable: the table is emptied, and the result says whether a sweep is
    /// needed at all (it is not when no stream was live).
    pub fn kill_legendary_processes(&mut self) -> (r: bool)
        requires
            old(self).wf(),
        ensures
            final(self).wf(),
            final(self).view() == Map::<Seq<char>, H>::empty(),
            r == (old(self).view().dom() != Set::<Seq<char>>::empty()),
    {
        if self.is_empty() {
            return false;
        }
        self.clear();
        true
    }

    /// Cancels a stream. With `force_kill_all` every process of the supervised
    /// executable is to be terminated and the table is emptied; otherwise the
    /// stream `stream_id` leaves the table and its handle is handed back to be
    /// killed. Cancelling a stream that is not live changes nothing.
    pub fn stop_legendary_stream(&mut self, stream_id: &str, force_kill_all: bool) -> (r: StopAction<H>)
        requires
            old(self).wf(),
        ensures
            final(self).wf(),
            force_kill_all ==> final(self).view() == Map::<Seq<char>, H>::empty() && r == (
            StopAction::<H>::KillAll {
                sweep: old(self).view().dom() != Set::<Seq<char>>::empty(),
            }),
            !force_kill_all ==> final(self).view() == old(self).view().remove(stream_id@),
            !force_kill_all && old(self).view().contains_key(stream_id@) ==> r == StopAction::Kill(
                old(self).view()[stream_id@],
            ),
            !force_kill_all && !old(self).view().contains_key(stream_id@) ==> r
                == StopAction::<H>::NotRunning && final(self).view() == old(self).view(),
    {
        if force_kill_all {
            let sweep = self.kill_legendary_processes();
            StopAction::KillAll { sweep }
        } else {
            match self.remove(stream_id) {
                Some(h) => StopAction::Kill(h),
                None => {
                    assert(old(self).view().remove(stream_id@) =~= old(self).view());
                    StopAction::NotRunning
                },
            }
        }
    }
}

/// What the caller has to do to carry out a cancellation.
pub enum StopAction<H> {
    /// Terminate every process of the supervised executable, if `sweep`.
    KillAll { sweep: bool },
    /// Kill the process behind this handle.
    Kill(H),
    /// No such stream was live: nothing to do.
    NotRunning,
}

/// Turns the child events of one stream into published events, in order, up
/// to and including the first terminal one.
pub struct StreamDrain {
    stream_id: String,
    finished: bool,
}

impl StreamDrain {
    /// The stream whose events this drain publishes.
    pub closed spec fn id(&self) -> Seq<char> {
        self.stream_id@
    }

    /// Whether a terminal event has been published.
    pub closed spec fn is_finished(&self) -> bool {
        self.finished
    }

    /// A drain for the stream `stream_id` that has published nothing yet.
    pub fn new(stream_id: String) -> (r: Self)
        ensures
            r.id() == stream_id@,
            !r.is_finished(),
    {
        StreamDrain { stream_id, finished: false }
    }

    /// Handles the next child event: returns the event to publish, if any. A
    /// terminal event takes the stream out of `table` before it is published,
    /// and nothing is published after it.
    pub fn on_event<H>(&mut self, table: &mut StreamTable<H>, event: ChildEvent) -> (r: Option<
        StreamEvent,
    >)
        requires
            old(table).wf(),
        ensures
            final(table).wf(),
            final(self).id() == old(self).id(),
            final(self).is_finished() == (old(self).is_finished() || ends_stream(event)),
            match r {
                Some(e) => drain_output(old(self).id(), old(self).is_finished(), event) == Some(
                    e@,
                ),
                None => drain_output(old(self).id(), old(self).is_finished(), event) is None,
            },
            !old(self).is_finished() && ends_stream(event) ==> final(table).view() == old(
                table,
            ).view().remove(old(self).id()),
            old(self).is_finished() || !ends_stream(event) ==> final(table).view() == old(
                table,
            ).view(),
    {
        if self.finished {
            return None;
        }
        let id = self.stream_id.clone();
        match event {
            ChildEvent::Stdout(bytes) => Some(
                StreamEvent {
                    stream_id: id,
                    event_type: EventType::Stdout,
                    data: lossy_text(&bytes),
                    code: None,
                    signal: None,
                },
            ),
            ChildEvent::Stderr(bytes) => Some(
                StreamEvent {
                    stream_id: id,
                    event_type: EventType::Stderr,
                    data: lossy_text(&bytes),
                    code: None,
                    signal: None,
                },
            ),
            ChildEvent::Terminated { code, signal } => {
                self.finished = true;
                let _ = table.remove(self.stream_id.as_str());
                Some(
                    StreamEvent {
                        stream_id: id,
                        event_type: EventType::Terminated,
                        data: String::new(),
                        code,
                        signal,
                    },
                )
            },
            ChildEvent::Error(msg) => {
                self.finished = true;
                let _ = table.remove(self.stream_id.as_str());
                Some(
                    StreamEvent {
                        stream_id: id,
                        event_type: EventType::Error,
                        data: msg,
                        code: None,
                        signal: None,
                    },
                )
            },
            ChildEvent::Other => None,
        }
    }
}

/// Where collecting the output of a process that runs to completion stands.
pub enum CollectStep {
    /// More events are expected.
    Pending,
    /// The process ended: its exit status and trimmed output.
    Finished(CommandOutput),
    /// The transport failed; the output gathered so far is discarded.
    Failed(String),
}

/// Gathers the output of a process that runs to completion.
pub struct OutputCollector {
    stdout: String,
    stderr: String,
}

/// The output returned for what was gathered, with its exit status.
pub open spec fn output_matches(o: CommandOutput, code: Option<i32>, signal: Option<i32>, stdout: Seq<char>, stderr: Seq<char>) -> bool {
    &&& o.code == code
    &&& o.signal == signal
    &&& o.stdout@ == trimmed(stdout)
    &&& o.stderr@ == trimmed(stderr)
}

impl OutputCollector {
    /// The standard output gathered so far.
    pub closed spec fn out(&self) -> Seq<char> {
        self.stdout@
    }

    /// The standard error gathered so far.
    pub closed spec fn err(&self) -> Seq<char> {
        self.stderr@
    }

    /// A collector that has gathered nothing.
    pub fn new() -> (r: Self)
        ensures
            r.out() == Seq::<char>::empty(),
            r.err() == Seq::<char>::empty(),
    {
        OutputCollector { stdout: String::new(), stderr: String::new() }
    }

    /// Handles the next child event: output chunks are appended, termination
    /// yields the trimmed output with the exit status, a transport error yields
    /// its message alone.
    pub fn on_event(&mut self, event: ChildEvent) -> (r: CollectStep)
        ensures
            match event {
                ChildEvent::Stdout(b) => final(self).out() == old(self).out() + utf8_lossy(b@)
                    && final(self).err() == old(self).err() && r is Pending,
                ChildEvent::Stderr(b) => final(self).err() == old(self).err() + utf8_lossy(b@)
                    && final(self).out() == old(self).out() && r is Pending,
                ChildEvent::Terminated { code, signal } => *final(self) == *old(self) && match r {
                    CollectStep::Finished(o) => output_matches(
                        o,
                        code,
                        signal,
                        old(self).out(),
                        old(self).err(),
                    ),
                    _ => false,
                },
                ChildEvent::Error(msg) => *final(self) == *old(self) && match r {
                    CollectStep::Failed(m) => m@ == msg@,
                    _ => false,
                },
                ChildEvent::Other => *final(self) == *old(self) && r is Pending,
            },
    {
        match event {
            ChildEvent::Stdout(bytes) => {
                let text = lossy_text(&bytes);
                self.stdout.append(text.as_str());
                CollectStep::Pending
            },
            ChildEvent::Stderr(bytes) => {
                let text = lossy_text(&bytes);
                self.stderr.append(text.as_str());
                CollectStep::Pending
            },
            ChildEvent::Terminated { code, signal } => CollectStep::Finished(
                CommandOutput {
                    code,
                    signal,
                    stdout: trim_text(&self.stdout),
                    stderr: trim_text(&self.stderr),
                },
            ),
            ChildEvent::Error(msg) => CollectStep::Failed(msg),
            ChildEvent::Other => CollectStep::Pending,
        }
    }

    /// The output when the channel closed without reporting termination: no
    /// exit status, and the trimmed output gathered so far.
    pub fn finish(&self) -> (r: CommandOutput)
        ensures
            output_matches(r, None, None, self.out(), self.err()),
    {
        CommandOutput {
            code: None,
            signal: None,
            stdout: trim_text(&self.stdout),
            stderr: trim_text(&self.stderr),
        }
    }
}

} // verus!
