//! The queue store: a mapping from channel name to a FIFO queue of messages,
//! with admission limits on payload size and queue depth enforced at push time.

use vstd::prelude::*;

verus! {

/// Admission limits, fixed at store construction and read-only afterwards.
/// `max_body_bytes` is the inclusive upper bound on an accepted payload's
/// length; `max_queue_depth` is the inclusive upper bound on the number of
/// messages resident in one channel's queue.
#[derive(Clone, Copy, Debug)]
pub struct Limits {
    pub max_body_bytes: usize,
    pub max_queue_depth: usize,
}

/// Why a push was rejected. Every rejection leaves the store unchanged.
#[derive(Clone, Copy, Debug, PartialEq, Eq, Structural)]
pub enum PushError {
    /// The payload was empty.
    EmptyBody,
    /// The payload was longer than `max_body_bytes`.
    TooLarge,
    /// The channel already held `max_queue_depth` resident messages.
    QueueFull,
}

impl PushError {
    /// The transport status code the HTTP layer reports for this rejection.
    pub fn status_code(&self) -> (c: u16)
        ensures
            c == (match *self {
                PushError::EmptyBody => 400u16,
                PushError::TooLarge => 413u16,
                PushError::QueueFull => 429u16,
            }),
    {
        match self {
            PushError::EmptyBody => 400,
            PushError::TooLarge => 413,
            PushError::QueueFull => 429,
        }
    }

    /// The transport body the HTTP layer reports for this rejection.
    pub fn body_text(&self) -> (t: &'static str)
        ensures
            t@ == (match *self {
                PushError::EmptyBody => "ERR_EMPTY_BODY"@,
                PushError::TooLarge => "ERR_TOO_LARGE"@,
                PushError::QueueFull => "ERR_QUEUE_FULL"@,
            }),
    {
        match self {
            PushError::EmptyBody => "ERR_EMPTY_BODY",
            PushError::TooLarge => "ERR_TOO_LARGE",
            PushError::QueueFull => "ERR_QUEUE_FULL",
        }
    }
}

/// A resident message: an opaque payload plus the id assigned when it was
/// pushed.
pub struct Message {
    pub id: String,
    pub payload: Vec<u8>,
}

/// The mathematical value of a [`Message`]: its id as a sequence of
/// characters and its payload as a sequence of bytes.
pub struct MsgView {
    pub id: Seq<char>,
    pub payload: Seq<u8>,
}

impl View for Message {
    type V = MsgView;

    open spec fn view(&self) -> MsgView {
        MsgView { id: self.id@, payload: self.payload@ }
    }
}

struct ChannelEntry {
    name: String,
    queue: Vec<Message>,
}

/// The messages a queue holds, as mathematical values, oldest first.
spec fn queue_view(q: Seq<Message>) -> Seq<MsgView> {
    q.map_values(|m: Message| m@)
}

/// The queue resident for channel `ch` in `entries`: the queue of the first
/// entry named `ch`, or the empty sequence when no entry is. A channel that
/// was never pushed to thus holds the same (empty) queue as one drained to
/// emptiness.
spec fn chan_queue(entries: Seq<ChannelEntry>, ch: Seq<char>) -> Seq<MsgView>
    decreases entries.len(),
{
    if entries.len() == 0 {
        Seq::<MsgView>::empty()
    } else if entries.first().name@ == ch {
        queue_view(entries.first().queue@)
    } else {
        chan_queue(entries.drop_first(), ch)
    }
}

/// Relies on `uuid::Uuid::new_v4` and the `Display` form of `uuid::Uuid`:
/// a freshly drawn random version-4 UUID rendered in its hyphenated textual
/// form, which is exactly 36 characters long. The draw is random, so nothing
/// relates the results of two calls.
#[verifier::external_body]
fn fresh_message_id() -> (r: String)
    ensures
        r@.len() == 36,
{
    uuid::Uuid::new_v4().to_string()
}

/// The index of the entry named `channel`, if one exists. Entries before it
/// carry other names.
fn find_channel(channels: &Vec<ChannelEntry>, channel: &String) -> (r: Option<usize>)
    ensures
        match r {
            Some(i) => {
                &&& i < channels@.len()
                &&& channels@[i as int].name@ == channel@
                &&& forall|k: int| 0 <= k < i ==> channels@[k].name@ != channel@
            },
            None => forall|k: int| 0 <= k < channels@.len() ==> channels@[k].name@ != channel@,
        },
{
    let n = channels.len();
    let mut i: usize = 0;
    while i < n
        invariant
            n == channels@.len(),
            i <= n,
            forall|k: int| 0 <= k < i ==> channels@[k].name@ != channel@,
        decreases n - i,
    {
        if channels[i].name == *channel {
            return Some(i);
        }
        i = i + 1;
    }
    None
}

/// The queue store. It owns every channel's queue and enforces the admission
/// limits; callers that share it must serialize `push` and `pull` calls
/// (one coarse exclusive-access region around each call).
pub struct AppState {
    channels: Vec<ChannelEntry>,
    limits: Limits,
}

impl AppState {
    /// The queue resident for channel `ch`, oldest message first. An unknown
    /// channel's queue is the empty sequence.
    pub closed spec fn queue(self, ch: Seq<char>) -> Seq<MsgView> {
        chan_queue(self.channels@, ch)
    }

    /// The configured inclusive bound on payload length.
    pub closed spec fn max_body(self) -> int {
        self.limits.max_body_bytes as int
    }

    /// The configured inclusive bound on a channel's resident message count.
    pub closed spec fn max_depth(self) -> int {
        self.limits.max_queue_depth as int
    }

    /// Well-formedness: channel names are distinct, and no queue exceeds the
    /// configured depth. `new` establishes it; `push` and `pull` keep it.
    pub closed spec fn wf(self) -> bool {
        &&& forall|i: int, j: int|
            0 <= i < j < self.channels@.len() ==> self.channels@[i].name@ != self.channels@[j].name@
        &&& forall|i: int|
            0 <= i < self.channels@.len()
                ==> #[trigger] self.channels@[i].queue@.len() <= self.limits.max_queue_depth
    }

    /// A fresh store under the given limits: well formed, with every channel
    /// empty. Takes ownership of the limits; cannot fail.
    pub fn new(limits: Limits) -> (s: AppState)
        ensures
            s.wf(),
            s.max_body() == limits.max_body_bytes,
            s.max_depth() == limits.max_queue_depth,
            forall|ch: Seq<char>| #[trigger] s.queue(ch) == Seq::<MsgView>::empty(),
    {
        AppState { channels: Vec::new(), limits }
    }

    /// Pushes `payload` onto the tail of `channel`'s queue under a freshly
    /// generated message id. The payload is rejected — and the store left
    /// unchanged — exactly when it is empty (`EmptyBody`), longer than
    /// `max_body_bytes` (`TooLarge`), or the channel already holds
    /// `max_queue_depth` messages (`QueueFull`); the checks apply in that
    /// order. No other channel is touched.
    pub fn push(&mut self, channel: &String, payload: Vec<u8>) -> (r: Result<String, PushError>)
        requires
            old(self).wf(),
        ensures
            final(self).wf(),
            final(self).max_body() == old(self).max_body(),
            final(self).max_depth() == old(self).max_depth(),
            (r matches Err(e) && e == PushError::EmptyBody) <==> payload@.len() == 0,
            (r matches Err(e) && e == PushError::TooLarge) <==> payload@.len() > 0
                && payload@.len() > old(self).max_body(),
            (r matches Err(e) && e == PushError::QueueFull) <==> 0 < payload@.len()
                <= old(self).max_body() && old(self).queue(channel@).len() >= old(
                self,
            ).max_depth(),
            r is Err ==> *final(self) == *old(self),
            r is Ok <==> 0 < payload@.len() <= old(self).max_body() && old(self).queue(
                channel@,
            ).len() < old(self).max_depth(),
            r matches Ok(id) ==> id@.len() == 36,
            r matches Ok(id) ==> final(self).queue(channel@) == old(self).queue(channel@).push(
                (MsgView { id: id@, payload: payload@ }),
            ),
            r is Ok ==> forall|other: Seq<char>|
                other != channel@ ==> final(self).queue(other) == old(self).queue(other),
    {
        if payload.len() == 0 {
            return Err(PushError::EmptyBody);
        }
        if payload.len() > self.limits.max_body_bytes {
            return Err(PushError::TooLarge);
        }
        let found = find_channel(&self.channels, channel);
        match found {
            Some(i) => {
                proof {
                    lemma_chan_queue_at(self.channels@, channel@, i as int);
                }
                if self.channels[i].queue.len() >= self.limits.max_queue_depth {
                    return Err(PushError::QueueFull);
                }
                let id = fresh_message_id();
                let msg = Message { id: id.clone(), payload };
                let ghost old_entries = self.channels@;
                let ghost mv = msg@;
                let e = &mut self.channels[i];
                e.queue.push(msg);
                proof {
                    let new_entries = self.channels@;
                    lemma_queue_view_push(old_entries[i as int].queue@, mv);
                    lemma_chan_queue_at(new_entries, channel@, i as int);
                    assert forall|other: Seq<char>| other != channel@ implies chan_queue(
                        new_entries,
                        other,
                    ) == chan_queue(old_entries, other) by {
                        lemma_chan_queue_update_other(
                            old_entries,
                            i as int,
                            new_entries[i as int],
                            other,
                        );
                        assert(new_entries =~= old_entries.update(
                            i as int,
                            new_entries[i as int],
                        ));
                    }
                }
                Ok(id)
            },
            None => {
                proof {
                    lemma_chan_queue_absent(self.channels@, channel@);
                }
                if self.limits.max_queue_depth == 0 {
                    return Err(PushError::QueueFull);
                }
                let id = fresh_message_id();
                let msg = Message { id: id.clone(), payload };
                let ghost mv = msg@;
                let mut q: Vec<Message> = Vec::new();
                q.push(msg);
                let name = channel.clone();
                let ghost old_entries = self.channels@;
                self.channels.push(ChannelEntry { name, queue: q });
                proof {
                    let new_entries = self.channels@;
                    lemma_chan_queue_at(new_entries, channel@, old_entries.len() as int);
                    assert(queue_view(q@) =~= Seq::<MsgView>::empty().push(mv));
                    assert forall|other: Seq<char>| other != channel@ implies chan_queue(
                        new_entries,
                        other,
                    ) == chan_queue(old_entries, other) by {
                        lemma_chan_queue_push_other(
                            old_entries,
                            new_entries[old_entries.len() as int],
                            other,
                        );
                    }
                }
                Ok(id)
            },
        }
    }

    /// Removes and returns the oldest message of `channel`'s queue. Returns
    /// `None` — and leaves the store untouched — exactly when the channel is
    /// empty or was never pushed to; that is a defined empty result, not an
    /// error. No other channel is touched, so a message handed out is never
    /// handed out again.
    pub fn pull(&mut self, channel: &String) -> (r: Option<Message>)
        requires
            old(self).wf(),
        ensures
            final(self).wf(),
            final(self).max_body() == old(self).max_body(),
            final(self).max_depth() == old(self).max_depth(),
            r is Some <==> old(self).queue(channel@).len() > 0,
            r is None ==> *final(self) == *old(self),
            r matches Some(m) ==> m@ == old(self).queue(channel@).first(),
            r matches Some(m) ==> final(self).queue(channel@) == old(self).queue(
                channel@,
            ).drop_first(),
            r is Some ==> forall|other: Seq<char>|
                other != channel@ ==> final(self).queue(other) == old(self).queue(other),
    {
        let found = find_channel(&self.channels, channel);
        match found {
            None => {
                proof {
                    lemma_chan_queue_absent(self.channels@, channel@);
                }
                None
            },
            Some(i) => {
                proof {
                    lemma_chan_queue_at(self.channels@, channel@, i as int);
                }
                if self.channels[i].queue.len() == 0 {
                    None
                } else {
                    let ghost old_entries = self.channels@;
                    let e = &mut self.channels[i];
                    let m = e.queue.remove(0);
                    proof {
                        let new_entries = self.channels@;
                        lemma_queue_view_remove_first(old_entries[i as int].queue@);
                        lemma_chan_queue_at(new_entries, channel@, i as int);
                        assert forall|other: Seq<char>| other != channel@ implies chan_queue(
                            new_entries,
                            other,
                        ) == chan_queue(old_entries, other) by {
                            lemma_chan_queue_update_other(
                                old_entries,
                                i as int,
                                new_entries[i as int],
                                other,
                            );
                            assert(new_entries =~= old_entries.update(
                                i as int,
                                new_entries[i as int],
                            ));
                        }
                    }
                    Some(m)
                }
            },
        }
    }
}

/// If the entry at `i` is the first one named `ch`, the channel's resident
/// queue is that entry's queue.
proof fn lemma_chan_queue_at(s: Seq<ChannelEntry>, ch: Seq<char>, i: int)
    requires
        0 <= i < s.len(),
        s[i].name@ == ch,
        forall|k: int| 0 <= k < i ==> s[k].name@ != ch,
    ensures
        chan_queue(s, ch) == queue_view(s[i].queue@),
    decreases i,
{
    if i == 0 {
        assert(s.first() == s[0]);
    } else {
        let t = s.drop_first();
        assert(s.first() == s[0]);
        assert(s[0].name@ != ch);
        assert(t[i - 1] == s[i]);
        assert(forall|k: int| 0 <= k < i - 1 ==> t[k] == s[k + 1]);
        lemma_chan_queue_at(t, ch, i - 1);
    }
}

/// A channel no entry is named after holds the empty queue.
proof fn lemma_chan_queue_absent(s: Seq<ChannelEntry>, ch: Seq<char>)
    requires
        forall|k: int| 0 <= k < s.len() ==> s[k].name@ != ch,
    ensures
        chan_queue(s, ch) == Seq::<MsgView>::empty(),
    decreases s.len(),
{
    if s.len() == 0 {
    } else {
        let t = s.drop_first();
        assert(s.first() == s[0]);
        assert(forall|k: int| 0 <= k < t.len() ==> t[k] == s[k + 1]);
        lemma_chan_queue_absent(t, ch);
    }
}

/// Replacing the entry at `i` by one of the same name leaves every other
/// channel's resident queue unchanged.
proof fn lemma_chan_queue_update_other(s: Seq<ChannelEntry>, i: int, e: ChannelEntry, ch: Seq<char>)
    requires
        0 <= i < s.len(),
        e.name@ == s[i].name@,
        ch != e.name@,
    ensures
        chan_queue(s.update(i, e), ch) == chan_queue(s, ch),
    decreases s.len(),
{
    let u = s.update(i, e);
    if i == 0 {
        assert(u.first() == e);
        assert(s.first() == s[0]);
        assert(u.drop_first() =~= s.drop_first());
    } else {
        assert(u.first() == s.first());
        if s.first().name@ == ch {
        } else {
            assert(u.drop_first() =~= s.drop_first().update(i - 1, e));
            assert(s.drop_first()[i - 1] == s[i]);
            lemma_chan_queue_update_other(s.drop_first(), i - 1, e, ch);
        }
    }
}

/// Appending an entry of another name leaves a channel's resident queue
/// unchanged.
proof fn lemma_chan_queue_push_other(s: Seq<ChannelEntry>, e: ChannelEntry, ch: Seq<char>)
    requires
        ch != e.name@,
    ensures
        chan_queue(s.push(e), ch) == chan_queue(s, ch),
    decreases s.len(),
{
    let p = s.push(e);
    if s.len() == 0 {
        assert(p.first() == e);
        assert(p.drop_first() =~= Seq::<ChannelEntry>::empty());
        assert(chan_queue(p.drop_first(), ch) == Seq::<MsgView>::empty());
    } else {
        assert(p.first() == s.first());
        if s.first().name@ == ch {
        } else {
            assert(p.drop_first() =~= s.drop_first().push(e));
            lemma_chan_queue_push_other(s.drop_first(), e, ch);
        }
    }
}

/// Appending a message commutes with taking the queue's mathematical value.
proof fn lemma_queue_view_push(q: Seq<Message>, mv: MsgView)
    ensures
        forall|m: Message| m@ == mv ==> queue_view(q.push(m)) == queue_view(q).push(mv),
{
    assert forall|m: Message| m@ == mv implies queue_view(q.push(m)) == queue_view(q).push(
        mv,
    ) by {
        assert(queue_view(q.push(m)) =~= queue_view(q).push(mv));
    }
}

/// Removing the head commutes with taking the queue's mathematical value.
proof fn lemma_queue_view_remove_first(q: Seq<Message>)
    requires
        q.len() > 0,
    ensures
        queue_view(q.remove(0)) == queue_view(q).drop_first(),
        queue_view(q).first() == q[0]@,
{
    assert(queue_view(q.remove(0)) =~= queue_view(q).drop_first());
}

/// The queue that results from pushing the messages `ps` onto `q`, one at a
/// time, oldest first.
pub open spec fn push_all(q: Seq<MsgView>, ps: Seq<MsgView>) -> Seq<MsgView>
    decreases ps.len(),
{
    if ps.len() == 0 {
        q
    } else {
        push_all(q.push(ps.first()), ps.drop_first())
    }
}

/// Pushes append at the tail: pushing `ps` one message at a time, as `push`'s
/// contract appends them, extends the queue by exactly `ps`.
pub proof fn lemma_push_all(q: Seq<MsgView>, ps: Seq<MsgView>)
    ensures
        push_all(q, ps) == q + ps,
    decreases ps.len(),
{
    if ps.len() == 0 {
        assert(q + ps =~= q);
    } else {
        lemma_push_all(q.push(ps.first()), ps.drop_first());
        assert(q.push(ps.first()) + ps.drop_first() =~= q + ps);
    }
}

/// FIFO law: pushing the messages `ps` onto an initially empty channel — as
/// `push`'s contract appends them — leaves exactly `ps` resident, and the
/// k-th subsequent pull — which by `pull`'s contract returns the head and
/// leaves the tail — returns the k-th pushed message, so n pushes followed
/// by n pulls return the payloads in push order.
pub proof fn lemma_fifo(ps: Seq<MsgView>, k: int)
    requires
        0 <= k < ps.len(),
    ensures
        push_all(Seq::<MsgView>::empty(), ps) == ps,
        ps.skip(k).len() > 0,
        ps.skip(k).first() == ps[k],
        ps.skip(k).drop_first() == ps.skip(k + 1),
{
    lemma_push_all(Seq::<MsgView>::empty(), ps);
    assert(Seq::<MsgView>::empty() + ps =~= ps);
    assert(ps.skip(k).drop_first() =~= ps.skip(k + 1));
}

/// At-most-once law: pulls drain a queue front to back, so the pulls at two
/// distinct counts return the messages at two distinct positions; when the
/// resident messages carry pairwise distinct ids, the two pulled ids differ.
pub proof fn lemma_at_most_once(q: Seq<MsgView>, i: int, j: int)
    requires
        0 <= i < j < q.len(),
        forall|a: int, b: int| #![trigger q[a], q[b]] 0 <= a < b < q.len() ==> q[a].id != q[b].id,
    ensures
        q.skip(i).first() == q[i],
        q.skip(j).first() == q[j],
        q.skip(i).first().id != q.skip(j).first().id,
{
    assert(q[i].id != q[j].id);
}

/// Capacity law: a well-formed store keeps every channel's resident queue at
/// or below the configured depth limit.
pub proof fn lemma_capacity(s: AppState, ch: Seq<char>)
    requires
        s.wf(),
    ensures
        s.queue(ch).len() <= s.max_depth(),
{
    lemma_chan_queue_bounded(s.channels@, ch, s.limits.max_queue_depth as int);
}

/// A channel's resident queue is no longer than the longest entry queue.
proof fn lemma_chan_queue_bounded(s: Seq<ChannelEntry>, ch: Seq<char>, bound: int)
    requires
        bound >= 0,
        forall|k: int| 0 <= k < s.len() ==> #[trigger] s[k].queue@.len() <= bound,
    ensures
        chan_queue(s, ch).len() <= bound,
    decreases s.len(),
{
    if s.len() == 0 {
    } else if s.first().name@ == ch {
        assert(s.first() == s[0]);
    } else {
        let t = s.drop_first();
        assert(forall|k: int| 0 <= k < t.len() ==> t[k] == s[k + 1]);
        lemma_chan_queue_bounded(t, ch, bound);
    }
}

} // verus!
