//! The connection: reply correlator, filter registry, dispatch loop and reply futures.
use vstd::prelude::*;
use std::collections::HashMap;
use crate::channel::Channel;
use crate::message::{
    Error, MatchRule, Message, MessageType, ReadAll, unknown_method_name, agrees, default_reply, failed_name,
    needs_default_reply, read_reply, reply_outcome,
};

verus! {

broadcast use vstd::std_specs::hash::group_hash_axioms;

/// Identifies a suspended consumer; waking it hands its task number to the reactor.
#[derive(Clone, Copy, Debug, PartialEq, Eq, Structural)]
pub struct Waker {
    pub task: u64,
}

/// The state of a single-slot reply cell.
#[derive(Debug)]
pub enum ReplyState {
    /// Nothing delivered and nobody waiting, or the result was already taken.
    Neither,
    /// A consumer waits to be woken.
    Pending(Waker),
    /// The terminal result, not yet taken.
    Ready(Result<Message, Error>),
}

/// The one-shot completion that a pending reply fires: it fills the reply cell `cell`.
#[derive(Clone, Copy, Debug, PartialEq, Eq, Structural)]
pub struct ReplySlot {
    pub cell: usize,
}

/// What a poll of a reply future gives.
#[derive(Debug)]
pub enum Poll<T> {
    Ready(T),
    Pending,
}

/// A subscriber's callback, run once for each message that its rule selects. Its result says
/// whether the subscription stays registered.
pub trait MessageFilter {
    fn on_message(&mut self, msg: Message) -> bool;
}

/// A registered subscription.
pub struct FilterEntry<H> {
    pub id: u32,
    pub rule: MatchRule,
    pub handler: H,
}

/// How one inbound message was dispatched.
#[derive(Clone, Copy, Debug, PartialEq, Eq, Structural)]
pub enum Dispatch {
    /// It answered the pending request with this serial, whose completion fired.
    Reply(u32),
    /// The subscription `id` took it; `kept` is what its callback returned.
    Filter { id: u32, kept: bool },
    /// Nothing took it and a default answer was sent back, as far as the channel allowed.
    Answered,
    /// Nothing took it and none was owed.
    Dropped,
}

/// The reply side of a connection, as contracts see it: the pending replies by request
/// serial, the reply cells, and the tasks woken so far.
pub struct ReplyModel {
    pub replies: Map<u32, ReplySlot>,
    pub cells: Seq<ReplyState>,
    pub woken: Seq<u64>,
}

/// The serial of the pending request that `m` answers, if one is registered.
pub open spec fn reply_key(replies: Map<u32, ReplySlot>, m: Message) -> Option<u32> {
    match m.reply_serial {
        Some(s) => if replies.contains_key(s) {
            Some(s)
        } else {
            None
        },
        None => None,
    }
}

/// Fills a reply cell with a delivered message, noting the task that waited on it.
pub open spec fn complete(s: ReplyModel, cell: usize, m: Message) -> ReplyModel {
    ReplyModel {
        replies: s.replies,
        cells: s.cells.update(cell as int, ReplyState::Ready(Ok(m))),
        woken: match s.cells[cell as int] {
            ReplyState::Pending(w) => s.woken.push(w.task),
            _ => s.woken,
        },
    }
}

/// The reply side after one inbound message: a registered reply is removed, then fired.
pub open spec fn reply_step(s: ReplyModel, m: Message) -> ReplyModel {
    match reply_key(s.replies, m) {
        Some(k) => complete(
            ReplyModel { replies: s.replies.remove(k), cells: s.cells, woken: s.woken },
            s.replies[k].cell,
            m,
        ),
        None => s,
    }
}

/// The reply side after a sequence of inbound messages, in order.
pub open spec fn reply_run(s: ReplyModel, msgs: Seq<Message>) -> ReplyModel
    decreases msgs.len(),
{
    if msgs.len() == 0 {
        s
    } else {
        reply_run(reply_step(s, msgs[0]), msgs.drop_first())
    }
}

/// The serials whose completions fire, in order, as `msgs` arrive.
pub open spec fn fired(replies: Map<u32, ReplySlot>, msgs: Seq<Message>) -> Seq<u32>
    decreases msgs.len(),
{
    if msgs.len() == 0 {
        Seq::empty()
    } else {
        match reply_key(replies, msgs[0]) {
            Some(k) => seq![k] + fired(replies.remove(k), msgs.drop_first()),
            None => fired(replies, msgs.drop_first()),
        }
    }
}

/// Over any sequence of inbound messages, each pending completion fires at most once, only
/// for a serial it was registered under and that some message answers, and exactly the
/// fired ones leave the table.
pub proof fn lemma_replies_fire_at_most_once(s: ReplyModel, msgs: Seq<Message>)
    ensures
        fired(s.replies, msgs).no_duplicates(),
        forall|i: int|
            0 <= i < fired(s.replies, msgs).len() ==> s.replies.contains_key(
                #[trigger] fired(s.replies, msgs)[i],
            ),
        forall|i: int|
            0 <= i < fired(s.replies, msgs).len() ==> exists|j: int|
                0 <= j < msgs.len() && msgs[j].reply_serial == Some(
                    #[trigger] fired(s.replies, msgs)[i],
                ),
        reply_run(s, msgs).replies == s.replies.remove_keys(fired(s.replies, msgs).to_set()),
    decreases msgs.len(),
{
    if msgs.len() == 0 {
        assert(s.replies.remove_keys(Set::empty()) =~= s.replies);
        assert(fired(s.replies, msgs).to_set() =~= Set::empty());
    } else {
        let rest = msgs.drop_first();
        let s1 = reply_step(s, msgs[0]);
        lemma_replies_fire_at_most_once(s1, rest);
        let f1 = fired(s1.replies, rest);
        let f = fired(s.replies, msgs);
        match reply_key(s.replies, msgs[0]) {
            Some(k) => {
                assert(s1.replies == s.replies.remove(k));
                assert(f == seq![k] + f1);
                assert forall|i: int| 0 <= i < f.len() implies s.replies.contains_key(
                    #[trigger] f[i],
                ) && exists|j: int|
                    0 <= j < msgs.len() && msgs[j].reply_serial == Some(f[i]) by {
                    if i == 0 {
                        assert(msgs[0].reply_serial == Some(f[i]));
                    } else {
                        assert(f[i] == f1[i - 1]);
                        assert(s1.replies.contains_key(f1[i - 1]));
                        let j1 = choose|j: int|
                            0 <= j < rest.len() && rest[j].reply_serial == Some(f1[i - 1]);
                        assert(msgs[j1 + 1].reply_serial == Some(f[i]));
                    }
                }
                assert forall|a: int, b: int| 0 <= a < b < f.len() implies f[a] != f[b] by {
                    assert(f[b] == f1[b - 1]);
                    assert(s1.replies.contains_key(f1[b - 1]));
                    if a > 0 {
                        assert(f[a] == f1[a - 1]);
                    }
                }
                assert(f.to_set() =~= f1.to_set().insert(k)) by {
                    assert forall|x: u32| f.to_set().contains(x) <==> f1.to_set().insert(
                        k,
                    ).contains(x) by {
                        if f.to_set().contains(x) {
                            let i = choose|i: int| 0 <= i < f.len() && f[i] == x;
                            if i > 0 {
                                assert(f1[i - 1] == x);
                            }
                        }
                        if f1.to_set().contains(x) {
                            let i = choose|i: int| 0 <= i < f1.len() && f1[i] == x;
                            assert(f[i + 1] == x);
                        }
                        if x == k {
                            assert(f[0] == x);
                        }
                    }
                }
                assert(reply_run(s, msgs).replies =~= s.replies.remove_keys(f.to_set()));
            },
            None => {
                assert(s1 == s);
                assert(f == f1);
                assert forall|i: int| 0 <= i < f.len() implies exists|j: int|
                    0 <= j < msgs.len() && msgs[j].reply_serial == Some(#[trigger] f[i]) by {
                    let j1 = choose|j: int|
                        0 <= j < rest.len() && rest[j].reply_serial == Some(f1[i]);
                    assert(msgs[j1 + 1].reply_serial == Some(f[i]));
                }
            },
        }
    }
}

/// Once a pending completion has fired, its serial is no longer registered: a second
/// answer to it fires nothing, and cancelling it yields nothing.
pub proof fn lemma_fired_reply_is_gone(s: ReplyModel, m1: Message, m2: Message)
    requires
        reply_key(s.replies, m1) is Some,
        m2.reply_serial == m1.reply_serial,
    ensures
        !reply_step(s, m1).replies.contains_key(m1.reply_serial.unwrap()),
        reply_key(reply_step(s, m1).replies, m2) is None,
        reply_step(reply_step(s, m1), m2) == reply_step(s, m1),
{
}

/// A consumer that polls twice before delivery is woken once, through the waker of its
/// latest poll; the earlier waker is not notified.
pub proof fn lemma_latest_waker_only(
    s: ReplyModel,
    cell: usize,
    w1: Waker,
    w2: Waker,
    m: Message,
)
    requires
        cell < s.cells.len(),
    ensures
        ({
            let polled = ReplyModel {
                replies: s.replies,
                cells: s.cells.update(cell as int, ReplyState::Pending(w1)).update(
                    cell as int,
                    ReplyState::Pending(w2),
                ),
                woken: s.woken,
            };
            complete(polled, cell, m).woken == s.woken.push(w2.task)
        }),
{
}

/// Whether the `i`th entry of `fs` is the first whose rule selects `m`.
pub open spec fn first_match(fs: Seq<(u32, MatchRule)>, m: Message, i: int) -> bool {
    &&& 0 <= i < fs.len()
    &&& fs[i].1.spec_matches(m)
    &&& forall|j: int| 0 <= j < i ==> !(#[trigger] fs[j].1.spec_matches(m))
}

/// Whether no rule in `fs` selects `m`.
pub open spec fn no_match(fs: Seq<(u32, MatchRule)>, m: Message) -> bool {
    forall|j: int| 0 <= j < fs.len() ==> !(#[trigger] fs[j].1.spec_matches(m))
}

/// Whether the ids of `fs` strictly ascend.
pub open spec fn ascending_ids(fs: Seq<(u32, MatchRule)>) -> bool {
    forall|i: int, j: int| 0 <= i < j < fs.len() ==> (#[trigger] fs[i]).0 < (#[trigger] fs[j]).0
}

/// In a registry whose ids ascend, the subscription that takes a message has the smallest
/// id among all whose rules select it, so no other sees the message first.
pub proof fn lemma_first_match_has_smallest_id(fs: Seq<(u32, MatchRule)>, m: Message, i: int)
    requires
        ascending_ids(fs),
        first_match(fs, m, i),
    ensures
        forall|j: int| 0 <= j < fs.len() && (#[trigger] fs[j]).1.spec_matches(m) ==> fs[i].0 <= fs[j].0,
{
    assert forall|j: int| 0 <= j < fs.len() && (#[trigger] fs[j]).1.spec_matches(m) implies fs[i].0
        <= fs[j].0 by {
        if j < i {
            assert(!fs[j].1.spec_matches(m));
        }
    }
}

/// Whether `fs` lists `id`.
pub open spec fn has_id(fs: Seq<(u32, MatchRule)>, id: u32) -> bool {
    exists|j: int| 0 <= j < fs.len() && (#[trigger] fs[j]).0 == id
}

/// The dispatch side of a connection, as contracts see it: the pending replies, the
/// subscriptions and their callbacks in registry order, and the channel's next serial and
/// open flag.
pub struct DispatchModel<H> {
    pub replies: Map<u32, ReplySlot>,
    pub filters: Seq<(u32, MatchRule)>,
    pub handlers: Seq<H>,
    pub serial: u32,
    pub open: bool,
}

/// The position of the subscription that takes `m`: the first whose rule selects it.
pub open spec fn taken_by(fs: Seq<(u32, MatchRule)>, m: Message) -> Option<int> {
    if exists|i: int| first_match(fs, m, i) {
        Some(choose|i: int| first_match(fs, m, i))
    } else {
        None
    }
}

/// Whether `m`, claimed by no pending reply and no subscription, is answered with an
/// "unknown method" error that the channel accepts.
pub open spec fn answers_now<H>(s: DispatchModel<H>, m: Message) -> bool {
    &&& reply_key(s.replies, m) is None
    &&& taken_by(s.filters, m) is None
    &&& needs_default_reply(m)
    &&& s.open
    &&& s.serial < u32::MAX
}

/// The dispatch side after one inbound message, where a subscription that takes it
/// answers `kept` and its callback is `h` afterwards. A registered reply is removed and
/// no subscription sees the message; otherwise the first matching subscription alone
/// takes it and stays only if kept; otherwise a default answer may use up one serial.
pub open spec fn dispatch_step<H>(s: DispatchModel<H>, m: Message, kept: bool, h: H) -> DispatchModel<H> {
    match reply_key(s.replies, m) {
        Some(k) => DispatchModel { replies: s.replies.remove(k), ..s },
        None => match taken_by(s.filters, m) {
            Some(i) => if kept {
                DispatchModel { handlers: s.handlers.update(i, h), ..s }
            } else {
                DispatchModel { filters: s.filters.remove(i), handlers: s.handlers.remove(i), ..s }
            },
            None => if answers_now(s, m) {
                DispatchModel { serial: (s.serial + 1) as u32, ..s }
            } else {
                s
            },
        },
    }
}

/// The dispatch side after the messages `msgs`, in order; `kept[i]` and `hs[i]` are what
/// the subscription that took `msgs[i]`, if any, answered and became.
pub open spec fn dispatch_run<H>(
    s: DispatchModel<H>,
    msgs: Seq<Message>,
    kept: Seq<bool>,
    hs: Seq<H>,
) -> DispatchModel<H>
    decreases msgs.len(),
{
    if msgs.len() == 0 {
        s
    } else {
        let n = msgs.len() - 1;
        dispatch_step(dispatch_run(s, msgs.drop_last(), kept, hs), msgs[n], kept[n], hs[n])
    }
}

/// The messages, in order, that got a default answer during `dispatch_run`.
pub open spec fn answered_msgs<H>(
    s: DispatchModel<H>,
    msgs: Seq<Message>,
    kept: Seq<bool>,
    hs: Seq<H>,
) -> Seq<Message>
    decreases msgs.len(),
{
    if msgs.len() == 0 {
        Seq::empty()
    } else {
        let n = msgs.len() - 1;
        let before = answered_msgs(s, msgs.drop_last(), kept, hs);
        if answers_now(dispatch_run(s, msgs.drop_last(), kept, hs), msgs[n]) {
            before.push(msgs[n])
        } else {
            before
        }
    }
}

/// Whether `e` is the "unknown method" answer to `m`, sent under `serial`.
pub open spec fn is_answer(e: Message, m: Message, serial: u32) -> bool {
    &&& e.msg_type == MessageType::Error
    &&& e.serial == Some(serial)
    &&& e.reply_serial == m.serial
    &&& e.destination@ == m.sender@
    &&& e.error_name@ == unknown_method_name()
}

/// What the subscription that took a message answered; false where none took it.
pub open spec fn kept_flag(r: Dispatch) -> bool {
    match r {
        Dispatch::Filter { id, kept } => kept,
        _ => false,
    }
}

/// `dispatch_run` and `answered_msgs` read `kept` and `hs` only where messages are.
pub proof fn lemma_run_prefix<H>(
    s: DispatchModel<H>,
    msgs: Seq<Message>,
    k1: Seq<bool>,
    h1: Seq<H>,
    k2: Seq<bool>,
    h2: Seq<H>,
)
    requires
        msgs.len() <= k1.len(),
        msgs.len() <= h1.len(),
        msgs.len() <= k2.len(),
        msgs.len() <= h2.len(),
        forall|i: int| 0 <= i < msgs.len() ==> k1[i] == k2[i] && h1[i] == h2[i],
    ensures
        dispatch_run(s, msgs, k1, h1) == dispatch_run(s, msgs, k2, h2),
        answered_msgs(s, msgs, k1, h1) == answered_msgs(s, msgs, k2, h2),
    decreases msgs.len(),
{
    if msgs.len() > 0 {
        lemma_run_prefix(s, msgs.drop_last(), k1, h1, k2, h2);
    }
}

/// In one dispatch step: a message that a pending reply claims reaches no subscription and
/// sends nothing; one that none claims leaves the replies alone, and the subscription that
/// takes it is the first whose rule selects it, which afterwards is registered under its id
/// exactly when its callback kept it.
pub proof fn lemma_dispatch_step_routes<H>(s: DispatchModel<H>, m: Message, kept: bool, h: H)
    requires
        ascending_ids(s.filters),
    ensures
        ({
            let t = dispatch_step(s, m, kept, h);
            &&& reply_key(s.replies, m) is Some ==> t.filters == s.filters && t.handlers
                == s.handlers && t.serial == s.serial
            &&& reply_key(s.replies, m) is None ==> t.replies == s.replies
            &&& reply_key(s.replies, m) is None ==> (taken_by(s.filters, m) matches Some(i) ==> {
                &&& first_match(s.filters, m, i)
                &&& t.serial == s.serial
                &&& (kept <==> has_id(t.filters, s.filters[i].0))
            })
        }),
{
    let t = dispatch_step(s, m, kept, h);
    if reply_key(s.replies, m) is None {
        if let Some(i) = taken_by(s.filters, m) {
            assert(first_match(s.filters, m, i));
            if kept {
                assert(t.filters[i].0 == s.filters[i].0);
            } else {
                assert forall|j: int| 0 <= j < t.filters.len() implies (#[trigger] t.filters[j]).0
                    != s.filters[i].0 by {
                    if j < i {
                        assert(s.filters[j].0 < s.filters[i].0);
                    } else {
                        assert(s.filters[i].0 < s.filters[j + 1].0);
                    }
                }
            }
        }
    }
}

/// A message has at most one first matching subscription.
pub proof fn lemma_first_match_unique(fs: Seq<(u32, MatchRule)>, m: Message, i: int, j: int)
    requires
        first_match(fs, m, i),
        first_match(fs, m, j),
    ensures
        i == j,
{
    if i < j {
        assert(!fs[i].1.spec_matches(m));
    } else if j < i {
        assert(!fs[j].1.spec_matches(m));
    }
}

/// Whether the channel `c2` is `c1` after a best-effort send of `m`.
pub open spec fn sent_or_unchanged(c1: Channel, c2: Channel, m: Message) -> bool {
    if c1.can_send() {
        &&& c2.outgoing@.len() == c1.outgoing@.len() + 1
        &&& c2.outgoing@.drop_last() == c1.outgoing@
        &&& c2.outgoing@.last() == (Message { serial: Some(c1.next_serial), ..m })
        &&& c2.next_serial == c1.next_serial + 1
        &&& c2.incoming == c1.incoming
        &&& c2.inbound == c1.inbound
        &&& c2.written == c1.written
        &&& c2.open == c1.open
    } else {
        c2 == c1
    }
}

/// Whether the channel `c2` is `c1` after a best-effort send of the default answer to `m`.
pub open spec fn answered(c1: Channel, c2: Channel, m: Message) -> bool {
    exists|e: Message|
        {
            &&& e.msg_type == MessageType::Error
            &&& e.serial is None
            &&& e.reply_serial == m.serial
            &&& e.destination@ == m.sender@
            &&& e.error_name@ == unknown_method_name()
            &&& #[trigger] sent_or_unchanged(c1, c2, e)
        }
}

/// A connection over a channel: it owns the channel, the pending replies, the
/// subscriptions and the reply cells that the futures of its method calls read.
pub struct Connection<H> {
    channel: Channel,
    replies: HashMap<u32, ReplySlot>,
    filters: Vec<FilterEntry<H>>,
    filter_nextid: u32,
    cells: Vec<ReplyState>,
    woken: Vec<u64>,
}

impl<H> Connection<H> {
    pub closed spec fn spec_channel(&self) -> Channel {
        self.channel
    }

    pub closed spec fn pending(&self) -> Map<u32, ReplySlot> {
        self.replies@
    }

    pub closed spec fn cells(&self) -> Seq<ReplyState> {
        self.cells@
    }

    pub closed spec fn woken(&self) -> Seq<u64> {
        self.woken@
    }

    pub open spec fn reply_model(&self) -> ReplyModel {
        ReplyModel { replies: self.pending(), cells: self.cells(), woken: self.woken() }
    }

    /// The subscriptions in registry order, as (id, rule).
    pub closed spec fn filters_view(&self) -> Seq<(u32, MatchRule)> {
        self.filters@.map_values(|e: FilterEntry<H>| (e.id, e.rule))
    }

    /// The subscribers' callbacks, in registry order.
    pub closed spec fn handlers(&self) -> Seq<H> {
        self.filters@.map_values(|e: FilterEntry<H>| e.handler)
    }

    /// The dispatch side of the connection, as contracts see it.
    pub open spec fn dispatch_model(&self) -> DispatchModel<H> {
        DispatchModel {
            replies: self.pending(),
            filters: self.filters_view(),
            handlers: self.handlers(),
            serial: self.spec_channel().next_serial,
            open: self.spec_channel().open,
        }
    }

    /// A pending reply fills an existing cell, and answers a serial already handed out.
    pub proof fn lemma_pending_in_range(&self)
        requires
            self.wf(),
        ensures
            forall|k: u32| #[trigger]
                self.pending().contains_key(k) ==> self.pending()[k].cell < self.cells().len()
                    && k < self.spec_channel().next_serial,
    {
    }

    pub closed spec fn next_filter_id(&self) -> u32 {
        self.filter_nextid
    }

    /// Pending replies point at existing cells and answer serials already handed out;
    /// subscriptions are ordered by strictly increasing id, each below the next id.
    pub closed spec fn wf(&self) -> bool {
        &&& forall|k: u32| #[trigger]
            self.replies@.contains_key(k) ==> self.replies@[k].cell < self.cells@.len()
                && k < self.channel.next_serial
        &&& forall|i: int, j: int|
            0 <= i < j < self.filters@.len() ==> (#[trigger] self.filters@[i]).id
                < (#[trigger] self.filters@[j]).id
        &&& forall|i: int|
            0 <= i < self.filters@.len() ==> (#[trigger] self.filters@[i]).id
                < self.filter_nextid
    }

    /// The subscriptions of a well-formed connection are listed by ascending id.
    pub proof fn lemma_filters_ascend(&self)
        requires
            self.wf(),
        ensures
            ascending_ids(self.filters_view()),
    {
        assert forall|i: int, j: int|
            0 <= i < j < self.filters_view().len() implies (#[trigger] self.filters_view()[i]).0
            < (#[trigger] self.filters_view()[j]).0 by {
            assert(self.filters@[i].id < self.filters@[j].id);
        }
    }

    /// A connection over `channel`, with no pending replies, no subscriptions and no cells.
    /// Subscription ids start at 0.
    pub fn new(channel: Channel) -> (r: Connection<H>)
        ensures
            r.wf(),
            r.spec_channel() == channel,
            r.pending() == Map::<u32, ReplySlot>::empty(),
            r.filters_view() == Seq::<(u32, MatchRule)>::empty(),
            r.cells() == Seq::<ReplyState>::empty(),
            r.woken() == Seq::<u64>::empty(),
            r.next_filter_id() == 0,
            r.handlers() == Seq::<H>::empty(),
    {
        let r = Connection {
            channel,
            replies: HashMap::new(),
            filters: Vec::new(),
            filter_nextid: 0,
            cells: Vec::new(),
            woken: Vec::new(),
        };
        proof {
            assert(r.filters_view() =~= Seq::<(u32, MatchRule)>::empty());
            assert(r.handlers() =~= Seq::<H>::empty());
        }
        r
    }

    /// The channel.
    pub fn channel(&self) -> (r: &Channel)
        ensures
            *r == self.spec_channel(),
    {
        &self.channel
    }

    /// Hands `msg` to the channel as if the peer had sent it.
    pub fn deliver(&mut self, msg: Message)
        requires
            old(self).wf(),
        ensures
            final(self).wf(),
            final(self).spec_channel().incoming@ == old(self).spec_channel().incoming@.push(msg),
            final(self).spec_channel().inbound == old(self).spec_channel().inbound,
            final(self).spec_channel().next_serial == old(self).spec_channel().next_serial,
            final(self).spec_channel().open == old(self).spec_channel().open,
            final(self).reply_model() == old(self).reply_model(),
            final(self).filters_view() == old(self).filters_view(),
            final(self).handlers() == old(self).handlers(),
            final(self).next_filter_id() == old(self).next_filter_id(),
    {
        self.channel.deliver(msg);
    }

    /// Closes the channel: later sends and exchanges fail.
    pub fn close(&mut self)
        requires
            old(self).wf(),
        ensures
            final(self).wf(),
            !final(self).spec_channel().open,
            final(self).spec_channel().next_serial == old(self).spec_channel().next_serial,
            final(self).spec_channel().inbound == old(self).spec_channel().inbound,
            final(self).reply_model() == old(self).reply_model(),
            final(self).filters_view() == old(self).filters_view(),
            final(self).handlers() == old(self).handlers(),
            final(self).next_filter_id() == old(self).next_filter_id(),
    {
        self.channel.close();
    }

    /// The state of reply cell `cell`.
    pub fn cell_state(&self, cell: usize) -> (r: &ReplyState)
        requires
            cell < self.cells().len(),
        ensures
            *r == self.cells()[cell as int],
    {
        &self.cells[cell]
    }

    /// Hands out the tasks woken so far, oldest first, and forgets them.
    pub fn take_woken(&mut self) -> (r: Vec<u64>)
        requires
            old(self).wf(),
        ensures
            final(self).wf(),
            r@ == old(self).woken(),
            final(self).woken().len() == 0,
            final(self).pending() == old(self).pending(),
            final(self).cells() == old(self).cells(),
            final(self).spec_channel() == old(self).spec_channel(),
            final(self).filters_view() == old(self).filters_view(),
            final(self).handlers() == old(self).handlers(),
            final(self).next_filter_id() == old(self).next_filter_id(),
    {
        let mut r: Vec<u64> = Vec::new();
        std::mem::swap(&mut r, &mut self.woken);
        r
    }

    /// Sends `msg` without waiting for a reply; the channel's serial for it on success.
    pub fn send(&mut self, msg: Message) -> (r: Result<u32, ()>)
        requires
            old(self).wf(),
        ensures
            final(self).wf(),
            r is Ok <==> old(self).spec_channel().can_send(),
            r matches Ok(s) ==> s == old(self).spec_channel().next_serial,
            sent_or_unchanged(old(self).spec_channel(), final(self).spec_channel(), msg),
            final(self).reply_model() == old(self).reply_model(),
            final(self).filters_view() == old(self).filters_view(),
            final(self).handlers() == old(self).handlers(),
            final(self).next_filter_id() == old(self).next_filter_id(),
    {
        self.channel.send(msg)
    }

    /// Subscribes `handler` to the messages that `rule` selects; returns the new
    /// subscription's id, the next in sequence.
    pub fn start_receive(&mut self, rule: MatchRule, handler: H) -> (r: u32)
        requires
            old(self).wf(),
            old(self).next_filter_id() < u32::MAX,
        ensures
            final(self).wf(),
            r == old(self).next_filter_id(),
            final(self).next_filter_id() == r + 1,
            final(self).filters_view() == old(self).filters_view().push((r, rule)),
            final(self).handlers() == old(self).handlers().push(handler),
            final(self).reply_model() == old(self).reply_model(),
            final(self).spec_channel() == old(self).spec_channel(),
    {
        let id = self.filter_nextid;
        self.filter_nextid = id + 1;
        self.filters.push(FilterEntry { id, rule, handler });
        proof {
            assert(self.filters_view() =~= old(self).filters_view().push((id, rule)));
            assert(self.handlers() =~= old(self).handlers().push(handler));
        }
        id
    }

    /// Ends subscription `id`, handing back its rule and callback; nothing where no
    /// subscription has that id.
    pub fn stop_receive(&mut self, id: u32) -> (r: Option<(MatchRule, H)>)
        requires
            old(self).wf(),
        ensures
            final(self).wf(),
            final(self).reply_model() == old(self).reply_model(),
            final(self).spec_channel() == old(self).spec_channel(),
            final(self).next_filter_id() == old(self).next_filter_id(),
            !has_id(old(self).filters_view(), id) ==> r is None && final(self).filters_view()
                == old(self).filters_view() && final(self).handlers() == old(self).handlers(),
            forall|i: int|
                0 <= i < old(self).filters_view().len() && old(self).filters_view()[i].0 == id
                    ==> (r matches Some(p) && p.0 == old(self).filters_view()[i].1
                    && p.1 == old(self).handlers()[i]
                    && final(self).filters_view() == old(self).filters_view().remove(i)
                    && final(self).handlers() == old(self).handlers().remove(i)),
    {
        let mut i: usize = 0;
        while i < self.filters.len()
            invariant
                self.wf(),
                self == old(self),
                i <= self.filters@.len(),
                forall|j: int| 0 <= j < i ==> (#[trigger] self.filters@[j]).id != id,
            decreases self.filters@.len() - i,
        {
            if self.filters[i].id == id {
                let e = self.filters.remove(i);
                proof {
                    assert(self.filters_view() =~= old(self).filters_view().remove(i as int));
                    assert(self.handlers() =~= old(self).handlers().remove(i as int));
                    assert(old(self).filters_view()[i as int].0 == id);
                    assert forall|k: int|
                        0 <= k < old(self).filters_view().len()
                            && old(self).filters_view()[k].0 == id implies k == i by {
                        if k < i {
                            assert(old(self).filters@[k].id != id);
                        } else if k > i {
                            assert(old(self).filters@[i as int].id < old(self).filters@[k].id);
                        }
                    }
                }
                return Some((e.rule, e.handler));
            }
            i = i + 1;
        }
        proof {
            assert forall|j: int|
                0 <= j < old(self).filters_view().len() implies (
                #[trigger] old(self).filters_view()[j]).0 != id by {
                assert(old(self).filters@[j].id != id);
            }
        }
        None
    }
}

impl<H: MessageFilter> Connection<H> {
    /// The position of the first subscription whose rule selects `msg`.
    fn find_filter(&self, msg: &Message) -> (r: Option<usize>)
        ensures
            r matches Some(i) ==> first_match(self.filters_view(), *msg, i as int),
            r is None ==> no_match(self.filters_view(), *msg),
    {
        let mut i: usize = 0;
        while i < self.filters.len()
            invariant
                i <= self.filters@.len(),
                forall|j: int| 0 <= j < i ==> !(#[trigger] self.filters_view()[j]).1.spec_matches(*msg),
            decreases self.filters@.len() - i,
        {
            if self.filters[i].rule.matches(msg) {
                return Some(i);
            }
            i = i + 1;
        }
        None
    }

    /// Fires the completion of a pending reply: fills its cell and wakes the task that
    /// waited on it, if one did.
    fn complete_cell(&mut self, cell: usize, msg: Message)
        requires
            cell < old(self).cells@.len(),
        ensures
            final(self).reply_model() == complete(old(self).reply_model(), cell, msg),
            final(self).channel == old(self).channel,
            final(self).filters == old(self).filters,
            final(self).filter_nextid == old(self).filter_nextid,
    {
        let waiting = match &self.cells[cell] {
            ReplyState::Pending(w) => Some(*w),
            _ => None,
        };
        self.cells.set(cell, ReplyState::Ready(Ok(msg)));
        match waiting {
            Some(w) => self.woken.push(w.task),
            None => {},
        }
    }

    /// Dispatches one inbound message. A message that answers a pending request fires
    /// that request's completion, removed first; otherwise the first subscription in id
    /// order whose rule selects it takes it, and stays registered only if its callback
    /// says so; otherwise an unhandled method call is answered with an "unknown method"
    /// error, best-effort, and anything else is dropped.
    pub fn process_one(&mut self, msg: Message) -> (r: Dispatch)
        requires
            old(self).wf(),
        ensures
            final(self).wf(),
            final(self).reply_model() == reply_step(old(self).reply_model(), msg),
            final(self).next_filter_id() == old(self).next_filter_id(),
            final(self).spec_channel().inbound == old(self).spec_channel().inbound,
            forall|i: int|
                0 <= i < final(self).filters_view().len() ==> old(self).filters_view().contains(
                    #[trigger] final(self).filters_view()[i],
                ),
            reply_key(old(self).pending(), msg) matches Some(k) ==> {
                &&& r == Dispatch::Reply(k)
                &&& final(self).filters_view() == old(self).filters_view()
                &&& final(self).spec_channel() == old(self).spec_channel()
            },
            reply_key(old(self).pending(), msg) is None ==> {
                &&& forall|i: int|
                    first_match(old(self).filters_view(), msg, i) ==> {
                        &&& r matches Dispatch::Filter { id, kept }
                        &&& id == old(self).filters_view()[i].0
                        &&& final(self).filters_view() == if kept {
                            old(self).filters_view()
                        } else {
                            old(self).filters_view().remove(i)
                        }
                        &&& final(self).spec_channel() == old(self).spec_channel()
                    }
                &&& no_match(old(self).filters_view(), msg) ==> {
                    &&& final(self).filters_view() == old(self).filters_view()
                    &&& needs_default_reply(msg) ==> r == Dispatch::Answered && answered(
                        old(self).spec_channel(),
                        final(self).spec_channel(),
                        msg,
                    )
                    &&& !needs_default_reply(msg) ==> r == Dispatch::Dropped
                        && final(self).spec_channel() == old(self).spec_channel()
                }
            },
            r matches Dispatch::Filter { id, kept } ==> (kept <==> has_id(
                final(self).filters_view(),
                id,
            )),
            exists|h: H|
                #[trigger] dispatch_step(old(self).dispatch_model(), msg, kept_flag(r), h)
                    == final(self).dispatch_model(),
            final(self).spec_channel().incoming == old(self).spec_channel().incoming,
            final(self).spec_channel().written == old(self).spec_channel().written,
            answers_now(old(self).dispatch_model(), msg) ==> {
                &&& final(self).spec_channel().outgoing@.len()
                    == old(self).spec_channel().outgoing@.len() + 1
                &&& final(self).spec_channel().outgoing@.drop_last()
                    == old(self).spec_channel().outgoing@
                &&& is_answer(
                    final(self).spec_channel().outgoing@.last(),
                    msg,
                    old(self).spec_channel().next_serial,
                )
            },
            !answers_now(old(self).dispatch_model(), msg) ==> final(self).spec_channel().outgoing
                == old(self).spec_channel().outgoing,
    {
        match msg.reply_serial {
            Some(serial) => {
                match self.replies.remove(&serial) {
                    Some(slot) => {
                        self.complete_cell(slot.cell, msg);
                        proof {
                            let w = vstd::pervasive::arbitrary::<H>();
                            assert(dispatch_step(old(self).dispatch_model(), msg, false, w)
                                == self.dispatch_model());
                            assert(dispatch_step(old(self).dispatch_model(), msg, kept_flag(Dispatch::Reply(serial)), w)
                                == self.dispatch_model());
                        }
                        return Dispatch::Reply(serial);
                    },
                    None => {
                        assert(self.replies@ =~= old(self).replies@);
                    },
                }
            },
            None => {},
        }
        match self.find_filter(&msg) {
            Some(i) => {
                let ghost fv0 = self.filters_view();
                let ghost h0 = self.handlers();
                proof {
                    assert(first_match(fv0, msg, i as int));
                    let j = choose|j: int| first_match(fv0, msg, j);
                    lemma_first_match_unique(fv0, msg, i as int, j);
                    assert(taken_by(fv0, msg) == Some(i as int));
                }
                let mut entry = self.filters.remove(i);
                let id = entry.id;
                let kept = entry.handler.on_message(msg);
                let ghost hnew = entry.handler;
                if kept {
                    self.filters.insert(i, entry);
                    proof {
                        assert(self.filters_view() =~= fv0);
                        assert(self.handlers() =~= h0.update(i as int, hnew));
                        assert(self.filters_view()[i as int].0 == id);
                        assert(dispatch_step(old(self).dispatch_model(), msg, true, hnew)
                            == self.dispatch_model());
                    }
                } else {
                    proof {
                        assert(self.filters_view() =~= fv0.remove(i as int));
                        assert(self.handlers() =~= h0.remove(i as int));
                        assert(dispatch_step(old(self).dispatch_model(), msg, false, hnew)
                            == self.dispatch_model());
                        assert forall|j: int|
                            0 <= j < self.filters_view().len() implies (
                            #[trigger] self.filters_view()[j]).0 != id by {
                            if j < i {
                                assert(old(self).filters@[j].id < old(self).filters@[i as int].id);
                            } else {
                                assert(old(self).filters@[i as int].id < old(self).filters@[j + 1].id);
                            }
                        }
                    }
                }
                proof {
                    assert forall|k: int|
                        0 <= k < self.filters_view().len() implies fv0.contains(
                        #[trigger] self.filters_view()[k],
                    ) by {
                        if kept || k < i {
                            assert(fv0[k] == self.filters_view()[k]);
                        } else {
                            assert(fv0[k + 1] == self.filters_view()[k]);
                        }
                    }
                    assert forall|a: int| 0 <= a < i implies !(#[trigger] fv0[a]).1.spec_matches(msg) by {
                    }
                }
                proof {
                    assert(dispatch_step(
                        old(self).dispatch_model(),
                        msg,
                        kept_flag(Dispatch::Filter { id, kept }),
                        hnew,
                    ) == self.dispatch_model());
                }
                return Dispatch::Filter { id, kept };
            },
            None => {
                assert(!(exists|j: int| first_match(self.filters_view(), msg, j)));
                assert(taken_by(self.filters_view(), msg) is None);
            },
        }
        let ghost w = vstd::pervasive::arbitrary::<H>();
        match default_reply(&msg) {
            Some(reply) => {
                let ghost c1 = self.channel;
                let _sent = self.channel.send(reply);
                assert(sent_or_unchanged(c1, self.channel, reply));
                assert(dispatch_step(old(self).dispatch_model(), msg, kept_flag(Dispatch::Answered), w)
                    == self.dispatch_model());
                Dispatch::Answered
            },
            None => {
                assert(dispatch_step(old(self).dispatch_model(), msg, kept_flag(Dispatch::Dropped), w)
                    == self.dispatch_model());
                Dispatch::Dropped
            },
        }
    }

    /// Dispatches every message waiting in the channel, oldest first, without blocking.
    /// Each is dispatched as `process_one` does; nothing else touches the channel.
    pub fn process_all(&mut self)
        requires
            old(self).wf(),
        ensures
            final(self).wf(),
            final(self).spec_channel().inbound@.len() == 0,
            final(self).spec_channel().incoming == old(self).spec_channel().incoming,
            final(self).spec_channel().written == old(self).spec_channel().written,
            final(self).reply_model() == reply_run(
                old(self).reply_model(),
                old(self).spec_channel().inbound@,
            ),
            final(self).next_filter_id() == old(self).next_filter_id(),
            forall|i: int|
                0 <= i < final(self).filters_view().len() ==> old(self).filters_view().contains(
                    #[trigger] final(self).filters_view()[i],
                ),
            exists|kept: Seq<bool>, hs: Seq<H>|
                #![trigger dispatch_run(old(self).dispatch_model(), old(self).spec_channel().inbound@, kept, hs)]
                {
                    &&& kept.len() == old(self).spec_channel().inbound@.len()
                    &&& hs.len() == old(self).spec_channel().inbound@.len()
                    &&& dispatch_run(old(self).dispatch_model(), old(self).spec_channel().inbound@, kept, hs)
                        == final(self).dispatch_model()
                    &&& final(self).spec_channel().outgoing@.len()
                        == old(self).spec_channel().outgoing@.len() + answered_msgs(
                        old(self).dispatch_model(),
                        old(self).spec_channel().inbound@,
                        kept,
                        hs,
                    ).len()
                    &&& final(self).spec_channel().outgoing@.take(
                        old(self).spec_channel().outgoing@.len() as int,
                    ) == old(self).spec_channel().outgoing@
                    &&& forall|i: int|
                        0 <= i < answered_msgs(
                            old(self).dispatch_model(),
                            old(self).spec_channel().inbound@,
                            kept,
                            hs,
                        ).len() ==> is_answer(
                            #[trigger] final(self).spec_channel().outgoing@[old(
                                self,
                            ).spec_channel().outgoing@.len() + i],
                            answered_msgs(
                                old(self).dispatch_model(),
                                old(self).spec_channel().inbound@,
                                kept,
                                hs,
                            )[i],
                            (old(self).spec_channel().next_serial + i) as u32,
                        )
                },
    {
        let ghost msgs = self.channel.inbound@;
        let ghost out0 = self.channel.outgoing@;
        let ghost s0 = self.dispatch_model();
        let ghost mut kept: Seq<bool> = Seq::empty();
        let ghost mut hs: Seq<H> = Seq::empty();
        let ghost mut n: int = 0;
        proof {
            assert(msgs.take(0) =~= Seq::<Message>::empty());
            assert(msgs.skip(0) =~= msgs);
            assert(self.channel.outgoing@.take(out0.len() as int) =~= out0);
        }
        while self.channel.inbound.len() > 0
            invariant
                self.wf(),
                msgs == old(self).spec_channel().inbound@,
                out0 == old(self).spec_channel().outgoing@,
                s0 == old(self).dispatch_model(),
                0 <= n <= msgs.len(),
                kept.len() == n,
                hs.len() == n,
                self.channel.inbound@ == msgs.skip(n),
                self.dispatch_model() == dispatch_run(s0, msgs.take(n), kept, hs),
                self.channel.incoming == old(self).spec_channel().incoming,
                self.channel.written == old(self).spec_channel().written,
                self.channel.outgoing@.len() == out0.len() + answered_msgs(
                    s0,
                    msgs.take(n),
                    kept,
                    hs,
                ).len(),
                self.channel.outgoing@.take(out0.len() as int) == out0,
                self.channel.next_serial == old(self).spec_channel().next_serial + answered_msgs(
                    s0,
                    msgs.take(n),
                    kept,
                    hs,
                ).len(),
                forall|i: int|
                    0 <= i < answered_msgs(s0, msgs.take(n), kept, hs).len() ==> is_answer(
                        #[trigger] self.channel.outgoing@[out0.len() + i],
                        answered_msgs(s0, msgs.take(n), kept, hs)[i],
                        (old(self).spec_channel().next_serial + i) as u32,
                    ),
                reply_run(self.reply_model(), self.channel.inbound@) == reply_run(
                    old(self).reply_model(),
                    old(self).spec_channel().inbound@,
                ),
                self.filter_nextid == old(self).filter_nextid,
                forall|i: int|
                    0 <= i < self.filters_view().len() ==> old(self).filters_view().contains(
                        #[trigger] self.filters_view()[i],
                    ),
            decreases self.channel.inbound@.len(),
        {
            let ghost before = *self;
            match self.channel.pop_message() {
                Some(msg) => {
                    let how = self.process_one(msg);
                    proof {
                        assert(before.channel.inbound@.drop_first() == self.channel.inbound@);
                        assert forall|i: int|
                            0 <= i < self.filters_view().len() implies old(
                            self,
                        ).filters_view().contains(#[trigger] self.filters_view()[i]) by {
                            let x = self.filters_view()[i];
                            assert(before.filters_view().contains(x));
                            let j = choose|j: int|
                                0 <= j < before.filters_view().len() && before.filters_view()[j]
                                    == x;
                            assert(old(self).filters_view().contains(before.filters_view()[j]));
                        }
                        let h = choose|h: H|
                            #[trigger] dispatch_step(before.dispatch_model(), msg, kept_flag(how), h)
                                == self.dispatch_model();
                        assert(msg == msgs[n]);
                        let k2 = kept.push(kept_flag(how));
                        let h2 = hs.push(h);
                        let a1 = answered_msgs(s0, msgs.take(n), kept, hs);
                        lemma_run_prefix(s0, msgs.take(n), kept, hs, k2, h2);
                        assert(msgs.take(n + 1).drop_last() =~= msgs.take(n));
                        assert(msgs.take(n + 1)[n] == msg);
                        assert(msgs.skip(n + 1) =~= msgs.skip(n).drop_first());
                        let a2 = answered_msgs(s0, msgs.take(n + 1), k2, h2);
                        assert(dispatch_run(s0, msgs.take(n + 1), k2, h2) == self.dispatch_model());
                        if answers_now(before.dispatch_model(), msg) {
                            assert(a2 == a1.push(msg));
                            assert forall|i: int| 0 <= i < a2.len() implies is_answer(
                                #[trigger] self.channel.outgoing@[out0.len() + i],
                                a2[i],
                                (old(self).spec_channel().next_serial + i) as u32,
                            ) by {
                                if i < a1.len() {
                                    assert(self.channel.outgoing@[out0.len() + i]
                                        == before.channel.outgoing@[out0.len() + i]);
                                }
                            }
                            assert(self.channel.outgoing@.take(out0.len() as int) =~= out0) by {
                                assert(self.channel.outgoing@.take(out0.len() as int)
                                    =~= before.channel.outgoing@.take(out0.len() as int));
                            }
                        } else {
                            assert(a2 == a1);
                        }
                        kept = k2;
                        hs = h2;
                        n = n + 1;
                    }
                },
                None => {},
            }
        }
        proof {
            assert(msgs.take(n) =~= msgs);
        }
    }
}

impl<H> Connection<H> {
    /// One non-blocking exchange on the channel: writes what was sent and reads what has
    /// arrived, without dispatching it. A transport failure becomes a generic error.
    pub fn read_write(&mut self) -> (r: Result<(), Error>)
        requires
            old(self).wf(),
        ensures
            final(self).wf(),
            r is Ok <==> old(self).spec_channel().open,
            r matches Err(e) ==> e.name@ == failed_name() && e.message@ == "Read/write failed"@,
            r is Err ==> final(self).spec_channel() == old(self).spec_channel(),
            r is Ok ==> {
                &&& final(self).spec_channel().written@ == old(self).spec_channel().written@
                    + old(self).spec_channel().outgoing@
                &&& final(self).spec_channel().inbound@ == old(self).spec_channel().inbound@
                    + old(self).spec_channel().incoming@
                &&& final(self).spec_channel().outgoing@.len() == 0
                &&& final(self).spec_channel().incoming@.len() == 0
                &&& final(self).spec_channel().next_serial
                    == old(self).spec_channel().next_serial
                &&& final(self).spec_channel().open
            },
            final(self).reply_model() == old(self).reply_model(),
            final(self).filters_view() == old(self).filters_view(),
            final(self).handlers() == old(self).handlers(),
            final(self).next_filter_id() == old(self).next_filter_id(),
    {
        match self.channel.read_write() {
            Ok(()) => Ok(()),
            Err(()) => Err(Error::new_custom("org.freedesktop.DBus.Error.Failed", "Read/write failed")),
        }
    }
}

/// The future of a method call's reply: it reads reply cell `cell` of the connection and
/// runs `read` on the delivered message, once.
pub struct MethodReply<T, F> {
    cell: usize,
    read: Option<F>,
    marker: core::marker::PhantomData<T>,
}

impl<T, F: FnOnce(Message) -> Result<T, Error>> MethodReply<T, F> {
    pub closed spec fn cell(&self) -> usize {
        self.cell
    }

    /// The post-processing step, until the result has been taken.
    pub closed spec fn reader(&self) -> Option<F> {
        self.read
    }

    /// The result has not been taken, and the step accepts every message.
    pub open spec fn ready_to_poll(&self) -> bool {
        &&& self.reader() is Some
        &&& forall|m: Message| call_requires(self.reader().unwrap(), (m,))
    }

    /// Polls the reply. Where the cell holds the result, takes it, leaves the cell empty and
    /// gives the result, post-processed where the reply arrived; the future is then spent.
    /// Otherwise stores `waker` in the cell, replacing any earlier one, and is pending.
    pub fn poll<H>(&mut self, conn: &mut Connection<H>, waker: Waker) -> (r: Poll<Result<T, Error>>)
        requires
            old(self).ready_to_poll(),
            old(conn).wf(),
            old(self).cell() < old(conn).cells().len(),
        ensures
            final(conn).wf(),
            final(conn).pending() == old(conn).pending(),
            final(conn).woken() == old(conn).woken(),
            final(conn).spec_channel() == old(conn).spec_channel(),
            final(conn).filters_view() == old(conn).filters_view(),
            final(conn).handlers() == old(conn).handlers(),
            final(conn).next_filter_id() == old(conn).next_filter_id(),
            final(self).cell() == old(self).cell(),
            old(conn).cells()[old(self).cell() as int] matches ReplyState::Ready(res) ==> {
                &&& final(self).reader() is None
                &&& final(conn).cells() == old(conn).cells().update(
                    old(self).cell() as int,
                    ReplyState::Neither,
                )
                &&& r matches Poll::Ready(out)
                &&& res matches Err(e) ==> out == Err::<T, Error>(e)
                &&& res matches Ok(m) ==> call_ensures(old(self).reader().unwrap(), (m,), out)
            },
            !(old(conn).cells()[old(self).cell() as int] is Ready) ==> {
                &&& r is Pending
                &&& *final(self) == *old(self)
                &&& final(conn).cells() == old(conn).cells().update(
                    old(self).cell() as int,
                    ReplyState::Pending(waker),
                )
            },
    {
        let cell = self.cell;
        let ready = match &conn.cells[cell] {
            ReplyState::Ready(_) => true,
            _ => false,
        };
        if !ready {
            conn.cells.set(cell, ReplyState::Pending(waker));
            return Poll::Pending;
        }
        conn.cells.push(ReplyState::Neither);
        let state = conn.cells.swap_remove(cell);
        proof {
            assert(conn.cells@ =~= old(conn).cells@.update(cell as int, ReplyState::Neither));
        }
        let read = self.read.take();
        match (state, read) {
            (ReplyState::Ready(Ok(m)), Some(f)) => Poll::Ready(f(m)),
            (ReplyState::Ready(Err(e)), _) => Poll::Ready(Err(e)),
            _ => Poll::Pending,
        }
    }

    /// Chains `g` after the post-processing step: it runs once, on the read value, and
    /// only where reading succeeded.
    pub fn and_then<T2, G: FnOnce(T) -> Result<T2, Error>>(self, g: G) -> (r: MethodReply<
        T2,
        impl FnOnce(Message) -> Result<T2, Error>,
    >)
        requires
            self.ready_to_poll(),
            forall|t: T| call_requires(g, (t,)),
        ensures
            r.ready_to_poll(),
            r.cell() == self.cell(),
            forall|m: Message, out: Result<T2, Error>|
                call_ensures(r.reader().unwrap(), (m,), out) ==> exists|first: Result<T, Error>|
                    {
                        &&& #[trigger] call_ensures(self.reader().unwrap(), (m,), first)
                        &&& first matches Ok(t) ==> call_ensures(g, (t,), out)
                        &&& first matches Err(e) ==> out == Err::<T2, Error>(e)
                    },
    {
        let MethodReply { cell, read, marker: _ } = self;
        let first = read.unwrap();
        let composed = move |m: Message| -> (out: Result<T2, Error>)
            requires
                forall|m: Message| call_requires(first, (m,)),
                forall|t: T| call_requires(g, (t,)),
            ensures
                exists|r1: Result<T, Error>|
                    {
                        &&& #[trigger] call_ensures(first, (m,), r1)
                        &&& r1 matches Ok(t) ==> call_ensures(g, (t,), out)
                        &&& r1 matches Err(e) ==> out == Err::<T2, Error>(e)
                    },
            {
                let r1 = first(m);
                match r1 {
                    Ok(t) => g(t),
                    Err(e) => Err(e),
                }
            };
        MethodReply { cell, read: Some(composed), marker: core::marker::PhantomData }
    }
}

/// A remote object: a destination on the bus and an object path there, reached through
/// `connection`.
pub struct Proxy<C> {
    pub destination: String,
    pub path: String,
    pub connection: C,
}

impl<C> Proxy<C> {
    pub fn new(destination: &str, path: &str, connection: C) -> (r: Proxy<C>)
        ensures
            r.destination@ == destination@,
            r.path@ == path@,
            r.connection == connection,
    {
        Proxy { destination: destination.to_owned(), path: path.to_owned(), connection }
    }
}

impl<H> Proxy<Connection<H>> {
    /// Calls `interface`.`member` on the remote object with `args`, and returns the future
    /// of its reply read into `R`. A fresh reply cell is made for it; where the call cannot
    /// be sent, the cell holds a "failed to send" error at once and nothing is registered.
    pub fn method_call<R: ReadAll>(&mut self, interface: &str, member: &str, args: Vec<i64>) -> (r:
        MethodReply<R, impl FnOnce(Message) -> Result<R, Error>>)
        requires
            old(self).connection.wf(),
        ensures
            final(self).connection.wf(),
            final(self).destination == old(self).destination,
            final(self).path == old(self).path,
            r.ready_to_poll(),
            r.cell() == old(self).connection.cells().len(),
            forall|m: Message, out: Result<R, Error>|
                call_ensures(r.reader().unwrap(), (m,), out) ==> agrees(out, reply_outcome::<R>(m)),
            final(self).connection.woken() == old(self).connection.woken(),
            final(self).connection.filters_view() == old(self).connection.filters_view(),
            final(self).connection.handlers() == old(self).connection.handlers(),
            final(self).connection.next_filter_id() == old(self).connection.next_filter_id(),
            final(self).connection.cells().len() == old(self).connection.cells().len() + 1,
            final(self).connection.cells().drop_last() == old(self).connection.cells(),
            old(self).connection.spec_channel().can_send() ==> {
                let c1 = old(self).connection.spec_channel();
                let c2 = final(self).connection.spec_channel();
                &&& final(self).connection.pending() == old(self).connection.pending().insert(
                    c1.next_serial,
                    ReplySlot { cell: r.cell() },
                )
                &&& final(self).connection.cells().last() is Neither
                &&& c2.outgoing@.len() == c1.outgoing@.len() + 1
                &&& c2.outgoing@.drop_last() == c1.outgoing@
                &&& c2.outgoing@.last().msg_type == MessageType::MethodCall
                &&& c2.outgoing@.last().serial == Some(c1.next_serial)
                &&& c2.outgoing@.last().destination@ == old(self).destination@
                &&& c2.outgoing@.last().path@ == old(self).path@
                &&& c2.outgoing@.last().interface@ == interface@
                &&& c2.outgoing@.last().member@ == member@
                &&& c2.outgoing@.last().args@ == args@
                &&& c2.next_serial == c1.next_serial + 1
                &&& c2.inbound == c1.inbound
                &&& c2.incoming == c1.incoming
                &&& c2.written == c1.written
                &&& c2.open == c1.open
            },
            !old(self).connection.spec_channel().can_send() ==> {
                &&& final(self).connection.pending() == old(self).connection.pending()
                &&& final(self).connection.spec_channel() == old(self).connection.spec_channel()
                &&& final(self).connection.cells().last() matches ReplyState::Ready(Err(e))
                    && e.name@ == failed_name() && e.message@ == "Failed to send message"@
            },
    {
        let mut msg = Message::method_call(
            self.destination.as_str(),
            self.path.as_str(),
            interface,
            member,
        );
        msg.args = args;
        let cell = self.connection.cells.len();
        self.connection.cells.push(ReplyState::Neither);
        let sent = self.connection.send_with_reply(msg, ReplySlot { cell });
        if sent.is_err() {
            self.connection.cells.set(
                cell,
                ReplyState::Ready(Err(Error::new_failed("Failed to send message"))),
            );
        }
        proof {
            assert(self.connection.cells@.drop_last() =~= old(self).connection.cells@);
        }
        let read = |m: Message| -> (out: Result<R, Error>)
            ensures
                agrees(out, reply_outcome::<R>(m)),
            { read_reply::<R>(m) };
        MethodReply { cell, read: Some(read), marker: core::marker::PhantomData }
    }
}

/// Sending requests whose replies are correlated back to a one-shot completion.
pub trait NonblockReply: Sized {
    /// The completion that a reply fires.
    type F;

    spec fn reply_wf(&self) -> bool;

    /// The pending replies, by the serial of the request they answer.
    spec fn pending_replies(&self) -> Map<u32, Self::F>;

    /// Whether a request sent now would go out.
    spec fn can_send_request(&self) -> bool;

    /// The serial that the next request sent gets.
    spec fn next_request_id(&self) -> u32;

    /// Whether `f` can be registered here.
    spec fn accepts(&self, f: Self::F) -> bool;

    /// Sends `msg` and, where it went out, registers `f` under its serial; `Err(())`,
    /// with nothing registered, where it could not be sent.
    fn send_with_reply(&mut self, msg: Message, f: Self::F) -> (r: Result<u32, ()>)
        requires
            old(self).reply_wf(),
            old(self).accepts(f),
        ensures
            final(self).reply_wf(),
            r is Ok <==> old(self).can_send_request(),
            r matches Ok(id) ==> {
                &&& id == old(self).next_request_id()
                &&& !old(self).pending_replies().contains_key(id)
                &&& final(self).pending_replies() == old(self).pending_replies().insert(id, f)
            },
            r is Err ==> final(self).pending_replies() == old(self).pending_replies(),
    ;

    /// Removes the pending reply registered under `id` and hands back its completion;
    /// nothing where none is registered.
    fn cancel_reply(&mut self, id: u32) -> (r: Option<Self::F>)
        requires
            old(self).reply_wf(),
        ensures
            final(self).reply_wf(),
            r == (if old(self).pending_replies().contains_key(id) {
                Some(old(self).pending_replies()[id])
            } else {
                None
            }),
            final(self).pending_replies() == old(self).pending_replies().remove(id),
    ;
}

impl<H> NonblockReply for Connection<H> {
    type F = ReplySlot;

    open spec fn reply_wf(&self) -> bool {
        self.wf()
    }

    open spec fn pending_replies(&self) -> Map<u32, ReplySlot> {
        self.pending()
    }

    open spec fn can_send_request(&self) -> bool {
        self.spec_channel().can_send()
    }

    open spec fn next_request_id(&self) -> u32 {
        self.spec_channel().next_serial
    }

    open spec fn accepts(&self, f: ReplySlot) -> bool {
        f.cell < self.cells().len()
    }

    fn send_with_reply(&mut self, msg: Message, f: ReplySlot) -> (r: Result<u32, ()>)
        ensures
            sent_or_unchanged(old(self).spec_channel(), final(self).spec_channel(), msg),
            final(self).cells() == old(self).cells(),
            final(self).woken() == old(self).woken(),
            final(self).filters_view() == old(self).filters_view(),
            final(self).handlers() == old(self).handlers(),
            final(self).next_filter_id() == old(self).next_filter_id(),
    {
        match self.channel.send(msg) {
            Ok(x) => {
                self.replies.insert(x, f);
                Ok(x)
            },
            Err(()) => Err(()),
        }
    }

    fn cancel_reply(&mut self, id: u32) -> (r: Option<ReplySlot>)
        ensures
            !old(self).pending().contains_key(id) ==> final(self).pending() == old(self).pending(),
            final(self).spec_channel() == old(self).spec_channel(),
            final(self).cells() == old(self).cells(),
            final(self).woken() == old(self).woken(),
            final(self).filters_view() == old(self).filters_view(),
            final(self).handlers() == old(self).handlers(),
            final(self).next_filter_id() == old(self).next_filter_id(),
    {
        let r = self.replies.remove(&id);
        proof {
            if !old(self).pending().contains_key(id) {
                assert(self.replies@ =~= old(self).replies@);
            }
        }
        r
    }
}

} // verus!
