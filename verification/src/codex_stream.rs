//! The conversation with Codex Desktop, as decisions: what to send and what to
//! make of what arrives. Reading, writing and waiting are the caller's.
//!
//! Times are in milliseconds of a clock that only goes forward, except where a
//! status is stamped with the time of day.

use vstd::prelude::*;
use vstd::string::*;

use crate::codex_live;
use crate::codex_live::{Bridge, BridgeView, FrameError, Front};
use crate::json;
use crate::json::{Json, JsonView};
use crate::strings;
use crate::table;
use crate::table::Table;

verus! {

/// How long an answer may take before the connection counts as dead.
pub const ANSWER_MS: u64 = 5_000;

/// How often the connection is asked whether it is still there.
pub const PING_MS: u64 = 15_000;

/// How long to wait before asking for a missing snapshot again.
pub const RETRY_MS: u64 = 30_000;

pub struct Observer {
    /// Who we are to the other end; empty until it has said so.
    pub client: String,
    pub sequence: u64,
    /// The request that has not been answered, and since when.
    pub pending: Option<(String, u64)>,
    pub ping_at: u64,
    pub subscribed: Vec<String>,
    /// When each task was last asked for.
    pub requested: Table<u64>,
    pub buffer: Vec<u8>,
}

#[verifier::ext_equal]
pub struct ObserverView {
    pub client: Seq<char>,
    pub sequence: u64,
    pub pending: Option<(Seq<char>, u64)>,
    pub ping_at: u64,
    pub subscribed: Seq<Seq<char>>,
    pub requested: Map<Seq<char>, u64>,
    pub buffer: Seq<u8>,
}

pub open spec fn pending_view(p: Option<(String, u64)>) -> Option<(Seq<char>, u64)> {
    match p {
        Some(x) => Some((x.0@, x.1)),
        None => None,
    }
}

impl View for Observer {
    type V = ObserverView;

    open spec fn view(&self) -> ObserverView {
        ObserverView {
            client: self.client@,
            sequence: self.sequence,
            pending: pending_view(self.pending),
            ping_at: self.ping_at,
            subscribed: strings::views(self.subscribed@),
            requested: self.requested@,
            buffer: self.buffer@,
        }
    }
}

#[derive(Clone, Copy, PartialEq, Eq, Structural, Debug)]
pub enum StreamError {
    NoAnswer,
    Registration,
    MissingClient,
    Reset,
}

impl StreamError {
    pub fn message(&self) -> (r: &'static str)
        ensures
            self == StreamError::NoAnswer ==> r@ == "Codex connection did not answer"@,
            self == StreamError::Registration ==> r@ == "Codex registration failed"@,
            self == StreamError::MissingClient ==> r@ == "missing client id"@,
            self == StreamError::Reset ==> r@ == "Codex reset connection"@,
    {
        match self {
            StreamError::NoAnswer => "Codex connection did not answer",
            StreamError::Registration => "Codex registration failed",
            StreamError::MissingClient => "missing client id",
            StreamError::Reset => "Codex reset connection",
        }
    }
}

pub open spec fn elapsed(now: u64, at: u64) -> int {
    if now >= at {
        now - at
    } else {
        0
    }
}

pub open spec fn request_name(n: u64) -> Seq<char> {
    "pet-"@ + strings::decimal_spec(n as nat)
}

fn request(n: u64) -> (r: String)
    ensures
        r@ == request_name(n),
{
    strings::concat2("pet-", strings::decimal(n).as_str())
}

// --- what is due -----------------------------------------------------------
pub open spec fn unanswered(o: ObserverView, now: u64) -> bool {
    o.pending matches Some(p) && elapsed(now, p.1) > ANSWER_MS
}

pub open spec fn ping_due(o: ObserverView, now: u64) -> bool {
    o.client.len() > 0 && o.pending is None && elapsed(now, o.ping_at) > PING_MS
}

/// Whether a task has to be asked for: it is not subscribed to, or nothing has
/// been heard of it and the last request was a while ago.
pub open spec fn asks(o: ObserverView, b: BridgeView, id: Seq<char>, now: u64) -> bool {
    !o.subscribed.contains(id) || (!b.tasks.dom().contains(id) && (match table::at(
        o.requested,
        id,
    ) {
        Some(at) => elapsed(now, at) > RETRY_MS,
        None => true,
    }))
}

/// What is said about one task.
pub open spec fn asking(o: ObserverView, b: BridgeView, id: Seq<char>, now: u64) -> Seq<JsonView> {
    if asks(o, b, id, now) {
        if o.subscribed.contains(id) {
            seq![
                codex_live::follow_spec(o.client, id, false),
                codex_live::follow_spec(o.client, id, true),
            ]
        } else {
            seq![codex_live::follow_spec(o.client, id, true)]
        }
    } else {
        seq![]
    }
}

pub open spec fn asking_all(
    o: ObserverView,
    b: BridgeView,
    ids: Seq<Seq<char>>,
    now: u64,
) -> Seq<JsonView>
    decreases ids.len(),
{
    if ids.len() == 0 {
        seq![]
    } else {
        asking_all(o, b, ids.drop_last(), now) + asking(o, b, ids.last(), now)
    }
}

/// The goodbyes to the tasks that are no longer wanted.
pub open spec fn leaving(
    client: Seq<char>,
    subscribed: Seq<Seq<char>>,
    wanted: Seq<Seq<char>>,
) -> Seq<JsonView>
    decreases subscribed.len(),
{
    if subscribed.len() == 0 {
        seq![]
    } else {
        let before = leaving(client, subscribed.drop_last(), wanted);
        if wanted.contains(subscribed.last()) {
            before
        } else {
            before.push(codex_live::follow_spec(client, subscribed.last(), false))
        }
    }
}

/// When each wanted task was last asked for.
pub open spec fn asked_when(
    o: ObserverView,
    b: BridgeView,
    wanted: Seq<Seq<char>>,
    now: u64,
) -> Map<Seq<char>, u64> {
    Map::new(
        |id: Seq<char>|
            wanted.contains(id) && (asks(o, b, id, now) || o.requested.dom().contains(id)),
        |id: Seq<char>|
            if asks(o, b, id, now) {
                now
            } else {
                o.requested[id]
            },
    )
}

pub open spec fn listed(ids: Seq<Seq<char>>) -> Set<Seq<char>> {
    Set::new(|k: Seq<char>| ids.contains(k))
}

/// The observer after a look at the clock.
pub open spec fn ticked(o: ObserverView, b: BridgeView, now: u64) -> ObserverView {
    if o.client.len() == 0 {
        o
    } else {
        let wanted = codex_live::once_each(b.desired);
        ObserverView {
            sequence: if ping_due(o, now) {
                (o.sequence + 1) as u64
            } else {
                o.sequence
            },
            pending: if ping_due(o, now) {
                Some((request_name((o.sequence + 1) as u64), now))
            } else {
                o.pending
            },
            subscribed: wanted,
            requested: asked_when(o, b, wanted, now),
            ..o
        }
    }
}

/// What is sent after a look at the clock.
pub open spec fn sent(o: ObserverView, b: BridgeView, now: u64) -> Seq<JsonView> {
    if o.client.len() == 0 {
        seq![]
    } else {
        let wanted = codex_live::once_each(b.desired);
        let ping = if ping_due(o, now) {
            seq![
                codex_live::initialize_spec(request_name((o.sequence + 1) as u64), o.client),
            ]
        } else {
            seq![]
        };
        ping + leaving(o.client, o.subscribed, wanted) + asking_all(o, b, wanted, now)
    }
}

/// The bridge after a look at the clock: only what is wanted is kept.
pub open spec fn pruned(o: ObserverView, b: BridgeView) -> BridgeView {
    if o.client.len() == 0 {
        b
    } else {
        BridgeView { tasks: b.tasks.restrict(listed(codex_live::once_each(b.desired))), ..b }
    }
}

proof fn lemma_once_each(ids: Seq<Seq<char>>)
    ensures
        codex_live::once_each(ids).no_duplicates(),
        forall|k: Seq<char>| #[trigger]
            codex_live::once_each(ids).contains(k) <==> ids.contains(k),
    decreases ids.len(),
{
    if ids.len() > 0 {
        let rest = ids.drop_last();
        lemma_once_each(rest);
        let before = codex_live::once_each(rest);
        let after = codex_live::once_each(ids);
        assert forall|k: Seq<char>| #[trigger] after.contains(k) <==> ids.contains(k) by {
            if after.contains(k) {
                let i = choose|i: int| 0 <= i < after.len() && after[i] == k;
                if i < before.len() {
                    assert(before[i] == k);
                    assert(before.contains(k));
                    let j = choose|j: int| 0 <= j < rest.len() && rest[j] == k;
                    assert(ids[j] == k);
                } else {
                    assert(ids[ids.len() - 1] == k);
                }
            }
            if ids.contains(k) {
                let j = choose|j: int| 0 <= j < ids.len() && ids[j] == k;
                if j < rest.len() {
                    assert(rest[j] == k);
                    assert(rest.contains(k));
                    assert(before.contains(k));
                    let i = choose|i: int| 0 <= i < before.len() && before[i] == k;
                    assert(after[i] == k);
                } else if !before.contains(k) {
                    assert(after[after.len() - 1] == k);
                }
            }
        }
        assert forall|a: int, b: int|
            0 <= a < after.len() && 0 <= b < after.len() && a != b implies after[a]
            != after[b] by {
            if a == before.len() {
                assert(before.contains(before[b]));
            } else if b == before.len() {
                assert(before.contains(before[a]));
            }
        }
    }
}

fn once(ids: &Vec<String>) -> (r: Vec<String>)
    ensures
        strings::views(r@) == codex_live::once_each(strings::views(ids@)),
{
    let ghost all = strings::views(ids@);
    let mut out: Vec<String> = Vec::new();
    let mut i: usize = 0;
    assert(all.take(0) =~= seq![]);
    assert(strings::views(out@) =~= seq![]);
    while i < ids.len()
        invariant
            i <= ids@.len(),
            all == strings::views(ids@),
            strings::views(out@) == codex_live::once_each(all.take(i as int)),
        decreases ids@.len() - i,
    {
        let ghost before = out@;
        assert(all.take(i + 1).drop_last() =~= all.take(i as int));
        assert(all.take(i + 1).last() == ids@[i as int]@);
        if !strings::holds(&out, ids[i].as_str()) {
            let id = ids[i].clone();
            out.push(id);
            assert(strings::views(out@) =~= strings::views(before).push(id@));
        }
        i = i + 1;
    }
    assert(all.take(i as int) =~= all);
    out
}

pub open spec fn storable_all(messages: Seq<Json>) -> bool {
    forall|i: int| 0 <= i < messages.len() ==> json::storable((#[trigger] messages[i])@)
}

fn leave(client: &str, subscribed: &Vec<String>, wanted: &Vec<String>) -> (r: Vec<Json>)
    ensures
        json::list_view(r@) == leaving(
            client@,
            strings::views(subscribed@),
            strings::views(wanted@),
        ),
        storable_all(r@),
{
    let ghost all = strings::views(subscribed@);
    let ghost ids = strings::views(wanted@);
    let mut out: Vec<Json> = Vec::new();
    let mut i: usize = 0;
    assert(all.take(0) =~= seq![]);
    assert(json::list_view(out@) =~= seq![]);
    while i < subscribed.len()
        invariant
            i <= subscribed@.len(),
            all == strings::views(subscribed@),
            ids == strings::views(wanted@),
            json::list_view(out@) == leaving(client@, all.take(i as int), ids),
            storable_all(out@),
        decreases subscribed@.len() - i,
    {
        let ghost before = out@;
        assert(all.take(i + 1).drop_last() =~= all.take(i as int));
        assert(all.take(i + 1).last() == subscribed@[i as int]@);
        if !strings::holds(wanted, subscribed[i].as_str()) {
            let m = codex_live::follow(client, subscribed[i].as_str(), false);
            out.push(m);
            assert(json::list_view(out@) =~= json::list_view(before).push(m@));
        }
        i = i + 1;
    }
    assert(all.take(i as int) =~= all);
    out
}

fn is_overdue(requested: &Table<u64>, id: &str, now: u64) -> (r: bool)
    ensures
        r == (match table::at(requested@, id@) {
            Some(at) => elapsed(now, at) > RETRY_MS,
            None => true,
        }),
{
    match requested.get(id) {
        Some(at) => now > *at && now - *at > RETRY_MS,
        None => true,
    }
}

impl Observer {
    /// A conversation about to begin, and the message it begins with.
    pub fn start(now: u64) -> (r: (Observer, Json))
        ensures
            r.0@ == (ObserverView {
                client: seq![],
                sequence: 0,
                pending: Some((request_name(0), now)),
                ping_at: now,
                subscribed: seq![],
                requested: Map::<Seq<char>, u64>::empty(),
                buffer: seq![],
            }),
            r.1@ == codex_live::initialize_spec(request_name(0), "not-initialized"@),
            json::storable(r.1@),
    {
        let first = request(0);
        let message = codex_live::initialize(first.as_str(), "not-initialized");
        let o = Observer {
            client: String::new(),
            sequence: 0,
            pending: Some((first, now)),
            ping_at: now,
            subscribed: Vec::new(),
            requested: Table::new(),
            buffer: Vec::new(),
        };
        assert(o@.subscribed =~= seq![]);
        assert(o@.buffer =~= seq![]);
        assert(o@ =~= (ObserverView {
            client: seq![],
            sequence: 0,
            pending: Some((request_name(0), now)),
            ping_at: now,
            subscribed: seq![],
            requested: Map::<Seq<char>, u64>::empty(),
            buffer: seq![],
        }));
        (o, message)
    }

    /// Asks for the wanted tasks that need asking for.
    fn ask(&mut self, bridge: &Bridge, wanted: &Vec<String>, now: u64) -> (r: Vec<Json>)
        requires
            strings::views(wanted@).no_duplicates(),
        ensures
            json::list_view(r@) == asking_all(old(self)@, bridge@, strings::views(wanted@), now),
            storable_all(r@),
            final(self)@ == (ObserverView {
                requested: asked_when(old(self)@, bridge@, strings::views(wanted@), now),
                ..old(self)@
            }),
    {
        let ghost ids = strings::views(wanted@);
        let ghost o = self@;
        let ghost b = bridge@;
        let mut out: Vec<Json> = Vec::new();
        let mut i: usize = 0;
        assert(ids.take(0) =~= seq![]);
        assert(json::list_view(out@) =~= seq![]);
        while i < wanted.len()
            invariant
                i <= wanted@.len(),
                ids == strings::views(wanted@),
                ids.no_duplicates(),
                b == bridge@,
                json::list_view(out@) == asking_all(o, b, ids.take(i as int), now),
                storable_all(out@),
                self@ == (ObserverView { requested: self@.requested, ..o }),
                forall|k: Seq<char>|
                    #[trigger] table::at(self@.requested, k) == (if ids.take(i as int).contains(k)
                        && asks(o, b, k, now) {
                        Some(now)
                    } else {
                        table::at(o.requested, k)
                    }),
            decreases wanted@.len() - i,
        {
            let ghost before = out@;
            let ghost held = self@;
            let ghost id = wanted@[i as int]@;
            proof {
                assert(ids[i as int] == id);
                assert(ids.take(i + 1).drop_last() =~= ids.take(i as int));
                assert(ids.take(i + 1).last() == id);
                assert(!ids.take(i as int).contains(id)) by {
                    if ids.take(i as int).contains(id) {
                        let j = choose|j: int| 0 <= j < i && ids.take(i as int)[j] == id;
                        assert(ids[j] == ids[i as int]);
                    }
                }
                assert(table::at(held.requested, id) == table::at(o.requested, id));
                assert(b.tasks.dom().contains(id) == bridge.tasks@.dom().contains(id));
            }
            let name = wanted[i].as_str();
            let subscribed = strings::holds(&self.subscribed, name);
            let retry = !bridge.tasks.contains(name) && is_overdue(&self.requested, name, now);
            if !subscribed || retry {
                if subscribed {
                    out.push(codex_live::follow(self.client.as_str(), name, false));
                }
                out.push(codex_live::follow(self.client.as_str(), name, true));
                self.requested.insert(name, now);
                assert(json::list_view(out@) =~= json::list_view(before) + asking(o, b, id, now));
                assert(self@ =~= (ObserverView { requested: self@.requested, ..o }));
            } else {
                assert(json::list_view(out@) =~= json::list_view(before) + asking(o, b, id, now));
            }
            assert forall|k: Seq<char>|
                #[trigger] table::at(self@.requested, k) == (if ids.take(i + 1).contains(k)
                    && asks(o, b, k, now) {
                    Some(now)
                } else {
                    table::at(o.requested, k)
                }) by {
                assert(ids.take(i + 1) =~= ids.take(i as int).push(id));
                lemma_push_contains(ids.take(i as int), id, k);
                assert(table::at(held.requested, k) == (if ids.take(i as int).contains(k) && asks(
                    o,
                    b,
                    k,
                    now,
                ) {
                    Some(now)
                } else {
                    table::at(o.requested, k)
                }));
            }
            i = i + 1;
        }
        assert(ids.take(i as int) =~= ids);
        let ghost held = self@.requested;
        self.requested.retain_keys(wanted);
        proof {
            let goal = asked_when(o, b, ids, now);
            assert forall|k: Seq<char>|
                self@.requested.dom().contains(k) == goal.dom().contains(k) by {
                assert(table::at(held, k) == (if ids.contains(k) && asks(o, b, k, now) {
                    Some(now)
                } else {
                    table::at(o.requested, k)
                }));
            }
            assert forall|k: Seq<char>| self@.requested.dom().contains(k) implies self@.requested[k]
                == goal[k] by {
                assert(table::at(held, k) == (if ids.contains(k) && asks(o, b, k, now) {
                    Some(now)
                } else {
                    table::at(o.requested, k)
                }));
            }
            assert(self@.requested =~= goal);
            assert(self@ =~= (ObserverView { requested: goal, ..o }));
        }
        out
    }

    /// A look at the clock: what has to be sent, and what is no longer worth
    /// keeping. Fails when the other end has stopped answering.
    pub fn tick(&mut self, bridge: &mut Bridge, now: u64) -> (r: Result<Vec<Json>, StreamError>)
        requires
            old(self)@.sequence < u64::MAX,
        ensures
            match r {
                Err(e) => {
                    &&& unanswered(old(self)@, now)
                    &&& e == StreamError::NoAnswer
                    &&& final(self)@ == old(self)@
                    &&& final(bridge)@ == old(bridge)@
                },
                Ok(out) => {
                    &&& !unanswered(old(self)@, now)
                    &&& json::list_view(out@) == sent(old(self)@, old(bridge)@, now)
                    &&& storable_all(out@)
                    &&& final(self)@ == ticked(old(self)@, old(bridge)@, now)
                    &&& final(bridge)@ == pruned(old(self)@, old(bridge)@)
                },
            },
    {
        let ghost o = self@;
        let ghost b = bridge@;
        if let Some(p) = &self.pending {
            if now > p.1 && now - p.1 > ANSWER_MS {
                return Err(StreamError::NoAnswer);
            }
        }
        let mut out: Vec<Json> = Vec::new();
        assert(json::list_view(out@) =~= seq![]);
        if self.client.as_str().is_empty() {
            return Ok(out);
        }
        let due = self.pending.is_none() && now > self.ping_at && now - self.ping_at > PING_MS;
        let wanted = once(&bridge.desired);
        proof {
            lemma_once_each(b.desired);
        }
        let mut leaves = leave(self.client.as_str(), &self.subscribed, &wanted);
        let ghost ids = strings::views(wanted@);
        let mut follows = self.ask(bridge, &wanted, now);
        if due {
            self.sequence = self.sequence + 1;
            let name = request(self.sequence);
            let message = codex_live::initialize(name.as_str(), self.client.as_str());
            out.push(message);
            self.pending = Some((name, now));
            assert(json::list_view(out@) =~= seq![message@]);
        }
        let ghost ping = json::list_view(out@);
        let ghost left = json::list_view(leaves@);
        let ghost asked = json::list_view(follows@);
        let ghost l = leaves@;
        let ghost f = follows@;
        let ghost p = out@;
        out.append(&mut leaves);
        out.append(&mut follows);
        proof {
            assert(out@ =~= p + l + f);
            assert(json::list_view(out@) =~= ping + left + asked);
            assert forall|i: int| 0 <= i < out@.len() implies json::storable(
                (#[trigger] out@[i])@,
            ) by {
                if i >= p.len() + l.len() {
                    assert(out@[i] == f[i - p.len() - l.len()]);
                } else if i >= p.len() {
                    assert(out@[i] == l[i - p.len()]);
                } else {
                    assert(out@[i] == p[i]);
                }
            }
        }
        bridge.tasks.retain_keys(&wanted);
        self.subscribed = wanted;
        proof {
            assert(bridge@.tasks =~= b.tasks.restrict(listed(ids)));
            assert(bridge@ =~= pruned(o, b));
            assert(self@ =~= ticked(o, b, now));
        }
        Ok(out)
    }

    /// Bytes that arrived.
    pub fn absorb(&mut self, bytes: &[u8])
        ensures
            final(self)@ == (ObserverView { buffer: old(self)@.buffer + bytes@, ..old(self)@ }),
    {
        let ghost before = self@;
        let mut i: usize = 0;
        assert(before.buffer + bytes@.take(0) =~= before.buffer);
        while i < bytes.len()
            invariant
                i <= bytes@.len(),
                self@ == (ObserverView { buffer: before.buffer + bytes@.take(i as int), ..before }),
            decreases bytes@.len() - i,
        {
            self.buffer.push(bytes[i]);
            assert(bytes@.take(i + 1) =~= bytes@.take(i as int).push(bytes@[i as int]));
            assert(self@.buffer =~= before.buffer + bytes@.take(i + 1));
            assert(self@ =~= (ObserverView {
                buffer: before.buffer + bytes@.take(i + 1),
                ..before
            }));
            i = i + 1;
        }
        assert(bytes@.take(i as int) =~= bytes@);
    }

    /// The next whole message that arrived.
    pub fn next(&mut self) -> (r: Result<Option<Json>, FrameError>)
        ensures
            match codex_live::front(old(self)@.buffer) {
                Front::Partial => r == Ok::<Option<Json>, FrameError>(None) && final(self)@
                    == old(self)@,
                Front::TooLarge => r == Err::<Option<Json>, FrameError>(FrameError::TooLarge)
                    && final(self)@ == old(self)@,
                Front::Invalid => r == Err::<Option<Json>, FrameError>(FrameError::Invalid)
                    && final(self)@ == old(self)@,
                Front::Message(j, rest) => {
                    &&& r matches Ok(Some(m)) && m@ == j && json::storable(m@)
                    &&& final(self)@ == (ObserverView { buffer: rest, ..old(self)@ })
                },
            },
    {
        let r = codex_live::next_frame(&mut self.buffer);
        assert(self@ =~= (ObserverView { buffer: self@.buffer, ..old(self)@ }));
        r
    }
}

proof fn lemma_push_contains(s: Seq<Seq<char>>, x: Seq<char>, k: Seq<char>)
    ensures
        s.push(x).contains(k) <==> s.contains(k) || k == x,
{
    if s.contains(k) {
        let i = choose|i: int| 0 <= i < s.len() && s[i] == k;
        assert(s.push(x)[i] == k);
    }
    if s.push(x).contains(k) && k != x {
        let i = choose|i: int| 0 <= i < s.push(x).len() && s.push(x)[i] == k;
        assert(s[i] == k);
    }
    assert(s.push(x)[s.len() as int] == x);
}

// --- what arrives ----------------------------------------------------------
/// What a message leads to.
pub enum Reaction {
    /// The conversation is over.
    Fail(StreamError),
    /// It goes on, with something to send or not.
    Go(ObserverView, BridgeView, Option<JsonView>),
}

/// Whether a message answers the request that is open.
pub open spec fn answers(o: ObserverView, message: JsonView) -> bool {
    &&& message.text_at("type"@) == Some("response"@)
    &&& o.pending matches Some(p) && message.text_at("requestId"@) == Some(p.0)
}

/// The reaction to the answer to our own request.
pub open spec fn registered(o: ObserverView, b: BridgeView, message: JsonView, now: u64) -> Reaction {
    if message.text_at("resultType"@) != Some("success"@) {
        Reaction::Fail(StreamError::Registration)
    } else {
        match message.field("result"@).text_at("clientId"@) {
            Some(client) => if client.len() > 0 {
                Reaction::Go(
                    ObserverView { client, pending: None, ping_at: now, ..o },
                    BridgeView { connected: true, ..b },
                    None,
                )
            } else {
                Reaction::Fail(StreamError::MissingClient)
            },
            None => Reaction::Fail(StreamError::MissingClient),
        }
    }
}

/// The reaction to a message. `at` is the time of day.
pub open spec fn reaction(
    o: ObserverView,
    b: BridgeView,
    message: JsonView,
    now: u64,
    at: u64,
) -> Reaction {
    let kind = message.text_at("type"@);
    let method = message.text_at("method"@);
    let params = message.field("params"@);
    if answers(o, message) {
        registered(o, b, message, now)
    } else if kind == Some("client-discovery-request"@) {
        Reaction::Go(o, b, Some(codex_live::refusal_spec(message.field("requestId"@))))
    } else if kind == Some("broadcast"@) {
        if method == Some("ipc-connection-reset"@) {
            Reaction::Fail(StreamError::Reset)
        } else if method == Some("thread-stream-following-status-requested"@) {
            match params.text_at("conversationId"@) {
                Some(id) => if o.subscribed.contains(id) && params.text_at("hostId"@) == Some(
                    "local"@,
                ) {
                    Reaction::Go(o, b, Some(codex_live::follow_spec(o.client, id, true)))
                } else {
                    Reaction::Go(o, b, None)
                },
                None => Reaction::Go(o, b, None),
            }
        } else {
            Reaction::Go(o, codex_live::received(b, message, at).0, None)
        }
    } else {
        Reaction::Go(o, b, None)
    }
}

fn text_is(j: &Json, key: &str, s: &str) -> (r: bool)
    ensures
        r == (j@.text_at(key@) == Some(s@)),
{
    match j.text_at(key) {
        Some(t) => strings::same(t, s),
        None => false,
    }
}

proof fn lemma_field_storable(j: JsonView, key: Seq<char>)
    requires
        json::storable(j),
    ensures
        json::storable(j.field(key)),
{
    if let JsonView::Object(fields) = j {
        json::lemma_field_place(fields, key, JsonView::Null);
    }
}

fn part(j: &Json, key: &str) -> (r: Json)
    ensures
        r@ == j@.field(key@),
{
    match j.get(key) {
        Some(v) => v.copy(),
        None => Json::Null,
    }
}

impl Observer {
    /// Takes in one message. `at` is the time of day, which a status is stamped
    /// with.
    pub fn react(&mut self, bridge: &mut Bridge, message: &Json, now: u64, at: u64) -> (r: Result<
        Option<Json>,
        StreamError,
    >)
        ensures
            match reaction(old(self)@, old(bridge)@, message@, now, at) {
                Reaction::Fail(e) => {
                    &&& r == Err::<Option<Json>, StreamError>(e)
                    &&& final(self)@ == old(self)@
                    &&& final(bridge)@ == old(bridge)@
                },
                Reaction::Go(o, b, reply) => {
                    &&& r matches Ok(m) && codex_live::opt_own(m) == reply
                    &&& final(self)@ == o
                    &&& final(bridge)@ == b
                },
            },
            json::storable(message@) ==> (r matches Ok(Some(m)) ==> json::storable(m@)),
    {
        let ghost o = self@;
        let ghost b = bridge@;
        let answered = match &self.pending {
            Some(p) => text_is(message, "type", "response") && text_is(
                message,
                "requestId",
                p.0.as_str(),
            ),
            None => false,
        };
        if answered {
            if !text_is(message, "resultType", "success") {
                return Err(StreamError::Registration);
            }
            let result = part(message, "result");
            return match result.text_at("clientId") {
                Some(client) => {
                    if client.is_empty() {
                        return Err(StreamError::MissingClient);
                    }
                    self.client = client.to_owned();
                    self.pending = None;
                    self.ping_at = now;
                    bridge.connected = true;
                    assert(self@ =~= (ObserverView {
                        client: client@,
                        pending: None,
                        ping_at: now,
                        ..o
                    }));
                    assert(bridge@ =~= (BridgeView { connected: true, ..b }));
                    Ok(None)
                },
                None => Err(StreamError::MissingClient),
            };
        }
        if text_is(message, "type", "client-discovery-request") {
            proof {
                if json::storable(message@) {
                    lemma_field_storable(message@, "requestId"@);
                }
            }
            return Ok(Some(codex_live::refuse(&part(message, "requestId"))));
        }
        if !text_is(message, "type", "broadcast") {
            return Ok(None);
        }
        if text_is(message, "method", "ipc-connection-reset") {
            return Err(StreamError::Reset);
        }
        if text_is(message, "method", "thread-stream-following-status-requested") {
            let params = part(message, "params");
            if let Some(id) = params.text_at("conversationId") {
                if strings::holds(&self.subscribed, id) && text_is(&params, "hostId", "local") {
                    return Ok(Some(codex_live::follow(self.client.as_str(), id, true)));
                }
            }
            return Ok(None);
        }
        // Missing/unsupported snapshots are asked for again by the clock.
        let _ = bridge.receive(message, at);
        Ok(None)
    }
}

// --- what holds of every conversation --------------------------------------
/// A message that asks for nothing but to be told: it introduces us, or says
/// which task we follow, or that a request cannot be handled here.
pub open spec fn passive(m: JsonView) -> bool {
    ||| exists|request: Seq<char>, client: Seq<char>|
        m == #[trigger] codex_live::initialize_spec(request, client)
    ||| exists|client: Seq<char>, id: Seq<char>, following: bool|
        m == #[trigger] codex_live::follow_spec(client, id, following)
    ||| exists|request: JsonView| m == #[trigger] codex_live::refusal_spec(request)
}

proof fn lemma_leaving_passive(
    client: Seq<char>,
    subscribed: Seq<Seq<char>>,
    wanted: Seq<Seq<char>>,
)
    ensures
        forall|i: int|
            0 <= i < leaving(client, subscribed, wanted).len() ==> passive(
                #[trigger] leaving(client, subscribed, wanted)[i],
            ),
    decreases subscribed.len(),
{
    if subscribed.len() > 0 {
        lemma_leaving_passive(client, subscribed.drop_last(), wanted);
        let last = codex_live::follow_spec(client, subscribed.last(), false);
        assert(passive(last));
        let before = leaving(client, subscribed.drop_last(), wanted);
        assert forall|i: int| 0 <= i < leaving(client, subscribed, wanted).len() implies passive(
            #[trigger] leaving(client, subscribed, wanted)[i],
        ) by {
            if i < before.len() {
                assert(leaving(client, subscribed, wanted)[i] == before[i]);
            }
        }
    }
}

proof fn lemma_asking_passive(o: ObserverView, b: BridgeView, ids: Seq<Seq<char>>, now: u64)
    ensures
        forall|i: int|
            0 <= i < asking_all(o, b, ids, now).len() ==> passive(
                #[trigger] asking_all(o, b, ids, now)[i],
            ),
    decreases ids.len(),
{
    if ids.len() > 0 {
        lemma_asking_passive(o, b, ids.drop_last(), now);
        let before = asking_all(o, b, ids.drop_last(), now);
        let more = asking(o, b, ids.last(), now);
        assert(passive(codex_live::follow_spec(o.client, ids.last(), false)));
        assert(passive(codex_live::follow_spec(o.client, ids.last(), true)));
        assert forall|i: int| 0 <= i < asking_all(o, b, ids, now).len() implies passive(
            #[trigger] asking_all(o, b, ids, now)[i],
        ) by {
            if i < before.len() {
                assert(asking_all(o, b, ids, now)[i] == before[i]);
            } else {
                assert(asking_all(o, b, ids, now)[i] == more[i - before.len()]);
            }
        }
    }
}

/// Nothing but passive messages is ever sent on our own account.
pub proof fn the_clock_sends_only_passive_messages(o: ObserverView, b: BridgeView, now: u64, i: int)
    requires
        0 <= i < sent(o, b, now).len(),
    ensures
        passive(sent(o, b, now)[i]),
{
    let wanted = codex_live::once_each(b.desired);
    let name = request_name((o.sequence + 1) as u64);
    assert(passive(codex_live::initialize_spec(name, o.client)));
    lemma_leaving_passive(o.client, o.subscribed, wanted);
    lemma_asking_passive(o, b, wanted, now);
    let ping = if ping_due(o, now) {
        seq![codex_live::initialize_spec(name, o.client)]
    } else {
        seq![]
    };
    let l = leaving(o.client, o.subscribed, wanted);
    let a = asking_all(o, b, wanted, now);
    if i < ping.len() {
        assert(sent(o, b, now)[i] == ping[i]);
    } else if i < ping.len() + l.len() {
        assert(sent(o, b, now)[i] == l[i - ping.len()]);
    } else {
        assert(sent(o, b, now)[i] == a[i - ping.len() - l.len()]);
    }
}

/// Nor is anything else ever answered, whatever the other end asks.
pub proof fn every_reply_is_passive(
    o: ObserverView,
    b: BridgeView,
    message: JsonView,
    now: u64,
    at: u64,
)
    ensures
        match reaction(o, b, message, now, at) {
            Reaction::Fail(_) => true,
            Reaction::Go(_, _, reply) => reply matches Some(m) ==> passive(m),
        },
{
    let request = message.field("requestId"@);
    assert(passive(codex_live::refusal_spec(request)));
    if let Some(id) = message.field("params"@).text_at("conversationId"@) {
        assert(passive(codex_live::follow_spec(o.client, id, true)));
    }
}

/// After every look at the clock, only wanted tasks are held and subscribed to.
pub proof fn only_wanted_tasks_are_held(o: ObserverView, b: BridgeView, now: u64, id: Seq<char>)
    requires
        o.client.len() > 0,
    ensures
        pruned(o, b).tasks.dom().contains(id) ==> b.desired.contains(id),
        ticked(o, b, now).subscribed.contains(id) <==> b.desired.contains(id),
{
    lemma_once_each(b.desired);
    assert(codex_live::once_each(b.desired).contains(id) <==> b.desired.contains(id));
}

/// Is the socket one that only this user can have put there: a socket, theirs,
/// in a folder of theirs that grants nobody else anything (the low six bits of
/// its mode)?
pub open spec fn private_socket(
    is_socket: bool,
    owner: u32,
    user: u32,
    folder_owner: u32,
    folder_mode: u32,
) -> bool {
    is_socket && owner == user && folder_owner == owner && folder_mode % 64 == 0
}

pub fn socket_is_private(
    is_socket: bool,
    owner: u32,
    user: u32,
    folder_owner: u32,
    folder_mode: u32,
) -> (r: bool)
    ensures
        r == private_socket(is_socket, owner, user, folder_owner, folder_mode),
{
    is_socket && owner == user && folder_owner == owner && folder_mode % 64 == 0
}

} // verus!
