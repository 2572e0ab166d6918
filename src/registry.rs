//! The session registry: which authenticated user is reachable through which
//! sink, and the delivery plans of broadcast and whisper over it.

use vstd::prelude::*;
use vstd::string::*;
use crate::text::same_text;

verus! {

/// One piece of text to be written to one sink.
pub struct Delivery {
    pub sink: u64,
    pub text: String,
}

impl View for Delivery {
    type V = (u64, Seq<char>);

    open spec fn view(&self) -> (u64, Seq<char>) {
        (self.sink, self.text@)
    }
}

/// An authenticated user and the sink that reaches its connection.
pub struct Session {
    pub username: String,
    pub sink: u64,
}

impl View for Session {
    type V = (Seq<char>, u64);

    open spec fn view(&self) -> (Seq<char>, u64) {
        (self.username@, self.sink)
    }
}

/// The deliveries of a plan, as (sink, text) pairs.
pub open spec fn plan_view(v: Seq<Delivery>) -> Seq<(u64, Seq<char>)> {
    v.map_values(|d: Delivery| d@)
}

/// No two sessions share a username.
pub open spec fn names_unique(s: Seq<(Seq<char>, u64)>) -> bool {
    forall|i: int, j: int|
        0 <= i < s.len() && 0 <= j < s.len() && i != j ==> #[trigger] s[i].0 != #[trigger] s[j].0
}

pub open spec fn holds_name(s: Seq<(Seq<char>, u64)>, name: Seq<char>) -> bool {
    exists|i: int| 0 <= i < s.len() && #[trigger] s[i].0 == name
}

/// The position of the session named `name` (meaningful when there is one).
pub open spec fn slot(s: Seq<(Seq<char>, u64)>, name: Seq<char>) -> int {
    choose|i: int| 0 <= i < s.len() && #[trigger] s[i].0 == name
}

/// The sink registered under `name`, if any.
pub open spec fn sink_of(s: Seq<(Seq<char>, u64)>, name: Seq<char>) -> Option<u64> {
    if holds_name(s, name) {
        Some(s[slot(s, name)].1)
    } else {
        None
    }
}

/// The sessions after `name` is bound to `sink`: an existing session of that
/// name is replaced in place, otherwise a new one is appended.
pub open spec fn inserted(s: Seq<(Seq<char>, u64)>, name: Seq<char>, sink: u64) -> Seq<
    (Seq<char>, u64),
> {
    if holds_name(s, name) {
        s.update(slot(s, name), (name, sink))
    } else {
        s.push((name, sink))
    }
}

/// The sessions after the one named `name`, if any, is dropped.
pub open spec fn removed(s: Seq<(Seq<char>, u64)>, name: Seq<char>) -> Seq<(Seq<char>, u64)> {
    if holds_name(s, name) {
        s.remove(slot(s, name))
    } else {
        s
    }
}

/// The sinks of all sessions not named `name`, in registry order.
pub open spec fn sinks_except(s: Seq<(Seq<char>, u64)>, name: Seq<char>) -> Seq<u64>
    decreases s.len(),
{
    if s.len() == 0 {
        Seq::empty()
    } else if s.last().0 == name {
        sinks_except(s.drop_last(), name)
    } else {
        sinks_except(s.drop_last(), name).push(s.last().1)
    }
}

pub open spec fn broadcast_text(sender: Seq<char>, text: Seq<char>) -> Seq<char> {
    "["@ + sender + "]: "@ + text + "\n"@
}

pub open spec fn whisper_from_text(sender: Seq<char>, text: Seq<char>) -> Seq<char> {
    "[WHISPER from "@ + sender + "]: "@ + text + "\n"@
}

pub open spec fn whisper_to_text(target: Seq<char>, text: Seq<char>) -> Seq<char> {
    "[WHISPER to "@ + target + "]: "@ + text + "\n"@
}

pub open spec fn not_found_text(target: Seq<char>) -> Seq<char> {
    "User "@ + target + " not found\n"@
}

/// What a broadcast of `text` by `sender` writes: one line to every other session.
pub open spec fn broadcast_plan(s: Seq<(Seq<char>, u64)>, sender: Seq<char>, text: Seq<char>) -> Seq<
    (u64, Seq<char>),
> {
    sinks_except(s, sender).map_values(|k: u64| (k, broadcast_text(sender, text)))
}

/// What a whisper writes: the message to the target, or a notice to the sender
/// when there is no such target, and then an echo to the sender.
pub open spec fn whisper_plan(
    s: Seq<(Seq<char>, u64)>,
    sender: Seq<char>,
    target: Seq<char>,
    text: Seq<char>,
) -> Seq<(u64, Seq<char>)> {
    let first = match sink_of(s, target) {
        Some(t) => seq![(t, whisper_from_text(sender, text))],
        None => match sink_of(s, sender) {
            Some(me) => seq![(me, not_found_text(target))],
            None => Seq::empty(),
        },
    };
    let echo = match sink_of(s, sender) {
        Some(me) => seq![(me, whisper_to_text(target, text))],
        None => Seq::empty(),
    };
    first + echo
}

pub proof fn lemma_slot_unique(s: Seq<(Seq<char>, u64)>, name: Seq<char>, i: int)
    requires
        names_unique(s),
        0 <= i < s.len(),
        s[i].0 == name,
    ensures
        holds_name(s, name),
        slot(s, name) == i,
        sink_of(s, name) == Some(s[i].1),
{
    let k = slot(s, name);
    assert(s[k].0 == name);
    if k != i {
        assert(s[k].0 != s[i].0);
    }
}

/// The sinks that a broadcast skipping `name` reaches are those of the
/// sessions not named `name`, one per such session.
pub proof fn lemma_sinks_except(s: Seq<(Seq<char>, u64)>, name: Seq<char>)
    ensures
        forall|k: int|
            0 <= k < sinks_except(s, name).len() ==> exists|i: int|
                0 <= i < s.len() && s[i].0 != name && #[trigger] sinks_except(s, name)[k] == s[i].1,
        forall|i: int|
            0 <= i < s.len() && s[i].0 != name ==> sinks_except(s, name).contains(#[trigger] s[i].1),
        names_unique(s) ==> sinks_except(s, name).len() == s.len() - if holds_name(s, name) {
            1int
        } else {
            0int
        },
    decreases s.len(),
{
    if s.len() > 0 {
        let p = s.drop_last();
        lemma_sinks_except(p, name);
        let r = sinks_except(s, name);
        let q = sinks_except(p, name);
        assert forall|k: int| 0 <= k < r.len() implies exists|i: int|
            0 <= i < s.len() && s[i].0 != name && #[trigger] r[k] == s[i].1 by {
            if k < q.len() {
                let i = choose|i: int| 0 <= i < p.len() && p[i].0 != name && q[k] == p[i].1;
                assert(s[i] == p[i]);
            } else {
                assert(s[s.len() - 1].0 != name && r[k] == s[s.len() - 1].1);
            }
        }
        assert forall|i: int| 0 <= i < s.len() && s[i].0 != name implies r.contains(
            #[trigger] s[i].1,
        ) by {
            if i < p.len() {
                assert(p[i] == s[i]);
                assert(q.contains(p[i].1));
                let k = choose|k: int| 0 <= k < q.len() && q[k] == p[i].1;
                assert(r[k] == q[k]);
            } else {
                assert(r[r.len() - 1] == s[i].1);
            }
        }
        if names_unique(s) {
            assert(names_unique(p)) by {
                assert forall|a: int, b: int|
                    0 <= a < p.len() && 0 <= b < p.len() && a != b implies #[trigger] p[a].0
                    != #[trigger] p[b].0 by {
                    assert(p[a] == s[a] && p[b] == s[b]);
                }
            }
            if s.last().0 == name {
                if holds_name(p, name) {
                    let i = choose|i: int| 0 <= i < p.len() && #[trigger] p[i].0 == name;
                    assert(s[i].0 == s[s.len() - 1].0);
                }
                assert(holds_name(s, name)) by {
                    assert(s[s.len() - 1].0 == name);
                }
            } else {
                if holds_name(s, name) {
                    let i = choose|i: int| 0 <= i < s.len() && #[trigger] s[i].0 == name;
                    assert(p[i].0 == name);
                }
                if holds_name(p, name) {
                    let i = choose|i: int| 0 <= i < p.len() && #[trigger] p[i].0 == name;
                    assert(s[i].0 == name);
                }
            }
        }
    }
}

/// A broadcast by a registered `sender` writes the message once for each of
/// the other sessions, to its sink, and to no other sink.
pub proof fn lemma_broadcast_reaches_all_others(
    s: Seq<(Seq<char>, u64)>,
    sender: Seq<char>,
    text: Seq<char>,
)
    requires
        names_unique(s),
        holds_name(s, sender),
    ensures
        broadcast_plan(s, sender, text).len() == s.len() - 1,
        forall|k: int|
            0 <= k < broadcast_plan(s, sender, text).len() ==> (#[trigger] broadcast_plan(
                s,
                sender,
                text,
            )[k]).1 == broadcast_text(sender, text) && exists|i: int|
                0 <= i < s.len() && s[i].0 != sender && broadcast_plan(s, sender, text)[k].0
                    == s[i].1,
        forall|i: int|
            0 <= i < s.len() && s[i].0 != sender ==> exists|k: int|
                0 <= k < broadcast_plan(s, sender, text).len() && broadcast_plan(
                    s,
                    sender,
                    text,
                )[k].0 == #[trigger] s[i].1,
{
    lemma_sinks_except(s, sender);
    let r = sinks_except(s, sender);
    let plan = broadcast_plan(s, sender, text);
    assert forall|k: int| 0 <= k < plan.len() implies (#[trigger] plan[k]).1 == broadcast_text(
        sender,
        text,
    ) && exists|i: int| 0 <= i < s.len() && s[i].0 != sender && plan[k].0 == s[i].1 by {
        assert(plan[k].0 == r[k]);
    }
    assert forall|i: int| 0 <= i < s.len() && s[i].0 != sender implies exists|k: int|
        0 <= k < plan.len() && plan[k].0 == #[trigger] s[i].1 by {
        assert(r.contains(s[i].1));
        let k = choose|k: int| 0 <= k < r.len() && r[k] == s[i].1;
        assert(plan[k].0 == r[k]);
    }
}

/// At most one session per username: binding a name keeps names unique and
/// replaces its session. The sink that the name held before receives no
/// broadcast or whisper afterwards, unless another name still holds it; the
/// new sink is the one that broadcasts of others and whispers to the name reach.
pub proof fn lemma_replaced_session_cut_off(
    s: Seq<(Seq<char>, u64)>,
    name: Seq<char>,
    first: u64,
    second: u64,
    sender: Seq<char>,
    target: Seq<char>,
    text: Seq<char>,
)
    requires
        names_unique(s),
        sink_of(s, name) == Some(first),
        first != second,
        forall|i: int| 0 <= i < s.len() && s[i].0 != name ==> #[trigger] s[i].1 != first,
    ensures
        names_unique(inserted(s, name, second)),
        sink_of(inserted(s, name, second), name) == Some(second),
        forall|k: int|
            0 <= k < broadcast_plan(inserted(s, name, second), sender, text).len() ==> (
            #[trigger] broadcast_plan(inserted(s, name, second), sender, text)[k]).0 != first,
        forall|k: int|
            0 <= k < whisper_plan(inserted(s, name, second), sender, target, text).len() ==> (
            #[trigger] whisper_plan(inserted(s, name, second), sender, target, text)[k]).0
                != first,
        sender != name ==> exists|k: int|
            0 <= k < broadcast_plan(inserted(s, name, second), sender, text).len() && (
            #[trigger] broadcast_plan(inserted(s, name, second), sender, text)[k]).0 == second,
        target == name ==> whisper_plan(inserted(s, name, second), sender, target, text)[0] == (
            second,
            whisper_from_text(sender, text),
        ),
{
    let j = slot(s, name);
    let t = inserted(s, name, second);
    assert(t == s.update(j, (name, second)));
    assert forall|a: int, b: int|
        0 <= a < t.len() && 0 <= b < t.len() && a != b implies #[trigger] t[a].0
        != #[trigger] t[b].0 by {
        if a != j && b != j {
            assert(s[a].0 != s[b].0);
        } else if a == j {
            assert(s[b].0 != s[j].0);
        } else {
            assert(s[a].0 != s[j].0);
        }
    }
    assert forall|i: int| 0 <= i < t.len() implies #[trigger] t[i].1 != first by {
        if i != j {
            if s[i].0 == name {
                assert(s[i].0 != s[j].0);
            }
        }
    }
    lemma_slot_unique(t, name, j);
    lemma_broadcast_members(t, sender, text);
    if sender != name {
        lemma_sinks_except(t, sender);
        let r = sinks_except(t, sender);
        assert(r.contains(t[j].1));
        let k = choose|k: int| 0 <= k < r.len() && r[k] == t[j].1;
        assert(broadcast_plan(t, sender, text)[k].0 == second);
    }
    assert forall|x: Seq<char>| #[trigger] sink_of(t, x) != Some(first) by {
        if holds_name(t, x) {
            assert(t[slot(t, x)].1 != first);
        }
    }
}

proof fn lemma_broadcast_members(s: Seq<(Seq<char>, u64)>, sender: Seq<char>, text: Seq<char>)
    ensures
        forall|k: int|
            0 <= k < broadcast_plan(s, sender, text).len() ==> exists|i: int|
                0 <= i < s.len() && (#[trigger] broadcast_plan(s, sender, text)[k]).0 == s[i].1,
{
    lemma_sinks_except(s, sender);
    let r = sinks_except(s, sender);
    let plan = broadcast_plan(s, sender, text);
    assert forall|k: int| 0 <= k < plan.len() implies exists|i: int|
        0 <= i < s.len() && (#[trigger] plan[k]).0 == s[i].1 by {
        assert(plan[k].0 == r[k]);
    }
}

/// A whisper from a registered `sender` writes exactly two lines: the message
/// to the target and the echo to the sender, or, when the target has no
/// session, the notice and the echo, both to the sender.
pub proof fn lemma_whisper_delivery(
    s: Seq<(Seq<char>, u64)>,
    sender: Seq<char>,
    target: Seq<char>,
    text: Seq<char>,
    me: u64,
)
    requires
        sink_of(s, sender) == Some(me),
    ensures
        sink_of(s, target) matches Some(t) ==> whisper_plan(s, sender, target, text) == seq![
            (t, whisper_from_text(sender, text)),
            (me, whisper_to_text(target, text)),
        ],
        sink_of(s, target) is None ==> whisper_plan(s, sender, target, text) == seq![
            (me, not_found_text(target)),
            (me, whisper_to_text(target, text)),
        ],
{
    match sink_of(s, target) {
        Some(t) => {
            assert(whisper_plan(s, sender, target, text) =~= seq![
                (t, whisper_from_text(sender, text)),
                (me, whisper_to_text(target, text)),
            ]);
        },
        None => {
            assert(whisper_plan(s, sender, target, text) =~= seq![
                (me, not_found_text(target)),
                (me, whisper_to_text(target, text)),
            ]);
        },
    }
}

/// Once the session of `name` is removed, a whisper to `name` finds no one:
/// the sender gets the notice and the echo, and nobody else gets anything.
pub proof fn lemma_departed_user_not_found(
    s: Seq<(Seq<char>, u64)>,
    name: Seq<char>,
    sender: Seq<char>,
    text: Seq<char>,
)
    requires
        names_unique(s),
    ensures
        sink_of(removed(s, name), name) is None,
        whisper_plan(removed(s, name), sender, name, text) == match sink_of(
            removed(s, name),
            sender,
        ) {
            Some(me) => seq![(me, not_found_text(name)), (me, whisper_to_text(name, text))],
            None => Seq::<(u64, Seq<char>)>::empty(),
        },
{
    let t = removed(s, name);
    if holds_name(t, name) {
        let i = choose|i: int| 0 <= i < t.len() && #[trigger] t[i].0 == name;
        let j = slot(s, name);
        let oi = if i < j { i } else { i + 1 };
        assert(t[i] == s[oi]);
        assert(s[oi].0 != s[j].0);
    }
    match sink_of(t, sender) {
        Some(me) => {
            assert(whisper_plan(t, sender, name, text) =~= seq![
                (me, not_found_text(name)),
                (me, whisper_to_text(name, text)),
            ]);
        },
        None => {
            assert(whisper_plan(t, sender, name, text) =~= Seq::<(u64, Seq<char>)>::empty());
        },
    }
}

/// The line that a broadcast delivers.
pub fn broadcast_line(sender: &str, text: &str) -> (r: String)
    ensures
        r@ == broadcast_text(sender@, text@),
{
    let mut r = String::from_str("[");
    r.append(sender);
    r.append("]: ");
    r.append(text);
    r.append("\n");
    r
}

/// The line that a whisper delivers to its target.
pub fn whisper_from_line(sender: &str, text: &str) -> (r: String)
    ensures
        r@ == whisper_from_text(sender@, text@),
{
    let mut r = String::from_str("[WHISPER from ");
    r.append(sender);
    r.append("]: ");
    r.append(text);
    r.append("\n");
    r
}

/// The echo of a whisper to its sender.
pub fn whisper_to_line(target: &str, text: &str) -> (r: String)
    ensures
        r@ == whisper_to_text(target@, text@),
{
    let mut r = String::from_str("[WHISPER to ");
    r.append(target);
    r.append("]: ");
    r.append(text);
    r.append("\n");
    r
}

/// The notice that a whisper's target is not connected.
pub fn not_found_line(target: &str) -> (r: String)
    ensures
        r@ == not_found_text(target@),
{
    let mut r = String::from_str("User ");
    r.append(target);
    r.append(" not found\n");
    r
}

/// The authenticated sessions, at most one per username.
pub struct Registry {
    sessions: Vec<Session>,
}

impl View for Registry {
    type V = Seq<(Seq<char>, u64)>;

    closed spec fn view(&self) -> Seq<(Seq<char>, u64)> {
        self.sessions@.map_values(|e: Session| e@)
    }
}

impl Registry {
    pub open spec fn wf(&self) -> bool {
        names_unique(self@)
    }

    pub fn new() -> (r: Registry)
        ensures
            r.wf(),
            r@ == Seq::<(Seq<char>, u64)>::empty(),
    {
        let r = Registry { sessions: Vec::new() };
        assert(r@ =~= Seq::<(Seq<char>, u64)>::empty());
        r
    }

    /// Number of sessions.
    pub fn len(&self) -> (r: usize)
        ensures
            r == self@.len(),
    {
        self.sessions.len()
    }

    fn find(&self, name: &str) -> (r: Option<usize>)
        requires
            self.wf(),
        ensures
            match r {
                Some(i) => i < self@.len() && self@[i as int].0 == name@ && slot(self@, name@)
                    == i,
                None => !holds_name(self@, name@),
            },
    {
        let mut i: usize = 0;
        while i < self.sessions.len()
            invariant
                self.wf(),
                i <= self.sessions@.len(),
                forall|j: int| 0 <= j < i ==> #[trigger] self@[j].0 != name@,
            decreases self.sessions@.len() - i,
        {
            if same_text(self.sessions[i].username.as_str(), name) {
                proof {
                    lemma_slot_unique(self@, name@, i as int);
                }
                return Some(i);
            }
            i = i + 1;
        }
        None
    }

    /// The sink registered under `name`, if any.
    pub fn lookup(&self, name: &str) -> (r: Option<u64>)
        requires
            self.wf(),
        ensures
            r == sink_of(self@, name@),
    {
        match self.find(name) {
            Some(i) => Some(self.sessions[i].sink),
            None => None,
        }
    }

    /// Binds `name` to `sink`, replacing any session of that name.
    pub fn insert(&mut self, name: &str, sink: u64)
        requires
            old(self).wf(),
        ensures
            final(self).wf(),
            final(self)@ == inserted(old(self)@, name@, sink),
    {
        let entry = Session { username: String::from_str(name), sink };
        match self.find(name) {
            Some(i) => {
                self.sessions.set(i, entry);
                assert(self@ =~= old(self)@.update(i as int, (name@, sink)));
            },
            None => {
                self.sessions.push(entry);
                assert(self@ =~= old(self)@.push((name@, sink)));
            },
        }
        assert forall|i: int, j: int|
            0 <= i < self@.len() && 0 <= j < self@.len() && i != j implies #[trigger] self@[i].0
            != #[trigger] self@[j].0 by {
            if i < old(self)@.len() && j < old(self)@.len() {
                assert(old(self)@[i].0 != old(self)@[j].0 || self@[i].0 == name@ || self@[j].0
                    == name@);
            }
        }
    }

    /// Drops the session named `name`; nothing happens when there is none.
    pub fn remove(&mut self, name: &str)
        requires
            old(self).wf(),
        ensures
            final(self).wf(),
            final(self)@ == removed(old(self)@, name@),
    {
        match self.find(name) {
            Some(i) => {
                self.sessions.remove(i);
                assert(self@ =~= old(self)@.remove(i as int));
                assert forall|a: int, b: int|
                    0 <= a < self@.len() && 0 <= b < self@.len() && a != b implies #[trigger] self@[a].0
                    != #[trigger] self@[b].0 by {
                    let oa = if a < i { a } else { a + 1 };
                    let ob = if b < i { b } else { b + 1 };
                    assert(self@[a] == old(self)@[oa]);
                    assert(self@[b] == old(self)@[ob]);
                }
            },
            None => {},
        }
    }

    /// The deliveries of `text` broadcast by `sender`.
    pub fn broadcast(&self, sender: &str, text: &str) -> (r: Vec<Delivery>)
        ensures
            plan_view(r@) == broadcast_plan(self@, sender@, text@),
    {
        let line = broadcast_line(sender, text);
        let mut out: Vec<Delivery> = Vec::new();
        let mut i: usize = 0;
        while i < self.sessions.len()
            invariant
                i <= self.sessions@.len(),
                line@ == broadcast_text(sender@, text@),
                plan_view(out@) == broadcast_plan(self@.subrange(0, i as int), sender@, text@),
            decreases self.sessions@.len() - i,
        {
            let ghost before = out@;
            assert(self@.subrange(0, i + 1).drop_last() =~= self@.subrange(0, i as int));
            if !same_text(self.sessions[i].username.as_str(), sender) {
                out.push(Delivery { sink: self.sessions[i].sink, text: line.clone() });
                assert(plan_view(out@) =~= plan_view(before).push(
                    (self.sessions@[i as int].sink, broadcast_text(sender@, text@)),
                ));
            }
            i = i + 1;
            assert(plan_view(out@) =~= broadcast_plan(self@.subrange(0, i as int), sender@, text@));
        }
        assert(self@.subrange(0, i as int) =~= self@);
        out
    }

    /// The deliveries of a whisper of `text` from `sender` to `target`.
    pub fn whisper(&self, sender: &str, target: &str, text: &str) -> (r: Vec<Delivery>)
        requires
            self.wf(),
        ensures
            plan_view(r@) == whisper_plan(self@, sender@, target@, text@),
    {
        let mut out: Vec<Delivery> = Vec::new();
        let me = self.lookup(sender);
        match self.lookup(target) {
            Some(t) => out.push(Delivery { sink: t, text: whisper_from_line(sender, text) }),
            None => match me {
                Some(m) => out.push(Delivery { sink: m, text: not_found_line(target) }),
                None => {},
            },
        }
        match me {
            Some(m) => out.push(Delivery { sink: m, text: whisper_to_line(target, text) }),
            None => {},
        }
        assert(plan_view(out@) =~= whisper_plan(self@, sender@, target@, text@));
        out
    }
}

}
