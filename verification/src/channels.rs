//! Channel bookkeeping: joining a channel, joining a presence channel with a
//! member record, and leaving. Each operation is stated as a function on the
//! channel table's contents and implemented on the `DashMap`.

use vstd::prelude::*;
use crate::bytes::{bytes_equal, lemma_utf8_injective};
use crate::state::{
    State, ChannelState, ChannelView, MemberView, PresenceMember, channel_table, channel_get,
    channel_put, channel_remove, channel_wf, distinct, distinct_sockets, string_views, member_views,
};

verus! {

/// `s` without any occurrence of `x`.
pub open spec fn without<A>(s: Seq<A>, x: A) -> Seq<A>
    decreases s.len(),
{
    if s.len() == 0 {
        s
    } else if s.last() == x {
        without(s.drop_last(), x)
    } else {
        without(s.drop_last(), x).push(s.last())
    }
}

/// `p` without the member entry of socket `sid`.
pub open spec fn without_socket(p: Seq<MemberView>, sid: Seq<char>) -> Seq<MemberView>
    decreases p.len(),
{
    if p.len() == 0 {
        p
    } else if p.last().socket_id == sid {
        without_socket(p.drop_last(), sid)
    } else {
        without_socket(p.drop_last(), sid).push(p.last())
    }
}

/// A socket added to a subscriber list (kept as is when already there).
pub open spec fn add_subscriber(subs: Seq<Seq<char>>, sid: Seq<char>) -> Seq<Seq<char>> {
    if subs.contains(sid) {
        subs
    } else {
        subs.push(sid)
    }
}

/// Some member carries the user id.
pub open spec fn has_user(p: Seq<MemberView>, uid: Seq<char>) -> bool {
    exists|i: int| 0 <= i < p.len() && (#[trigger] p[i]).user_id == uid
}

/// The member entry of a socket.
pub open spec fn member_of(p: Seq<MemberView>, sid: Seq<char>) -> Option<MemberView>
    decreases p.len(),
{
    if p.len() == 0 {
        None
    } else if p.last().socket_id == sid {
        Some(p.last())
    } else {
        member_of(p.drop_last(), sid)
    }
}

/// A channel with no subscribers and no members.
pub open spec fn empty_channel() -> ChannelView {
    ChannelView { subscribers: Seq::empty(), presence: None }
}

/// The channel under `key`, or an empty one.
pub open spec fn channel_or_empty(t: Map<(Seq<char>, Seq<char>), ChannelView>, key: (Seq<char>, Seq<char>)) -> ChannelView {
    if t.contains_key(key) {
        t[key]
    } else {
        empty_channel()
    }
}

/// The table after `sid` subscribes to the channel `key`.
pub open spec fn join_spec(
    t: Map<(Seq<char>, Seq<char>), ChannelView>,
    key: (Seq<char>, Seq<char>),
    sid: Seq<char>,
) -> Map<(Seq<char>, Seq<char>), ChannelView> {
    let c = channel_or_empty(t, key);
    t.insert(key, ChannelView { subscribers: add_subscriber(c.subscribers, sid), presence: c.presence })
}

/// The members of a presence channel after `m` joins (replacing any earlier
/// entry of its socket).
pub open spec fn members_after_join(c: ChannelView, m: MemberView) -> Seq<MemberView> {
    let p = match c.presence {
        Some(p) => p,
        None => Seq::empty(),
    };
    without_socket(p, m.socket_id).push(m)
}

/// The table after member `m` joins the presence channel `key`.
pub open spec fn join_presence_spec(
    t: Map<(Seq<char>, Seq<char>), ChannelView>,
    key: (Seq<char>, Seq<char>),
    m: MemberView,
) -> Map<(Seq<char>, Seq<char>), ChannelView> {
    let c = channel_or_empty(t, key);
    t.insert(
        key,
        ChannelView { subscribers: add_subscriber(c.subscribers, m.socket_id), presence: Some(members_after_join(c, m)) },
    )
}

/// Whether `m`'s user was not yet in the presence channel `key`.
pub open spec fn joins_new_user(t: Map<(Seq<char>, Seq<char>), ChannelView>, key: (Seq<char>, Seq<char>), m: MemberView) -> bool {
    match channel_or_empty(t, key).presence {
        Some(p) => !has_user(p, m.user_id),
        None => true,
    }
}

/// The channel `key` after `sid` leaves it.
pub open spec fn channel_after_leave(c: ChannelView, sid: Seq<char>) -> ChannelView {
    ChannelView {
        subscribers: without(c.subscribers, sid),
        presence: match c.presence {
            Some(p) => Some(without_socket(p, sid)),
            None => None,
        },
    }
}

/// The table after `sid` leaves the channel `key`: an emptied channel is
/// dropped from the table.
pub open spec fn leave_spec(
    t: Map<(Seq<char>, Seq<char>), ChannelView>,
    key: (Seq<char>, Seq<char>),
    sid: Seq<char>,
) -> Map<(Seq<char>, Seq<char>), ChannelView> {
    if !t.contains_key(key) {
        t
    } else {
        let c = channel_after_leave(t[key], sid);
        if c.subscribers.len() == 0 {
            t.remove(key)
        } else {
            t.insert(key, c)
        }
    }
}

/// The user that leaves the presence channel `key` with `sid`: its last
/// socket there was `sid`.
pub open spec fn departing_user(t: Map<(Seq<char>, Seq<char>), ChannelView>, key: (Seq<char>, Seq<char>), sid: Seq<char>) -> Option<Seq<char>> {
    if !t.contains_key(key) {
        None
    } else {
        match t[key].presence {
            None => None,
            Some(p) => match member_of(p, sid) {
                None => None,
                Some(m) => if has_user(without_socket(p, sid), m.user_id) {
                    None
                } else {
                    Some(m.user_id)
                },
            },
        }
    }
}

// ----- facts about the list operations -----

/// What remains after removing `x` is everything else.
pub proof fn lemma_without_contains<A>(s: Seq<A>, x: A, y: A)
    ensures
        without(s, x).contains(y) <==> (s.contains(y) && y != x),
    decreases s.len(),
{
    if s.len() > 0 {
        lemma_without_contains(s.drop_last(), x, y);
        let t = s.drop_last();
        assert(s =~= t.push(s.last()));
        if t.contains(y) {
            let i = choose|i: int| 0 <= i < t.len() && t[i] == y;
            assert(s[i] == y);
        }
        if s.contains(y) && !t.contains(y) {
            let i = choose|i: int| 0 <= i < s.len() && s[i] == y;
            if i < t.len() {
                assert(t[i] == y);
            }
        }
        let w = without(t, x);
        if s.last() != x {
            assert(w.push(s.last())[w.len() as int] == s.last());
            if w.contains(y) {
                let i = choose|i: int| 0 <= i < w.len() && w[i] == y;
                assert(w.push(s.last())[i] == y);
            }
            if w.push(s.last()).contains(y) && y != s.last() {
                let i = choose|i: int| 0 <= i < w.len() + 1 && w.push(s.last())[i] == y;
                assert(w[i] == y);
            }
        }
    }
}

/// Removing an element keeps a list free of repeats.
pub proof fn lemma_without_distinct<A>(s: Seq<A>, x: A)
    requires
        distinct(s),
    ensures
        distinct(without(s, x)),
    decreases s.len(),
{
    if s.len() > 0 {
        let t = s.drop_last();
        assert(distinct(t)) by {
            assert forall|i: int, j: int| 0 <= i < t.len() && 0 <= j < t.len() && i != j implies t[i] != t[j] by {
                assert(t[i] == s[i] && t[j] == s[j]);
            }
        }
        lemma_without_distinct(t, x);
        if s.last() != x {
            let w = without(t, x);
            lemma_without_contains(t, x, s.last());
            assert(!t.contains(s.last())) by {
                if t.contains(s.last()) {
                    let i = choose|i: int| 0 <= i < t.len() && t[i] == s.last();
                    assert(s[i] == s[s.len() - 1]);
                }
            }
            assert forall|i: int, j: int|
                0 <= i < w.push(s.last()).len() && 0 <= j < w.push(s.last()).len() && i != j implies w.push(s.last())[i]
                != w.push(s.last())[j] by {
                if i == w.len() {
                    assert(w.contains(w[j]));
                } else if j == w.len() {
                    assert(w.contains(w[i]));
                }
            }
        }
    }
}

/// Removing an element that was just appended restores the list.
pub proof fn lemma_without_push<A>(s: Seq<A>, x: A)
    requires
        !s.contains(x),
    ensures
        without(s.push(x), x) == s,
{
    assert(s.push(x).drop_last() =~= s);
    lemma_without_absent(s, x);
}

/// Removing an absent element changes nothing.
pub proof fn lemma_without_absent<A>(s: Seq<A>, x: A)
    requires
        !s.contains(x),
    ensures
        without(s, x) == s,
    decreases s.len(),
{
    if s.len() > 0 {
        let t = s.drop_last();
        assert(!t.contains(x)) by {
            if t.contains(x) {
                let i = choose|i: int| 0 <= i < t.len() && t[i] == x;
                assert(s[i] == x);
            }
        }
        lemma_without_absent(t, x);
        assert(s.last() != x) by {
            assert(s[s.len() - 1] == s.last());
        }
        assert(t.push(s.last()) =~= s);
    }
}

/// An entry left after removing a socket's entry is another socket's, from the list.
pub proof fn lemma_without_socket_member(p: Seq<MemberView>, sid: Seq<char>, i: int)
    requires
        0 <= i < without_socket(p, sid).len(),
    ensures
        without_socket(p, sid)[i].socket_id != sid,
        exists|j: int| 0 <= j < p.len() && p[j] == without_socket(p, sid)[i],
    decreases p.len(),
{
    if p.len() > 0 {
        let t = p.drop_last();
        let w = without_socket(t, sid);
        if p.last().socket_id == sid {
            lemma_without_socket_member(t, sid, i);
            let j = choose|j: int| 0 <= j < t.len() && t[j] == w[i];
            assert(p[j] == t[j]);
        } else if i < w.len() {
            assert(w.push(p.last())[i] == w[i]);
            lemma_without_socket_member(t, sid, i);
            let j = choose|j: int| 0 <= j < t.len() && t[j] == w[i];
            assert(p[j] == t[j]);
        } else {
            assert(w.push(p.last())[i] == p.last());
            assert(p[p.len() - 1] == p.last());
        }
    }
}

/// The entries of other sockets survive the removal of a socket's entry.
pub proof fn lemma_without_socket_keeps(p: Seq<MemberView>, sid: Seq<char>, j: int)
    requires
        0 <= j < p.len(),
        p[j].socket_id != sid,
    ensures
        exists|i: int| 0 <= i < without_socket(p, sid).len() && without_socket(p, sid)[i] == p[j],
    decreases p.len(),
{
    let t = p.drop_last();
    let w = without_socket(t, sid);
    if j == p.len() - 1 {
        assert(p[j] == p.last());
        assert(without_socket(p, sid) == w.push(p.last()));
        assert(w.push(p.last())[w.len() as int] == p[j]);
    } else {
        assert(t[j] == p[j]);
        lemma_without_socket_keeps(t, sid, j);
        let i = choose|i: int| 0 <= i < w.len() && w[i] == p[j];
        if p.last().socket_id != sid {
            assert(without_socket(p, sid) == w.push(p.last()));
            assert(w.push(p.last())[i] == p[j]);
        } else {
            assert(without_socket(p, sid) == w);
        }
    }
}

/// Removing a socket's entry keeps the sockets distinct.
pub proof fn lemma_without_socket_distinct(p: Seq<MemberView>, sid: Seq<char>)
    requires
        distinct_sockets(p),
    ensures
        distinct_sockets(without_socket(p, sid)),
    decreases p.len(),
{
    if p.len() > 0 {
        let t = p.drop_last();
        assert(distinct_sockets(t)) by {
            assert forall|i: int, j: int| 0 <= i < t.len() && 0 <= j < t.len() && i != j implies (#[trigger] t[i]).socket_id
                != (#[trigger] t[j]).socket_id by {
                assert(t[i] == p[i] && t[j] == p[j]);
            }
        }
        lemma_without_socket_distinct(t, sid);
        if p.last().socket_id != sid {
            let w = without_socket(t, sid);
            let v = w.push(p.last());
            assert forall|i: int, j: int| 0 <= i < v.len() && 0 <= j < v.len() && i != j implies (#[trigger] v[i]).socket_id
                != (#[trigger] v[j]).socket_id by {
                if i == w.len() || j == w.len() {
                    let o = if i == w.len() { j } else { i };
                    assert(v[o] == w[o]);
                    lemma_without_socket_member(t, sid, o);
                    let k = choose|k: int| 0 <= k < t.len() && t[k] == w[o];
                    assert(p[k] == t[k]);
                    assert(p[p.len() - 1] == p.last());
                    assert(p[k].socket_id != p[p.len() - 1].socket_id);
                } else {
                    assert(v[i] == w[i] && v[j] == w[j]);
                }
            }
        }
    }
}

/// Adding a subscriber keeps the list free of repeats and holds it.
pub proof fn lemma_add_subscriber(subs: Seq<Seq<char>>, sid: Seq<char>)
    requires
        distinct(subs),
    ensures
        distinct(add_subscriber(subs, sid)),
        add_subscriber(subs, sid).contains(sid),
        add_subscriber(subs, sid).len() > 0,
{
    if !subs.contains(sid) {
        let v = subs.push(sid);
        assert(v[subs.len() as int] == sid);
        assert forall|i: int, j: int| 0 <= i < v.len() && 0 <= j < v.len() && i != j implies v[i] != v[j] by {
            if i == subs.len() {
                assert(v[j] == subs[j]);
                if v[j] == sid {
                    assert(subs.contains(sid));
                }
            } else if j == subs.len() {
                assert(v[i] == subs[i]);
                if v[i] == sid {
                    assert(subs.contains(sid));
                }
            } else {
                assert(v[i] == subs[i] && v[j] == subs[j]);
            }
        }
    } else {
        let i = choose|i: int| 0 <= i < subs.len() && subs[i] == sid;
        assert(subs[i] == sid);
    }
}

/// A join keeps the members' sockets distinct.
pub proof fn lemma_members_after_join(c: ChannelView, m: MemberView)
    requires
        match c.presence {
            Some(p) => distinct_sockets(p),
            None => true,
        },
    ensures
        distinct_sockets(members_after_join(c, m)),
{
    let p = match c.presence {
        Some(p) => p,
        None => Seq::<MemberView>::empty(),
    };
    lemma_without_socket_distinct(p, m.socket_id);
    let w = without_socket(p, m.socket_id);
    let v = w.push(m);
    assert forall|i: int, j: int| 0 <= i < v.len() && 0 <= j < v.len() && i != j implies (#[trigger] v[i]).socket_id
        != (#[trigger] v[j]).socket_id by {
        if i == w.len() {
            assert(v[j] == w[j]);
            lemma_without_socket_member(p, m.socket_id, j);
        } else if j == w.len() {
            assert(v[i] == w[i]);
            lemma_without_socket_member(p, m.socket_id, i);
        } else {
            assert(v[i] == w[i] && v[j] == w[j]);
        }
    }
}

// ----- exec helpers -----

/// Whether the list holds `x`.
pub fn contains_str(v: &Vec<String>, x: &str) -> (r: bool)
    ensures
        r == string_views(v@).contains(x@),
{
    let mut i: usize = 0;
    while i < v.len()
        invariant
            i <= v@.len(),
            forall|j: int| 0 <= j < i ==> v@[j]@ != x@,
        decreases v.len() - i,
    {
        if bytes_equal(v[i].as_str().as_bytes(), x.as_bytes()) {
            proof {
                lemma_utf8_injective(v@[i as int]@, x@);
                assert(string_views(v@)[i as int] == x@);
            }
            return true;
        }
        i = i + 1;
    }
    proof {
        if string_views(v@).contains(x@) {
            let j = choose|j: int| 0 <= j < string_views(v@).len() && string_views(v@)[j] == x@;
            assert(v@[j]@ == x@);
        }
    }
    false
}

/// A copy of the list without `x`.
pub fn strings_without(v: &Vec<String>, x: &str) -> (r: Vec<String>)
    ensures
        string_views(r@) == without(string_views(v@), x@),
{
    let mut out: Vec<String> = Vec::new();
    let mut i: usize = 0;
    assert(string_views(v@).take(0) =~= Seq::<Seq<char>>::empty());
    assert(string_views(out@) =~= without(string_views(v@).take(0), x@));
    while i < v.len()
        invariant
            i <= v@.len(),
            string_views(out@) == without(string_views(v@).take(i as int), x@),
        decreases v.len() - i,
    {
        let ghost pre = string_views(v@).take(i as int);
        let ghost cur = string_views(v@).take(i + 1);
        assert(cur.drop_last() =~= pre);
        assert(cur.last() == v@[i as int]@);
        if bytes_equal(v[i].as_str().as_bytes(), x.as_bytes()) {
            proof {
                lemma_utf8_injective(v@[i as int]@, x@);
            }
        } else {
            let c = v[i].clone();
            out.push(c);
            proof {
                assert(string_views(out@) =~= without(pre, x@).push(v@[i as int]@));
            }
        }
        i = i + 1;
    }
    assert(string_views(v@).take(i as int) =~= string_views(v@));
    out
}

/// A copy of a member record.
pub fn copy_member(m: &PresenceMember) -> (r: PresenceMember)
    ensures
        r@ == m@,
{
    PresenceMember { socket_id: m.socket_id.clone(), user_id: m.user_id.clone(), user_info: m.user_info.clone() }
}

/// A copy of the member list without the entry of socket `sid`.
pub fn members_without(p: &Vec<PresenceMember>, sid: &str) -> (r: Vec<PresenceMember>)
    ensures
        member_views(r@) == without_socket(member_views(p@), sid@),
{
    let mut out: Vec<PresenceMember> = Vec::new();
    let mut i: usize = 0;
    assert(member_views(p@).take(0) =~= Seq::<MemberView>::empty());
    assert(member_views(out@) =~= without_socket(member_views(p@).take(0), sid@));
    while i < p.len()
        invariant
            i <= p@.len(),
            member_views(out@) == without_socket(member_views(p@).take(i as int), sid@),
        decreases p.len() - i,
    {
        let ghost pre = member_views(p@).take(i as int);
        let ghost cur = member_views(p@).take(i + 1);
        assert(cur.drop_last() =~= pre);
        assert(cur.last() == p@[i as int]@);
        if bytes_equal(p[i].socket_id.as_str().as_bytes(), sid.as_bytes()) {
            proof {
                lemma_utf8_injective(p@[i as int].socket_id@, sid@);
            }
        } else {
            let c = copy_member(&p[i]);
            out.push(c);
            proof {
                assert(member_views(out@) =~= without_socket(pre, sid@).push(p@[i as int]@));
            }
        }
        i = i + 1;
    }
    assert(member_views(p@).take(i as int) =~= member_views(p@));
    out
}

/// Whether some member carries the user id.
pub fn members_have_user(p: &Vec<PresenceMember>, uid: &str) -> (r: bool)
    ensures
        r == has_user(member_views(p@), uid@),
{
    let mut i: usize = 0;
    while i < p.len()
        invariant
            i <= p@.len(),
            forall|j: int| 0 <= j < i ==> p@[j].user_id@ != uid@,
        decreases p.len() - i,
    {
        if bytes_equal(p[i].user_id.as_str().as_bytes(), uid.as_bytes()) {
            proof {
                lemma_utf8_injective(p@[i as int].user_id@, uid@);
                assert(member_views(p@)[i as int].user_id == uid@);
            }
            return true;
        }
        i = i + 1;
    }
    proof {
        if has_user(member_views(p@), uid@) {
            let j = choose|j: int| 0 <= j < member_views(p@).len() && (#[trigger] member_views(p@)[j]).user_id == uid@;
            assert(member_views(p@)[j] == p@[j]@);
        }
    }
    false
}

/// The member entry of socket `sid`.
pub fn find_member(p: &Vec<PresenceMember>, sid: &str) -> (r: Option<PresenceMember>)
    ensures
        match r {
            Some(m) => member_of(member_views(p@), sid@) == Some(m@),
            None => member_of(member_views(p@), sid@) is None,
        },
{
    let mut i: usize = p.len();
    assert(member_views(p@).take(p@.len() as int) =~= member_views(p@));
    while i > 0
        invariant
            i <= p@.len(),
            member_of(member_views(p@), sid@) == member_of(member_views(p@).take(i as int), sid@),
        decreases i,
    {
        let ghost cur = member_views(p@).take(i as int);
        assert(cur.drop_last() =~= member_views(p@).take(i - 1));
        assert(cur.last() == p@[i - 1]@);
        if bytes_equal(p[i - 1].socket_id.as_str().as_bytes(), sid.as_bytes()) {
            proof {
                lemma_utf8_injective(p@[i - 1].socket_id@, sid@);
            }
            return Some(copy_member(&p[i - 1]));
        }
        i = i - 1;
    }
    assert(member_views(p@).take(0) =~= Seq::<MemberView>::empty());
    None
}

/// The copy of a list of strings.
pub fn copy_strings(v: &Vec<String>) -> (r: Vec<String>)
    ensures
        string_views(r@) == string_views(v@),
{
    let mut out: Vec<String> = Vec::new();
    let mut i: usize = 0;
    while i < v.len()
        invariant
            i <= v@.len(),
            out@.len() == i,
            forall|j: int| 0 <= j < i ==> out@[j]@ == v@[j]@,
        decreases v.len() - i,
    {
        out.push(v[i].clone());
        i = i + 1;
    }
    assert(string_views(out@) =~= string_views(v@));
    out
}

/// The outcome of a socket leaving a channel.
pub struct Departure {
    /// The user whose last socket left the presence channel.
    pub removed_user: Option<String>,
    /// The subscribers left in the channel.
    pub remaining: Vec<String>,
    /// Whether the channel is now empty and gone.
    pub vacated: bool,
}

/// The outcome of a member joining a presence channel.
pub struct PresenceJoin {
    /// Whether the channel was unoccupied before.
    pub first: bool,
    /// Whether the member's user was not there before.
    pub new_user: bool,
    /// The members afterwards.
    pub members: Vec<PresenceMember>,
    /// The subscribers afterwards.
    pub subscribers: Vec<String>,
}

impl State {
    /// The socket `sid` subscribes to channel `channel` of app `app_id`.
    /// Whether the channel was unoccupied before is handed back.
    pub fn join_channel(&mut self, app_id: &str, channel: &str, sid: &str) -> (first: bool)
        requires
            old(self).wf(),
        ensures
            final(self).wf(),
            channel_table(final(self).channels) == join_spec(channel_table(old(self).channels), (app_id@, channel@), sid@),
            first == !channel_table(old(self).channels).contains_key((app_id@, channel@)),
            final(self).apps == old(self).apps,
            final(self).limits == old(self).limits,
            final(self).metrics == old(self).metrics,
            final(self).connections == old(self).connections,
            final(self).socket_ids == old(self).socket_ids,
    {
        let key = (app_id.to_owned(), channel.to_owned());
        let ghost t = channel_table(self.channels);
        let ghost k = (app_id@, channel@);
        let cur = channel_get(&self.channels, &key);
        let (first, c) = match cur {
            Some(c) => (false, c),
            None => (true, ChannelState { subscribers: Vec::new(), presence: None }),
        };
        assert(c@ == channel_or_empty(t, k)) by {
            if !t.contains_key(k) {
                assert(string_views(c.subscribers@) =~= Seq::<Seq<char>>::empty());
            }
        }
        let mut subscribers = c.subscribers;
        if !contains_str(&subscribers, sid) {
            subscribers.push(sid.to_owned());
            assert(string_views(subscribers@) =~= string_views(c.subscribers@).push(sid@));
        }
        let next = ChannelState { subscribers, presence: c.presence };
        proof {
            if t.contains_key(k) {
                assert(channel_wf(t[k]));
            } else {
                assert(distinct(Seq::<Seq<char>>::empty()));
            }
            lemma_add_subscriber(channel_or_empty(t, k).subscribers, sid@);
        }
        channel_put(&mut self.channels, key, next);
        proof {
            let t2 = channel_table(self.channels);
            assert(t2 =~= join_spec(t, k, sid@));
            assert forall|kk: (Seq<char>, Seq<char>)| #[trigger] t2.contains_key(kk) implies channel_wf(t2[kk]) by {
                if kk != k {
                    assert(t.contains_key(kk));
                }
            }
        }
        first
    }

    /// Member `m` joins the presence channel `channel` of app `app_id` (its
    /// socket subscribes; an earlier entry of the same socket is replaced).
    pub fn join_presence(&mut self, app_id: &str, channel: &str, m: PresenceMember) -> (r: PresenceJoin)
        requires
            old(self).wf(),
        ensures
            final(self).wf(),
            channel_table(final(self).channels) == join_presence_spec(channel_table(old(self).channels), (app_id@, channel@), m@),
            r.first == !channel_table(old(self).channels).contains_key((app_id@, channel@)),
            r.new_user == joins_new_user(channel_table(old(self).channels), (app_id@, channel@), m@),
            Some(member_views(r.members@)) == channel_table(final(self).channels)[(app_id@, channel@)].presence,
            string_views(r.subscribers@) == channel_table(final(self).channels)[(app_id@, channel@)].subscribers,
            final(self).apps == old(self).apps,
            final(self).limits == old(self).limits,
            final(self).metrics == old(self).metrics,
            final(self).connections == old(self).connections,
            final(self).socket_ids == old(self).socket_ids,
    {
        let key = (app_id.to_owned(), channel.to_owned());
        let ghost t = channel_table(self.channels);
        let ghost k = (app_id@, channel@);
        let ghost mv = m@;
        let cur = channel_get(&self.channels, &key);
        let (first, c) = match cur {
            Some(c) => (false, c),
            None => (true, ChannelState { subscribers: Vec::new(), presence: None }),
        };
        assert(c@ == channel_or_empty(t, k)) by {
            if !t.contains_key(k) {
                assert(string_views(c.subscribers@) =~= Seq::<Seq<char>>::empty());
            }
        }
        let mut subscribers = c.subscribers;
        if !contains_str(&subscribers, m.socket_id.as_str()) {
            subscribers.push(m.socket_id.clone());
            assert(string_views(subscribers@) =~= string_views(c.subscribers@).push(mv.socket_id));
        }
        let old_members: Vec<PresenceMember> = match c.presence {
            Some(p) => p,
            None => Vec::new(),
        };
        assert(member_views(old_members@) == match channel_or_empty(t, k).presence {
            Some(p) => p,
            None => Seq::<MemberView>::empty(),
        }) by {
            if channel_or_empty(t, k).presence is None {
                assert(member_views(old_members@) =~= Seq::<MemberView>::empty());
            }
        }
        let new_user = !members_have_user(&old_members, m.user_id.as_str());
        let mut members = members_without(&old_members, m.socket_id.as_str());
        let mc = copy_member(&m);
        members.push(mc);
        let ghost pv = member_views(members@);
        assert(pv =~= members_after_join(channel_or_empty(t, k), mv));
        let members_out = copy_members(&members);
        let subscribers_out = copy_strings(&subscribers);
        let next = ChannelState { subscribers, presence: Some(members) };
        proof {
            if t.contains_key(k) {
                assert(channel_wf(t[k]));
            } else {
                assert(distinct(Seq::<Seq<char>>::empty()));
            }
            lemma_add_subscriber(channel_or_empty(t, k).subscribers, mv.socket_id);
            lemma_members_after_join(channel_or_empty(t, k), mv);
        }
        channel_put(&mut self.channels, key, next);
        proof {
            let t2 = channel_table(self.channels);
            assert(t2 =~= join_presence_spec(t, k, mv));
            assert forall|kk: (Seq<char>, Seq<char>)| #[trigger] t2.contains_key(kk) implies channel_wf(t2[kk]) by {
                if kk != k {
                    assert(t.contains_key(kk));
                }
            }
        }
        PresenceJoin { first, new_user, members: members_out, subscribers: subscribers_out }
    }

    /// The socket `sid` leaves channel `channel` of app `app_id`; an emptied
    /// channel is removed.
    pub fn leave_channel(&mut self, app_id: &str, channel: &str, sid: &str) -> (r: Departure)
        requires
            old(self).wf(),
        ensures
            final(self).wf(),
            channel_table(final(self).channels) == leave_spec(channel_table(old(self).channels), (app_id@, channel@), sid@),
            r.vacated == (channel_table(old(self).channels).contains_key((app_id@, channel@))
                && !channel_table(final(self).channels).contains_key((app_id@, channel@))),
            match r.removed_user {
                Some(u) => departing_user(channel_table(old(self).channels), (app_id@, channel@), sid@) == Some(u@),
                None => departing_user(channel_table(old(self).channels), (app_id@, channel@), sid@) is None,
            },
            channel_table(old(self).channels).contains_key((app_id@, channel@)) ==> string_views(r.remaining@) == without(
                channel_table(old(self).channels)[(app_id@, channel@)].subscribers,
                sid@,
            ),
            final(self).apps == old(self).apps,
            final(self).limits == old(self).limits,
            final(self).metrics == old(self).metrics,
            final(self).connections == old(self).connections,
            final(self).socket_ids == old(self).socket_ids,
    {
        let key = (app_id.to_owned(), channel.to_owned());
        let ghost t = channel_table(self.channels);
        let ghost k = (app_id@, channel@);
        let cur = channel_get(&self.channels, &key);
        let c = match cur {
            Some(c) => c,
            None => {
                return Departure { removed_user: None, remaining: Vec::new(), vacated: false };
            },
        };
        proof {
            assert(channel_wf(t[k]));
        }
        let subscribers = strings_without(&c.subscribers, sid);
        let mut removed_user: Option<String> = None;
        let presence: Option<Vec<PresenceMember>> = match c.presence {
            Some(p) => {
                let rest = members_without(&p, sid);
                match find_member(&p, sid) {
                    Some(m) => {
                        if !members_have_user(&rest, m.user_id.as_str()) {
                            removed_user = Some(m.user_id);
                        }
                    },
                    None => {},
                }
                Some(rest)
            },
            None => None,
        };
        let ghost cv = channel_after_leave(t[k], sid@);
        let remaining = copy_strings(&subscribers);
        proof {
            lemma_without_distinct(t[k].subscribers, sid@);
            match t[k].presence {
                Some(p) => lemma_without_socket_distinct(p, sid@),
                None => {},
            }
        }
        if subscribers.len() == 0 {
            channel_remove(&mut self.channels, &key);
            proof {
                let t2 = channel_table(self.channels);
                assert(t2 =~= leave_spec(t, k, sid@));
                assert forall|kk: (Seq<char>, Seq<char>)| #[trigger] t2.contains_key(kk) implies channel_wf(t2[kk]) by {
                    assert(t.contains_key(kk));
                }
            }
            Departure { removed_user, remaining, vacated: true }
        } else {
            let next = ChannelState { subscribers, presence };
            assert(next@ == cv);
            channel_put(&mut self.channels, key, next);
            proof {
                let t2 = channel_table(self.channels);
                assert(t2 =~= leave_spec(t, k, sid@));
                assert forall|kk: (Seq<char>, Seq<char>)| #[trigger] t2.contains_key(kk) implies channel_wf(t2[kk]) by {
                    if kk != k {
                        assert(t.contains_key(kk));
                    }
                }
            }
            Departure { removed_user, remaining, vacated: false }
        }
    }
}

/// The copy of a member list.
pub fn copy_members(v: &Vec<PresenceMember>) -> (r: Vec<PresenceMember>)
    ensures
        member_views(r@) == member_views(v@),
{
    let mut out: Vec<PresenceMember> = Vec::new();
    let mut i: usize = 0;
    while i < v.len()
        invariant
            i <= v@.len(),
            out@.len() == i,
            forall|j: int| 0 <= j < i ==> out@[j]@ == v@[j]@,
        decreases v.len() - i,
    {
        out.push(copy_member(&v[i]));
        i = i + 1;
    }
    assert(member_views(out@) =~= member_views(v@));
    out
}

} // verus!
