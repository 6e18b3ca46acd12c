//! The presence roster sent on a successful presence subscription:
//! `{"presence":{"count":N,"hash":{user_id:user_info,...},"ids":[...]}}`,
//! each user once (its first member entry), `hash` in key order.

use vstd::prelude::*;
use crate::bytes::{utf8, decimal, push_decimal};
use crate::json::{json_str, push_json_str, push_text};
use crate::query::{Query, lookup, sorted_entries};
use crate::state::{MemberView, PresenceMember, member_views, string_views};
use crate::channels::contains_str;

verus! {

/// The users of a member list, each once, in order of first appearance.
pub open spec fn user_ids(p: Seq<MemberView>) -> Seq<Seq<char>>
    decreases p.len(),
{
    if p.len() == 0 {
        seq![]
    } else {
        let r = user_ids(p.drop_last());
        if r.contains(p.last().user_id) {
            r
        } else {
            r.push(p.last().user_id)
        }
    }
}

/// The `user_info` of a user's first member entry.
pub open spec fn first_info(p: Seq<MemberView>, uid: Seq<char>) -> Option<Seq<char>>
    decreases p.len(),
{
    if p.len() == 0 {
        None
    } else {
        match first_info(p.drop_last(), uid) {
            Some(x) => Some(x),
            None => if p.last().user_id == uid {
                Some(p.last().user_info)
            } else {
                None
            },
        }
    }
}

/// Items joined by `,`.
pub open spec fn json_list(items: Seq<Seq<u8>>) -> Seq<u8>
    decreases items.len(),
{
    if items.len() == 0 {
        seq![]
    } else if items.len() == 1 {
        items[0]
    } else {
        json_list(items.drop_last()) + seq![44u8] + items.last()
    }
}

/// Quoted user ids.
pub open spec fn quoted(ids: Seq<Seq<char>>) -> Seq<Seq<u8>> {
    ids.map_values(|u: Seq<char>| json_str(utf8(u)))
}

/// `"key":value` members of a JSON object whose values are JSON text.
pub open spec fn object_members(h: Seq<(Seq<char>, Seq<char>)>) -> Seq<Seq<u8>> {
    h.map_values(|e: (Seq<char>, Seq<char>)| json_str(utf8(e.0)) + seq![58u8] + utf8(e.1))
}

/// The roster document for the given users and `hash` listing.
pub open spec fn roster_json(ids: Seq<Seq<char>>, h: Seq<(Seq<char>, Seq<char>)>) -> Seq<u8> {
    utf8("{\"presence\":{\"count\":"@) + decimal(ids.len()) + utf8(",\"hash\":{"@) + json_list(object_members(h))
        + utf8("},\"ids\":["@) + json_list(quoted(ids)) + utf8("]}}"@)
}

/// `r` is the roster of the member list: its users in order of first
/// appearance, and `hash` listing each user's first `user_info` in key order.
pub open spec fn is_roster_of(p: Seq<MemberView>, r: Seq<u8>) -> bool {
    exists|h: Seq<(Seq<char>, Seq<char>)>|
        sorted_entries(h) && (forall|k: Seq<char>| #[trigger] lookup(h, k) == first_info(p, k)) && r == roster_json(
            user_ids(p),
            h,
        )
}

proof fn lemma_user_ids_step(p: Seq<MemberView>)
    requires
        p.len() > 0,
    ensures
        forall|k: Seq<char>|
            #[trigger] user_ids(p).contains(k) <==> (user_ids(p.drop_last()).contains(k) || p.last().user_id == k),
{
    let r = user_ids(p.drop_last());
    assert forall|k: Seq<char>| #[trigger] user_ids(p).contains(k) <==> (r.contains(k) || p.last().user_id == k) by {
        if !r.contains(p.last().user_id) {
            let v = r.push(p.last().user_id);
            if v.contains(k) && k != p.last().user_id {
                let i = choose|i: int| 0 <= i < v.len() && v[i] == k;
                assert(r[i] == k);
            }
            if r.contains(k) {
                let i = choose|i: int| 0 <= i < r.len() && r[i] == k;
                assert(v[i] == k);
            }
            assert(v[r.len() as int] == p.last().user_id);
        }
    }
}

/// The users of a member list, each once, in order of first appearance.
pub fn user_list(members: &Vec<PresenceMember>) -> (ids: Vec<String>)
    ensures
        string_views(ids@) == user_ids(member_views(members@)),
{
    let ghost p = member_views(members@);
    let mut ids: Vec<String> = Vec::new();
    let mut i: usize = 0;
    assert(p.take(0) =~= Seq::<MemberView>::empty());
    while i < members.len()
        invariant
            i <= members@.len(),
            p == member_views(members@),
            string_views(ids@) == user_ids(p.take(i as int)),
        decreases members.len() - i,
    {
        let ghost pre = p.take(i as int);
        let ghost cur = p.take(i + 1);
        assert(cur.drop_last() =~= pre);
        assert(cur.last() == members@[i as int]@);
        let m = &members[i];
        if !contains_str(&ids, m.user_id.as_str()) {
            let ghost before = ids@;
            ids.push(m.user_id.clone());
            assert(string_views(ids@) =~= string_views(before).push(m.user_id@));
        }
        i = i + 1;
    }
    assert(p.take(i as int) =~= p);
    ids
}

/// Appends items joined by `,`.
pub fn push_list_item(out: &mut Vec<u8>, base: Ghost<Seq<u8>>, items: Ghost<Seq<Seq<u8>>>, first: bool, item: &[u8])
    requires
        old(out)@ == base@ + json_list(items@),
        first == (items@.len() == 0),
    ensures
        final(out)@ == base@ + json_list(items@.push(item@)),
{
    let ghost v = items@.push(item@);
    assert(v.drop_last() =~= items@);
    if !first {
        out.push(44u8);
    }
    let ghost mid = out@;
    crate::bytes::append_bytes(out, item);
    proof {
        if items@.len() == 0 {
            assert(json_list(v) == v[0]);
        }
        assert(out@ =~= base@ + json_list(v));
    }
}

/// The presence roster of a member list.
pub fn roster(members: &Vec<PresenceMember>) -> (r: Vec<u8>)
    ensures
        is_roster_of(member_views(members@), r@),
{
    let ghost p = member_views(members@);
    let mut ids: Vec<String> = Vec::new();
    let mut hash = Query::new();
    let mut i: usize = 0;
    assert(p.take(0) =~= Seq::<MemberView>::empty());
    while i < members.len()
        invariant
            i <= members@.len(),
            p == member_views(members@),
            hash.wf(),
            string_views(ids@) == user_ids(p.take(i as int)),
            forall|k: Seq<char>| #[trigger] lookup(hash@, k) == first_info(p.take(i as int), k),
            forall|k: Seq<char>| #[trigger] user_ids(p.take(i as int)).contains(k) <==> first_info(p.take(i as int), k) is Some,
        decreases members.len() - i,
    {
        let ghost pre = p.take(i as int);
        let ghost cur = p.take(i + 1);
        assert(cur.drop_last() =~= pre);
        assert(cur.last() == members@[i as int]@);
        let m = &members[i];
        proof {
            lemma_user_ids_step(cur);
        }
        if hash.get(m.user_id.as_str()).is_none() {
            ids.push(m.user_id.clone());
            let _ = hash.insert(m.user_id.clone(), m.user_info.clone());
            proof {
                assert(!user_ids(pre).contains(m.user_id@));
                assert(string_views(ids@) =~= user_ids(pre).push(m.user_id@));
            }
        }
        proof {
            assert forall|k: Seq<char>| #[trigger] lookup(hash@, k) == first_info(cur, k) by {}
            assert forall|k: Seq<char>| #[trigger] user_ids(cur).contains(k) <==> first_info(cur, k) is Some by {}
        }
        i = i + 1;
    }
    assert(p.take(i as int) =~= p);
    let mut out: Vec<u8> = Vec::new();
    push_text(&mut out, "{\"presence\":{\"count\":");
    push_decimal(&mut out, ids.len() as u64);
    push_text(&mut out, ",\"hash\":{");
    let ghost head = out@;
    let ghost h = hash@;
    let mut j: usize = 0;
    assert(object_members(h).take(0) =~= Seq::<Seq<u8>>::empty());
    while j < hash.len()
        invariant
            j <= h.len(),
            h == hash@,
            out@ == head + json_list(object_members(h).take(j as int)),
        decreases h.len() - j,
    {
        let mut item: Vec<u8> = Vec::new();
        push_json_str(&mut item, hash.key_at(j).as_str().as_bytes());
        item.push(58u8);
        crate::bytes::append_bytes(&mut item, hash.value_at(j).as_str().as_bytes());
        assert(item@ == object_members(h)[j as int]);
        assert(object_members(h).take(j + 1) =~= object_members(h).take(j as int).push(item@));
        push_list_item(&mut out, Ghost(head), Ghost(object_members(h).take(j as int)), j == 0, item.as_slice());
        j = j + 1;
    }
    assert(object_members(h).take(j as int) =~= object_members(h));
    push_text(&mut out, "},\"ids\":[");
    let ghost head2 = out@;
    let ghost ids_v = string_views(ids@);
    let mut k: usize = 0;
    assert(quoted(ids_v).take(0) =~= Seq::<Seq<u8>>::empty());
    while k < ids.len()
        invariant
            k <= ids_v.len(),
            ids_v == string_views(ids@),
            out@ == head2 + json_list(quoted(ids_v).take(k as int)),
        decreases ids_v.len() - k,
    {
        let mut item: Vec<u8> = Vec::new();
        push_json_str(&mut item, ids[k].as_str().as_bytes());
        assert(item@ == quoted(ids_v)[k as int]);
        assert(quoted(ids_v).take(k + 1) =~= quoted(ids_v).take(k as int).push(item@));
        push_list_item(&mut out, Ghost(head2), Ghost(quoted(ids_v).take(k as int)), k == 0, item.as_slice());
        k = k + 1;
    }
    assert(quoted(ids_v).take(k as int) =~= quoted(ids_v));
    push_text(&mut out, "]}}");
    assert(out@ =~= roster_json(user_ids(p), h));
    out
}

} // verus!
