//! What the channel operations promise of each other.

use vstd::prelude::*;

use crate::addr::Addr;

use super::map::{
    added_channel, has_name, joined, last_named, left, left_everywhere, lemma_name_index, loaded_from, name_index,
    named, removed_channel, well_formed,
};
use super::{
    addrs_distinct, drop_addr, first_by_addr, holds_addr, law_first_by_addr_keeps_distinct, lemma_addr_index, with_connections,
    ChannelView, ConnView,
};

verus! {

/// After a channel is created it exists; one that existed already is kept
/// as it was.
pub proof fn law_create_then_exists(s: Seq<ChannelView>, name: Seq<char>, auth: Option<Seq<char>>, presence: bool)
    requires
        well_formed(s),
    ensures
        has_name(added_channel(s, name, auth, presence), name),
        well_formed(added_channel(s, name, auth, presence)),
        has_name(s, name) ==> named(added_channel(s, name, auth, presence), name) == named(s, name),
        !has_name(s, name) ==> named(added_channel(s, name, auth, presence), name) == (ChannelView {
            name,
            auth,
            presence,
            connections: Seq::empty(),
        }),
{
    let t = added_channel(s, name, auth, presence);
    if !has_name(s, name) {
        assert(t[s.len() as int].name == name);
        assert forall|x: int, y: int| 0 <= x < y < t.len() implies t[x].name != t[y].name by {
            if y < s.len() {
                assert(t[x] == s[x] && t[y] == s[y]);
            } else {
                assert(t[x] == s[x]);
            }
        }
        lemma_name_index(t, name, s.len() as int);
        assert forall|i: int| 0 <= i < t.len() implies addrs_distinct(#[trigger] t[i].connections) by {
            if i < s.len() {
                assert(t[i] == s[i]);
            }
        }
    }
}

/// Creating a channel twice is creating it once.
pub proof fn law_create_idempotent(
    s: Seq<ChannelView>,
    name: Seq<char>,
    auth: Option<Seq<char>>,
    presence: bool,
    auth2: Option<Seq<char>>,
    presence2: bool,
)
    requires
        well_formed(s),
    ensures
        added_channel(added_channel(s, name, auth, presence), name, auth2, presence2) == added_channel(s, name, auth, presence),
{
    law_create_then_exists(s, name, auth, presence);
}

/// After a channel is deleted it does not exist, and the other channels stay.
pub proof fn law_delete_then_gone(s: Seq<ChannelView>, name: Seq<char>)
    requires
        well_formed(s),
    ensures
        !has_name(removed_channel(s, name), name),
        forall|n: Seq<char>| n != name ==> (has_name(removed_channel(s, name), n) <==> has_name(s, n)),
{
    if has_name(s, name) {
        let i = name_index(s, name);
        let t = s.remove(i);
        assert forall|j: int| 0 <= j < t.len() implies t[j].name != name by {
            if j < i {
                assert(t[j] == s[j]);
            } else {
                assert(t[j] == s[j + 1]);
            }
        }
        assert forall|n: Seq<char>| n != name implies (has_name(t, n) <==> has_name(s, n)) by {
            if has_name(s, n) {
                let k = choose|k: int| 0 <= k < s.len() && s[k].name == n;
                if k < i {
                    assert(t[k] == s[k]);
                } else {
                    assert(t[k - 1] == s[k]);
                }
            }
            if has_name(t, n) {
                let k = choose|k: int| 0 <= k < t.len() && t[k].name == n;
                if k < i {
                    assert(t[k] == s[k]);
                } else {
                    assert(t[k] == s[k + 1]);
                }
            }
        }
    }
}

/// A connection that joins a channel is in it afterwards; after it leaves
/// again, the channels are as they were before it joined.
pub proof fn law_join_then_leave(s: Seq<ChannelView>, name: Seq<char>, c: ConnView)
    requires
        well_formed(s),
        has_name(s, name),
        !holds_addr(named(s, name).connections, c.addr),
    ensures
        holds_addr(named(joined(s, name, c), name).connections, c.addr),
        left(joined(s, name, c), name, c.addr) == s,
{
    let i = name_index(s, name);
    let ch = s[i];
    let conns = ch.connections.push(c);
    let t = joined(s, name, c);
    assert(t[i].name == name);
    assert forall|x: int, y: int| 0 <= x < y < t.len() implies t[x].name != t[y].name by {
        assert(t[x].name == s[x].name && t[y].name == s[y].name);
    }
    lemma_name_index(t, name, i);
    assert(conns[conns.len() - 1].addr == c.addr);
    assert forall|x: int, y: int| 0 <= x < y < conns.len() implies conns[x].addr != conns[y].addr by {
        if y == conns.len() - 1 {
            assert(conns[x] == ch.connections[x]);
        }
    }
    lemma_addr_index(conns, c.addr, conns.len() - 1);
    assert(drop_addr(conns, c.addr) =~= ch.connections);
    assert(with_connections(ch, ch.connections) == ch);
    assert(left(t, name, c.addr) =~= s);
}

/// After a connection leaves a channel it is not in it, and the other
/// connections stay.
pub proof fn law_leave_then_absent(s: Seq<ChannelView>, name: Seq<char>, a: Addr)
    requires
        well_formed(s),
        has_name(s, name),
    ensures
        !holds_addr(named(left(s, name, a), name).connections, a),
        forall|b: Addr| b != a ==> (holds_addr(named(left(s, name, a), name).connections, b) <==> holds_addr(named(s, name).connections, b)),
{
    let i = name_index(s, name);
    let t = left(s, name, a);
    super::lemma_drop_addr(s[i].connections, a);
    assert forall|x: int, y: int| 0 <= x < y < t.len() implies t[x].name != t[y].name by {
        assert(t[x].name == s[x].name && t[y].name == s[y].name);
    }
    lemma_name_index(t, name, i);
}

/// After a connection leaves all channels it is in none of them; every
/// channel keeps its name, settings and other connections.
pub proof fn law_leave_everywhere(s: Seq<ChannelView>, a: Addr)
    requires
        well_formed(s),
    ensures
        left_everywhere(s, a).len() == s.len(),
        forall|i: int| 0 <= i < s.len() ==> !holds_addr(#[trigger] left_everywhere(s, a)[i].connections, a),
        forall|i: int| 0 <= i < s.len() ==> (#[trigger] left_everywhere(s, a)[i]).name == s[i].name
            && left_everywhere(s, a)[i].auth == s[i].auth && left_everywhere(s, a)[i].presence == s[i].presence,
        forall|i: int, b: Addr| 0 <= i < s.len() && b != a ==> (#[trigger] holds_addr(left_everywhere(s, a)[i].connections, b)
            <==> holds_addr(s[i].connections, b)),
        well_formed(left_everywhere(s, a)),
{
    let t = left_everywhere(s, a);
    assert forall|i: int| 0 <= i < s.len() implies !holds_addr(#[trigger] t[i].connections, a)
        && addrs_distinct(t[i].connections)
        && (forall|b: Addr| b != a ==> (holds_addr(t[i].connections, b) <==> holds_addr(s[i].connections, b))) by {
        super::lemma_drop_addr(s[i].connections, a);
    }
}

/// Loading keeps each channel as it was stored last under its name: when the
/// stored channel's connections have distinct addresses (as they always do
/// in a channel), the loaded channel of that name is exactly the stored one.
pub proof fn law_loaded_as_stored(s: Seq<ChannelView>, stored: Seq<ChannelView>, j: int)
    requires
        loaded_from(s, stored),
        last_named(stored, j, stored[j].name),
        addrs_distinct(stored[j].connections),
    ensures
        has_name(s, stored[j].name),
        named(s, stored[j].name) == stored[j],
{
    let name = stored[j].name;
    assert(has_name(s, name));
    let k = choose|k: int| 0 <= k < s.len() && s[k].name == name;
    lemma_name_index(s, name, k);
    let j2 = choose|j2: int| last_named(stored, j2, s[k].name)
        && s[k] == with_connections(stored[j2], first_by_addr(stored[j2].connections));
    assert(j2 == j) by {
        if j2 < j {
            assert(stored[j].name != name);
        } else if j < j2 {
            assert(stored[j2].name != name);
        }
    }
    law_first_by_addr_keeps_distinct(stored[j].connections);
    assert(s[k] == stored[j]);
}

/// Loading gives exactly the stored names: a channel is in the loaded map
/// if and only if some stored channel has its name.
pub proof fn law_loaded_names(s: Seq<ChannelView>, stored: Seq<ChannelView>)
    requires
        loaded_from(s, stored),
    ensures
        forall|name: Seq<char>| has_name(s, name) <==> exists|i: int| 0 <= i < stored.len() && #[trigger] stored[i].name == name,
{
    assert forall|name: Seq<char>| has_name(s, name) implies exists|i: int| 0 <= i < stored.len() && #[trigger] stored[i].name == name by {
        let k = choose|k: int| 0 <= k < s.len() && s[k].name == name;
        let j = choose|j: int| last_named(stored, j, s[k].name)
            && s[k] == with_connections(stored[j], first_by_addr(stored[j].connections));
        assert(stored[j].name == name);
    }
}

} // verus!
