//! Update aggregation: merging an ordered sequence of per-host snapshots
//! into one canonical host state.
//!
//! Each snapshot ([`Update`]) wraps one observed [`Host`].  Aggregation keeps
//! the first snapshot's identity (name, cluster, addresses) and replaces its
//! collections by the union of everything observed, sorted under the total
//! orders of [`crate::order`] and with exact duplicates removed.  Only exact
//! structural duplicates are dropped: a process re-observed under another pid
//! stays a distinct entry.

use vstd::multiset::Multiset;
use vstd::prelude::*;
use vstd::relations::sorted_by;
use vstd::seq_lib::lemma_multiset_commutative;
use vstd::seq_lib::lemma_sorted_unique;

use crate::host::{Connection, ConnectionV, Host, HostV, ListeningSocket, ListeningSocketV};
use crate::net::IpAddr;
use crate::order::{
    conn_eq_exec, conn_le, conn_le_exec, conn_leq, lemma_conn_le_total_ordering,
    lemma_listen_le_total_ordering, listen_eq_exec, listen_le, listen_le_exec, listen_leq,
};

verus! {

/// One timed snapshot of a host's state.
#[derive(Debug)]
pub struct Update {
    pub host: Host,
}

impl View for Update {
    type V = HostV;

    open spec fn view(&self) -> HostV {
        self.host@
    }
}

impl DeepView for Update {
    type V = HostV;

    open spec fn deep_view(&self) -> HostV {
        self@
    }
}

impl Clone for Update {
    fn clone(&self) -> (res: Self)
        ensures
            res@ == self@,
    {
        Update { host: self.host.clone() }
    }
}

impl Update {
    pub fn new(host: Host) -> (r: Self)
        ensures
            r@ == host@,
    {
        Update { host }
    }
}

/// What one remote client has reported: its identity and the updates
/// received from it so far.
#[derive(Debug)]
pub struct Client {
    pub hostname: String,
    pub pretty_name: Option<String>,
    /// The client's local IP addresses.
    pub ips: Vec<IpAddr>,
    /// The updates received from the client.
    pub updates: Vec<Update>,
}

impl Client {
    /// The snapshots received so far, as host views.
    pub open spec fn updates_view(&self) -> Seq<HostV> {
        self.updates.deep_view()
    }

    pub fn new(hostname: String, pretty_name: Option<String>, ips: Vec<IpAddr>) -> (r: Self)
        ensures
            r.hostname == hostname,
            r.pretty_name == pretty_name,
            r.ips == ips,
            r.updates_view() == Seq::<HostV>::empty(),
    {
        let r = Client { ips, updates: Vec::new(), hostname, pretty_name };
        proof {
            assert(r.updates_view() =~= Seq::<HostV>::empty());
        }
        r
    }

    /// Record one more snapshot.
    pub fn add_update(&mut self, update: Update)
        ensures
            final(self).updates_view() == old(self).updates_view().push(update@),
            final(self).hostname == old(self).hostname,
            final(self).pretty_name == old(self).pretty_name,
            final(self).ips == old(self).ips,
    {
        let ghost uv = update@;
        self.updates.push(update);
        proof {
            assert(self.updates_view() =~= old(self).updates_view().push(uv));
        }
    }

    /// The snapshots received so far.
    pub fn updates(&self) -> (r: &Vec<Update>)
        ensures
            r.deep_view() == self.updates_view(),
    {
        &self.updates
    }
}

/// One host's raw capture, by platform.
#[derive(Debug, Clone)]
pub enum HostData {
    LinuxHostData(crate::parsers::linux::LinuxHostRawData),
    WindowsHostData(crate::parsers::windows::WindowsHostRawData),
}

impl HostData {
    /// Build the host the capture describes, whichever platform it came
    /// from.
    pub fn into_host(self) -> (h: Host)
        ensures
            match self {
                HostData::LinuxHostData(d) => h@ == (HostV {
                    name: d.hostname@,
                    cluster_id: crate::host::cluster_id_of(d.hostname@),
                    listening_sockets: crate::parsers::linux::linux_raw_listens(d),
                    connections: crate::parsers::linux::linux_raw_conns(d),
                    ips: crate::parsers::linux::ips_extended(
                        seq![
                            crate::net::IpAddr::V4(0x7f00_0001u32),
                            crate::net::IpAddr::V6(1u128),
                        ],
                        d.ips@,
                        d.ips@.len() as int,
                    ),
                }),
                HostData::WindowsHostData(d) => h@ == (HostV {
                    name: d.hostname@,
                    cluster_id: crate::host::cluster_id_of(d.hostname@),
                    listening_sockets: crate::parsers::windows::win_raw_listens(d),
                    connections: crate::parsers::windows::win_raw_conns(d),
                    ips: crate::parsers::linux::ips_extended(
                        seq![
                            crate::net::IpAddr::V4(0x7f00_0001u32),
                            crate::net::IpAddr::V6(1u128),
                        ],
                        d.ips@,
                        d.ips@.len() as int,
                    ),
                }),
            },
    {
        match self {
            HostData::LinuxHostData(d) => d.into_host(),
            HostData::WindowsHostData(d) => d.into_host(),
        }
    }
}

/// The one failure of the aggregator: it was given no updates.
#[derive(Clone, Copy, PartialEq, Eq, Structural, Debug)]
pub enum AggregateError {
    EmptyInput,
}

/// Every connection observed in the first `upto` snapshots.
pub open spec fn union_connections(updates: Seq<HostV>, upto: int) -> Set<ConnectionV>
    decreases upto,
{
    if upto <= 0 {
        Set::empty()
    } else {
        union_connections(updates, upto - 1).union(updates[upto - 1].connections.to_set())
    }
}

/// Every listening socket observed in the first `upto` snapshots.
pub open spec fn union_listening(updates: Seq<HostV>, upto: int) -> Set<ListeningSocketV>
    decreases upto,
{
    if upto <= 0 {
        Set::empty()
    } else {
        union_listening(updates, upto - 1).union(updates[upto - 1].listening_sockets.to_set())
    }
}

/// Inserting anywhere into a sequence adds one occurrence to its multiset.
proof fn lemma_insert_multiset<A>(s: Seq<A>, i: int, x: A)
    requires
        0 <= i <= s.len(),
    ensures
        s.insert(i, x).to_multiset() == s.to_multiset().insert(x),
{
    broadcast use vstd::seq_lib::group_to_multiset_ensures;

    let l = s.take(i);
    let r = s.skip(i);
    assert(s.insert(i, x) =~= l + (seq![x] + r));
    assert(s =~= l + r);
    lemma_multiset_commutative(l, seq![x] + r);
    lemma_multiset_commutative(seq![x], r);
    lemma_multiset_commutative(l, r);
    assert(seq![x] =~= Seq::<A>::empty().push(x));
    assert(seq![x].to_multiset() =~= Multiset::<A>::empty().insert(x));
    assert(s.insert(i, x).to_multiset() =~= s.to_multiset().insert(x));
}

/// Adding one occurrence to a sequence's multiset inserts the element into
/// its set of values.
proof fn lemma_to_set_after_insert<A>(s1: Seq<A>, s2: Seq<A>, x: A)
    requires
        s2.to_multiset() == s1.to_multiset().insert(x),
    ensures
        s2.to_set() == s1.to_set().insert(x),
{
    broadcast use vstd::seq_lib::group_to_multiset_ensures;
    broadcast use vstd::multiset::group_multiset_axioms;

    assert forall|e: A| s2.to_set().contains(e) <==> s1.to_set().insert(x).contains(e) by {
        assert(s2.contains(e) <==> s2.to_multiset().count(e) > 0);
        assert(s1.contains(e) <==> s1.to_multiset().count(e) > 0);
        assert(s2.to_multiset().count(e) == s1.to_multiset().insert(x).count(e));
    }
    assert(s2.to_set() =~= s1.to_set().insert(x));
}

/// Pushing an element onto a sequence inserts it into the sequence's set.
proof fn lemma_push_to_set<A>(sq: Seq<A>, elt: A)
    ensures
        sq.push(elt).to_set() == sq.to_set().insert(elt),
{
    assert(sq.push(elt) =~= sq + seq![elt]);
    Seq::lemma_to_set_insert_commutes(sq, elt);
    assert(sq.push(elt).to_set() =~= sq.to_set().insert(elt));
}

/// Insert one connection into a sorted vector, keeping it sorted.
fn insert_conn_sorted(out: &mut Vec<Connection>, x: Connection)
    requires
        sorted_by(old(out).deep_view(), conn_leq()),
    ensures
        sorted_by(final(out).deep_view(), conn_leq()),
        final(out).deep_view().to_multiset() == old(out).deep_view().to_multiset().insert(x@),
        final(out).deep_view().to_set() == old(out).deep_view().to_set().insert(x@),
{
    proof {
        lemma_conn_le_total_ordering();
    }
    let ghost leq = conn_leq();
    let ghost dv = out.deep_view();
    let mut pos: usize = 0;
    while pos < out.len() && conn_le_exec(&out[pos], &x)
        invariant
            0 <= pos <= out@.len(),
            out.deep_view() == dv,
            leq == conn_leq(),
            forall|k: int| 0 <= k < pos ==> leq(dv[k], x@),
        decreases out@.len() - pos,
    {
        proof {
            assert(out@[pos as int]@ == dv[pos as int]);
            assert(leq(dv[pos as int], x@) == conn_le(dv[pos as int], x@));
        }
        pos += 1;
    }
    proof {
        if pos < out@.len() {
            assert(out@[pos as int]@ == dv[pos as int]);
            assert(!conn_le(dv[pos as int], x@));
            assert(leq(dv[pos as int], x@) || leq(x@, dv[pos as int]));
            assert(leq(x@, dv[pos as int]));
        }
    }
    out.insert(pos, x);
    proof {
        assert(out.deep_view() =~= dv.insert(pos as int, x@));
        let nv = out.deep_view();
        assert forall|i: int, j: int| 0 <= i < j < nv.len() implies leq(nv[i], nv[j]) by {
            dv.insert_ensures(pos as int, x@);
            if i < pos && j == pos {
                assert(nv[i] == dv[i]);
                assert(nv[j] == x@);
            } else if i == pos && j > pos {
                assert(nv[i] == x@);
                assert(nv[j] == dv[j - 1]);
                assert(leq(x@, dv[pos as int]));
                if j - 1 > pos {
                    assert(leq(dv[pos as int], dv[j - 1]));
                }
            } else if i < pos && j > pos {
                assert(nv[i] == dv[i]);
                assert(nv[j] == dv[j - 1]);
                if j - 1 > i {
                    assert(leq(dv[i], dv[j - 1]));
                } else {
                    assert(leq(dv[i], x@));
                    assert(leq(x@, dv[pos as int]));
                }
            } else if i < pos && j < pos {
                assert(nv[i] == dv[i]);
                assert(nv[j] == dv[j]);
            } else {
                assert(i >= pos || j <= pos);
                if i > pos {
                    assert(nv[i] == dv[i - 1]);
                    assert(nv[j] == dv[j - 1]);
                }
            }
        }
        lemma_insert_multiset(dv, pos as int, x@);
        lemma_to_set_after_insert(dv, nv, x@);
    }
}

/// Insert one listening socket into a sorted vector, keeping it sorted.
fn insert_listen_sorted(out: &mut Vec<ListeningSocket>, x: ListeningSocket)
    requires
        sorted_by(old(out).deep_view(), listen_leq()),
    ensures
        sorted_by(final(out).deep_view(), listen_leq()),
        final(out).deep_view().to_multiset() == old(out).deep_view().to_multiset().insert(x@),
        final(out).deep_view().to_set() == old(out).deep_view().to_set().insert(x@),
{
    proof {
        lemma_listen_le_total_ordering();
    }
    let ghost leq = listen_leq();
    let ghost dv = out.deep_view();
    let ghost xv = x@;
    let mut pos: usize = 0;
    while pos < out.len() && listen_le_exec(&out[pos], &x)
        invariant
            0 <= pos <= out@.len(),
            out.deep_view() == dv,
            leq == listen_leq(),
            xv == x@,
            forall|k: int| 0 <= k < pos ==> leq(dv[k], xv),
        decreases out@.len() - pos,
    {
        proof {
            assert(out@[pos as int]@ == dv[pos as int]);
            assert(leq(dv[pos as int], xv) == listen_le(dv[pos as int], xv));
        }
        pos += 1;
    }
    proof {
        if pos < out@.len() {
            assert(out@[pos as int]@ == dv[pos as int]);
            assert(!listen_le(dv[pos as int], xv));
            assert(leq(dv[pos as int], xv) || leq(xv, dv[pos as int]));
            assert(leq(xv, dv[pos as int]));
        }
    }
    out.insert(pos, x);
    proof {
        assert(out.deep_view() =~= dv.insert(pos as int, xv));
        let nv = out.deep_view();
        assert forall|i: int, j: int| 0 <= i < j < nv.len() implies leq(nv[i], nv[j]) by {
            dv.insert_ensures(pos as int, xv);
            if i < pos && j == pos {
                assert(nv[i] == dv[i]);
                assert(nv[j] == xv);
            } else if i == pos && j > pos {
                assert(nv[i] == xv);
                assert(nv[j] == dv[j - 1]);
                assert(leq(xv, dv[pos as int]));
                if j - 1 > pos {
                    assert(leq(dv[pos as int], dv[j - 1]));
                }
            } else if i < pos && j > pos {
                assert(nv[i] == dv[i]);
                assert(nv[j] == dv[j - 1]);
                if j - 1 > i {
                    assert(leq(dv[i], dv[j - 1]));
                } else {
                    assert(leq(dv[i], xv));
                    assert(leq(xv, dv[pos as int]));
                }
            } else if i < pos && j < pos {
                assert(nv[i] == dv[i]);
                assert(nv[j] == dv[j]);
            } else {
                if i > pos {
                    assert(nv[i] == dv[i - 1]);
                    assert(nv[j] == dv[j - 1]);
                }
            }
        }
        lemma_insert_multiset(dv, pos as int, xv);
        lemma_to_set_after_insert(dv, nv, xv);
    }
}

/// Drop adjacent duplicates of a sorted vector: the result is sorted, free
/// of duplicates, and holds exactly the same set of values.
fn dedup_sorted_conns(v: &Vec<Connection>) -> (out: Vec<Connection>)
    requires
        sorted_by(v.deep_view(), conn_leq()),
    ensures
        sorted_by(out.deep_view(), conn_leq()),
        out.deep_view().no_duplicates(),
        out.deep_view().to_set() == v.deep_view().to_set(),
{
    proof {
        lemma_conn_le_total_ordering();
    }
    let ghost leq = conn_leq();
    let ghost dv = v.deep_view();
    let mut out: Vec<Connection> = Vec::new();
    let mut i: usize = 0;
    proof {
        assert(out.deep_view() =~= Seq::<ConnectionV>::empty());
        assert(out.deep_view().to_set() =~= dv.take(0).to_set());
    }
    while i < v.len()
        invariant
            0 <= i <= dv.len(),
            dv == v.deep_view(),
            sorted_by(dv, leq),
            leq == conn_leq(),
            vstd::relations::total_ordering(leq),
            sorted_by(out.deep_view(), leq),
            out.deep_view().no_duplicates(),
            out.deep_view().to_set() == dv.take(i as int).to_set(),
            i > 0 ==> out.deep_view().len() > 0 && out.deep_view().last() == dv[i as int - 1],
            forall|k: int| 0 <= k < out.deep_view().len() ==> dv.take(i as int).to_set().contains(
                #[trigger] out.deep_view()[k],
            ),
        decreases dv.len() - i,
    {
        let ghost odv = out.deep_view();
        let c = &v[i];
        proof {
            assert(c@ == dv[i as int]);
            assert(dv.take(i + 1) =~= dv.take(i as int).push(dv[i as int]));
            lemma_push_to_set(dv.take(i as int), dv[i as int]);
        }
        let is_dup = if out.len() > 0 {
            conn_eq_exec(&out[out.len() - 1], c)
        } else {
            false
        };
        if !is_dup {
            out.push(c.clone());
            proof {
                assert(out.deep_view() =~= odv.push(dv[i as int]));
                // Sorted: everything already present precedes the new last.
                assert forall|a: int, b: int|
                    0 <= a < b < out.deep_view().len() implies leq(
                    out.deep_view()[a],
                    out.deep_view()[b],
                ) by {
                    if b == out.deep_view().len() - 1 {
                        let e = odv[a];
                        assert(dv.take(i as int).to_set().contains(e));
                        let w = choose|w: int| 0 <= w < i && dv.take(i as int)[w] == e;
                        assert(dv[w] == e);
                        if w < i as int {
                            if w == i as int - 1 {
                            } else {
                                assert(leq(dv[w], dv[i as int - 1]));
                            }
                        }
                        if i > 0 {
                            assert(leq(dv[i as int - 1], dv[i as int]));
                            assert(leq(e, dv[i as int]));
                        }
                    }
                }
                // No duplicates: an equal element would have to be the last.
                assert forall|a: int|
                    0 <= a < odv.len() implies odv[a] != dv[i as int] by {
                    if odv[a] == dv[i as int] {
                        if a < odv.len() - 1 {
                            assert(leq(odv[a], odv[odv.len() - 1]));
                        }
                        if i > 0 {
                            assert(odv[odv.len() - 1] == dv[i as int - 1]);
                            assert(leq(dv[i as int - 1], dv[i as int]));
                            assert(leq(odv[odv.len() - 1], odv[a]));
                            assert(odv[odv.len() - 1] == odv[a]);
                            assert(dv[i as int - 1] == dv[i as int]);
                            assert(!(odv[a] != dv[i as int]));
                        }
                    }
                }
                assert(out.deep_view().no_duplicates());
                lemma_push_to_set(dv.take(i as int), dv[i as int]);
                lemma_push_to_set(odv, dv[i as int]);
                assert(out.deep_view().to_set() =~= dv.take(i + 1).to_set());
            }
        } else {
            proof {
                assert(out@[out@.len() - 1]@ == out.deep_view()[out.deep_view().len() - 1]);
                assert(out.deep_view().last() == dv[i as int]);
                assert(out.deep_view().contains(dv[i as int]));
                assert(out.deep_view().to_set().contains(dv[i as int]));
                lemma_push_to_set(dv.take(i as int), dv[i as int]);
                assert(out.deep_view().to_set() =~= dv.take(i + 1).to_set());
            }
        }
        i += 1;
    }
    proof {
        assert(dv.take(dv.len() as int) =~= dv);
    }
    out
}

/// Drop adjacent duplicates of a sorted listening-socket vector.
fn dedup_sorted_listens(v: &Vec<ListeningSocket>) -> (out: Vec<ListeningSocket>)
    requires
        sorted_by(v.deep_view(), listen_leq()),
    ensures
        sorted_by(out.deep_view(), listen_leq()),
        out.deep_view().no_duplicates(),
        out.deep_view().to_set() == v.deep_view().to_set(),
{
    proof {
        lemma_listen_le_total_ordering();
    }
    let ghost leq = listen_leq();
    let ghost dv = v.deep_view();
    let mut out: Vec<ListeningSocket> = Vec::new();
    let mut i: usize = 0;
    proof {
        assert(out.deep_view() =~= Seq::<ListeningSocketV>::empty());
        assert(out.deep_view().to_set() =~= dv.take(0).to_set());
    }
    while i < v.len()
        invariant
            0 <= i <= dv.len(),
            dv == v.deep_view(),
            sorted_by(dv, leq),
            leq == listen_leq(),
            vstd::relations::total_ordering(leq),
            sorted_by(out.deep_view(), leq),
            out.deep_view().no_duplicates(),
            out.deep_view().to_set() == dv.take(i as int).to_set(),
            i > 0 ==> out.deep_view().len() > 0 && out.deep_view().last() == dv[i as int - 1],
            forall|k: int| 0 <= k < out.deep_view().len() ==> dv.take(i as int).to_set().contains(
                #[trigger] out.deep_view()[k],
            ),
        decreases dv.len() - i,
    {
        let ghost odv = out.deep_view();
        let c = &v[i];
        proof {
            assert(c@ == dv[i as int]);
            assert(dv.take(i + 1) =~= dv.take(i as int).push(dv[i as int]));
            lemma_push_to_set(dv.take(i as int), dv[i as int]);
        }
        let is_dup = if out.len() > 0 {
            listen_eq_exec(&out[out.len() - 1], c)
        } else {
            false
        };
        if !is_dup {
            out.push(c.clone());
            proof {
                assert(out.deep_view() =~= odv.push(dv[i as int]));
                assert forall|a: int, b: int|
                    0 <= a < b < out.deep_view().len() implies leq(
                    out.deep_view()[a],
                    out.deep_view()[b],
                ) by {
                    if b == out.deep_view().len() - 1 {
                        let e = odv[a];
                        assert(dv.take(i as int).to_set().contains(e));
                        let w = choose|w: int| 0 <= w < i && dv.take(i as int)[w] == e;
                        assert(dv[w] == e);
                        if w < i as int && w != i as int - 1 {
                            assert(leq(dv[w], dv[i as int - 1]));
                        }
                        if i > 0 {
                            assert(leq(dv[i as int - 1], dv[i as int]));
                            assert(leq(e, dv[i as int]));
                        }
                    }
                }
                assert forall|a: int|
                    0 <= a < odv.len() implies odv[a] != dv[i as int] by {
                    if odv[a] == dv[i as int] {
                        if a < odv.len() - 1 {
                            assert(leq(odv[a], odv[odv.len() - 1]));
                        }
                        if i > 0 {
                            assert(odv[odv.len() - 1] == dv[i as int - 1]);
                            assert(leq(dv[i as int - 1], dv[i as int]));
                            assert(leq(odv[odv.len() - 1], odv[a]));
                            assert(odv[odv.len() - 1] == odv[a]);
                            assert(!(odv[a] != dv[i as int]));
                        }
                    }
                }
                assert(out.deep_view().no_duplicates());
                lemma_push_to_set(dv.take(i as int), dv[i as int]);
                lemma_push_to_set(odv, dv[i as int]);
                assert(out.deep_view().to_set() =~= dv.take(i + 1).to_set());
            }
        } else {
            proof {
                assert(out@[out@.len() - 1]@ == out.deep_view()[out.deep_view().len() - 1]);
                assert(out.deep_view().last() == dv[i as int]);
                assert(out.deep_view().contains(dv[i as int]));
                assert(out.deep_view().to_set().contains(dv[i as int]));
                lemma_push_to_set(dv.take(i as int), dv[i as int]);
                assert(out.deep_view().to_set() =~= dv.take(i + 1).to_set());
            }
        }
        i += 1;
    }
    proof {
        assert(dv.take(dv.len() as int) =~= dv);
    }
    out
}

/// Merge an ordered sequence of snapshots of one host into a single Host:
/// the first snapshot's identity, with the union of all observed connections
/// and listening sockets, each collection sorted and freed of exact
/// duplicates.  Fails exactly on an empty input.
pub fn generate_aggregate_update(updates: &Vec<Update>) -> (r: Result<Update, AggregateError>)
    ensures
        match r {
            Ok(u) => {
                &&& updates@.len() > 0
                &&& u@.name == updates.deep_view()[0].name
                &&& u@.cluster_id == updates.deep_view()[0].cluster_id
                &&& u@.ips == updates.deep_view()[0].ips
                &&& sorted_by(u@.connections, conn_leq())
                &&& u@.connections.no_duplicates()
                &&& u@.connections.to_set() == union_connections(
                    updates.deep_view(),
                    updates@.len() as int,
                )
                &&& sorted_by(u@.listening_sockets, listen_leq())
                &&& u@.listening_sockets.no_duplicates()
                &&& u@.listening_sockets.to_set() == union_listening(
                    updates.deep_view(),
                    updates@.len() as int,
                )
            },
            Err(e) => updates@.len() == 0 && e == AggregateError::EmptyInput,
        },
{
    let ghost uv = updates.deep_view();
    if updates.len() == 0 {
        return Err(AggregateError::EmptyInput);
    }

    // Gather every observed connection, keeping the vector sorted while it
    // grows, then drop exact duplicates.
    let mut sorted_conns: Vec<Connection> = Vec::new();
    let mut ui: usize = 0;
    proof {
        assert(sorted_conns.deep_view() =~= Seq::<ConnectionV>::empty());
        assert(sorted_conns.deep_view().to_set() =~= union_connections(uv, 0));
    }
    while ui < updates.len()
        invariant
            0 <= ui <= uv.len(),
            uv == updates.deep_view(),
            sorted_by(sorted_conns.deep_view(), conn_leq()),
            sorted_conns.deep_view().to_set() == union_connections(uv, ui as int),
        decreases uv.len() - ui,
    {
        let host = &updates[ui].host;
        proof {
            assert(host@ == uv[ui as int]);
        }
        let conns = host.connections();
        let mut ci: usize = 0;
        proof {
            assert(uv[ui as int].connections.take(0).to_set() =~= Set::<ConnectionV>::empty());
            assert(sorted_conns.deep_view().to_set() =~= union_connections(uv, ui as int).union(
                uv[ui as int].connections.take(0).to_set(),
            ));
        }
        while ci < conns.len()
            invariant
                0 <= ci <= uv[ui as int].connections.len(),
                ui < uv.len(),
                uv == updates.deep_view(),
                conns.deep_view() == uv[ui as int].connections,
                sorted_by(sorted_conns.deep_view(), conn_leq()),
                sorted_conns.deep_view().to_set() == union_connections(uv, ui as int).union(
                    uv[ui as int].connections.take(ci as int).to_set(),
                ),
            decreases uv[ui as int].connections.len() - ci,
        {
            let c = conns[ci].clone();
            proof {
                assert(c@ == uv[ui as int].connections[ci as int]);
            }
            insert_conn_sorted(&mut sorted_conns, c);
            ci += 1;
            proof {
                assert(uv[ui as int].connections.take(ci as int) =~= uv[
                    ui as int
                ].connections.take(ci as int - 1).push(
                    uv[ui as int].connections[ci as int - 1],
                ));
                lemma_push_to_set(
                    uv[ui as int].connections.take(ci as int - 1),
                    uv[ui as int].connections[ci as int - 1],
                );
                assert(sorted_conns.deep_view().to_set() =~= union_connections(
                    uv,
                    ui as int,
                ).union(uv[ui as int].connections.take(ci as int).to_set()));
            }
        }
        ui += 1;
        proof {
            assert(uv[ui as int - 1].connections.take(uv[ui as int - 1].connections.len() as int)
                =~= uv[ui as int - 1].connections);
            assert(sorted_conns.deep_view().to_set() =~= union_connections(uv, ui as int));
        }
    }
    let final_conns = dedup_sorted_conns(&sorted_conns);

    // The same for listening sockets.
    let mut sorted_listens: Vec<ListeningSocket> = Vec::new();
    let mut ui: usize = 0;
    proof {
        assert(sorted_listens.deep_view() =~= Seq::<ListeningSocketV>::empty());
        assert(sorted_listens.deep_view().to_set() =~= union_listening(uv, 0));
    }
    while ui < updates.len()
        invariant
            0 <= ui <= uv.len(),
            uv == updates.deep_view(),
            sorted_by(sorted_listens.deep_view(), listen_leq()),
            sorted_listens.deep_view().to_set() == union_listening(uv, ui as int),
        decreases uv.len() - ui,
    {
        let host = &updates[ui].host;
        proof {
            assert(host@ == uv[ui as int]);
        }
        let listens = host.listening_sockets();
        let mut li: usize = 0;
        proof {
            assert(uv[ui as int].listening_sockets.take(0).to_set() =~= Set::<
                ListeningSocketV,
            >::empty());
            assert(sorted_listens.deep_view().to_set() =~= union_listening(uv, ui as int).union(
                uv[ui as int].listening_sockets.take(0).to_set(),
            ));
        }
        while li < listens.len()
            invariant
                0 <= li <= uv[ui as int].listening_sockets.len(),
                ui < uv.len(),
                uv == updates.deep_view(),
                listens.deep_view() == uv[ui as int].listening_sockets,
                sorted_by(sorted_listens.deep_view(), listen_leq()),
                sorted_listens.deep_view().to_set() == union_listening(uv, ui as int).union(
                    uv[ui as int].listening_sockets.take(li as int).to_set(),
                ),
            decreases uv[ui as int].listening_sockets.len() - li,
        {
            let l = listens[li].clone();
            proof {
                assert(l@ == uv[ui as int].listening_sockets[li as int]);
            }
            insert_listen_sorted(&mut sorted_listens, l);
            li += 1;
            proof {
                assert(uv[ui as int].listening_sockets.take(li as int) =~= uv[
                    ui as int
                ].listening_sockets.take(li as int - 1).push(
                    uv[ui as int].listening_sockets[li as int - 1],
                ));
                lemma_push_to_set(
                    uv[ui as int].listening_sockets.take(li as int - 1),
                    uv[ui as int].listening_sockets[li as int - 1],
                );
                assert(sorted_listens.deep_view().to_set() =~= union_listening(
                    uv,
                    ui as int,
                ).union(uv[ui as int].listening_sockets.take(li as int).to_set()));
            }
        }
        ui += 1;
        proof {
            assert(uv[ui as int - 1].listening_sockets.take(
                uv[ui as int - 1].listening_sockets.len() as int,
            ) =~= uv[ui as int - 1].listening_sockets);
            assert(sorted_listens.deep_view().to_set() =~= union_listening(uv, ui as int));
        }
    }
    let final_listens = dedup_sorted_listens(&sorted_listens);

    // The first snapshot gives the host its identity; the canonical
    // collections replace its own.
    let mut aggregated = updates[0].host.clone();
    let conns_slot = aggregated.connections_mut();
    *conns_slot = final_conns;
    let listens_slot = aggregated.listening_sockets_mut();
    *listens_slot = final_listens;
    Ok(Update::new(aggregated))
}

/// Canonical-form law for connections: two sorted, duplicate-free sequences
/// holding the same set of connections are the same sequence.  With the
/// aggregator's contract this makes the aggregated host independent of the
/// order in which its snapshots were recorded.
pub proof fn lemma_canonical_connections_unique(x: Seq<ConnectionV>, y: Seq<ConnectionV>)
    requires
        sorted_by(x, conn_leq()),
        sorted_by(y, conn_leq()),
        x.no_duplicates(),
        y.no_duplicates(),
        x.to_set() == y.to_set(),
    ensures
        x == y,
{
    broadcast use vstd::seq_lib::group_to_multiset_ensures;

    lemma_conn_le_total_ordering();
    x.lemma_multiset_has_no_duplicates();
    y.lemma_multiset_has_no_duplicates();
    assert forall|e: ConnectionV| x.to_multiset().count(e) == y.to_multiset().count(e) by {
        assert(x.contains(e) <==> x.to_set().contains(e));
        assert(y.contains(e) <==> y.to_set().contains(e));
        if x.to_multiset().count(e) > 0 {
            assert(x.to_multiset().contains(e));
        }
        if y.to_multiset().count(e) > 0 {
            assert(y.to_multiset().contains(e));
        }
    }
    assert(x.to_multiset() =~= y.to_multiset());
    lemma_sorted_unique(x, y, conn_leq());
}

/// Canonical-form law for listening sockets.
pub proof fn lemma_canonical_listening_unique(x: Seq<ListeningSocketV>, y: Seq<ListeningSocketV>)
    requires
        sorted_by(x, listen_leq()),
        sorted_by(y, listen_leq()),
        x.no_duplicates(),
        y.no_duplicates(),
        x.to_set() == y.to_set(),
    ensures
        x == y,
{
    broadcast use vstd::seq_lib::group_to_multiset_ensures;

    lemma_listen_le_total_ordering();
    x.lemma_multiset_has_no_duplicates();
    y.lemma_multiset_has_no_duplicates();
    assert forall|e: ListeningSocketV| x.to_multiset().count(e) == y.to_multiset().count(e) by {
        assert(x.contains(e) <==> x.to_set().contains(e));
        assert(y.contains(e) <==> y.to_set().contains(e));
        if x.to_multiset().count(e) > 0 {
            assert(x.to_multiset().contains(e));
        }
        if y.to_multiset().count(e) > 0 {
            assert(y.to_multiset().contains(e));
        }
    }
    assert(x.to_multiset() =~= y.to_multiset());
    lemma_sorted_unique(x, y, listen_leq());
}

/// A connection is in the union exactly when some snapshot observed it.
pub proof fn lemma_union_connections_membership(updates: Seq<HostV>, upto: int, e: ConnectionV)
    requires
        0 <= upto <= updates.len(),
    ensures
        union_connections(updates, upto).contains(e) <==> exists|i: int|
            0 <= i < upto && (#[trigger] updates[i]).connections.contains(e),
    decreases upto,
{
    if upto > 0 {
        lemma_union_connections_membership(updates, upto - 1, e);
    }
}

/// Order-independence law: snapshots delivered in any order carry the same
/// union of observed connections, so (with the canonical-form law) the
/// aggregated connection list is the same.
pub proof fn lemma_union_connections_order_independent(u1: Seq<HostV>, u2: Seq<HostV>)
    requires
        u1.to_multiset() == u2.to_multiset(),
    ensures
        union_connections(u1, u1.len() as int) == union_connections(u2, u2.len() as int),
{
    broadcast use vstd::seq_lib::group_to_multiset_ensures;

    assert forall|e: ConnectionV|
        union_connections(u1, u1.len() as int).contains(e) <==> union_connections(
            u2,
            u2.len() as int,
        ).contains(e) by {
        lemma_union_connections_membership(u1, u1.len() as int, e);
        lemma_union_connections_membership(u2, u2.len() as int, e);
        if union_connections(u1, u1.len() as int).contains(e) {
            let i = choose|i: int| 0 <= i < u1.len() && (#[trigger] u1[i]).connections.contains(e);
            assert(u1.contains(u1[i]));
            assert(u1.to_multiset().count(u1[i]) > 0);
            assert(u2.contains(u1[i]));
            let j = choose|j: int| 0 <= j < u2.len() && u2[j] == u1[i];
            assert(u2[j].connections.contains(e));
        }
        if union_connections(u2, u2.len() as int).contains(e) {
            let i = choose|i: int| 0 <= i < u2.len() && (#[trigger] u2[i]).connections.contains(e);
            assert(u2.contains(u2[i]));
            assert(u2.to_multiset().count(u2[i]) > 0);
            assert(u1.contains(u2[i]));
            let j = choose|j: int| 0 <= j < u1.len() && u1[j] == u2[i];
            assert(u1[j].connections.contains(e));
        }
    }
    assert(union_connections(u1, u1.len() as int) =~= union_connections(u2, u2.len() as int));
}

} // verus!
