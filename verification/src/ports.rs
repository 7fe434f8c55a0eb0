//! Port enumerator's verified core: narrows a raw endpoint listing to
//! the kinds a removable or virtual serial device can plausibly appear
//! as, and sorts it by name for run-to-run determinism.  The host
//! query itself stands in the unverified shell — the serial crate's
//! fallback scanner, built without the udev feature, can abort rather
//! than err on a host without a readable tty class directory, so the
//! shell guards that call and hands the raw listing in as plain
//! values.

use vstd::prelude::*;

use crate::text::lemma_lex_leq_total;
use crate::text::lemma_lex_leq_trans;
use crate::text::lex_leq;
use crate::text::str_leq;

verus! {

/// Transport kind of a host endpoint, as the host classifies it.
#[derive(Clone, Copy, PartialEq, Eq, Structural, Debug)]
pub enum EndpointKind {
    Usb,
    Pci,
    Bluetooth,
    Unknown,
}

/// A host-visible serial connection point a controller can bind to.
#[derive(Debug)]
pub struct ConnectionEndpoint {
    pub name: String,
    pub kind: EndpointKind,
}

impl Clone for ConnectionEndpoint {
    /// The copy carries the same name and kind.
    fn clone(&self) -> (r: Self)
        ensures
            r == *self,
    {
        ConnectionEndpoint { name: self.name.clone(), kind: self.kind }
    }
}

/// Endpoints surfaced to the caller: every kind but the permanently
/// wired one and the undetermined one.
pub open spec fn eligible(e: ConnectionEndpoint) -> bool {
    e.kind != EndpointKind::Pci && e.kind != EndpointKind::Unknown
}

/// Names ascending in the lexicographic order.
pub open spec fn sorted_by_name(s: Seq<ConnectionEndpoint>) -> bool {
    forall|i: int, j: int|
        #![trigger s[i], s[j]]
        0 <= i < j < s.len() ==> lex_leq(s[i].name@, s[j].name@)
}

/// True exactly on the endpoints the enumerator surfaces.
pub fn is_eligible(e: &ConnectionEndpoint) -> (r: bool)
    ensures
        r == eligible(*e),
{
    match e.kind {
        EndpointKind::Pci => false,
        EndpointKind::Unknown => false,
        _ => true,
    }
}

/// Keeps the eligible endpoints, in their given order.
fn filter_eligible(ports: &Vec<ConnectionEndpoint>) -> (r: Vec<ConnectionEndpoint>)
    ensures
        r@ == ports@.filter(|e: ConnectionEndpoint| eligible(e)),
{
    let ghost pred = |e: ConnectionEndpoint| eligible(e);
    let mut out: Vec<ConnectionEndpoint> = Vec::new();
    let mut i: usize = 0;
    proof {
        reveal(Seq::filter);
        assert(ports@.subrange(0, 0) =~= Seq::<ConnectionEndpoint>::empty());
        assert(out@ =~= ports@.subrange(0, 0).filter(pred));
    }
    while i < ports.len()
        invariant
            0 <= i <= ports@.len(),
            out@ == ports@.subrange(0, i as int).filter(pred),
            pred == (|e: ConnectionEndpoint| eligible(e)),
        decreases ports@.len() - i,
    {
        let ghost pre = ports@.subrange(0, i as int);
        let ghost cur = ports@.subrange(0, i as int + 1);
        proof {
            reveal(Seq::filter);
            assert(cur.drop_last() =~= pre);
            assert(cur.last() == ports@[i as int]);
        }
        if is_eligible(&ports[i]) {
            out.push(ports[i].clone());
        }
        i += 1;
    }
    proof {
        assert(ports@.subrange(0, ports@.len() as int) =~= ports@);
    }
    out
}

/// Sorts the endpoints by name, ascending; keeps exactly the same
/// collection of endpoints.
fn sort_by_name(v: &mut Vec<ConnectionEndpoint>)
    ensures
        sorted_by_name(final(v)@),
        final(v)@.to_multiset() == old(v)@.to_multiset(),
{
    let mut i: usize = 1;
    while i < v.len()
        invariant
            v@.len() == 0 || (1 <= i <= v@.len() && sorted_by_name(v@.subrange(0, i as int))),
            v@.to_multiset() == old(v)@.to_multiset(),
        decreases v@.len() - i,
    {
        let ghost before = v@;
        let j = insert_position(v, i);
        let e = v.remove(i);
        v.insert(j, e);
        proof {
            broadcast use vstd::multiset::group_multiset_axioms;

            let mid = before.remove(i as int);
            assert(v@ == mid.insert(j as int, e));
            assert(before.contains(e)) by {
                assert(before[i as int] == e);
            }
            vstd::seq_lib::to_multiset_remove(before, i as int);
            vstd::seq_lib::to_multiset_insert(mid, j as int, e);
            before.to_multiset_ensures();
            assert(before.to_multiset().count(e) > 0);
            assert(v@.to_multiset() =~= before.to_multiset());
            assert forall|a: int, b: int|
                #![trigger v@[a], v@[b]]
                0 <= a < b < i + 1 implies lex_leq(v@[a].name@, v@[b].name@) by {
                lemma_sorted_after_insert(before, v@, i as int, j as int, e, a, b);
            }
            assert(sorted_by_name(v@.subrange(0, i as int + 1)));
        }
        i += 1;
    }
    proof {
        if v@.len() > 0 {
            assert(v@.subrange(0, v@.len() as int) =~= v@);
        }
        assert(sorted_by_name(v@));
    }
}

/// Where a new element belongs in the sorted prefix: everything before
/// the returned position is at or below it, and the element at the
/// position (when inside the prefix) is at or above it.
fn insert_position(v: &Vec<ConnectionEndpoint>, i: usize) -> (j: usize)
    requires
        i < v@.len(),
    ensures
        j <= i,
        forall|k: int| 0 <= k < j ==> lex_leq(#[trigger] v@[k].name@, v@[i as int].name@),
        j < i ==> lex_leq(v@[i as int].name@, v@[j as int].name@),
{
    let mut j: usize = 0;
    while j < i
        invariant
            j <= i < v@.len(),
            forall|k: int| 0 <= k < j ==> lex_leq(#[trigger] v@[k].name@, v@[i as int].name@),
        decreases i - j,
    {
        if !str_leq(v[j].name.as_str(), v[i].name.as_str()) {
            proof {
                lemma_lex_leq_total(v@[j as int].name@, v@[i as int].name@);
            }
            return j;
        }
        j += 1;
    }
    j
}

/// After lifting the element at `i` out of `s` and putting it back at
/// `j`, the first `i + 1` places are sorted, given that the first `i`
/// places of `s` were and that `j` was an insert position for `e`.
proof fn lemma_sorted_after_insert(
    s: Seq<ConnectionEndpoint>,
    t: Seq<ConnectionEndpoint>,
    i: int,
    j: int,
    e: ConnectionEndpoint,
    a: int,
    b: int,
)
    requires
        0 <= j <= i < s.len(),
        t == s.remove(i).insert(j, e),
        e == s[i],
        sorted_by_name(s.subrange(0, i)),
        forall|k: int| 0 <= k < j ==> lex_leq(#[trigger] s[k].name@, e.name@),
        j < i ==> lex_leq(e.name@, s[j].name@),
        0 <= a < b < i + 1,
    ensures
        lex_leq(t[a].name@, t[b].name@),
{
    let pre = s.subrange(0, i);
    assert(forall|k: int| 0 <= k < i ==> t[if k < j { k } else { k + 1 }] == s[k]);
    assert(t[j] == e);
    assert(forall|k: int| 0 <= k < i ==> pre[k] == s[k]);
    if a < j && b < j {
        assert(lex_leq(s[a].name@, s[b].name@));
    } else if a < j && b == j {
        assert(lex_leq(s[a].name@, e.name@));
    } else if a < j && b > j {
        assert(t[b] == s[b - 1]);
        assert(lex_leq(s[a].name@, s[b - 1].name@));
    } else if a == j && b > j {
        assert(t[b] == s[b - 1]);
        assert(lex_leq(e.name@, s[j].name@));
        if b - 1 > j {
            assert(lex_leq(s[j].name@, s[b - 1].name@));
            lemma_lex_leq_trans(e.name@, s[j].name@, s[b - 1].name@);
        }
    } else {
        assert(a > j && b > j);
        assert(t[a] == s[a - 1]);
        assert(t[b] == s[b - 1]);
        assert(lex_leq(s[a - 1].name@, s[b - 1].name@));
    }
}

/// Arranges a raw endpoint listing for the caller: exactly the
/// eligible endpoints — never one of the permanently wired or
/// undetermined kind — sorted by name, ascending.
pub fn arrange_endpoints(ports: &Vec<ConnectionEndpoint>) -> (r: Vec<ConnectionEndpoint>)
    ensures
        sorted_by_name(r@),
        r@.to_multiset() == ports@.filter(|e: ConnectionEndpoint| eligible(e)).to_multiset(),
        forall|i: int| 0 <= i < r@.len() ==> eligible(#[trigger] r@[i]),
{
    let mut kept = filter_eligible(ports);
    sort_by_name(&mut kept);
    proof {
        let pred = |e: ConnectionEndpoint| eligible(e);
        let raw = ports@.filter(pred);
        assert forall|i: int| 0 <= i < kept@.len() implies eligible(#[trigger] kept@[i]) by {
            kept@.to_multiset_ensures();
            raw.to_multiset_ensures();
            assert(kept@.contains(kept@[i]));
            assert(kept@.to_multiset().count(kept@[i]) > 0);
            assert(raw.to_multiset().count(kept@[i]) > 0);
            assert(raw.contains(kept@[i]));
            let w = choose|w: int| 0 <= w < raw.len() && raw[w] == kept@[i];
            ports@.lemma_filter_pred(pred, w);
        }
    }
    kept
}

} // verus!
