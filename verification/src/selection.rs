//! From the hosts that were read to the hosts that get a bookmark: the ineligible ones
//! are left out, the rest is sorted, and hosts with the same name and protocol collapse
//! into one.
use crate::conditions::{Condition, Conditions};
use crate::host::{
    host_lt, host_views, is_ineligible, lemma_host_lt_total, lemma_host_lt_transitive,
    same_target, target_lt, Host, HostView,
};
use crate::order::Rank;
use vstd::prelude::*;
use vstd::seq_lib::{to_multiset_build, to_multiset_contains, to_multiset_insert};

verus! {

/// Whether no host of `s` is preceded by a later one.
pub open spec fn sorted(s: Seq<HostView>) -> bool {
    forall|i: int, j: int| 0 <= i < j < s.len() ==> !host_lt(#[trigger] s[j], #[trigger] s[i])
}

/// Whether each host of `s` precedes all later ones by name and protocol. No two hosts
/// of such a sequence have the same name and protocol.
pub open spec fn strictly_sorted(s: Seq<HostView>) -> bool {
    forall|i: int, j: int| 0 <= i < j < s.len() ==> target_lt(#[trigger] s[i], #[trigger] s[j])
}

/// The hosts of `s` that are not left out, in their order.
pub open spec fn eligible_among(rules: Seq<(Seq<char>, Condition)>, s: Seq<HostView>) -> Seq<
    HostView,
>
    decreases s.len(),
{
    if s.len() == 0 {
        s
    } else if is_ineligible(rules, s.last()) {
        eligible_among(rules, s.drop_last())
    } else {
        eligible_among(rules, s.drop_last()).push(s.last())
    }
}

/// `s` without the hosts that have the name and protocol of the host kept before them.
pub open spec fn dedup(s: Seq<HostView>) -> Seq<HostView>
    decreases s.len(),
{
    if s.len() == 0 {
        s
    } else {
        let before = dedup(s.drop_last());
        if before.len() > 0 && same_target(before.last(), s.last()) {
            before
        } else {
            before.push(s.last())
        }
    }
}

/// The hosts that are not left out, in their order.
pub fn retain_eligible(hosts: Vec<Host>, conds: &Conditions) -> (out: Vec<Host>)
    ensures
        host_views(out@) == eligible_among(conds@, host_views(hosts@)),
{
    let ghost all = host_views(hosts@);
    let mut out: Vec<Host> = Vec::new();
    proof {
        assert(all.take(0) =~= Seq::empty());
        assert(host_views(out@) =~= Seq::empty());
    }
    for host in it: hosts
        invariant
            all == host_views(it.seq()),
            host_views(out@) == eligible_among(conds@, all.take(it.index() as int)),
    {
        let ghost i = it.index() as int;
        let ghost was = host_views(out@);
        proof {
            assert(all.take(i + 1).drop_last() =~= all.take(i));
            assert(all.take(i + 1).last() == host@);
        }
        if !host.ineligible(conds) {
            out.push(host);
            proof {
                assert(host_views(out@) =~= was.push(host@));
            }
        }
    }
    proof {
        assert(all.take(all.len() as int) =~= all);
    }
    out
}

/// The hosts in the order of hosts: by name, then by protocol, then by source.
pub fn sort_hosts(hosts: Vec<Host>) -> (out: Vec<Host>)
    ensures
        sorted(host_views(out@)),
        host_views(out@).to_multiset() == host_views(hosts@).to_multiset(),
{
    let ghost all = host_views(hosts@);
    let mut out: Vec<Host> = Vec::new();
    proof {
        assert(all.take(0) =~= Seq::empty());
        assert(host_views(out@) =~= Seq::empty());
    }
    for host in it: hosts
        invariant
            all == host_views(it.seq()),
            sorted(host_views(out@)),
            host_views(out@).to_multiset() == all.take(it.index() as int).to_multiset(),
    {
        let ghost i = it.index() as int;
        let ghost was = host_views(out@);
        let mut j: usize = 0;
        while j < out.len() && out[j].rank(&host) == Rank::Before
            invariant
                j <= out.len(),
                was == host_views(out@),
                forall|k: int| 0 <= k < j ==> host_lt(#[trigger] was[k], host@),
            decreases out.len() - j,
        {
            j += 1;
        }
        proof {
            let now = was.insert(j as int, host@);
            assert forall|a: int, b: int| 0 <= a < b < now.len() implies !host_lt(
                #[trigger] now[b],
                #[trigger] now[a],
            ) by {
                lemma_placed_in_order(was, j as int, host@, a, b);
            }
            to_multiset_insert(was, j as int, host@);
            assert(all.take(i + 1) =~= all.take(i).push(host@));
            to_multiset_build(all.take(i), host@);
        }
        out.insert(j, host);
        proof {
            assert(host_views(out@) =~= was.insert(j as int, host@));
        }
    }
    proof {
        assert(all.take(all.len() as int) =~= all);
    }
    out
}

/// A host placed behind the hosts that precede it, and before one that does not, keeps a
/// sorted sequence sorted.
proof fn lemma_placed_in_order(s: Seq<HostView>, j: int, x: HostView, a: int, b: int)
    requires
        sorted(s),
        0 <= j <= s.len(),
        forall|k: int| 0 <= k < j ==> host_lt(#[trigger] s[k], x),
        j < s.len() ==> !host_lt(s[j], x),
        0 <= a < b < s.len() + 1,
    ensures
        !host_lt(s.insert(j, x)[b], s.insert(j, x)[a]),
{
    let t = s.insert(j, x);
    if b == j {
        // a < j: s[a] precedes x
        assert(t[a] == s[a]);
        lemma_host_lt_total(s[a], x);
    } else if a == j {
        // b > j: x does not follow s[b - 1]
        assert(t[b] == s[b - 1]);
        if host_lt(s[b - 1], x) {
            if b - 1 > j {
                assert(!host_lt(s[b - 1], s[j]));
                lemma_host_lt_total(s[b - 1], s[j]);
                lemma_host_lt_transitive(s[j], s[b - 1], x);
            }
        }
    } else {
        let a0 = if a < j { a } else { a - 1 };
        let b0 = if b < j { b } else { b - 1 };
        assert(t[a] == s[a0]);
        assert(t[b] == s[b0]);
    }
}

/// The hosts without those that have the name and protocol of the host kept before them.
pub fn dedup_hosts(hosts: Vec<Host>) -> (out: Vec<Host>)
    ensures
        host_views(out@) == dedup(host_views(hosts@)),
{
    let ghost all = host_views(hosts@);
    let mut out: Vec<Host> = Vec::new();
    proof {
        assert(all.take(0) =~= Seq::empty());
        assert(host_views(out@) =~= Seq::empty());
    }
    for host in it: hosts
        invariant
            all == host_views(it.seq()),
            host_views(out@) == dedup(all.take(it.index() as int)),
    {
        let ghost i = it.index() as int;
        let ghost was = host_views(out@);
        proof {
            assert(all.take(i + 1).drop_last() =~= all.take(i));
            assert(all.take(i + 1).last() == host@);
        }
        let n = out.len();
        if n == 0 || !out[n - 1].has_target_of(&host) {
            out.push(host);
            proof {
                assert(host_views(out@) =~= was.push(host@));
            }
        }
    }
    proof {
        assert(all.take(all.len() as int) =~= all);
    }
    out
}

/// Whether every host of `d` is one of `s`.
#[verifier::opaque]
pub open spec fn drawn_from(d: Seq<HostView>, s: Seq<HostView>) -> bool {
    forall|i: int| 0 <= i < d.len() ==> s.contains(#[trigger] d[i])
}

/// Whether `d` has a host with the name and protocol of `x`.
pub open spec fn has_target(d: Seq<HostView>, x: HostView) -> bool {
    exists|i: int| 0 <= i < d.len() && same_target(#[trigger] d[i], x)
}

/// Whether every name and protocol that occurs in `s` occurs in `d`.
#[verifier::opaque]
pub open spec fn covers(d: Seq<HostView>, s: Seq<HostView>) -> bool {
    forall|k: int| 0 <= k < s.len() ==> has_target(d, #[trigger] s[k])
}

/// Whether no host of `s` precedes the host of `d` that has its name and protocol.
pub open spec fn leads(d: Seq<HostView>, s: Seq<HostView>) -> bool {
    forall|i: int, k: int|
        0 <= i < d.len() && 0 <= k < s.len() && same_target(#[trigger] d[i], #[trigger] s[k])
            ==> !host_lt(s[k], d[i])
}

/// Whether `d` holds one host for each name and protocol that occurs in `s`: the first
/// in the order of hosts among those of `s` that share them, and all in ascending order.
pub open spec fn collapses(s: Seq<HostView>, d: Seq<HostView>) -> bool {
    &&& strictly_sorted(d)
    &&& drawn_from(d, s)
    &&& covers(d, s)
    &&& leads(d, s)
}

/// A host that shares name and protocol with the last host kept changes nothing.
proof fn lemma_collapse_skip(init: Seq<HostView>, d: Seq<HostView>, x: HostView)
    requires
        collapses(init, d),
        d.len() > 0,
        same_target(d.last(), x),
        forall|k: int| 0 <= k < init.len() ==> !host_lt(x, #[trigger] init[k]),
    ensures
        collapses(init.push(x), d),
{
    let s = init.push(x);
    let n = init.len() as int;
    assert(drawn_from(d, s)) by {
        reveal(drawn_from);
        assert forall|i: int| 0 <= i < d.len() implies s.contains(#[trigger] d[i]) by {
            let m = choose|m: int| 0 <= m < init.len() && init[m] == d[i];
            assert(s[m] == d[i]);
        }
    }
    assert(covers(d, s)) by {
        reveal(covers);
        assert forall|k: int| 0 <= k < s.len() implies has_target(d, #[trigger] s[k]) by {
            if k < n {
                assert(init[k] == s[k]);
            } else {
                assert(same_target(d[d.len() - 1], s[k]));
            }
        }
    }
    assert(leads(d, s)) by {
        reveal(drawn_from);
        assert forall|i: int, k: int|
            0 <= i < d.len() && 0 <= k < s.len() && same_target(
                #[trigger] d[i],
                #[trigger] s[k],
            ) implies !host_lt(s[k], d[i]) by {
            if k < n {
                assert(init[k] == s[k]);
            } else {
                let m = choose|m: int| 0 <= m < init.len() && init[m] == d[i];
                assert(!host_lt(x, init[m]));
            }
        }
    }
}

/// A host that follows the last host kept by name and protocol is kept behind it.
proof fn lemma_collapse_push(init: Seq<HostView>, d: Seq<HostView>, x: HostView)
    requires
        collapses(init, d),
        d.len() > 0 ==> target_lt(d.last(), x),
    ensures
        collapses(init.push(x), d.push(x)),
{
    let s = init.push(x);
    let e = d.push(x);
    let n = init.len() as int;
    assert forall|i: int| 0 <= i < d.len() implies target_lt(#[trigger] d[i], x) by {
        if i < d.len() - 1 {
            assert(target_lt(d[i], d[d.len() - 1]));
            lemma_host_lt_transitive(d[i], d.last(), x);
        }
    }
    assert(strictly_sorted(e)) by {
        assert forall|i: int, j: int| 0 <= i < j < e.len() implies target_lt(
            #[trigger] e[i],
            #[trigger] e[j],
        ) by {
            if j < d.len() {
                assert(e[i] == d[i] && e[j] == d[j]);
            } else {
                assert(e[i] == d[i]);
            }
        }
    }
    assert(drawn_from(e, s)) by {
        reveal(drawn_from);
        assert forall|i: int| 0 <= i < e.len() implies s.contains(#[trigger] e[i]) by {
            if i < d.len() {
                let m = choose|m: int| 0 <= m < init.len() && init[m] == d[i];
                assert(s[m] == e[i]);
            } else {
                assert(s[n] == e[i]);
            }
        }
    }
    assert(covers(e, s)) by {
        reveal(covers);
        assert forall|k: int| 0 <= k < s.len() implies has_target(e, #[trigger] s[k]) by {
            if k < n {
                assert(init[k] == s[k]);
                let i = choose|i: int| 0 <= i < d.len() && same_target(#[trigger] d[i], init[k]);
                assert(e[i] == d[i]);
                assert(same_target(e[i], s[k]));
            } else {
                assert(same_target(e[e.len() - 1], s[k]));
            }
        }
    }
    assert(leads(e, s)) by {
        reveal(covers);
        assert forall|i: int, k: int|
            0 <= i < e.len() && 0 <= k < s.len() && same_target(
                #[trigger] e[i],
                #[trigger] s[k],
            ) implies !host_lt(s[k], e[i]) by {
            if i < d.len() {
                assert(e[i] == d[i]);
                if k < n {
                    assert(init[k] == s[k]);
                } else {
                    assert(target_lt(d[i], x));
                    lemma_host_lt_total(d[i], x);
                }
            } else {
                if k < n {
                    assert(init[k] == s[k]);
                    assert(has_target(d, init[k]));
                    let i2 = choose|i2: int|
                        0 <= i2 < d.len() && same_target(#[trigger] d[i2], init[k]);
                    assert(target_lt(d[i2], x));
                    lemma_host_lt_total(d[i2], x);
                } else {
                    lemma_host_lt_total(x, x);
                }
            }
        }
    }
}

/// What `dedup` makes of a sorted sequence: one host for each name and protocol that
/// occurs in it, the first among those that share them, and all in ascending order.
pub proof fn lemma_dedup_of_sorted(s: Seq<HostView>)
    requires
        sorted(s),
    ensures
        collapses(s, dedup(s)),
        s.len() > 0 ==> dedup(s).len() > 0 && same_target(dedup(s).last(), s.last()),
    decreases s.len(),
{
    if s.len() == 0 {
        reveal(drawn_from);
        reveal(covers);
    } else {
        let init = s.drop_last();
        let x = s.last();
        let n = init.len() as int;
        assert(s =~= init.push(x));
        assert forall|k: int| 0 <= k < init.len() implies !host_lt(x, #[trigger] init[k]) by {
            assert(init[k] == s[k]);
            assert(!host_lt(s[n], s[k]));
        }
        assert(sorted(init)) by {
            assert forall|i: int, j: int| 0 <= i < j < init.len() implies !host_lt(
                #[trigger] init[j],
                #[trigger] init[i],
            ) by {
                assert(init[i] == s[i] && init[j] == s[j]);
            }
        }
        lemma_dedup_of_sorted(init);
        let before = dedup(init);
        if before.len() > 0 && same_target(before.last(), x) {
            lemma_collapse_skip(init, before, x);
        } else {
            if before.len() > 0 {
                assert(!host_lt(x, init[n - 1]));
                lemma_host_lt_total(before.last(), x);
                lemma_host_lt_total(x, init.last());
            }
            lemma_collapse_push(init, before, x);
        }
    }
}

/// After sorting and `dedup`, no two hosts have the same name and protocol: records
/// from different source files that agree in both have collapsed into one.
pub proof fn lemma_no_target_twice(s: Seq<HostView>, i: int, j: int)
    requires
        sorted(s),
        0 <= i < dedup(s).len(),
        0 <= j < dedup(s).len(),
        i != j,
    ensures
        !same_target(dedup(s)[i], dedup(s)[j]),
{
    lemma_dedup_of_sorted(s);
    let d = dedup(s);
    lemma_host_lt_total(d[i], d[j]);
    lemma_host_lt_total(d[j], d[i]);
    if i < j {
        assert(target_lt(d[i], d[j]));
    } else {
        assert(target_lt(d[j], d[i]));
    }
}

/// The hosts that get a bookmark: those that are not left out, one for each name and
/// protocol, in ascending order. Where several eligible hosts share name and protocol,
/// the one that comes first in the order of hosts stands for them.
pub fn select_hosts(hosts: Vec<Host>, conds: &Conditions) -> (out: Vec<Host>)
    ensures
        collapses(eligible_among(conds@, host_views(hosts@)), host_views(out@)),
{
    let ghost eligible = eligible_among(conds@, host_views(hosts@));
    let kept = retain_eligible(hosts, conds);
    let ordered = sort_hosts(kept);
    proof {
        lemma_dedup_of_sorted(host_views(ordered@));
        lemma_collapses_any_order(
            host_views(ordered@),
            eligible,
            dedup(host_views(ordered@)),
        );
    }
    dedup_hosts(ordered)
}

/// What a selection holds: every host in it is a host of `s` that is not left out; every
/// host of `s` that is not left out has its name and protocol in it; and no two hosts in
/// it have the same name and protocol.
pub proof fn lemma_selection(rules: Seq<(Seq<char>, Condition)>, s: Seq<HostView>, d: Seq<HostView>)
    requires
        collapses(eligible_among(rules, s), d),
    ensures
        forall|i: int|
            0 <= i < d.len() ==> s.contains(#[trigger] d[i]) && !is_ineligible(rules, d[i]),
        forall|k: int|
            0 <= k < s.len() && !is_ineligible(rules, #[trigger] s[k]) ==> has_target(d, s[k]),
        forall|i: int, j: int|
            0 <= i < d.len() && 0 <= j < d.len() && i != j ==> !same_target(
                #[trigger] d[i],
                #[trigger] d[j],
            ),
{
    let e = eligible_among(rules, s);
    assert forall|i: int| 0 <= i < d.len() implies s.contains(#[trigger] d[i]) && !is_ineligible(
        rules,
        d[i],
    ) by {
        reveal(drawn_from);
        lemma_eligible_among(rules, s, d[i]);
    }
    assert forall|k: int| 0 <= k < s.len() && !is_ineligible(rules, #[trigger] s[k]) implies has_target(
        d,
        s[k],
    ) by {
        reveal(covers);
        lemma_eligible_among(rules, s, s[k]);
        assert(s.contains(s[k]));
        let m = choose|m: int| 0 <= m < e.len() && e[m] == s[k];
        assert(has_target(d, e[m]));
    }
    assert forall|i: int, j: int| 0 <= i < d.len() && 0 <= j < d.len() && i != j implies !same_target(
        #[trigger] d[i],
        #[trigger] d[j],
    ) by {
        lemma_host_lt_total(d[i], d[j]);
        lemma_host_lt_total(d[j], d[i]);
        if i < j {
            assert(target_lt(d[i], d[j]));
        } else {
            assert(target_lt(d[j], d[i]));
        }
    }
}

/// The hosts that are not left out are exactly the hosts of `s` that the rules let in
/// and that have no wildcard in their name.
pub proof fn lemma_eligible_among(
    rules: Seq<(Seq<char>, Condition)>,
    s: Seq<HostView>,
    x: HostView,
)
    ensures
        eligible_among(rules, s).contains(x) <==> s.contains(x) && !is_ineligible(rules, x),
    decreases s.len(),
{
    if s.len() > 0 {
        let init = s.drop_last();
        let e = eligible_among(rules, init);
        lemma_eligible_among(rules, init, x);
        if s.contains(x) {
            let m = choose|m: int| 0 <= m < s.len() && s[m] == x;
            if m < init.len() {
                assert(init[m] == x);
            }
        }
        if init.contains(x) {
            let m = choose|m: int| 0 <= m < init.len() && init[m] == x;
            assert(s[m] == x);
        }
        assert(s[s.len() - 1] == s.last());
        if !is_ineligible(rules, s.last()) {
            let now = e.push(s.last());
            assert(now[now.len() - 1] == s.last());
            if e.contains(x) {
                let m = choose|m: int| 0 <= m < e.len() && e[m] == x;
                assert(now[m] == x);
            }
            if now.contains(x) {
                let m = choose|m: int| 0 <= m < now.len() && now[m] == x;
                if m < e.len() {
                    assert(e[m] == x);
                }
            }
        }
    }
}

/// Whether `d` collapses `s` does not depend on the order of `s`.
pub proof fn lemma_collapses_any_order(s: Seq<HostView>, t: Seq<HostView>, d: Seq<HostView>)
    requires
        s.to_multiset() == t.to_multiset(),
        collapses(s, d),
    ensures
        collapses(t, d),
{
    assert forall|x: HostView| s.contains(x) == t.contains(x) by {
        to_multiset_contains(s, x);
        to_multiset_contains(t, x);
    }
    assert(drawn_from(d, t)) by {
        reveal(drawn_from);
    }
    assert(covers(d, t)) by {
        reveal(covers);
        assert forall|k: int| 0 <= k < t.len() implies has_target(d, #[trigger] t[k]) by {
            assert(t.contains(t[k]));
            assert(s.contains(t[k]));
            let m = choose|m: int| 0 <= m < s.len() && s[m] == t[k];
            assert(has_target(d, s[m]));
        }
    }
    assert(leads(d, t)) by {
        assert forall|i: int, k: int|
            0 <= i < d.len() && 0 <= k < t.len() && same_target(
                #[trigger] d[i],
                #[trigger] t[k],
            ) implies !host_lt(t[k], d[i]) by {
            assert(t.contains(t[k]));
            assert(s.contains(t[k]));
            let m = choose|m: int| 0 <= m < s.len() && s[m] == t[k];
            assert(!host_lt(s[m], d[i]));
        }
    }
}

} // verus!
