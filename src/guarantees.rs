//! What the reconciler guarantees across pairs and across requests.
use vstd::prelude::*;
use crate::ledger::Mount;
use crate::names::{lemma_minted_names_distinct, name_base, sync_name};
use crate::reconcile::{Pair, Step, dedup, lookup, plan_pairs, plan_step, restore_fold};
use crate::shell::expanded_path;

verus! {

/// The session name a step brings up.
pub open spec fn step_name(s: Step) -> Seq<char> {
    match s {
        Step::EnsureRemoteDir(_) => Seq::empty(),
        Step::Resume(n) => n,
        Step::Create(n, _, _) => n,
    }
}

proof fn lemma_lookup_push_found(l: Seq<Mount>, x: Mount, local: Seq<char>, remote: Seq<char>)
    requires
        lookup(l, local, remote) is Some,
    ensures
        lookup(l.push(x), local, remote) == lookup(l, local, remote),
    decreases l.len(),
{
    assert(l.push(x)[0] == l[0]);
    if !(l[0].local == local && l[0].remote == remote) {
        assert(l.push(x).drop_first() =~= l.drop_first().push(x));
        lemma_lookup_push_found(l.drop_first(), x, local, remote);
    }
}

proof fn lemma_lookup_push_new(l: Seq<Mount>, m: Mount)
    requires
        lookup(l, m.local, m.remote) is None,
    ensures
        lookup(l.push(m), m.local, m.remote) == Some(m.name),
    decreases l.len(),
{
    if l.len() == 0 {
        assert(l.push(m)[0] == m);
    } else {
        assert(l.push(m)[0] == l[0]);
        assert(l.push(m).drop_first() =~= l.drop_first().push(m));
        lemma_lookup_push_new(l.drop_first(), m);
    }
}

/// The shape of a reconciliation: two steps per pair, the ledger grows only
/// by the staged entries, every pair ends up with a ledger name that is
/// live, and the `k`-th staged entry carries the `k + 1`-th minted name.
pub proof fn lemma_plan_shape(
    ledger: Seq<Mount>,
    live: Set<Seq<char>>,
    label: Seq<char>,
    stamp: Seq<char>,
    pairs: Seq<Pair>,
)
    ensures
        ({
            let m = plan_pairs(ledger, live, label, stamp, pairs);
            &&& m.ledger == ledger + m.staged
            &&& m.steps.len() == 2 * pairs.len()
            &&& live.subset_of(m.live)
            &&& forall|k: int|
                0 <= k < pairs.len() ==> {
                    &&& #[trigger] m.steps[2 * k] == Step::EnsureRemoteDir(pairs[k].1)
                    &&& lookup(m.ledger, pairs[k].0, pairs[k].1) == Some(
                        step_name(m.steps[2 * k + 1]),
                    )
                    &&& m.live.contains(step_name(m.steps[2 * k + 1]))
                    &&& (m.steps[2 * k + 1] is Resume || m.steps[2 * k + 1] == Step::Create(
                        step_name(m.steps[2 * k + 1]),
                        pairs[k].0,
                        pairs[k].1,
                    ))
                }
            &&& forall|k: int|
                0 <= k < m.staged.len() ==> (#[trigger] m.staged[k]).name == sync_name(
                    label,
                    m.staged[k].local,
                    stamp,
                    (k + 1) as nat,
                )
        }),
    decreases pairs.len(),
{
    let m = plan_pairs(ledger, live, label, stamp, pairs);
    if pairs.len() == 0 {
        assert(ledger + Seq::<Mount>::empty() =~= ledger);
    } else {
        let n = pairs.len() - 1;
        let front = pairs.drop_last();
        let p = plan_pairs(ledger, live, label, stamp, front);
        lemma_plan_shape(ledger, live, label, stamp, front);
        let (local, remote) = pairs.last();
        assert(m == plan_step(p, label, stamp, pairs.last()));
        match lookup(p.ledger, local, remote) {
            Some(name) => {
                assert forall|k: int| 0 <= k < pairs.len() implies {
                    &&& #[trigger] m.steps[2 * k] == Step::EnsureRemoteDir(pairs[k].1)
                    &&& lookup(m.ledger, pairs[k].0, pairs[k].1) == Some(
                        step_name(m.steps[2 * k + 1]),
                    )
                    &&& m.live.contains(step_name(m.steps[2 * k + 1]))
                    &&& (m.steps[2 * k + 1] is Resume || m.steps[2 * k + 1] == Step::Create(
                        step_name(m.steps[2 * k + 1]),
                        pairs[k].0,
                        pairs[k].1,
                    ))
                } by {
                    if k < n {
                        assert(front[k] == pairs[k]);
                        assert(p.steps[2 * k] == Step::EnsureRemoteDir(front[k].1));
                    }
                }
            },
            None => {
                let name = sync_name(label, local, stamp, p.staged.len() + 1);
                let mm = Mount { name, local, remote };
                assert(m.ledger == p.ledger.push(mm));
                assert(ledger + m.staged =~= (ledger + p.staged).push(mm));
                lemma_lookup_push_new(p.ledger, mm);
                assert forall|k: int| 0 <= k < pairs.len() implies {
                    &&& #[trigger] m.steps[2 * k] == Step::EnsureRemoteDir(pairs[k].1)
                    &&& lookup(m.ledger, pairs[k].0, pairs[k].1) == Some(
                        step_name(m.steps[2 * k + 1]),
                    )
                    &&& m.live.contains(step_name(m.steps[2 * k + 1]))
                    &&& (m.steps[2 * k + 1] is Resume || m.steps[2 * k + 1] == Step::Create(
                        step_name(m.steps[2 * k + 1]),
                        pairs[k].0,
                        pairs[k].1,
                    ))
                } by {
                    if k < n {
                        assert(front[k] == pairs[k]);
                        assert(p.steps[2 * k] == Step::EnsureRemoteDir(front[k].1));
                        lemma_lookup_push_found(p.ledger, mm, pairs[k].0, pairs[k].1);
                    }
                }
                assert forall|k: int| 0 <= k < m.staged.len() implies (#[trigger] m.staged[k]).name
                    == sync_name(label, m.staged[k].local, stamp, (k + 1) as nat) by {
                    if k < p.staged.len() {
                        assert(m.staged[k] == p.staged[k]);
                    }
                }
            },
        }
    }
}

/// `dedup` keeps each element of `s` exactly once.
pub proof fn lemma_dedup(s: Seq<Pair>)
    ensures
        dedup(s).no_duplicates(),
        forall|x: Pair| s.contains(x) <==> dedup(s).contains(x),
    decreases s.len(),
{
    if s.len() > 0 {
        let front = s.drop_last();
        lemma_dedup(front);
        let d = dedup(front);
        let last = s.last();
        let r = dedup(s);
        if !d.contains(last) {
            assert(r == d.push(last));
            assert forall|i: int, j: int| 0 <= i < r.len() && 0 <= j < r.len() && i != j implies r[i]
                != r[j] by {
                if i < d.len() && j < d.len() {
                    assert(r[i] == d[i] && r[j] == d[j]);
                } else if i < d.len() {
                    assert(r[i] == d[i]);
                } else {
                    assert(r[j] == d[j]);
                }
            }
        }
        assert forall|x: Pair| s.contains(x) implies r.contains(x) by {
            let k = choose|k: int| 0 <= k < s.len() && s[k] == x;
            if k < front.len() {
                assert(front[k] == x);
                assert(front.contains(x));
                assert(d.contains(x));
                let i = choose|i: int| 0 <= i < d.len() && d[i] == x;
                if !d.contains(last) {
                    assert(r[i] == x);
                }
            } else if !d.contains(x) {
                assert(r[d.len() as int] == x);
            }
        }
        assert forall|x: Pair| r.contains(x) implies s.contains(x) by {
            let k = choose|k: int| 0 <= k < r.len() && r[k] == x;
            if k < d.len() {
                assert(d[k] == x);
                assert(front.contains(x));
                let j = choose|j: int| 0 <= j < front.len() && front[j] == x;
                assert(s[j] == x);
            } else {
                assert(s[s.len() - 1] == x);
            }
        }
    }
}

/// A request is handled once per distinct pair: the pairs handled are the
/// requested ones without repeats, and each of them gets exactly two steps,
/// the remote directory and then a resume or a create of that pair.
pub proof fn law_each_distinct_pair_once(
    ledger: Seq<Mount>,
    live: Set<Seq<char>>,
    label: Seq<char>,
    stamp: Seq<char>,
    pairs: Seq<Pair>,
)
    ensures
        ({
            let u = dedup(pairs);
            let m = plan_pairs(ledger, live, label, stamp, u);
            &&& u.no_duplicates()
            &&& forall|x: Pair| pairs.contains(x) <==> u.contains(x)
            &&& m.steps.len() == 2 * u.len()
            &&& forall|k: int|
                0 <= k < u.len() ==> {
                    &&& #[trigger] m.steps[2 * k] == Step::EnsureRemoteDir(u[k].1)
                    &&& (m.steps[2 * k + 1] == Step::Resume(step_name(m.steps[2 * k + 1]))
                        || m.steps[2 * k + 1] == Step::Create(
                        step_name(m.steps[2 * k + 1]),
                        u[k].0,
                        u[k].1,
                    ))
                }
        }),
{
    lemma_dedup(pairs);
    let u = dedup(pairs);
    lemma_plan_shape(ledger, live, label, stamp, u);
    let m = plan_pairs(ledger, live, label, stamp, u);
    assert forall|k: int| 0 <= k < u.len() implies {
        &&& #[trigger] m.steps[2 * k] == Step::EnsureRemoteDir(u[k].1)
        &&& (m.steps[2 * k + 1] == Step::Resume(step_name(m.steps[2 * k + 1]))
            || m.steps[2 * k + 1] == Step::Create(step_name(m.steps[2 * k + 1]), u[k].0, u[k].1))
    } by {
        assert(m.steps[2 * k] == Step::EnsureRemoteDir(u[k].1));
    }
}

proof fn lemma_plan_all_known(
    ledger: Seq<Mount>,
    live: Set<Seq<char>>,
    label: Seq<char>,
    stamp: Seq<char>,
    pairs: Seq<Pair>,
)
    requires
        forall|k: int|
            0 <= k < pairs.len() ==> (#[trigger] lookup(ledger, pairs[k].0, pairs[k].1) matches Some(
                n,
            ) && live.contains(n)),
    ensures
        ({
            let m = plan_pairs(ledger, live, label, stamp, pairs);
            &&& m.ledger == ledger
            &&& m.live == live
            &&& m.staged.len() == 0
            &&& m.steps.len() == 2 * pairs.len()
            &&& forall|k: int|
                0 <= k < pairs.len() ==> #[trigger] m.steps[2 * k + 1] == Step::Resume(
                    lookup(ledger, pairs[k].0, pairs[k].1)->0,
                )
        }),
    decreases pairs.len(),
{
    if pairs.len() > 0 {
        let front = pairs.drop_last();
        assert forall|k: int| 0 <= k < front.len() implies (#[trigger] lookup(
            ledger,
            front[k].0,
            front[k].1,
        ) matches Some(n) && live.contains(n)) by {
            assert(front[k] == pairs[k]);
            assert(lookup(ledger, pairs[k].0, pairs[k].1) matches Some(n) && live.contains(n));
        }
        lemma_plan_all_known(ledger, live, label, stamp, front);
        let p = plan_pairs(ledger, live, label, stamp, front);
        let m = plan_pairs(ledger, live, label, stamp, pairs);
        let n = pairs.len() - 1;
        assert(lookup(ledger, pairs[n].0, pairs[n].1) matches Some(x) && live.contains(x));
        let name = lookup(ledger, pairs[n].0, pairs[n].1)->0;
        assert(m.live =~= live);
        assert forall|k: int| 0 <= k < pairs.len() implies #[trigger] m.steps[2 * k + 1]
            == Step::Resume(lookup(ledger, pairs[k].0, pairs[k].1)->0) by {
            if k < n {
                assert(front[k] == pairs[k]);
                assert(p.steps[2 * k + 1] == Step::Resume(lookup(ledger, front[k].0, front[k].1)->0));
            }
        }
    }
}

/// Repeating a request once its plan has run finds every pair in the
/// ledger under the name the first run used: nothing new is staged, and
/// every pair's session is resumed under that same name.
///
/// The second run sees the ledger with the first run's entries appended and
/// a live inventory that holds every session the first run brought up.
pub proof fn law_repeat_request_resumes(
    ledger: Seq<Mount>,
    live: Set<Seq<char>>,
    live_after: Set<Seq<char>>,
    label: Seq<char>,
    stamp: Seq<char>,
    stamp_after: Seq<char>,
    pairs: Seq<Pair>,
)
    requires
        plan_pairs(ledger, live, label, stamp, pairs).live.subset_of(live_after),
    ensures
        ({
            let first = plan_pairs(ledger, live, label, stamp, pairs);
            let again = plan_pairs(ledger + first.staged, live_after, label, stamp_after, pairs);
            &&& again.staged.len() == 0
            &&& again.steps.len() == first.steps.len()
            &&& forall|k: int|
                0 <= k < pairs.len() ==> #[trigger] again.steps[2 * k + 1] == Step::Resume(
                    step_name(first.steps[2 * k + 1]),
                )
        }),
{
    lemma_plan_shape(ledger, live, label, stamp, pairs);
    let first = plan_pairs(ledger, live, label, stamp, pairs);
    let l2 = ledger + first.staged;
    assert forall|k: int| 0 <= k < pairs.len() implies (#[trigger] lookup(
        l2,
        pairs[k].0,
        pairs[k].1,
    ) matches Some(n) && live_after.contains(n)) by {
        assert(first.steps[2 * k] == Step::EnsureRemoteDir(pairs[k].1));
    }
    lemma_plan_all_known(l2, live_after, label, stamp_after, pairs);
    let again = plan_pairs(l2, live_after, label, stamp_after, pairs);
    assert forall|k: int| 0 <= k < pairs.len() implies #[trigger] again.steps[2 * k + 1]
        == Step::Resume(step_name(first.steps[2 * k + 1])) by {
        assert(first.steps[2 * k] == Step::EnsureRemoteDir(pairs[k].1));
    }
}

/// Two names minted in one request from the same path-derived base are
/// distinct.
pub proof fn law_minted_names_distinct(
    ledger: Seq<Mount>,
    live: Set<Seq<char>>,
    label: Seq<char>,
    stamp: Seq<char>,
    pairs: Seq<Pair>,
)
    ensures
        ({
            let m = plan_pairs(ledger, live, label, stamp, pairs);
            forall|a: int, b: int|
                0 <= a < b < m.staged.len() && name_base(#[trigger] m.staged[a].local) == name_base(
                    #[trigger] m.staged[b].local,
                ) ==> m.staged[a].name != m.staged[b].name
        }),
{
    lemma_plan_shape(ledger, live, label, stamp, pairs);
    let m = plan_pairs(ledger, live, label, stamp, pairs);
    assert forall|a: int, b: int|
        0 <= a < b < m.staged.len() && name_base(#[trigger] m.staged[a].local) == name_base(
            #[trigger] m.staged[b].local,
        ) implies m.staged[a].name != m.staged[b].name by {
        lemma_minted_names_distinct(
            label,
            m.staged[a].local,
            m.staged[b].local,
            stamp,
            (a + 1) as nat,
            (b + 1) as nat,
        );
    }
}

/// Restoring a ledger resumes every entry whose name is live and creates
/// the rest: an entry whose name is neither live nor used by an earlier
/// entry is created from its own paths.
pub proof fn law_restore_resumes_live_creates_rest(
    ms: Seq<Mount>,
    live: Set<Seq<char>>,
    home: Seq<char>,
    cwd: Seq<char>,
)
    ensures
        ({
            let (steps, after) = restore_fold(ms, live, home, cwd);
            &&& steps.len() == 2 * ms.len()
            &&& forall|x: Seq<char>|
                after.contains(x) <==> (live.contains(x) || exists|j: int|
                    0 <= j < ms.len() && (#[trigger] ms[j]).name == x)
            &&& forall|k: int|
                0 <= k < ms.len() ==> {
                    &&& #[trigger] steps[2 * k] == Step::EnsureRemoteDir(ms[k].remote)
                    &&& live.contains(ms[k].name) ==> steps[2 * k + 1] == Step::Resume(ms[k].name)
                    &&& (!live.contains(ms[k].name) && forall|j: int|
                        0 <= j < k ==> ms[j].name != ms[k].name) ==> steps[2 * k + 1]
                        == Step::Create(
                        ms[k].name,
                        expanded_path(ms[k].local, home, cwd),
                        ms[k].remote,
                    )
                }
        }),
    decreases ms.len(),
{
    if ms.len() > 0 {
        let front = ms.drop_last();
        law_restore_resumes_live_creates_rest(front, live, home, cwd);
        let (fs, fl) = restore_fold(front, live, home, cwd);
        let (steps, after) = restore_fold(ms, live, home, cwd);
        let n = ms.len() - 1;
        assert forall|x: Seq<char>|
            after.contains(x) <==> (live.contains(x) || exists|j: int|
                0 <= j < ms.len() && (#[trigger] ms[j]).name == x) by {
            if after.contains(x) && !live.contains(x) {
                if x == ms[n].name {
                } else {
                    let j = choose|j: int| 0 <= j < front.len() && (#[trigger] front[j]).name == x;
                    assert(ms[j] == front[j]);
                }
            }
            if exists|j: int| 0 <= j < ms.len() && (#[trigger] ms[j]).name == x {
                let j = choose|j: int| 0 <= j < ms.len() && (#[trigger] ms[j]).name == x;
                if j < n {
                    assert(front[j] == ms[j]);
                }
            }
        }
        assert forall|k: int| 0 <= k < ms.len() implies {
            &&& #[trigger] steps[2 * k] == Step::EnsureRemoteDir(ms[k].remote)
            &&& live.contains(ms[k].name) ==> steps[2 * k + 1] == Step::Resume(ms[k].name)
            &&& (!live.contains(ms[k].name) && forall|j: int|
                0 <= j < k ==> ms[j].name != ms[k].name) ==> steps[2 * k + 1] == Step::Create(
                ms[k].name,
                expanded_path(ms[k].local, home, cwd),
                ms[k].remote,
            )
        } by {
            if k < n {
                assert(front[k] == ms[k]);
                assert(fs[2 * k] == Step::EnsureRemoteDir(front[k].remote));
                assert forall|j: int| 0 <= j < k implies front[j] == ms[j] by {}
            } else {
                if !live.contains(ms[k].name) && forall|j: int|
                    0 <= j < k ==> ms[j].name != ms[k].name {
                    assert(!fl.contains(ms[k].name)) by {
                        if fl.contains(ms[k].name) {
                            let j = choose|j: int|
                                0 <= j < front.len() && (#[trigger] front[j]).name == ms[k].name;
                            assert(ms[j] == front[j]);
                        }
                    }
                }
            }
        }
    }
}

} // verus!
