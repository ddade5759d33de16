//! Reconciliation of requested synchronisation pairs against the remote
//! ledger and the sync daemon's live sessions.
//!
//! The functions here decide; the caller fetches the ledger and the live
//! session names, runs the returned steps in order (stopping at the first
//! failure), and finally appends the new ledger entries in one remote write.
use vstd::prelude::*;
use crate::text::{chars_of, string_of, strs_view, trim, trimmed};
use crate::ledger::{Mount, MountEntry, mounts_view};
use crate::names::sync_name;
use crate::shell::{expand_local_path, expanded_path};

verus! {

/// A requested pair of folders.
#[derive(Debug, Clone, PartialEq, Eq)]
pub struct SyncPath {
    pub local: String,
    pub remote: String,
}

/// How to reach the remote host.
#[derive(Debug, Clone, PartialEq, Eq)]
pub struct SshConfig {
    pub user: String,
    pub host: String,
    pub port: u16,
    pub key_path: String,
}

/// Why a request is refused.
#[derive(Debug, Clone, Copy, PartialEq, Eq)]
pub enum SyncError {
    /// No pair was requested.
    NoPaths,
    /// A requested remote path is blank.
    EmptyRemote,
    /// The ledger holds no entry to restore.
    EmptyLedger,
}

/// One piece of outside work, in the order the plan gives.
#[derive(Debug, Clone, PartialEq, Eq)]
pub enum SyncStep {
    /// Create the remote directory if it is missing.
    EnsureRemoteDir { remote: String },
    /// Resume the session of this name.
    Resume { name: String },
    /// Create a session of this name between the two folders.
    Create { name: String, local: String, remote: String },
}

/// What a step does.
pub enum Step {
    EnsureRemoteDir(Seq<char>),
    Resume(Seq<char>),
    Create(Seq<char>, Seq<char>, Seq<char>),
}

impl View for SyncStep {
    type V = Step;

    open spec fn view(&self) -> Step {
        match self {
            SyncStep::EnsureRemoteDir { remote } => Step::EnsureRemoteDir(remote@),
            SyncStep::Resume { name } => Step::Resume(name@),
            SyncStep::Create { name, local, remote } => Step::Create(name@, local@, remote@),
        }
    }
}

pub open spec fn steps_view(v: Seq<SyncStep>) -> Seq<Step> {
    v.map_values(|s: SyncStep| s@)
}

/// The outside work of one request: the steps, then the entries to append
/// to the ledger, and the number of pairs handled.
#[derive(Debug)]
pub struct SyncPlan {
    pub steps: Vec<SyncStep>,
    pub new_entries: Vec<MountEntry>,
    pub count: usize,
}

/// A pair of folders as the reconciler compares them.
pub type Pair = (Seq<char>, Seq<char>);

/// The state of the reconciliation after some pairs: the ledger as it will
/// be, the session names that exist, the steps so far and the new entries.
pub struct PlanModel {
    pub ledger: Seq<Mount>,
    pub live: Set<Seq<char>>,
    pub steps: Seq<Step>,
    pub staged: Seq<Mount>,
}

/// The name of the first ledger entry for the pair `(local, remote)`.
pub open spec fn lookup(ledger: Seq<Mount>, local: Seq<char>, remote: Seq<char>) -> Option<
    Seq<char>,
>
    decreases ledger.len(),
{
    if ledger.len() == 0 {
        None
    } else if ledger[0].local == local && ledger[0].remote == remote {
        Some(ledger[0].name)
    } else {
        lookup(ledger.drop_first(), local, remote)
    }
}

/// The step that brings the session `name` up: a resume when it exists, a
/// create otherwise.
pub open spec fn bring_up(live: Set<Seq<char>>, name: Seq<char>, local: Seq<char>, remote: Seq<
    char,
>) -> Step {
    if live.contains(name) {
        Step::Resume(name)
    } else {
        Step::Create(name, local, remote)
    }
}

/// One pair handled: its ledger name is reused, or a new one is minted and
/// staged; then its remote directory is ensured and its session brought up.
pub open spec fn plan_step(p: PlanModel, label: Seq<char>, stamp: Seq<char>, pair: Pair) -> PlanModel {
    let (local, remote) = pair;
    match lookup(p.ledger, local, remote) {
        Some(name) => PlanModel {
            ledger: p.ledger,
            live: p.live.insert(name),
            steps: p.steps.push(Step::EnsureRemoteDir(remote)).push(
                bring_up(p.live, name, local, remote),
            ),
            staged: p.staged,
        },
        None => {
            let name = sync_name(label, local, stamp, p.staged.len() + 1);
            let m = Mount { name, local, remote };
            PlanModel {
                ledger: p.ledger.push(m),
                live: p.live.insert(name),
                steps: p.steps.push(Step::EnsureRemoteDir(remote)).push(
                    bring_up(p.live, name, local, remote),
                ),
                staged: p.staged.push(m),
            }
        },
    }
}

/// The reconciliation of `pairs`, in order, starting from `ledger` and the
/// live names `live`.
pub open spec fn plan_pairs(
    ledger: Seq<Mount>,
    live: Set<Seq<char>>,
    label: Seq<char>,
    stamp: Seq<char>,
    pairs: Seq<Pair>,
) -> PlanModel
    decreases pairs.len(),
{
    if pairs.len() == 0 {
        PlanModel { ledger, live, steps: Seq::empty(), staged: Seq::empty() }
    } else {
        plan_step(plan_pairs(ledger, live, label, stamp, pairs.drop_last()), label, stamp, pairs.last())
    }
}

/// `s` without repeated elements, each kept where it first occurs.
pub open spec fn dedup(s: Seq<Pair>) -> Seq<Pair>
    decreases s.len(),
{
    if s.len() == 0 {
        s
    } else {
        let d = dedup(s.drop_last());
        if d.contains(s.last()) {
            d
        } else {
            d.push(s.last())
        }
    }
}

/// A requested pair as the reconciler compares it: the local path made
/// absolute, the remote path trimmed.
pub open spec fn norm_pair(p: SyncPath, home: Seq<char>, cwd: Seq<char>) -> Pair {
    (expanded_path(p.local@, home, cwd), trim(p.remote@))
}

pub open spec fn norm_pairs(paths: Seq<SyncPath>, home: Seq<char>, cwd: Seq<char>) -> Seq<Pair> {
    paths.map_values(|p: SyncPath| norm_pair(p, home, cwd))
}

/// Whether a request is refused before anything is fetched or run.
pub open spec fn request_error(paths: Seq<SyncPath>) -> Option<SyncError> {
    if paths.len() == 0 {
        Some(SyncError::NoPaths)
    } else if exists|i: int| 0 <= i < paths.len() && trim(#[trigger] paths[i].remote@).len() == 0 {
        Some(SyncError::EmptyRemote)
    } else {
        None
    }
}

/// Refuses an empty request and one with a blank remote path.
pub fn check_sync_request(paths: &[SyncPath]) -> (r: Result<(), SyncError>)
    ensures
        r is Ok <==> request_error(paths@) is None,
        r matches Err(e) ==> request_error(paths@) == Some(e),
{
    if paths.len() == 0 {
        return Err(SyncError::NoPaths);
    }
    let mut i: usize = 0;
    while i < paths.len()
        invariant
            i <= paths@.len(),
            forall|k: int| 0 <= k < i ==> trim(#[trigger] paths@[k].remote@).len() > 0,
        decreases paths.len() - i,
    {
        let v = chars_of(paths[i].remote.as_str());
        let t = trimmed(&v);
        if t.len() == 0 {
            return Err(SyncError::EmptyRemote);
        }
        i += 1;
    }
    Ok(())
}

fn same_pair(p: &SyncPath, local: &String, remote: &String) -> (r: bool)
    ensures
        r == (p.local@ == local@ && p.remote@ == remote@),
{
    p.local == *local && p.remote == *remote
}

pub open spec fn pairs_view(v: Seq<SyncPath>) -> Seq<Pair> {
    v.map_values(|p: SyncPath| (p.local@, p.remote@))
}

fn contains_pair(seen: &[SyncPath], local: &String, remote: &String) -> (r: bool)
    ensures
        r == pairs_view(seen@).contains((local@, remote@)),
{
    let mut i: usize = 0;
    while i < seen.len()
        invariant
            i <= seen@.len(),
            forall|k: int| 0 <= k < i ==> pairs_view(seen@)[k] != (local@, remote@),
        decreases seen.len() - i,
    {
        if same_pair(&seen[i], local, remote) {
            assert(pairs_view(seen@)[i as int] == (local@, remote@));
            return true;
        }
        i += 1;
    }
    false
}

/// The name of the first entry of `ledger` for `(local, remote)`.
fn find_name(ledger: &[MountEntry], local: &String, remote: &String) -> (r: Option<String>)
    ensures
        match r {
            Some(n) => lookup(mounts_view(ledger@), local@, remote@) == Some(n@),
            None => lookup(mounts_view(ledger@), local@, remote@) is None,
        },
{
    let ghost ms = mounts_view(ledger@);
    let mut i: usize = 0;
    assert(ms.skip(0) =~= ms);
    while i < ledger.len()
        invariant
            i <= ledger@.len(),
            ms == mounts_view(ledger@),
            lookup(ms, local@, remote@) == lookup(ms.skip(i as int), local@, remote@),
        decreases ledger.len() - i,
    {
        assert(ms.skip(i as int).drop_first() =~= ms.skip(i + 1));
        assert(ms.skip(i as int)[0] == ledger@[i as int]@);
        if ledger[i].local == *local && ledger[i].remote == *remote {
            return Some(ledger[i].name.clone());
        }
        i += 1;
    }
    None
}

fn contains_name(names: &[String], name: &String) -> (r: bool)
    ensures
        r == strs_view(names@).to_set().contains(name@),
{
    let mut i: usize = 0;
    while i < names.len()
        invariant
            i <= names@.len(),
            forall|k: int| 0 <= k < i ==> names@[k]@ != name@,
        decreases names.len() - i,
    {
        if names[i] == *name {
            assert(strs_view(names@)[i as int] == name@);
            return true;
        }
        i += 1;
    }
    assert(!strs_view(names@).contains(name@));
    false
}

fn copy_entries(v: &[MountEntry]) -> (r: Vec<MountEntry>)
    ensures
        mounts_view(r@) == mounts_view(v@),
{
    let mut r: Vec<MountEntry> = Vec::new();
    let mut i: usize = 0;
    while i < v.len()
        invariant
            i <= v@.len(),
            r@.len() == i,
            forall|k: int| 0 <= k < i ==> r@[k]@ == v@[k]@,
        decreases v.len() - i,
    {
        r.push(v[i].copy());
        i += 1;
    }
    assert(mounts_view(r@) =~= mounts_view(v@));
    r
}

fn copy_names(v: &[String]) -> (r: Vec<String>)
    ensures
        strs_view(r@) == strs_view(v@),
{
    let mut r: Vec<String> = Vec::new();
    let mut i: usize = 0;
    while i < v.len()
        invariant
            i <= v@.len(),
            r@.len() == i,
            forall|k: int| 0 <= k < i ==> r@[k]@ == v@[k]@,
        decreases v.len() - i,
    {
        r.push(v[i].clone());
        i += 1;
    }
    assert(strs_view(r@) =~= strs_view(v@));
    r
}

/// The plan for a request of pairs `paths`, labelled `label`, made at time
/// `stamp`, against the ledger `ledger` and the live session names `live`;
/// `home` and `cwd` make local paths absolute.
///
/// The request is refused as `request_error` says. Otherwise duplicate
/// pairs are dropped, each remaining pair is handled once by `plan_step`,
/// and the count is the number of distinct pairs.
pub fn create_syncs(
    ledger: &[MountEntry],
    live: &[String],
    label: &str,
    paths: &[SyncPath],
    home: &str,
    cwd: &str,
    stamp: &str,
) -> (r: Result<SyncPlan, SyncError>)
    ensures
        r is Ok <==> request_error(paths@) is None,
        r matches Err(e) ==> request_error(paths@) == Some(e),
        r matches Ok(plan) ==> {
            let uniq = dedup(norm_pairs(paths@, home@, cwd@));
            let m = plan_pairs(
                mounts_view(ledger@),
                strs_view(live@).to_set(),
                label@,
                stamp@,
                uniq,
            );
            &&& plan.count == uniq.len()
            &&& steps_view(plan.steps@) == m.steps
            &&& mounts_view(plan.new_entries@) == m.staged
        },
{
    match check_sync_request(paths) {
        Err(e) => {
            return Err(e);
        },
        Ok(()) => {},
    }
    let ghost l0 = mounts_view(ledger@);
    let ghost n0 = strs_view(live@).to_set();
    let ghost norm = norm_pairs(paths@, home@, cwd@);
    let label_chars = chars_of(label);
    let stamp_chars = chars_of(stamp);
    let mut entries = copy_entries(ledger);
    let mut names = copy_names(live);
    let mut seen: Vec<SyncPath> = Vec::new();
    let mut staged: Vec<MountEntry> = Vec::new();
    let mut steps: Vec<SyncStep> = Vec::new();
    let mut i: usize = 0;
    while i < paths.len()
        invariant
            i <= paths@.len(),
            norm == norm_pairs(paths@, home@, cwd@),
            label_chars@ == label@,
            stamp_chars@ == stamp@,
            pairs_view(seen@) == dedup(norm.take(i as int)),
            ({
                let m = plan_pairs(l0, n0, label@, stamp@, dedup(norm.take(i as int)));
                &&& mounts_view(entries@) == m.ledger
                &&& strs_view(names@).to_set() == m.live
                &&& steps_view(steps@) == m.steps
                &&& mounts_view(staged@) == m.staged
            }),
            seen@.len() <= i,
            staged@.len() <= i,
        decreases paths.len() - i,
    {
        let ghost d = dedup(norm.take(i as int));
        let ghost m = plan_pairs(l0, n0, label@, stamp@, d);
        proof {
            assert(norm.take(i + 1).drop_last() =~= norm.take(i as int));
            assert(norm.take(i + 1).last() == norm[i as int]);
        }
        let local = expand_local_path(paths[i].local.as_str(), home, cwd);
        let rv = chars_of(paths[i].remote.as_str());
        let remote = string_of(&trimmed(&rv));
        assert(norm[i as int] == (local@, remote@));
        if contains_pair(&seen, &local, &remote) {
            i += 1;
            continue;
        }
        seen.push(SyncPath { local: local.clone(), remote: remote.clone() });
        proof {
            assert(pairs_view(seen@) =~= d.push((local@, remote@)));
            assert(d.push((local@, remote@)).drop_last() =~= d);
        }
        let name = match find_name(&entries, &local, &remote) {
            Some(n) => n,
            None => {
                let local_chars = chars_of(local.as_str());
                let name_chars = crate::names::sync_name_chars(
                    &label_chars,
                    &local_chars,
                    &stamp_chars,
                    staged.len() + 1,
                );
                let n = string_of(&name_chars);
                let e = MountEntry { name: n.clone(), local: local.clone(), remote: remote.clone() };
                entries.push(e.copy());
                staged.push(e);
                proof {
                    assert(mounts_view(entries@) =~= m.ledger.push(e@));
                    assert(mounts_view(staged@) =~= m.staged.push(e@));
                }
                n
            },
        };
        steps.push(SyncStep::EnsureRemoteDir { remote: remote.clone() });
        if contains_name(&names, &name) {
            steps.push(SyncStep::Resume { name: name.clone() });
            proof {
                assert(strs_view(names@).to_set() =~= m.live.insert(name@));
            }
        } else {
            steps.push(SyncStep::Create { name: name.clone(), local: local.clone(), remote: remote.clone() });
            let ghost old_v = strs_view(names@);
            let ghost nm = name@;
            names.push(name);
            proof {
                let nv = strs_view(names@);
                assert(nv =~= old_v.push(nm));
                assert forall|x: Seq<char>| nv.contains(x) <==> (old_v.contains(x) || x == nm) by {
                    if nv.contains(x) {
                        let k = choose|k: int| 0 <= k < nv.len() && nv[k] == x;
                        if k < old_v.len() {
                            assert(old_v[k] == x);
                        }
                    }
                    if old_v.contains(x) {
                        let k = choose|k: int| 0 <= k < old_v.len() && old_v[k] == x;
                        assert(nv[k] == x);
                    }
                    if x == nm {
                        assert(nv[old_v.len() as int] == x);
                    }
                }
                assert(nv.to_set() =~= m.live.insert(nm));
            }
        }
        proof {
            let m2 = plan_step(m, label@, stamp@, (local@, remote@));
            assert(steps_view(steps@) =~= m2.steps);
        }
        i += 1;
    }
    proof {
        assert(norm.take(paths@.len() as int) =~= norm);
    }
    let count = seen.len();
    Ok(SyncPlan { steps, new_entries: staged, count })
}

/// The steps that restore `ms` in order, and the session names that exist
/// after them, starting from the live names `live`.
pub open spec fn restore_fold(ms: Seq<Mount>, live: Set<Seq<char>>, home: Seq<char>, cwd: Seq<char>) -> (
    Seq<Step>,
    Set<Seq<char>>,
)
    decreases ms.len(),
{
    if ms.len() == 0 {
        (Seq::empty(), live)
    } else {
        let (steps, l) = restore_fold(ms.drop_last(), live, home, cwd);
        let m = ms.last();
        (
            steps.push(Step::EnsureRemoteDir(m.remote)).push(
                bring_up(l, m.name, expanded_path(m.local, home, cwd), m.remote),
            ),
            l.insert(m.name),
        )
    }
}

/// The plan that brings every ledger entry back: its remote directory is
/// ensured, then its session is resumed when the name is live and created
/// otherwise. Nothing new is minted or staged; an empty ledger is refused.
pub fn restore_syncs(ledger: &[MountEntry], live: &[String], home: &str, cwd: &str) -> (r: Result<
    SyncPlan,
    SyncError,
>)
    ensures
        ledger@.len() == 0 <==> r == Err::<SyncPlan, SyncError>(SyncError::EmptyLedger),
        ledger@.len() > 0 <==> r is Ok,
        r matches Ok(plan) ==> {
            &&& plan.count == ledger@.len()
            &&& plan.new_entries@.len() == 0
            &&& steps_view(plan.steps@) == restore_fold(
                mounts_view(ledger@),
                strs_view(live@).to_set(),
                home@,
                cwd@,
            ).0
        },
{
    if ledger.len() == 0 {
        return Err(SyncError::EmptyLedger);
    }
    let ghost ms = mounts_view(ledger@);
    let ghost n0 = strs_view(live@).to_set();
    let mut names = copy_names(live);
    let mut steps: Vec<SyncStep> = Vec::new();
    let mut i: usize = 0;
    while i < ledger.len()
        invariant
            i <= ledger@.len(),
            ms == mounts_view(ledger@),
            ({
                let (st, l) = restore_fold(ms.take(i as int), n0, home@, cwd@);
                &&& steps_view(steps@) == st
                &&& strs_view(names@).to_set() == l
            }),
        decreases ledger.len() - i,
    {
        let ghost prev = restore_fold(ms.take(i as int), n0, home@, cwd@);
        proof {
            assert(ms.take(i + 1).drop_last() =~= ms.take(i as int));
            assert(ms.take(i + 1).last() == ledger@[i as int]@);
        }
        let e = &ledger[i];
        let local = expand_local_path(e.local.as_str(), home, cwd);
        steps.push(SyncStep::EnsureRemoteDir { remote: e.remote.clone() });
        if contains_name(&names, &e.name) {
            steps.push(SyncStep::Resume { name: e.name.clone() });
            proof {
                assert(strs_view(names@).to_set() =~= prev.1.insert(e.name@));
            }
        } else {
            steps.push(SyncStep::Create { name: e.name.clone(), local, remote: e.remote.clone() });
            let ghost old_v = strs_view(names@);
            let ghost nm = e.name@;
            names.push(e.name.clone());
            proof {
                let nv = strs_view(names@);
                assert(nv =~= old_v.push(nm));
                assert forall|x: Seq<char>| nv.contains(x) <==> (old_v.contains(x) || x == nm) by {
                    if nv.contains(x) {
                        let k = choose|k: int| 0 <= k < nv.len() && nv[k] == x;
                        if k < old_v.len() {
                            assert(old_v[k] == x);
                        }
                    }
                    if old_v.contains(x) {
                        let k = choose|k: int| 0 <= k < old_v.len() && old_v[k] == x;
                        assert(nv[k] == x);
                    }
                    if x == nm {
                        assert(nv[old_v.len() as int] == x);
                    }
                }
                assert(nv.to_set() =~= prev.1.insert(nm));
            }
        }
        proof {
            let next = restore_fold(ms.take(i + 1), n0, home@, cwd@);
            assert(steps_view(steps@) =~= next.0);
        }
        i += 1;
    }
    proof {
        assert(ms.take(ms.len() as int) =~= ms);
    }
    Ok(SyncPlan { steps, new_entries: Vec::new(), count: ledger.len() })
}

/// The result of deleting a session.
#[derive(Debug, Clone, PartialEq, Eq)]
pub struct DeleteSyncOutcome {
    pub name: String,
    pub mount_removed: bool,
    pub mount_error: Option<String>,
}

/// The outcome of deleting the session `name`, from what the two pieces of
/// outside work gave: `terminated`, the termination of the live session,
/// which comes first; and `cleanup`, the removal of its ledger entries (the
/// number removed), present only when an ssh context was given.
///
/// A failed termination fails the whole deletion with its error. Otherwise
/// the deletion succeeds: the entry counts as removed when the cleanup
/// removed any, and a failed cleanup leaves `mount_removed` false and its
/// error text in `mount_error`.
pub fn delete_sync(name: &str, terminated: Result<(), String>, cleanup: Option<Result<usize, String>>) -> (r:
    Result<DeleteSyncOutcome, String>)
    ensures
        terminated matches Err(e) ==> (r matches Err(x) && x@ == e@),
        terminated is Ok ==> r is Ok,
        r matches Ok(o) ==> {
            &&& o.name@ == name@
            &&& o.mount_removed == (cleanup matches Some(Ok(c)) && c > 0)
            &&& match cleanup {
                Some(Err(e)) => (o.mount_error matches Some(t) && t@ == e@),
                _ => o.mount_error is None,
            }
        },
{
    match terminated {
        Err(e) => {
            return Err(e);
        },
        Ok(()) => {},
    }
    let mut mount_removed = false;
    let mut mount_error: Option<String> = None;
    match cleanup {
        Some(Ok(count)) => {
            mount_removed = count > 0;
        },
        Some(Err(e)) => {
            mount_error = Some(e);
        },
        None => {},
    }
    Ok(DeleteSyncOutcome { name: String::from_str(name), mount_removed, mount_error })
}

/// The sync daemon's arguments that create the session `name` between the
/// local folder and `remote` on the ssh host.
pub open spec fn create_args(ssh: SshConfig, name: Seq<char>, local: Seq<char>, remote: Seq<char>) -> Seq<
    Seq<char>,
> {
    seq![
        "sync"@,
        "create"@,
        "--name"@,
        name,
        local,
        ssh.user@ + "@"@ + ssh.host@ + ":"@ + remote,
    ]
}

/// `create_args(ssh, name, local, remote)`.
pub fn mutagen_create(ssh: &SshConfig, name: &str, local: &str, remote: &str) -> (r: Vec<String>)
    ensures
        strs_view(r@) == create_args(*ssh, name@, local@, remote@),
{
    let mut target = ssh.user.clone();
    target.append("@");
    target.append(ssh.host.as_str());
    target.append(":");
    target.append(remote);
    let mut r: Vec<String> = Vec::new();
    r.push(String::from_str("sync"));
    r.push(String::from_str("create"));
    r.push(String::from_str("--name"));
    r.push(String::from_str(name));
    r.push(String::from_str(local));
    r.push(target);
    assert(strs_view(r@) =~= create_args(*ssh, name@, local@, remote@));
    r
}

/// The sync daemon's arguments for `sync <verb> <name>`.
pub open spec fn session_args(verb: Seq<char>, name: Seq<char>) -> Seq<Seq<char>> {
    seq!["sync"@, verb, name]
}

/// `session_args("resume", name)`.
pub fn mutagen_resume(name: &str) -> (r: Vec<String>)
    ensures
        strs_view(r@) == session_args("resume"@, name@),
{
    let mut r: Vec<String> = Vec::new();
    r.push(String::from_str("sync"));
    r.push(String::from_str("resume"));
    r.push(String::from_str(name));
    assert(strs_view(r@) =~= session_args("resume"@, name@));
    r
}

/// `session_args("terminate", name)`.
pub fn mutagen_terminate(name: &str) -> (r: Vec<String>)
    ensures
        strs_view(r@) == session_args("terminate"@, name@),
{
    let mut r: Vec<String> = Vec::new();
    r.push(String::from_str("sync"));
    r.push(String::from_str("terminate"));
    r.push(String::from_str(name));
    assert(strs_view(r@) =~= session_args("terminate"@, name@));
    r
}

/// The terminations that end every listed session, in the listed order.
pub fn terminate_all_syncs(sessions: &[crate::sessions::SyncSession]) -> (r: Vec<Vec<String>>)
    ensures
        r@.len() == sessions@.len(),
        forall|i: int|
            0 <= i < r@.len() ==> strs_view(#[trigger] r@[i]@) == session_args(
                "terminate"@,
                sessions@[i].name@,
            ),
{
    let mut r: Vec<Vec<String>> = Vec::new();
    let mut i: usize = 0;
    while i < sessions.len()
        invariant
            i <= sessions@.len(),
            r@.len() == i,
            forall|k: int|
                0 <= k < i ==> strs_view(#[trigger] r@[k]@) == session_args(
                    "terminate"@,
                    sessions@[k].name@,
                ),
        decreases sessions.len() - i,
    {
        r.push(mutagen_terminate(sessions[i].name.as_str()));
        i += 1;
    }
    r
}

/// The arguments of an `ssh` call that runs `command` on the host, with the
/// key `key_path`, in batch mode.
pub open spec fn ssh_command(ssh: SshConfig, key_path: Seq<char>, command: Seq<char>) -> Seq<Seq<char>> {
    seq![
        "-i"@,
        key_path,
        "-p"@,
        crate::names::decimal(ssh.port as nat),
        "-o"@,
        "BatchMode=yes"@,
        ssh.user@ + "@"@ + ssh.host@,
        command,
    ]
}

/// `ssh_command(ssh, key_path, command)`.
pub fn ssh_args(ssh: &SshConfig, key_path: &str, command: &str) -> (r: Vec<String>)
    ensures
        strs_view(r@) == ssh_command(*ssh, key_path@, command@),
{
    let mut target = ssh.user.clone();
    target.append("@");
    target.append(ssh.host.as_str());
    let mut r: Vec<String> = Vec::new();
    r.push(String::from_str("-i"));
    r.push(String::from_str(key_path));
    r.push(String::from_str("-p"));
    r.push(crate::doctl::u64_text(ssh.port as u64));
    r.push(String::from_str("-o"));
    r.push(String::from_str("BatchMode=yes"));
    r.push(target);
    r.push(String::from_str(command));
    assert(strs_view(r@) =~= ssh_command(*ssh, key_path@, command@));
    r
}

/// A process to run for one step.
#[derive(Debug, Clone, PartialEq, Eq)]
pub enum Invocation {
    /// A command for the remote shell.
    Remote(String),
    /// Arguments for the sync daemon.
    Daemon(Vec<String>),
}

/// The process that carries out `step`: the remote directory through the
/// remote shell, a resume or a create through the sync daemon.
pub fn step_invocation(ssh: &SshConfig, step: &SyncStep) -> (r: Invocation)
    ensures
        match step@ {
            Step::EnsureRemoteDir(remote) => r matches Invocation::Remote(c) && c@
                == crate::shell::ensure_dir_command(remote),
            Step::Resume(name) => r matches Invocation::Daemon(a) && strs_view(a@) == session_args(
                "resume"@,
                name,
            ),
            Step::Create(name, local, remote) => r matches Invocation::Daemon(a) && strs_view(a@)
                == create_args(*ssh, name, local, remote),
        },
{
    match step {
        SyncStep::EnsureRemoteDir { remote } => Invocation::Remote(
            crate::shell::ensure_remote_dir(remote.as_str()),
        ),
        SyncStep::Resume { name } => Invocation::Daemon(mutagen_resume(name.as_str())),
        SyncStep::Create { name, local, remote } => Invocation::Daemon(
            mutagen_create(ssh, name.as_str(), local.as_str(), remote.as_str()),
        ),
    }
}

} // verus!
