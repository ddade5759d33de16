//! The interactive front end's data: screens, forms, the fuzzy picker, and
//! the parsing of what the user types into them.
use vstd::prelude::*;
use std::collections::HashSet;
use crate::input::{TextInput, byte_len};
use crate::names::{append_chars, sanitize_chars, sanitized};
use crate::reconcile::SyncPath;
use crate::text::{chars_of, find_chars, has_infix, occurs_at, split_chars, split_on, string_of, strs_view, trim, trimmed, vecs_view};

verus! {

#[derive(Debug, Clone, Copy, PartialEq, Eq)]
pub enum Screen {
    Home,
    Bindings,
    Syncs,
}

#[derive(Debug, Clone, Copy, PartialEq, Eq)]
pub enum ToastLevel {
    Info,
    Success,
    Warning,
    Error,
}

/// A value chosen in a picker, with the label it was shown under.
#[derive(Debug, Clone)]
pub struct Selection {
    pub label: String,
    pub value: String,
}

/// One choice of a picker.
#[derive(Debug, Clone)]
pub struct PickerItem {
    pub label: String,
    pub value: String,
    pub meta: Option<String>,
}

/// The form field a picker fills.
#[derive(Debug, Clone, Copy, PartialEq, Eq)]
pub enum PickerTarget {
    CreateRegion,
    CreateSize,
    CreateImage,
    CreateSshKeys,
    RestoreSnapshot,
    RestoreRegion,
    RestoreSize,
    RestoreSshKeys,
}

/// A filterable list of choices.
#[derive(Debug)]
pub struct Picker {
    pub title: String,
    pub items: Vec<PickerItem>,
    pub filtered: Vec<usize>,
    pub selected: usize,
    pub query: TextInput,
    pub multi: bool,
    pub chosen: HashSet<usize>,
    pub target: PickerTarget,
}

#[derive(Debug, Clone)]
pub struct CreateForm {
    pub name: TextInput,
    pub region: Option<Selection>,
    pub size: Option<Selection>,
    pub image: Option<Selection>,
    pub ssh_keys: Vec<Selection>,
    pub tags: TextInput,
    pub focus: usize,
}

#[derive(Debug, Clone)]
pub struct RestoreForm {
    pub name: TextInput,
    pub snapshot: Option<Selection>,
    pub region: Option<Selection>,
    pub size: Option<Selection>,
    pub ssh_keys: Vec<Selection>,
    pub tags: TextInput,
    pub focus: usize,
}

#[derive(Debug, Clone)]
pub struct BindForm {
    pub droplet_id: u64,
    pub droplet_name: String,
    pub public_ip: String,
    pub local_port: TextInput,
    pub remote_port: TextInput,
    pub ssh_user: TextInput,
    pub ssh_key_path: TextInput,
    pub ssh_port: TextInput,
    pub focus: usize,
}

#[derive(Debug, Clone)]
pub struct SyncForm {
    pub droplet_name: String,
    pub public_ip: String,
    pub local_paths: TextInput,
    pub ssh_user: TextInput,
    pub ssh_key_path: TextInput,
    pub ssh_port: TextInput,
    pub focus: usize,
}

#[derive(Debug, Clone)]
pub struct SnapshotForm {
    pub droplet_id: u64,
    pub droplet_name: String,
    pub snapshot_name: TextInput,
}

#[derive(Debug, Clone)]
pub struct Confirm {
    pub title: String,
    pub message: String,
    pub action: ConfirmAction,
}

#[derive(Debug, Clone)]
pub enum ConfirmAction {
    SnapshotDelete { droplet_id: u64, snapshot_name: String },
    DeleteDroplet { droplet_id: u64 },
}

#[derive(Debug)]
pub enum Modal {
    Create(CreateForm),
    Restore(RestoreForm),
    Bind(BindForm),
    Sync(SyncForm),
    Snapshot(SnapshotForm),
    Picker { picker: Picker, parent: Box<Modal> },
    Confirm(Confirm),
}

// ---- picker filtering ----

/// `s` in lower case, as `str::to_lowercase` gives it.
pub uninterp spec fn lower_of(s: Seq<char>) -> Seq<char>;

/// Relies on `str::to_lowercase`: the lower-case form depends on the
/// characters alone, and the empty string stays empty.
#[verifier::external_body]
fn lowercase(s: &str) -> (r: String)
    ensures
        r@ == lower_of(s@),
        s@.len() == 0 ==> r@.len() == 0,
{
    s.to_lowercase()
}

/// Whether an item with the lower-cased label `label` and meta text `meta`
/// is shown for the lower-cased query `query`: always for an empty query,
/// else when the query occurs in the label or the meta text.
pub open spec fn shown_for(label: Seq<char>, meta: Option<Seq<char>>, query: Seq<char>) -> bool {
    query.len() == 0 || has_infix(label, query) || (meta matches Some(m) && has_infix(m, query))
}

/// `shown_for(label, meta, query)`, on text already in lower case.
pub fn label_matches(label: &str, meta: Option<&str>, query: &str) -> (r: bool)
    ensures
        r == shown_for(label@, match meta {
            Some(m) => Some(m@),
            None => None,
        }, query@),
{
    let q = chars_of(query);
    if q.len() == 0 {
        return true;
    }
    let l = chars_of(label);
    if find_chars(&l, &q).is_some() {
        return true;
    }
    match meta {
        Some(m) => {
            let mv = chars_of(m);
            find_chars(&mv, &q).is_some()
        },
        None => false,
    }
}

/// Whether `item` is shown for the query text `query`, compared in lower
/// case.
pub open spec fn item_shown(item: PickerItem, query: Seq<char>) -> bool {
    shown_for(
        lower_of(item.label@),
        match item.meta {
            Some(m) => Some(lower_of(m@)),
            None => None,
        },
        lower_of(query),
    )
}

/// The indices of the items shown for `query`, in order.
pub open spec fn shown_indices(items: Seq<PickerItem>, query: Seq<char>) -> Seq<usize>
    decreases items.len(),
{
    if items.len() == 0 {
        Seq::empty()
    } else {
        let rest = shown_indices(items.drop_last(), query);
        if item_shown(items.last(), query) {
            rest.push((items.len() - 1) as usize)
        } else {
            rest
        }
    }
}

impl Picker {
    /// A picker over `items` with an empty query: every item is shown and
    /// the first is selected; nothing is chosen.
    pub fn new(title: String, items: Vec<PickerItem>, target: PickerTarget, multi: bool) -> (r:
        Picker)
        ensures
            r.title == title,
            r.items@ == items@,
            r.target == target,
            r.multi == multi,
            r.query.wf(),
            r.query.value@.len() == 0,
            r.chosen@.len() == 0,
            r.filtered@ == shown_indices(items@, Seq::empty()),
            r.selected == 0,
    {
        proof {
            assert(byte_len(""@) == 0) by {
                reveal_strlit("");
            }
        }
        let query = TextInput::new("");
        assert(query.value@ =~= Seq::<char>::empty());
        let mut picker = Picker {
            title,
            items,
            filtered: Vec::new(),
            selected: 0,
            query,
            multi,
            chosen: HashSet::new(),
            target,
        };
        picker.refresh_filter();
        picker
    }

    /// Recomputes the shown items for the current query; the selection goes
    /// back to the first when it falls outside them.
    pub fn refresh_filter(&mut self)
        ensures
            final(self).filtered@ == shown_indices(old(self).items@, old(self).query.value@),
            final(self).selected == if old(self).selected < final(self).filtered@.len() {
                old(self).selected
            } else {
                0
            },
            final(self).items@ == old(self).items@,
            final(self).query == old(self).query,
            final(self).title == old(self).title,
            final(self).multi == old(self).multi,
            final(self).chosen == old(self).chosen,
            final(self).target == old(self).target,
    {
        let query = lowercase(self.query.value.as_str());
        let mut filtered: Vec<usize> = Vec::new();
        let mut i: usize = 0;
        while i < self.items.len()
            invariant
                i <= self.items@.len(),
                query@ == lower_of(self.query.value@),
                filtered@ == shown_indices(self.items@.take(i as int), self.query.value@),
            decreases self.items.len() - i,
        {
            proof {
                assert(self.items@.take(i + 1).drop_last() =~= self.items@.take(i as int));
            }
            let item = &self.items[i];
            let label = lowercase(item.label.as_str());
            let shown = match &item.meta {
                Some(m) => {
                    let lm = lowercase(m.as_str());
                    label_matches(label.as_str(), Some(lm.as_str()), query.as_str())
                },
                None => label_matches(label.as_str(), None, query.as_str()),
            };
            if shown {
                filtered.push(i);
            }
            i += 1;
        }
        proof {
            assert(self.items@.take(self.items@.len() as int) =~= self.items@);
        }
        self.filtered = filtered;
        if self.selected >= self.filtered.len() {
            self.selected = 0;
        }
    }
}

// ---- comma-separated input ----

/// The trimmed, non-empty parts of `parts`.
pub open spec fn csv_fields(parts: Seq<Seq<char>>) -> Seq<Seq<char>>
    decreases parts.len(),
{
    if parts.len() == 0 {
        Seq::empty()
    } else {
        let rest = csv_fields(parts.drop_last());
        let t = trim(parts.last());
        if t.len() == 0 {
            rest
        } else {
            rest.push(t)
        }
    }
}

/// The comma-separated items of `s`, trimmed, without empty ones.
pub open spec fn csv_items(s: Seq<char>) -> Seq<Seq<char>> {
    csv_fields(split_on(s, ','))
}

/// `csv_items(value)`.
pub fn split_csv(value: &str) -> (r: Vec<String>)
    ensures
        strs_view(r@) == csv_items(value@),
{
    let v = chars_of(value);
    let parts = split_chars(&v, ',');
    let ghost all = split_on(value@, ',');
    let mut out: Vec<String> = Vec::new();
    let mut i: usize = 0;
    while i < parts.len()
        invariant
            i <= parts@.len(),
            vecs_view(parts@) == all,
            strs_view(out@) == csv_fields(all.take(i as int)),
        decreases parts.len() - i,
    {
        proof {
            assert(all.take(i + 1).drop_last() =~= all.take(i as int));
            assert(all.take(i + 1).last() == parts@[i as int]@);
        }
        let t = trimmed(&parts[i]);
        if t.len() > 0 {
            out.push(string_of(&t));
            assert(strs_view(out@) =~= csv_fields(all.take(i as int)).push(t@));
        }
        i += 1;
    }
    proof {
        assert(all.take(all.len() as int) =~= all);
    }
    out
}

/// Why a list of folder pairs is refused.
#[derive(Debug, Clone, Copy, PartialEq, Eq)]
pub enum PathsError {
    /// No item at all.
    NoPaths,
    /// An item with nothing before its arrow.
    EmptyLocal,
    /// An item with nothing after its arrow.
    EmptyRemote,
}

impl PathsError {
    /// The text shown for the error.
    pub fn message(&self) -> (r: String)
        ensures
            r@ == match self {
                PathsError::NoPaths => "Provide at least one local path"@,
                PathsError::EmptyLocal => "Local path cannot be empty"@,
                PathsError::EmptyRemote => "Remote path cannot be empty"@,
            },
    {
        match self {
            PathsError::NoPaths => String::from_str("Provide at least one local path"),
            PathsError::EmptyLocal => String::from_str("Local path cannot be empty"),
            PathsError::EmptyRemote => String::from_str("Remote path cannot be empty"),
        }
    }
}

pub open spec fn arrow() -> Seq<char> {
    seq!['-', '>']
}

/// The pair one item stands for: `local -> remote`, or a lone path used on
/// both sides.
pub open spec fn pair_of_item(item: Seq<char>) -> Result<(Seq<char>, Seq<char>), PathsError> {
    if has_infix(item, arrow()) {
        let k = choose|k: int| occurs_at(item, arrow(), k) && forall|m: int|
            0 <= m < k ==> !occurs_at(item, arrow(), m);
        let local = trim(item.take(k));
        let remote = trim(item.skip(k + 2));
        if local.len() == 0 {
            Err(PathsError::EmptyLocal)
        } else if remote.len() == 0 {
            Err(PathsError::EmptyRemote)
        } else {
            Ok((local, remote))
        }
    } else {
        let local = trim(item);
        if local.len() == 0 {
            Err(PathsError::EmptyLocal)
        } else {
            Ok((local, local))
        }
    }
}

/// The pairs of `items` in order, or the error of the first bad item.
pub open spec fn pairs_of_items(items: Seq<Seq<char>>) -> Result<Seq<(Seq<char>, Seq<char>)>, PathsError>
    decreases items.len(),
{
    if items.len() == 0 {
        Ok(Seq::empty())
    } else {
        match pairs_of_items(items.drop_last()) {
            Err(e) => Err(e),
            Ok(ps) => match pair_of_item(items.last()) {
                Err(e) => Err(e),
                Ok(p) => Ok(ps.push(p)),
            },
        }
    }
}

/// The folder pairs a user typed as `a -> b, c, ...`.
pub open spec fn sync_paths_of(s: Seq<char>) -> Result<Seq<(Seq<char>, Seq<char>)>, PathsError> {
    if csv_items(s).len() == 0 {
        Err(PathsError::NoPaths)
    } else {
        pairs_of_items(csv_items(s))
    }
}

fn pair_of(item: &String) -> (r: Result<SyncPath, PathsError>)
    ensures
        match r {
            Ok(p) => pair_of_item(item@) == Ok::<(Seq<char>, Seq<char>), PathsError>((p.local@, p.remote@)),
            Err(e) => pair_of_item(item@) == Err::<(Seq<char>, Seq<char>), PathsError>(e),
        },
{
    let v = chars_of(item.as_str());
    let n = v.len();
    let a = vec!['-', '>'];
    assert(a@ =~= arrow());
    match find_chars(&v, &a) {
        Some(k) => {
            let ghost kk = choose|k: int| occurs_at(v@, arrow(), k) && forall|m: int|
                0 <= m < k ==> !occurs_at(v@, arrow(), m);
            assert(kk == k as int) by {
                if kk < k {
                } else if kk > k {
                }
            }
            let left = crate::text::slice_chars(&v, 0, k);
            let right = crate::text::slice_chars(&v, k + 2, v.len());
            assert(left@ =~= v@.take(k as int));
            assert(right@ =~= v@.skip(k + 2));
            let local = trimmed(&left);
            let remote = trimmed(&right);
            if local.len() == 0 {
                return Err(PathsError::EmptyLocal);
            }
            if remote.len() == 0 {
                return Err(PathsError::EmptyRemote);
            }
            Ok(SyncPath { local: string_of(&local), remote: string_of(&remote) })
        },
        None => {
            let local = trimmed(&v);
            if local.len() == 0 {
                return Err(PathsError::EmptyLocal);
            }
            Ok(SyncPath { local: string_of(&local), remote: string_of(&local) })
        },
    }
}

pub open spec fn sync_paths_view(v: Seq<SyncPath>) -> Seq<(Seq<char>, Seq<char>)> {
    v.map_values(|p: SyncPath| (p.local@, p.remote@))
}

/// `sync_paths_of(value)`: the folder pairs typed into the sync form.
pub fn parse_sync_paths(value: &str) -> (r: Result<Vec<SyncPath>, PathsError>)
    ensures
        match r {
            Ok(ps) => sync_paths_of(value@) == Ok::<Seq<(Seq<char>, Seq<char>)>, PathsError>(
                sync_paths_view(ps@),
            ),
            Err(e) => sync_paths_of(value@) == Err::<Seq<(Seq<char>, Seq<char>)>, PathsError>(e),
        },
{
    let items = split_csv(value);
    let ghost its = csv_items(value@);
    if items.len() == 0 {
        return Err(PathsError::NoPaths);
    }
    let mut paths: Vec<SyncPath> = Vec::new();
    let mut i: usize = 0;
    proof {
        assert(its.take(0) =~= Seq::<Seq<char>>::empty());
        assert(sync_paths_view(paths@) =~= Seq::<(Seq<char>, Seq<char>)>::empty());
    }
    while i < items.len()
        invariant
            i <= items@.len(),
            strs_view(items@) == its,
            its.len() > 0,
            sync_paths_of(value@) == pairs_of_items(its),
            pairs_of_items(its.take(i as int)) == Ok::<Seq<(Seq<char>, Seq<char>)>, PathsError>(
                sync_paths_view(paths@),
            ),
        decreases items.len() - i,
    {
        proof {
            assert(its.take(i + 1).drop_last() =~= its.take(i as int));
            assert(its.take(i + 1).last() == items@[i as int]@);
        }
        let ghost before = sync_paths_view(paths@);
        match pair_of(&items[i]) {
            Ok(p) => {
                let ghost pv = (p.local@, p.remote@);
                paths.push(p);
                assert(sync_paths_view(paths@) =~= before.push(pv));
            },
            Err(e) => {
                proof {
                    lemma_pairs_error_sticks(its, i + 1);
                }
                return Err(e);
            },
        }
        i += 1;
    }
    proof {
        assert(its.take(its.len() as int) =~= its);
    }
    Ok(paths)
}

proof fn lemma_pairs_error_sticks(items: Seq<Seq<char>>, i: int)
    requires
        0 <= i <= items.len(),
        pairs_of_items(items.take(i)) is Err,
    ensures
        pairs_of_items(items) == pairs_of_items(items.take(i)),
    decreases items.len() - i,
{
    if i == items.len() {
        assert(items.take(i) =~= items);
    } else {
        assert(items.take(i + 1).drop_last() =~= items.take(i));
        lemma_pairs_error_sticks(items, i + 1);
    }
}

/// The default name of a snapshot of the droplet `droplet_name` taken at
/// time `stamp`: the name sanitised (`droplet` when nothing is left), a dash,
/// and the stamp.
pub fn snapshot_name(droplet_name: &str, stamp: &str) -> (r: String)
    ensures
        r@ == sanitized(droplet_name@, seq!['d', 'r', 'o', 'p', 'l', 'e', 't']) + seq!['-'] + stamp@,
{
    let v = chars_of(droplet_name);
    let fallback = vec!['d', 'r', 'o', 'p', 'l', 'e', 't'];
    assert(fallback@ =~= seq!['d', 'r', 'o', 'p', 'l', 'e', 't']);
    let mut r = sanitize_chars(&v, &fallback);
    r.push('-');
    let s = chars_of(stamp);
    append_chars(&mut r, &s);
    string_of(&r)
}

} // verus!
