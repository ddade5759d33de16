//! The remote ledger: one line per synchronisation pair, with the fields
//! `name`, `local path` and `remote path` separated by tabs.
use vstd::prelude::*;
use crate::text::{chars_of, split_chars, split_on, string_of, strs_view, trim, trimmed, vecs_view};
use crate::shell::{quoted, shell_escape};

verus! {

/// A ledger entry.
#[derive(Debug, Clone, PartialEq, Eq)]
pub struct MountEntry {
    pub name: String,
    pub local: String,
    pub remote: String,
}

/// What a ledger entry says.
pub struct Mount {
    pub name: Seq<char>,
    pub local: Seq<char>,
    pub remote: Seq<char>,
}

impl View for MountEntry {
    type V = Mount;

    open spec fn view(&self) -> Mount {
        Mount { name: self.name@, local: self.local@, remote: self.remote@ }
    }
}

impl MountEntry {
    pub fn copy(&self) -> (r: MountEntry)
        ensures
            r@ == self@,
    {
        MountEntry { name: self.name.clone(), local: self.local.clone(), remote: self.remote.clone() }
    }
}

pub open spec fn mounts_view(v: Seq<MountEntry>) -> Seq<Mount> {
    v.map_values(|e: MountEntry| e@)
}

/// The entry that one ledger line holds: blank lines, `#` comments, lines
/// with fewer than three tab-separated fields and lines with an empty field
/// hold none.
pub open spec fn mount_of_line(line: Seq<char>) -> Option<Mount> {
    let l = trim(line);
    if l.len() == 0 || l[0] == '#' {
        None
    } else {
        let parts = split_on(l, '\t');
        if parts.len() < 3 {
            None
        } else {
            let name = trim(parts[0]);
            let local = trim(parts[1]);
            let remote = trim(parts[2]);
            if name.len() == 0 || local.len() == 0 || remote.len() == 0 {
                None
            } else {
                Some(Mount { name, local, remote })
            }
        }
    }
}

/// The entries of `lines`, in order.
pub open spec fn mounts_of_lines(lines: Seq<Seq<char>>) -> Seq<Mount>
    decreases lines.len(),
{
    if lines.len() == 0 {
        Seq::empty()
    } else {
        let rest = mounts_of_lines(lines.drop_last());
        match mount_of_line(lines.last()) {
            Some(m) => rest.push(m),
            None => rest,
        }
    }
}

/// The entries of a ledger file.
pub open spec fn ledger_of(content: Seq<char>) -> Seq<Mount> {
    mounts_of_lines(split_on(content, '\n'))
}

fn mount_of(line: &[char]) -> (r: Option<MountEntry>)
    ensures
        match r {
            Some(e) => mount_of_line(line@) == Some(e@),
            None => mount_of_line(line@) is None,
        },
{
    let l = trimmed(line);
    if l.len() == 0 || l[0] == '#' {
        return None;
    }
    let parts = split_chars(&l, '\t');
    if parts.len() < 3 {
        return None;
    }
    let name = trimmed(&parts[0]);
    let local = trimmed(&parts[1]);
    let remote = trimmed(&parts[2]);
    if name.len() == 0 || local.len() == 0 || remote.len() == 0 {
        return None;
    }
    let e = MountEntry { name: string_of(&name), local: string_of(&local), remote: string_of(&remote) };
    assert(e@ == Mount { name: name@, local: local@, remote: remote@ });
    Some(e)
}

/// The entries of a ledger file, in the order of its lines.
pub fn parse_mountlist(content: &str) -> (r: Vec<MountEntry>)
    ensures
        mounts_view(r@) == ledger_of(content@),
{
    let v = chars_of(content);
    let lines = split_chars(&v, '\n');
    let ghost all = split_on(content@, '\n');
    let mut out: Vec<MountEntry> = Vec::new();
    let mut i: usize = 0;
    while i < lines.len()
        invariant
            i <= lines@.len(),
            vecs_view(lines@) == all,
            mounts_view(out@) == mounts_of_lines(all.take(i as int)),
        decreases lines.len() - i,
    {
        proof {
            assert(all.take(i + 1).drop_last() =~= all.take(i as int));
            assert(all.take(i + 1).last() == lines@[i as int]@);
        }
        match mount_of(&lines[i]) {
            Some(e) => {
                out.push(e);
                assert(mounts_view(out@) =~= mounts_of_lines(all.take(i as int)).push(e@));
            },
            None => {},
        }
        i += 1;
    }
    assert(all.take(all.len() as int) =~= all);
    out
}

/// The remote command that appends one entry to the ledger.
pub open spec fn append_line(m: Mount) -> Seq<char> {
    "printf '%s\\t%s\\t%s\\n' "@ + quoted(m.name) + " "@ + quoted(m.local) + " "@ + quoted(
        m.remote,
    ) + " >> ~/.mountlist\n"@
}

/// The remote script that appends `ms` to the ledger, one command each.
pub open spec fn append_script(ms: Seq<Mount>) -> Seq<char>
    decreases ms.len(),
{
    if ms.len() == 0 {
        Seq::empty()
    } else {
        append_script(ms.drop_last()) + append_line(ms.last())
    }
}

/// `append_script(entries)`: the script that appends `entries` to the ledger
/// without rewriting what is there.
pub fn append_mountlist(entries: &[MountEntry]) -> (r: String)
    ensures
        r@ == append_script(mounts_view(entries@)),
{
    let mut r = String::new();
    let ghost ms = mounts_view(entries@);
    let mut i: usize = 0;
    while i < entries.len()
        invariant
            i <= entries@.len(),
            ms == mounts_view(entries@),
            r@ == append_script(ms.take(i as int)),
        decreases entries.len() - i,
    {
        proof {
            assert(ms.take(i + 1).drop_last() =~= ms.take(i as int));
        }
        let e = &entries[i];
        r.append("printf '%s\\t%s\\t%s\\n' ");
        r.append(shell_escape(e.name.as_str()).as_str());
        r.append(" ");
        r.append(shell_escape(e.local.as_str()).as_str());
        r.append(" ");
        r.append(shell_escape(e.remote.as_str()).as_str());
        r.append(" >> ~/.mountlist\n");
        assert(r@ =~= append_script(ms.take(i as int)) + append_line(ms[i as int]));
        i += 1;
    }
    assert(ms.take(ms.len() as int) =~= ms);
    r
}

/// How many of `ms` are named in `names`.
pub open spec fn count_named(ms: Seq<Mount>, names: Set<Seq<char>>) -> nat
    decreases ms.len(),
{
    if ms.len() == 0 {
        0
    } else {
        count_named(ms.drop_last(), names) + if names.contains(ms.last().name) {
            1nat
        } else {
            0nat
        }
    }
}

proof fn lemma_count_named_le(ms: Seq<Mount>, names: Set<Seq<char>>)
    ensures
        count_named(ms, names) <= ms.len(),
    decreases ms.len(),
{
    if ms.len() > 0 {
        lemma_count_named_le(ms.drop_last(), names);
    }
}

/// The `awk` table entries that mark `names` for removal.
pub open spec fn delete_marks(names: Seq<Seq<char>>) -> Seq<char>
    decreases names.len(),
{
    if names.len() == 0 {
        Seq::empty()
    } else {
        delete_marks(names.drop_last()) + "del[\""@ + names.last() + "\"]=1;"@
    }
}

/// The remote script that drops every ledger line whose first field is one
/// of `names`.
pub open spec fn delete_script(names: Seq<Seq<char>>) -> Seq<char> {
    "if [ -f ~/.mountlist ]; then awk -F '\\t' 'BEGIN{"@ + delete_marks(names)
        + "} !($1 in del){print}' ~/.mountlist > ~/.mountlist.tmp && mv ~/.mountlist.tmp ~/.mountlist; fi"@
}

/// What removing entries from the ledger comes to: how many entries go, and
/// the remote script to run, when there is anything to remove.
#[derive(Debug)]
pub struct MountRemoval {
    pub removed: usize,
    pub script: Option<String>,
}

fn contains_name(names: &[String], name: &String) -> (r: bool)
    ensures
        r == strs_view(names@).contains(name@),
{
    let mut i: usize = 0;
    while i < names.len()
        invariant
            i <= names@.len(),
            forall|k: int| 0 <= k < i ==> names@[k]@ != name@,
        decreases names.len() - i,
    {
        if names[i] == *name {
            assert(strs_view(names@)[i as int] == name@);
            return true;
        }
        i += 1;
    }
    assert(!strs_view(names@).contains(name@)) by {
        if strs_view(names@).contains(name@) {
            let k = choose|k: int| 0 <= k < names@.len() && strs_view(names@)[k] == name@;
            assert(names@[k]@ == name@);
        }
    }
    false
}

/// Removal of the entries named in `names` from a ledger that holds
/// `ledger`: the number of entries that go, and the script only when that
/// number is not zero.
pub fn delete_mount_entries(ledger: &[MountEntry], names: &[String]) -> (r: MountRemoval)
    ensures
        r.removed == count_named(mounts_view(ledger@), strs_view(names@).to_set()),
        r.removed == 0 <==> r.script is None,
        r.script matches Some(s) ==> s@ == delete_script(strs_view(names@)),
{
    let ghost ms = mounts_view(ledger@);
    let ghost ns = strs_view(names@).to_set();
    let mut removed: usize = 0;
    let mut i: usize = 0;
    while i < ledger.len()
        invariant
            i <= ledger@.len(),
            ms == mounts_view(ledger@),
            ns == strs_view(names@).to_set(),
            removed == count_named(ms.take(i as int), ns),
        decreases ledger.len() - i,
    {
        proof {
            assert(ms.take(i + 1).drop_last() =~= ms.take(i as int));
            lemma_count_named_le(ms.take(i as int), ns);
        }
        if contains_name(names, &ledger[i].name) {
            removed += 1;
        }
        i += 1;
    }
    assert(ms.take(ms.len() as int) =~= ms);
    if removed == 0 {
        return MountRemoval { removed, script: None };
    }
    let ghost nv = strs_view(names@);
    let mut script = String::from_str("if [ -f ~/.mountlist ]; then awk -F '\\t' 'BEGIN{");
    let mut j: usize = 0;
    while j < names.len()
        invariant
            j <= names@.len(),
            nv == strs_view(names@),
            script@ == "if [ -f ~/.mountlist ]; then awk -F '\\t' 'BEGIN{"@ + delete_marks(
                nv.take(j as int),
            ),
        decreases names.len() - j,
    {
        proof {
            assert(nv.take(j + 1).drop_last() =~= nv.take(j as int));
        }
        script.append("del[\"");
        script.append(names[j].as_str());
        script.append("\"]=1;");
        assert(script@ =~= "if [ -f ~/.mountlist ]; then awk -F '\\t' 'BEGIN{"@ + delete_marks(
            nv.take(j + 1),
        ));
        j += 1;
    }
    assert(nv.take(nv.len() as int) =~= nv);
    script.append(
        "} !($1 in del){print}' ~/.mountlist > ~/.mountlist.tmp && mv ~/.mountlist.tmp ~/.mountlist; fi",
    );
    assert(script@ =~= delete_script(nv));
    MountRemoval { removed, script: Some(script) }
}

} // verus!
