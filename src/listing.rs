//! Browsing remote directories: the remote command that lists a directory,
//! and the reading of what it prints.
use vstd::prelude::*;
use crate::shell::{quoted, shell_escape};
use crate::text::{chars_of, split_chars, split_on, string_of, strs_view, trim, trimmed, vecs_view};

verus! {

/// A remote directory, resolved, and the names of its subdirectories.
#[derive(Debug, Clone, PartialEq, Eq)]
pub struct RemoteDirectoryListing {
    pub path: String,
    pub directories: Vec<String>,
}

/// The remote script that resolves `path` (with `~` meaning the home
/// directory), prints it, then prints its subdirectories sorted, one a line.
pub open spec fn listing_script(path: Seq<char>) -> Seq<char> {
    "TARGET="@ + quoted(path)
        + "; if [ \"$TARGET\" = \"~\" ]; then TARGET=\"$HOME\"; fi; cd -- \"$TARGET\" 2>/dev/null || exit 2; pwd; ls -1Ap 2>/dev/null | sed -n 's:/$::p' | LC_ALL=C sort"@
}

/// `listing_script(path)`.
pub fn list_directories_command(path: &str) -> (r: String)
    ensures
        r@ == listing_script(path@),
{
    let mut r = String::from_str("TARGET=");
    r.append(shell_escape(path).as_str());
    r.append(
        "; if [ \"$TARGET\" = \"~\" ]; then TARGET=\"$HOME\"; fi; cd -- \"$TARGET\" 2>/dev/null || exit 2; pwd; ls -1Ap 2>/dev/null | sed -n 's:/$::p' | LC_ALL=C sort",
    );
    r
}

/// `s` without its trailing carriage returns.
pub open spec fn strip_cr(s: Seq<char>) -> Seq<char>
    decreases s.len(),
{
    if s.len() > 0 && s.last() == '\r' {
        strip_cr(s.drop_last())
    } else {
        s
    }
}

/// The non-empty lines of `lines`, without trailing carriage returns.
pub open spec fn directory_names(lines: Seq<Seq<char>>) -> Seq<Seq<char>>
    decreases lines.len(),
{
    if lines.len() == 0 {
        Seq::empty()
    } else {
        let rest = directory_names(lines.drop_last());
        let n = strip_cr(lines.last());
        if n.len() > 0 {
            rest.push(n)
        } else {
            rest
        }
    }
}

/// What the listing script printed, read: the first line, trimmed, is the
/// resolved path and must not be blank; the other non-empty lines are the
/// subdirectories.
pub open spec fn listing_of(out: Seq<char>) -> Option<(Seq<char>, Seq<Seq<char>>)> {
    let lines = split_on(out, '\n');
    let first = trim(lines[0]);
    if first.len() == 0 {
        None
    } else {
        Some((first, directory_names(lines.skip(1))))
    }
}

fn strip_cr_chars(v: &[char]) -> (r: Vec<char>)
    ensures
        r@ == strip_cr(v@),
{
    let mut j: usize = v.len();
    proof {
        assert(v@.subrange(0, v@.len() as int) =~= v@);
    }
    while j > 0 && v[j - 1] == '\r'
        invariant
            j <= v@.len(),
            strip_cr(v@) == strip_cr(v@.subrange(0, j as int)),
        decreases j,
    {
        assert(v@.subrange(0, j as int).drop_last() =~= v@.subrange(0, j - 1));
        j -= 1;
    }
    crate::text::slice_chars(v, 0, j)
}

/// `listing_of(out)`: the listing, or none when the resolved path is blank.
pub fn parse_directory_listing(out: &str) -> (r: Option<RemoteDirectoryListing>)
    ensures
        match r {
            Some(l) => listing_of(out@) == Some((l.path@, strs_view(l.directories@))),
            None => listing_of(out@) is None,
        },
{
    let v = chars_of(out);
    let lines = split_chars(&v, '\n');
    let ghost all = split_on(out@, '\n');
    proof {
        crate::text::lemma_split_on_nonempty(out@, '\n');
    }
    let first = trimmed(&lines[0]);
    if first.len() == 0 {
        return None;
    }
    let ghost rest = all.skip(1);
    let mut dirs: Vec<String> = Vec::new();
    let mut i: usize = 1;
    proof {
        assert(rest.take(0) =~= Seq::<Seq<char>>::empty());
    }
    while i < lines.len()
        invariant
            1 <= i <= lines@.len(),
            vecs_view(lines@) == all,
            rest == all.skip(1),
            strs_view(dirs@) == directory_names(rest.take(i - 1)),
        decreases lines.len() - i,
    {
        proof {
            assert(rest.take(i as int).drop_last() =~= rest.take(i - 1));
            assert(rest.take(i as int).last() == lines@[i as int]@);
        }
        let n = strip_cr_chars(&lines[i]);
        if n.len() > 0 {
            dirs.push(string_of(&n));
            assert(strs_view(dirs@) =~= directory_names(rest.take(i - 1)).push(n@));
        }
        i += 1;
    }
    proof {
        assert(rest.take(rest.len() as int) =~= rest);
    }
    Some(RemoteDirectoryListing { path: string_of(&first), directories: dirs })
}

} // verus!
