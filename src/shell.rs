//! Shell quoting, remote path arguments and local path expansion.
use vstd::prelude::*;
use crate::text::{chars_of, has_prefix, starts_with, string_of, trim, trimmed};
use crate::names::append_chars;

verus! {

/// `s` with each single quote written as `'"'"'`, so that it can stand inside
/// single quotes.
pub open spec fn escape_quotes(s: Seq<char>) -> Seq<char>
    decreases s.len(),
{
    if s.len() == 0 {
        s
    } else if s.last() == '\'' {
        escape_quotes(s.drop_last()) + seq!['\'', '"', '\'', '"', '\'']
    } else {
        escape_quotes(s.drop_last()).push(s.last())
    }
}

/// One shell word that stands for `s`: `''` for the empty string, else `s`
/// in single quotes.
pub open spec fn quoted(s: Seq<char>) -> Seq<char> {
    if s.len() == 0 {
        seq!['\'', '\'']
    } else {
        seq!['\''] + escape_quotes(s) + seq!['\'']
    }
}

fn quoted_chars(v: &[char]) -> (r: Vec<char>)
    ensures
        r@ == quoted(v@),
{
    let mut r: Vec<char> = vec!['\''];
    if v.len() == 0 {
        r.push('\'');
        assert(r@ =~= quoted(v@));
        return r;
    }
    let mut i: usize = 0;
    while i < v.len()
        invariant
            i <= v@.len(),
            r@ == seq!['\''] + escape_quotes(v@.take(i as int)),
        decreases v.len() - i,
    {
        proof {
            assert(v@.take(i + 1).drop_last() =~= v@.take(i as int));
        }
        if v[i] == '\'' {
            let q = vec!['\'', '"', '\'', '"', '\''];
            append_chars(&mut r, &q);
            assert(r@ =~= seq!['\''] + escape_quotes(v@.take(i + 1)));
        } else {
            r.push(v[i]);
            assert(r@ =~= seq!['\''] + escape_quotes(v@.take(i + 1)));
        }
        i += 1;
    }
    assert(v@.take(v@.len() as int) =~= v@);
    r.push('\'');
    r
}

/// `value` as one single-quoted shell word.
pub fn shell_escape(value: &str) -> (r: String)
    ensures
        r@ == quoted(value@),
{
    let v = chars_of(value);
    string_of(&quoted_chars(&v))
}

/// The shell argument for a remote path: a path under `~` keeps the `~`
/// part unquoted so that the remote shell expands it, and quotes the rest.
pub open spec fn remote_path_arg(remote: Seq<char>) -> Seq<char> {
    let t = trim(remote);
    if t.len() > 0 && t[0] == '~' {
        if t.contains('/') {
            let k = choose|k: int| 0 <= k < t.len() && t[k] == '/' && forall|m: int|
                0 <= m < k ==> t[m] != '/';
            t.take(k) + seq!['/'] + quoted(t.skip(k + 1))
        } else {
            t
        }
    } else {
        quoted(t)
    }
}

/// `remote_path_arg(remote)` as a string.
pub fn remote_path_command(remote: &str) -> (r: String)
    ensures
        r@ == remote_path_arg(remote@),
{
    let v = chars_of(remote);
    let t = trimmed(&v);
    if t.len() > 0 && t[0] == '~' {
        let mut k: usize = 0;
        while k < t.len() && t[k] != '/'
            invariant
                k <= t@.len(),
                forall|m: int| 0 <= m < k ==> t@[m] != '/',
            decreases t.len() - k,
        {
            k += 1;
        }
        if k == t.len() {
            assert(!t@.contains('/'));
            return string_of(&t);
        }
        assert(t@.contains('/')) by {
            assert(t@[k as int] == '/');
        }
        let ghost kk = choose|k: int| 0 <= k < t@.len() && t@[k] == '/' && forall|m: int|
            0 <= m < k ==> t@[m] != '/';
        assert(kk == k as int) by {
            if kk < k {
                assert(t@[kk] != '/');
            }
            if kk > k {
                assert(t@[k as int] != '/');
            }
        }
        let mut r = crate::text::slice_chars(&t, 0, k);
        r.push('/');
        let rest = crate::text::slice_chars(&t, k + 1, t.len());
        let q = quoted_chars(&rest);
        append_chars(&mut r, &q);
        assert(t@.take(k as int) =~= t@.subrange(0, k as int));
        assert(t@.skip(k + 1) =~= t@.subrange(k + 1, t@.len() as int));
        string_of(&r)
    } else {
        string_of(&quoted_chars(&t))
    }
}

/// The remote command that makes sure `remote` exists as a directory.
pub open spec fn ensure_dir_command(remote: Seq<char>) -> Seq<char> {
    "mkdir -p "@ + remote_path_arg(remote)
}

/// `ensure_dir_command(remote)` as a string.
pub fn ensure_remote_dir(remote: &str) -> (r: String)
    ensures
        r@ == ensure_dir_command(remote@),
{
    let mut r = String::from_str("mkdir -p ");
    let arg = remote_path_command(remote);
    r.append(arg.as_str());
    r
}

/// A local path made absolute: `~` and `~/...` are taken from `home`, an
/// absolute path stays, and a relative one is joined to `cwd` as
/// `Path::join` does.
pub open spec fn expanded_path(path: Seq<char>, home: Seq<char>, cwd: Seq<char>) -> Seq<char> {
    let t = trim(path);
    if t == seq!['~'] {
        home
    } else if has_prefix(t, seq!['~', '/']) {
        home + t.skip(1)
    } else if has_prefix(t, seq!['/']) {
        t
    } else if cwd.len() > 0 && cwd.last() != '/' {
        cwd + seq!['/'] + t
    } else {
        cwd + t
    }
}

/// `expanded_path(path, home, cwd)` as a string.
pub fn expand_local_path(path: &str, home: &str, cwd: &str) -> (r: String)
    ensures
        r@ == expanded_path(path@, home@, cwd@),
{
    let v = chars_of(path);
    let t = trimmed(&v);
    if t.len() == 1 && t[0] == '~' {
        assert(t@ =~= seq!['~']);
        let mut r = String::new();
        r.append(home);
        assert(r@ =~= home@);
        return r;
    }
    assert(t@ != seq!['~']) by {
        if t@ == seq!['~'] {
            assert(t@.len() == 1 && t@[0] == '~');
        }
    }
    let tilde = vec!['~', '/'];
    let slash = vec!['/'];
    assert(tilde@ =~= seq!['~', '/']);
    assert(slash@ =~= seq!['/']);
    if starts_with(&t, &tilde) {
        let mut r = chars_of(home);
        let rest = crate::text::slice_chars(&t, 1, t.len());
        append_chars(&mut r, &rest);
        assert(r@ =~= home@ + t@.skip(1));
        return string_of(&r);
    }
    if starts_with(&t, &slash) {
        return string_of(&t);
    }
    let mut r = chars_of(cwd);
    if r.len() > 0 && r[r.len() - 1] != '/' {
        r.push('/');
        append_chars(&mut r, &t);
        assert(r@ =~= cwd@ + seq!['/'] + t@);
    } else {
        append_chars(&mut r, &t);
    }
    string_of(&r)
}

} // verus!
