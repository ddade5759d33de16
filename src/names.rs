//! Session names: sanitising labels, decimal suffixes, path bases, and the
//! name minted for a new synchronisation pair.
use vstd::prelude::*;
use crate::text::{is_space, split_on, split_chars, vecs_view};

verus! {

/// Appends `src` to `dst`.
pub fn append_chars(dst: &mut Vec<char>, src: &[char])
    ensures
        final(dst)@ == old(dst)@ + src@,
{
    let ghost start = dst@;
    let mut i: usize = 0;
    while i < src.len()
        invariant
            i <= src@.len(),
            dst@ == start + src@.take(i as int),
        decreases src.len() - i,
    {
        dst.push(src[i]);
        i += 1;
        assert(dst@ =~= start + src@.take(i as int));
    }
    assert(src@.take(src@.len() as int) =~= src@);
}

pub open spec fn is_word_char(c: char) -> bool {
    ('a' <= c && c <= 'z') || ('A' <= c && c <= 'Z') || ('0' <= c && c <= '9') || c == '-' || c
        == '_'
}

/// The characters kept by sanitising `s`, and whether the last kept one is a
/// dash standing for a run of spaces or dots.
pub open spec fn sanitize_scan(s: Seq<char>) -> (Seq<char>, bool)
    decreases s.len(),
{
    if s.len() == 0 {
        (Seq::<char>::empty(), false)
    } else {
        let (out, dash) = sanitize_scan(s.drop_last());
        let c = s.last();
        if is_word_char(c) {
            (out.push(c), false)
        } else if is_space(c) || c == '.' {
            if dash {
                (out, true)
            } else {
                (out.push('-'), true)
            }
        } else {
            (out, dash)
        }
    }
}

pub open spec fn strip_dash_start(s: Seq<char>) -> Seq<char>
    decreases s.len(),
{
    if s.len() > 0 && s[0] == '-' {
        strip_dash_start(s.drop_first())
    } else {
        s
    }
}

pub open spec fn strip_dash_end(s: Seq<char>) -> Seq<char>
    decreases s.len(),
{
    if s.len() > 0 && s.last() == '-' {
        strip_dash_end(s.drop_last())
    } else {
        s
    }
}

/// `s` reduced to ASCII letters, digits, `-` and `_`: each run of spaces and
/// dots becomes one dash, other characters go, outer dashes are stripped, and
/// `fallback` stands in for an empty result.
pub open spec fn sanitized(s: Seq<char>, fallback: Seq<char>) -> Seq<char> {
    let t = strip_dash_end(strip_dash_start(sanitize_scan(crate::text::trim(s)).0));
    if t.len() == 0 {
        fallback
    } else {
        t
    }
}

pub open spec fn sync_word() -> Seq<char> {
    seq!['s', 'y', 'n', 'c']
}

fn word_char(c: char) -> (r: bool)
    ensures
        r == is_word_char(c),
{
    ('a' <= c && c <= 'z') || ('A' <= c && c <= 'Z') || ('0' <= c && c <= '9') || c == '-' || c
        == '_'
}

fn strip_dashes(v: &[char]) -> (r: Vec<char>)
    ensures
        r@ == strip_dash_end(strip_dash_start(v@)),
{
    let n = v.len();
    let mut i: usize = 0;
    assert(v@.subrange(0, n as int) =~= v@);
    while i < n && v[i] == '-'
        invariant
            i <= n == v@.len(),
            strip_dash_start(v@) == strip_dash_start(v@.subrange(i as int, n as int)),
        decreases n - i,
    {
        assert(v@.subrange(i as int, n as int).drop_first() =~= v@.subrange(i + 1, n as int));
        i += 1;
    }
    let ghost u = v@.subrange(i as int, n as int);
    assert(strip_dash_start(u) == u) by {
        if u.len() > 0 {
            assert(u[0] == v@[i as int]);
        }
    }
    let mut j: usize = n;
    while j > i && v[j - 1] == '-'
        invariant
            i <= j <= n == v@.len(),
            u == v@.subrange(i as int, n as int),
            strip_dash_end(u) == strip_dash_end(v@.subrange(i as int, j as int)),
        decreases j,
    {
        assert(v@.subrange(i as int, j as int).drop_last() =~= v@.subrange(i as int, j - 1));
        j -= 1;
    }
    let ghost w = v@.subrange(i as int, j as int);
    assert(strip_dash_end(w) == w) by {
        if w.len() > 0 {
            assert(w.last() == v@[j - 1]);
        }
    }
    crate::text::slice_chars(v, i, j)
}

/// `sanitized(input, fallback)` as characters.
pub fn sanitize_chars(input: &[char], fallback: &[char]) -> (r: Vec<char>)
    ensures
        r@ == sanitized(input@, fallback@),
{
    let t = crate::text::trimmed(input);
    let mut out: Vec<char> = Vec::new();
    let mut last_dash = false;
    let mut i: usize = 0;
    while i < t.len()
        invariant
            i <= t@.len(),
            (out@, last_dash) == sanitize_scan(t@.take(i as int)),
        decreases t.len() - i,
    {
        proof {
            assert(t@.take(i + 1).drop_last() =~= t@.take(i as int));
        }
        let c = t[i];
        if word_char(c) {
            out.push(c);
            last_dash = false;
        } else if crate::text::space(c) || c == '.' {
            if !last_dash {
                out.push('-');
                last_dash = true;
            }
        }
        i += 1;
    }
    assert(t@.take(t@.len() as int) =~= t@);
    let s = strip_dashes(&out);
    if s.len() == 0 {
        let mut f: Vec<char> = Vec::new();
        append_chars(&mut f, fallback);
        assert(f@ =~= fallback@);
        f
    } else {
        s
    }
}

/// A label reduced to a name-safe word, `"sync"` when nothing is left.
pub fn sanitize_name(input: &str) -> (r: String)
    ensures
        r@ == sanitized(input@, sync_word()),
{
    let v = crate::text::chars_of(input);
    let fallback = vec!['s', 'y', 'n', 'c'];
    assert(fallback@ =~= sync_word());
    let r = sanitize_chars(&v, &fallback);
    crate::text::string_of(&r)
}

pub open spec fn digit(d: nat) -> char {
    if d == 0 { '0' }
    else if d == 1 { '1' }
    else if d == 2 { '2' }
    else if d == 3 { '3' }
    else if d == 4 { '4' }
    else if d == 5 { '5' }
    else if d == 6 { '6' }
    else if d == 7 { '7' }
    else if d == 8 { '8' }
    else { '9' }
}

/// The decimal digits of `n`, most significant first.
pub open spec fn decimal(n: nat) -> Seq<char>
    decreases n,
{
    if n < 10 {
        seq![digit(n)]
    } else {
        decimal(n / 10).push(digit(n % 10))
    }
}

fn digit_char(d: usize) -> (r: char)
    requires
        d < 10,
    ensures
        r == digit(d as nat),
{
    if d == 0 { '0' }
    else if d == 1 { '1' }
    else if d == 2 { '2' }
    else if d == 3 { '3' }
    else if d == 4 { '4' }
    else if d == 5 { '5' }
    else if d == 6 { '6' }
    else if d == 7 { '7' }
    else if d == 8 { '8' }
    else { '9' }
}

/// `decimal(n)` as characters.
pub fn decimal_chars(n: usize) -> (r: Vec<char>)
    ensures
        r@ == decimal(n as nat),
    decreases n,
{
    if n < 10 {
        let r = vec![digit_char(n)];
        assert(r@ =~= seq![digit(n as nat)]);
        r
    } else {
        let mut r = decimal_chars(n / 10);
        r.push(digit_char(n % 10));
        r
    }
}

proof fn lemma_digit_injective(a: nat, b: nat)
    requires
        a < 10,
        b < 10,
        digit(a) == digit(b),
    ensures
        a == b,
{
}

pub proof fn lemma_decimal_len(n: nat)
    ensures
        decimal(n).len() >= 1,
        n >= 10 ==> decimal(n).len() >= 2,
    decreases n,
{
    if n >= 10 {
        lemma_decimal_len(n / 10);
    }
}

/// Different numbers have different decimal forms.
pub proof fn lemma_decimal_injective(a: nat, b: nat)
    requires
        decimal(a) == decimal(b),
    ensures
        a == b,
    decreases a,
{
    lemma_decimal_len(a);
    lemma_decimal_len(b);
    if a < 10 && b < 10 {
        assert(decimal(a)[0] == digit(a));
        assert(decimal(b)[0] == digit(b));
        lemma_digit_injective(a, b);
    } else if a >= 10 && b >= 10 {
        assert(decimal(a).drop_last() =~= decimal(a / 10));
        assert(decimal(b).drop_last() =~= decimal(b / 10));
        lemma_decimal_injective(a / 10, b / 10);
        assert(decimal(a).last() == digit(a % 10));
        assert(decimal(b).last() == digit(b % 10));
        lemma_digit_injective(a % 10, b % 10);
    }
}

/// Whether a piece of a `/`-separated path is a component: not empty, not `.`.
pub open spec fn is_component_part(p: Seq<char>) -> bool {
    p.len() > 0 && p != seq!['.']
}

/// The last component among `parts`.
pub open spec fn last_component(parts: Seq<Seq<char>>) -> Option<Seq<char>>
    decreases parts.len(),
{
    if parts.len() == 0 {
        None
    } else if is_component_part(parts.last()) {
        Some(parts.last())
    } else {
        last_component(parts.drop_last())
    }
}

/// The last normal component of a `/`-separated path, as `Path::file_name`
/// gives it: empty and `.` components are skipped, and a trailing `..`
/// (or no component at all) gives none.
pub open spec fn file_name(path: Seq<char>) -> Option<Seq<char>> {
    match last_component(split_on(path, '/')) {
        Some(c) => if c == seq!['.', '.'] {
            None
        } else {
            Some(c)
        },
        None => None,
    }
}

/// The path component a new session name is derived from.
pub open spec fn name_base(local: Seq<char>) -> Seq<char> {
    sanitized(
        match file_name(local) {
            Some(b) => b,
            None => sync_word(),
        },
        sync_word(),
    )
}

/// The name minted for the `index`-th new pair of one request: `sync-`, the
/// sanitised label, the base of the local path, the time stamp, and `-index`
/// from the second one on.
pub open spec fn sync_name(label: Seq<char>, local: Seq<char>, stamp: Seq<char>, index: nat) -> Seq<
    char,
> {
    let head = sync_word() + seq!['-'] + sanitized(label, sync_word()) + seq!['-'] + name_base(
        local,
    ) + seq!['-'] + stamp;
    if index > 1 {
        head + seq!['-'] + decimal(index)
    } else {
        head
    }
}

fn is_component(p: &Vec<char>) -> (r: bool)
    ensures
        r == (p@.len() > 0 && p@ != seq!['.']),
{
    if p.len() == 0 {
        return false;
    }
    if p.len() == 1 && p[0] == '.' {
        assert(p@ =~= seq!['.']);
        return false;
    }
    assert(p@.len() != 1 ==> p@ != seq!['.']);
    assert(p@.len() == 1 ==> p@[0] != '.' ==> p@ != seq!['.']);
    true
}

fn base_chars(local: &[char]) -> (r: Vec<char>)
    ensures
        r@ == match file_name(local@) {
            Some(b) => b,
            None => sync_word(),
        },
{
    let parts = split_chars(local, '/');
    let ghost all = split_on(local@, '/');
    let mut k: usize = parts.len();
    proof {
        assert(all.take(all.len() as int) =~= all);
    }
    while k > 0 && !is_component(&parts[k - 1])
        invariant
            k <= parts@.len(),
            vecs_view(parts@) == all,
            last_component(all) == last_component(all.take(k as int)),
        decreases k,
    {
        proof {
            let t = all.take(k as int);
            assert(t.drop_last() =~= all.take(k - 1));
            assert(t.last() == parts@[k - 1]@);
        }
        k -= 1;
    }
    if k == 0 {
        return vec!['s', 'y', 'n', 'c'];
    }
    let last = &parts[k - 1];
    proof {
        let t = all.take(k as int);
        assert(t.last() == last@);
    }
    if last.len() == 2 && last[0] == '.' && last[1] == '.' {
        assert(last@ =~= seq!['.', '.']);
        return vec!['s', 'y', 'n', 'c'];
    }
    assert(last@ != seq!['.', '.']) by {
        if last@ == seq!['.', '.'] {
            assert(last@.len() == 2 && last@[0] == '.' && last@[1] == '.');
        }
    }
    let mut r: Vec<char> = Vec::new();
    append_chars(&mut r, last.as_slice());
    assert(r@ =~= last@);
    r
}

/// `sync_name(label, local, stamp, index)` as characters.
pub fn sync_name_chars(label: &[char], local: &[char], stamp: &[char], index: usize) -> (r: Vec<
    char,
>)
    ensures
        r@ == sync_name(label@, local@, stamp@, index as nat),
{
    let fallback = vec!['s', 'y', 'n', 'c'];
    assert(fallback@ =~= sync_word());
    let label_part = sanitize_chars(label, &fallback);
    let base = base_chars(local);
    let base_part = sanitize_chars(&base, &fallback);
    let mut r: Vec<char> = vec!['s', 'y', 'n', 'c', '-'];
    assert(r@ =~= sync_word() + seq!['-']);
    append_chars(&mut r, &label_part);
    r.push('-');
    append_chars(&mut r, &base_part);
    r.push('-');
    append_chars(&mut r, stamp);
    let ghost head = sync_word() + seq!['-'] + sanitized(label@, sync_word()) + seq!['-']
        + name_base(local@) + seq!['-'] + stamp@;
    assert(r@ =~= head);
    if index > 1 {
        r.push('-');
        let d = decimal_chars(index);
        append_chars(&mut r, &d);
        assert(r@ =~= head + seq!['-'] + decimal(index as nat));
    }
    r
}

/// Two names minted in one request for the same base differ: the request's
/// running index tells them apart.
pub proof fn lemma_minted_names_distinct(
    label: Seq<char>,
    local_a: Seq<char>,
    local_b: Seq<char>,
    stamp: Seq<char>,
    i: nat,
    j: nat,
)
    requires
        name_base(local_a) == name_base(local_b),
        1 <= i,
        1 <= j,
        i != j,
    ensures
        sync_name(label, local_a, stamp, i) != sync_name(label, local_b, stamp, j),
{
    let head = sync_word() + seq!['-'] + sanitized(label, sync_word()) + seq!['-'] + name_base(
        local_a,
    ) + seq!['-'] + stamp;
    let a = sync_name(label, local_a, stamp, i);
    let b = sync_name(label, local_b, stamp, j);
    if i > 1 && j > 1 {
        if a == b {
            let n = head.len() as int + 1;
            assert(a.subrange(n, a.len() as int) =~= decimal(i));
            assert(b.subrange(n, b.len() as int) =~= decimal(j));
            lemma_decimal_injective(i, j);
        }
    } else if i > 1 {
        lemma_decimal_len(i);
        assert(a.len() > b.len());
    } else {
        lemma_decimal_len(j);
        assert(b.len() > a.len());
    }
}

} // verus!
