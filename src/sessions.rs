//! The sync daemon's session inventory, read from its listing output: the
//! labelled-block text form, the tabular text form, and the host of a
//! session's remote endpoint.
use vstd::prelude::*;
use crate::text::{
    chars_of, find_chars, has_infix, is_space, occurs_at, split_chars, split_on, string_of, trim,
    trimmed, vecs_view,
};

verus! {

/// A live session as the daemon lists it.
#[derive(Debug, Clone, PartialEq, Eq)]
pub struct SyncSession {
    pub name: String,
    pub status: Option<String>,
    pub beta_url: Option<String>,
    pub beta_host: Option<String>,
}

/// What a listed session says.
pub struct Session {
    pub name: Seq<char>,
    pub status: Option<Seq<char>>,
    pub beta_url: Option<Seq<char>>,
    pub beta_host: Option<Seq<char>>,
}

pub open spec fn opt_view(o: Option<String>) -> Option<Seq<char>> {
    match o {
        Some(s) => Some(s@),
        None => None,
    }
}

impl View for SyncSession {
    type V = Session;

    open spec fn view(&self) -> Session {
        Session {
            name: self.name@,
            status: opt_view(self.status),
            beta_url: opt_view(self.beta_url),
            beta_host: opt_view(self.beta_host),
        }
    }
}

pub open spec fn sessions_view(v: Seq<SyncSession>) -> Seq<Session> {
    v.map_values(|s: SyncSession| s@)
}

pub open spec fn new_session(name: Seq<char>) -> Session {
    Session { name, status: None, beta_url: None, beta_host: None }
}

// ---- host of a URL ----

/// The index of the first `c` in `s`, or its length.
pub open spec fn first_index(s: Seq<char>, c: char) -> nat
    decreases s.len(),
{
    if s.len() == 0 {
        0
    } else if s[0] == c {
        0
    } else {
        1 + first_index(s.drop_first(), c)
    }
}

/// `s` up to its first `c`, as `s.split(c).next()` gives it.
pub open spec fn before_first(s: Seq<char>, c: char) -> Seq<char> {
    s.take(first_index(s, c) as int)
}

/// `s` after its last `c`, as `s.rsplit(c).next()` gives it.
pub open spec fn after_last(s: Seq<char>, c: char) -> Seq<char>
    decreases s.len(),
{
    if s.len() == 0 {
        s
    } else if s.last() == c {
        Seq::empty()
    } else {
        after_last(s.drop_last(), c).push(s.last())
    }
}

fn before_first_chars(v: &[char], c: char) -> (r: Vec<char>)
    ensures
        r@ == before_first(v@, c),
{
    let mut i: usize = 0;
    proof {
        assert(v@.skip(0) =~= v@);
    }
    while i < v.len() && v[i] != c
        invariant
            i <= v@.len(),
            first_index(v@, c) == i + first_index(v@.skip(i as int), c),
        decreases v.len() - i,
    {
        assert(v@.skip(i as int).drop_first() =~= v@.skip(i + 1));
        i += 1;
    }
    assert(first_index(v@.skip(i as int), c) == 0);
    proof {
        assert(v@.take(i as int) =~= v@.subrange(0, i as int));
    }
    crate::text::slice_chars(v, 0, i)
}

fn after_last_chars(v: &[char], c: char) -> (r: Vec<char>)
    ensures
        r@ == after_last(v@, c),
{
    let mut j: usize = v.len();
    proof {
        assert(v@.take(v@.len() as int) =~= v@);
        assert(v@.skip(v@.len() as int) =~= Seq::<char>::empty());
        assert(v@ + Seq::<char>::empty() =~= v@);
    }
    while j > 0 && v[j - 1] != c
        invariant
            j <= v@.len(),
            after_last(v@, c) == after_last(v@.take(j as int), c) + v@.skip(j as int),
        decreases j,
    {
        proof {
            let t = v@.take(j as int);
            assert(t.drop_last() =~= v@.take(j - 1));
            assert(after_last(t, c) == after_last(v@.take(j - 1), c).push(v@[j - 1]));
            assert(after_last(v@.take(j - 1), c).push(v@[j - 1]) + v@.skip(j as int)
                =~= after_last(v@.take(j - 1), c) + v@.skip(j - 1));
        }
        j -= 1;
    }
    proof {
        assert(after_last(v@.take(j as int), c) =~= Seq::<char>::empty());
        assert(Seq::<char>::empty() + v@.skip(j as int) =~= v@.subrange(j as int, v@.len() as int));
    }
    crate::text::slice_chars(v, j, v.len())
}

pub open spec fn scheme_sep() -> Seq<char> {
    seq![':', '/', '/']
}

/// The host of a sync endpoint: for `scheme://user@host:port/path` the
/// part between the last `@` and the first `:` of the authority; for
/// `user@host:path` the part before the first `:` and after the last `@`,
/// none when that part holds a `/`. Blank input and an empty host give none.
pub open spec fn host_of_url(url: Seq<char>) -> Option<Seq<char>> {
    let t = trim(url);
    if t.len() == 0 {
        None
    } else if has_infix(t, scheme_sep()) {
        let k = choose|k: int| occurs_at(t, scheme_sep(), k) && forall|m: int|
            0 <= m < k ==> !occurs_at(t, scheme_sep(), m);
        let rest = t.skip(k + 3);
        let host = before_first(after_last(before_first(rest, '/'), '@'), ':');
        if host.len() == 0 {
            None
        } else {
            Some(host)
        }
    } else {
        let part = before_first(t, ':');
        if part.contains('/') {
            None
        } else {
            let host = before_first(after_last(part, '@'), ':');
            if host.len() == 0 {
                None
            } else {
                Some(host)
            }
        }
    }
}

fn has_char(v: &[char], c: char) -> (r: bool)
    ensures
        r == v@.contains(c),
{
    let mut i: usize = 0;
    while i < v.len()
        invariant
            i <= v@.len(),
            forall|k: int| 0 <= k < i ==> v@[k] != c,
        decreases v.len() - i,
    {
        if v[i] == c {
            assert(v@[i as int] == c);
            return true;
        }
        i += 1;
    }
    false
}

/// `host_of_url(url)`.
pub fn parse_host_from_url(url: &str) -> (r: Option<String>)
    ensures
        opt_view(r) == host_of_url(url@),
{
    let v = chars_of(url);
    let t = trimmed(&v);
    if t.len() == 0 {
        return None;
    }
    let sep = vec![':', '/', '/'];
    assert(sep@ =~= scheme_sep());
    match find_chars(&t, &sep) {
        Some(k) => {
            let ghost kk = choose|k: int| occurs_at(t@, scheme_sep(), k) && forall|m: int|
                0 <= m < k ==> !occurs_at(t@, scheme_sep(), m);
            assert(kk == k as int) by {
                if kk < k {
                } else if kk > k {
                }
            }
            let rest = crate::text::slice_chars(&t, k + 3, t.len());
            assert(rest@ =~= t@.skip(k + 3));
            let hostport = before_first_chars(&rest, '/');
            let hostport = after_last_chars(&hostport, '@');
            let host = before_first_chars(&hostport, ':');
            if host.len() == 0 {
                None
            } else {
                Some(string_of(&host))
            }
        },
        None => {
            let part = before_first_chars(&t, ':');
            if has_char(&part, '/') {
                return None;
            }
            let part = after_last_chars(&part, '@');
            let host = before_first_chars(&part, ':');
            if host.len() == 0 {
                None
            } else {
                Some(string_of(&host))
            }
        },
    }
}

// ---- labelled-block text ----

pub open spec fn lower_ascii_eq(c: char, lower: char) -> bool {
    c == lower || ('A' <= c && c <= 'Z' && (c as u32) + 32 == lower as u32)
}

/// Whether `s` begins with `p` when ASCII letters are compared without
/// case (`p` is in lower case), as a prefix test on `s.to_lowercase()` is for
/// the tags read here.
pub open spec fn has_prefix_nocase(s: Seq<char>, p: Seq<char>) -> bool {
    p.len() <= s.len() && forall|i: int| 0 <= i < p.len() ==> lower_ascii_eq(s[i], p[i])
}

/// Whether `p` (in lower case) occurs in `s` with ASCII letters compared
/// without case.
pub open spec fn has_infix_nocase(s: Seq<char>, p: Seq<char>) -> bool {
    exists|k: int| 0 <= k && k + p.len() <= s.len() && has_prefix_nocase(#[trigger] s.skip(k), p)
}

fn char_nocase(c: char, lower: char) -> (r: bool)
    ensures
        r == lower_ascii_eq(c, lower),
{
    c == lower || ('A' <= c && c <= 'Z' && (c as u32) + 32 == lower as u32)
}

fn prefix_nocase_at(v: &[char], k: usize, p: &[char]) -> (r: bool)
    requires
        k <= v@.len(),
    ensures
        r == has_prefix_nocase(v@.skip(k as int), p@),
{
    if p.len() > v.len() - k {
        return false;
    }
    let n = v.len();
    let mut i: usize = 0;
    while i < p.len()
        invariant
            k + p@.len() <= v@.len(),
            n == v@.len(),
            i <= p@.len(),
            forall|m: int| 0 <= m < i ==> lower_ascii_eq(v@.skip(k as int)[m], p@[m]),
        decreases p.len() - i,
    {
        if !char_nocase(v[k + i], p[i]) {
            assert(v@.skip(k as int)[i as int] == v@[k + i]);
            return false;
        }
        assert(v@.skip(k as int)[i as int] == v@[k + i]);
        i += 1;
    }
    true
}

fn infix_nocase(v: &[char], p: &[char]) -> (r: bool)
    ensures
        r == has_infix_nocase(v@, p@),
{
    if p.len() > v.len() {
        return false;
    }
    let last = v.len() - p.len();
    let mut k: usize = 0;
    loop
        invariant
            last + p@.len() == v@.len(),
            k <= last,
            forall|m: int| 0 <= m < k ==> !has_prefix_nocase(#[trigger] v@.skip(m), p@),
        decreases last - k,
    {
        if prefix_nocase_at(v, k, p) {
            return true;
        }
        if k == last {
            assert(!has_infix_nocase(v@, p@)) by {
                if has_infix_nocase(v@, p@) {
                    let m = choose|m: int| 0 <= m && m + p@.len() <= v@.len() && has_prefix_nocase(
                        #[trigger] v@.skip(m),
                        p@,
                    );
                    assert(m <= k);
                }
            }
            return false;
        }
        k += 1;
    }
}

pub open spec fn name_tag() -> Seq<char> {
    seq!['n', 'a', 'm', 'e', ':']
}

pub open spec fn status_tag() -> Seq<char> {
    seq!['s', 't', 'a', 't', 'u', 's', ':']
}

pub open spec fn alpha_tag() -> Seq<char> {
    seq!['A', 'l', 'p', 'h', 'a', ':']
}

pub open spec fn beta_tag() -> Seq<char> {
    seq!['B', 'e', 't', 'a', ':']
}

pub open spec fn url_tag() -> Seq<char> {
    seq!['U', 'R', 'L', ':']
}

/// The state of the labelled-block reading: the sessions so far (the last
/// one is the one that `Status:` and `URL:` lines describe) and whether the
/// lines are inside a `Beta:` block.
pub struct BlockScan {
    pub sessions: Seq<Session>,
    pub in_beta: bool,
}

/// One line of labelled-block output read: `Name:` (any case) opens a
/// session, `Status:` (any case) gives the last one's status, `Alpha:` and
/// `Beta:` open endpoint blocks, and `URL:` inside a `Beta:` block gives the
/// last session's remote URL and host. Blank values are skipped.
pub open spec fn block_step(st: BlockScan, line: Seq<char>) -> BlockScan {
    let t = trim(line);
    let n = st.sessions.len();
    if t.len() == 0 {
        st
    } else if has_prefix_nocase(t, name_tag()) {
        let name = trim(t.skip(5));
        if name.len() > 0 {
            BlockScan { sessions: st.sessions.push(new_session(name)), in_beta: false }
        } else {
            st
        }
    } else if has_prefix_nocase(t, status_tag()) {
        let status = trim(t.skip(7));
        if n > 0 && status.len() > 0 {
            BlockScan {
                sessions: st.sessions.update(
                    n - 1,
                    Session { status: Some(status), ..st.sessions[n - 1] },
                ),
                in_beta: st.in_beta,
            }
        } else {
            st
        }
    } else if crate::text::has_prefix(t, alpha_tag()) {
        BlockScan { sessions: st.sessions, in_beta: false }
    } else if crate::text::has_prefix(t, beta_tag()) {
        BlockScan { sessions: st.sessions, in_beta: true }
    } else if st.in_beta && crate::text::has_prefix(t, url_tag()) {
        let url = trim(t.skip(4));
        if n > 0 && url.len() > 0 {
            BlockScan {
                sessions: st.sessions.update(
                    n - 1,
                    Session {
                        beta_url: Some(url),
                        beta_host: host_of_url(url),
                        ..st.sessions[n - 1]
                    },
                ),
                in_beta: st.in_beta,
            }
        } else {
            st
        }
    } else {
        st
    }
}

pub open spec fn block_scan(lines: Seq<Seq<char>>) -> BlockScan
    decreases lines.len(),
{
    if lines.len() == 0 {
        BlockScan { sessions: Seq::empty(), in_beta: false }
    } else {
        block_step(block_scan(lines.drop_last()), lines.last())
    }
}

// ---- tabular text ----

/// `s` up to its first whitespace: the first word of a trimmed line.
pub open spec fn first_word(s: Seq<char>) -> Seq<char>
    decreases s.len(),
{
    if s.len() == 0 || is_space(s[0]) {
        Seq::empty()
    } else {
        seq![s[0]] + first_word(s.drop_first())
    }
}

pub open spec fn identifier_word() -> Seq<char> {
    seq!['i', 'd', 'e', 'n', 't', 'i', 'f', 'i', 'e', 'r']
}

pub open spec fn name_word() -> Seq<char> {
    seq!['n', 'a', 'm', 'e']
}

/// One line of tabular output read: a heading line (one that mentions
/// `name` and `identifier`, in any case) starts the table; after it, each
/// line that is not a rule (`-...`) and whose first word does not end in
/// `:` lists a session under that word.
pub open spec fn table_step(st: (Seq<Session>, bool), line: Seq<char>) -> (Seq<Session>, bool) {
    let t = trim(line);
    if t.len() == 0 {
        st
    } else if has_infix_nocase(t, name_word()) && has_infix_nocase(t, identifier_word()) {
        (st.0, true)
    } else if !st.1 || t[0] == '-' {
        st
    } else {
        let w = first_word(t);
        if w.len() > 0 && w.last() == ':' {
            st
        } else {
            (st.0.push(new_session(w)), true)
        }
    }
}

pub open spec fn table_scan(lines: Seq<Seq<char>>) -> (Seq<Session>, bool)
    decreases lines.len(),
{
    if lines.len() == 0 {
        (Seq::empty(), false)
    } else {
        table_step(table_scan(lines.drop_last()), lines.last())
    }
}

/// The sessions of the daemon's text listing: those of the labelled-block
/// reading, or, when it finds none, those of the tabular reading.
pub open spec fn text_sessions(raw: Seq<char>) -> Seq<Session> {
    let lines = split_on(raw, '\n');
    let blocks = block_scan(lines).sessions;
    if blocks.len() > 0 {
        blocks
    } else {
        table_scan(lines).0
    }
}

fn first_word_chars(v: &[char]) -> (r: Vec<char>)
    ensures
        r@ == first_word(v@),
{
    let mut i: usize = 0;
    proof {
        assert(v@.skip(0) =~= v@);
    }
    while i < v.len() && !crate::text::space(v[i])
        invariant
            i <= v@.len(),
            first_word(v@) == v@.take(i as int) + first_word(v@.skip(i as int)),
        decreases v.len() - i,
    {
        proof {
            let s = v@.skip(i as int);
            assert(s.drop_first() =~= v@.skip(i + 1));
            assert(v@.take(i as int) + (seq![s[0]] + first_word(s.drop_first())) =~= v@.take(i + 1)
                + first_word(v@.skip(i + 1)));
        }
        i += 1;
    }
    proof {
        assert(first_word(v@.skip(i as int)) =~= Seq::<char>::empty());
        assert(v@.take(i as int) + Seq::<char>::empty() =~= v@.subrange(0, i as int));
    }
    crate::text::slice_chars(v, 0, i)
}

fn set_last_status(sessions: &mut Vec<SyncSession>, status: String)
    requires
        old(sessions)@.len() > 0,
    ensures
        sessions_view(final(sessions)@) == sessions_view(old(sessions)@).update(
            old(sessions)@.len() - 1,
            Session { status: Some(status@), ..sessions_view(old(sessions)@)[old(sessions)@.len() - 1] },
        ),
{
    let ghost before = sessions_view(sessions@);
    let last = sessions.pop().unwrap();
    let s = SyncSession { name: last.name, status: Some(status), beta_url: last.beta_url, beta_host: last.beta_host };
    sessions.push(s);
    assert(sessions_view(sessions@) =~= before.update(
        before.len() - 1,
        Session { status: Some(status@), ..before[before.len() - 1] },
    ));
}

fn set_last_url(sessions: &mut Vec<SyncSession>, url: String)
    requires
        old(sessions)@.len() > 0,
    ensures
        sessions_view(final(sessions)@) == sessions_view(old(sessions)@).update(
            old(sessions)@.len() - 1,
            Session {
                beta_url: Some(url@),
                beta_host: host_of_url(url@),
                ..sessions_view(old(sessions)@)[old(sessions)@.len() - 1]
            },
        ),
{
    let ghost before = sessions_view(sessions@);
    let host = parse_host_from_url(url.as_str());
    let last = sessions.pop().unwrap();
    let s = SyncSession { name: last.name, status: last.status, beta_url: Some(url), beta_host: host };
    sessions.push(s);
    assert(sessions_view(sessions@) =~= before.update(
        before.len() - 1,
        Session {
            beta_url: Some(s.beta_url->0@),
            beta_host: host_of_url(s.beta_url->0@),
            ..before[before.len() - 1]
        },
    ));
}

fn session_named(name: &[char]) -> (r: SyncSession)
    ensures
        r@ == new_session(name@),
{
    SyncSession { name: string_of(name), status: None, beta_url: None, beta_host: None }
}

/// `text_sessions(raw)`: the sessions of the daemon's human-readable
/// listing. Malformed text gives fewer sessions, never an error.
pub fn sessions_from_text(raw: &str) -> (r: Vec<SyncSession>)
    ensures
        sessions_view(r@) == text_sessions(raw@),
{
    let v = chars_of(raw);
    let lines = split_chars(&v, '\n');
    let ghost all = split_on(raw@, '\n');
    let name_t = vec!['n', 'a', 'm', 'e', ':'];
    let status_t = vec!['s', 't', 'a', 't', 'u', 's', ':'];
    let alpha_t = vec!['A', 'l', 'p', 'h', 'a', ':'];
    let beta_t = vec!['B', 'e', 't', 'a', ':'];
    let url_t = vec!['U', 'R', 'L', ':'];
    assert(name_t@ =~= name_tag());
    assert(status_t@ =~= status_tag());
    assert(alpha_t@ =~= alpha_tag());
    assert(beta_t@ =~= beta_tag());
    assert(url_t@ =~= url_tag());
    let mut sessions: Vec<SyncSession> = Vec::new();
    let mut in_beta = false;
    let mut i: usize = 0;
    while i < lines.len()
        invariant
            i <= lines@.len(),
            vecs_view(lines@) == all,
            name_t@ == name_tag(),
            status_t@ == status_tag(),
            alpha_t@ == alpha_tag(),
            beta_t@ == beta_tag(),
            url_t@ == url_tag(),
            ({
                let st = block_scan(all.take(i as int));
                sessions_view(sessions@) == st.sessions && in_beta == st.in_beta
            }),
        decreases lines.len() - i,
    {
        proof {
            assert(all.take(i + 1).drop_last() =~= all.take(i as int));
            assert(all.take(i + 1).last() == lines@[i as int]@);
        }
        let ghost before = sessions_view(sessions@);
        let t = trimmed(&lines[i]);
        if t.len() == 0 {
        } else if prefix_nocase_at(&t, 0, &name_t) {
            assert(t@.skip(0) =~= t@);
            let rest = crate::text::slice_chars(&t, 5, t.len());
            assert(rest@ =~= t@.skip(5));
            let name = trimmed(&rest);
            if name.len() > 0 {
                sessions.push(session_named(&name));
                in_beta = false;
            }
        } else if prefix_nocase_at(&t, 0, &status_t) {
            assert(t@.skip(0) =~= t@);
            let rest = crate::text::slice_chars(&t, 7, t.len());
            assert(rest@ =~= t@.skip(7));
            let status = trimmed(&rest);
            if sessions.len() > 0 && status.len() > 0 {
                set_last_status(&mut sessions, string_of(&status));
            }
        } else if crate::text::starts_with(&t, &alpha_t) {
            assert(t@.skip(0) =~= t@);
            in_beta = false;
        } else if crate::text::starts_with(&t, &beta_t) {
            assert(t@.skip(0) =~= t@);
            in_beta = true;
        } else if in_beta && crate::text::starts_with(&t, &url_t) {
            assert(t@.skip(0) =~= t@);
            let rest = crate::text::slice_chars(&t, 4, t.len());
            assert(rest@ =~= t@.skip(4));
            let url = trimmed(&rest);
            if sessions.len() > 0 && url.len() > 0 {
                set_last_url(&mut sessions, string_of(&url));
            }
        } else {
            assert(t@.skip(0) =~= t@);
        }
        i += 1;
    }
    proof {
        assert(all.take(all.len() as int) =~= all);
    }
    if sessions.len() > 0 {
        return sessions;
    }
    let ident_t = vec!['i', 'd', 'e', 'n', 't', 'i', 'f', 'i', 'e', 'r'];
    let name_w = vec!['n', 'a', 'm', 'e'];
    assert(ident_t@ =~= identifier_word());
    assert(name_w@ =~= name_word());
    let mut table: Vec<SyncSession> = Vec::new();
    let mut in_table = false;
    let mut j: usize = 0;
    while j < lines.len()
        invariant
            j <= lines@.len(),
            vecs_view(lines@) == all,
            ident_t@ == identifier_word(),
            name_w@ == name_word(),
            ({
                let st = table_scan(all.take(j as int));
                sessions_view(table@) == st.0 && in_table == st.1
            }),
        decreases lines.len() - j,
    {
        proof {
            assert(all.take(j + 1).drop_last() =~= all.take(j as int));
            assert(all.take(j + 1).last() == lines@[j as int]@);
        }
        let t = trimmed(&lines[j]);
        if t.len() == 0 {
        } else if infix_nocase(&t, &name_w) && infix_nocase(&t, &ident_t) {
            in_table = true;
        } else if !in_table || t[0] == '-' {
        } else {
            let w = first_word_chars(&t);
            if w.len() > 0 && w[w.len() - 1] == ':' {
            } else {
                table.push(session_named(&w));
            }
        }
        j += 1;
    }
    proof {
        assert(all.take(all.len() as int) =~= all);
    }
    table
}

} // verus!
