//! The structured (JSON) form of the daemon's session listing, read through
//! serde_json, and the choice between it and the text form.
use vstd::prelude::*;
use crate::sessions::{Session, SyncSession, host_of_url, opt_view, parse_host_from_url, sessions_view};
use crate::text::strs_view;

verus! {

#[verifier::external_type_specification]
#[verifier::external_body]
pub struct ExJsonValue(serde_json::Value);

/// The JSON value that `raw` is, if it is one.
pub uninterp spec fn json_of(raw: Seq<char>) -> Option<serde_json::Value>;

/// The elements of a JSON array.
pub uninterp spec fn json_items(v: serde_json::Value) -> Option<Seq<serde_json::Value>>;

/// The member `key` of a JSON object.
pub uninterp spec fn json_member(v: serde_json::Value, key: Seq<char>) -> Option<serde_json::Value>;

/// The text of a JSON string.
pub uninterp spec fn json_text(v: serde_json::Value) -> Option<Seq<char>>;

/// Relies on `serde_json::from_str::<Value>`: the document `raw` holds, or
/// none when `raw` is not JSON.
#[verifier::external_body]
fn parse_json(raw: &str) -> (r: Option<serde_json::Value>)
    ensures
        r == json_of(raw@),
{
    serde_json::from_str::<serde_json::Value>(raw).ok()
}

/// Relies on `Value::as_array`: the elements when the value is an array.
#[verifier::external_body]
fn json_array(v: &serde_json::Value) -> (r: Option<&Vec<serde_json::Value>>)
    ensures
        match r {
            Some(a) => json_items(*v) == Some(a@),
            None => json_items(*v) is None,
        },
{
    v.as_array()
}

/// Relies on `Value::get` with a `&str` key: the member of an object.
#[verifier::external_body]
fn json_get<'a>(v: &'a serde_json::Value, key: &str) -> (r: Option<&'a serde_json::Value>)
    ensures
        match r {
            Some(m) => json_member(*v, key@) == Some(*m),
            None => json_member(*v, key@) is None,
        },
{
    v.get(key)
}

/// Relies on `Value::as_str`: the text when the value is a string.
#[verifier::external_body]
fn json_str(v: &serde_json::Value) -> (r: Option<&str>)
    ensures
        match r {
            Some(s) => json_text(*v) == Some(s@),
            None => json_text(*v) is None,
        },
{
    v.as_str()
}

/// The member `a` of `v`, or else its member `b`.
pub open spec fn member_either(v: serde_json::Value, a: Seq<char>, b: Seq<char>) -> Option<
    serde_json::Value,
> {
    match json_member(v, a) {
        Some(x) => Some(x),
        None => json_member(v, b),
    }
}

/// The text of the member `a` of `v`, or, when there is no member `a`, of
/// its member `b`.
pub open spec fn text_member(v: serde_json::Value, a: Seq<char>, b: Seq<char>) -> Option<Seq<char>> {
    match member_either(v, a, b) {
        Some(x) => json_text(x),
        None => None,
    }
}

/// The remote endpoint's URL of a listed session: `beta.url` (or
/// `beta.URL`), else `betaURL` (or `betaUrl`).
pub open spec fn beta_url_of(item: serde_json::Value) -> Option<Seq<char>> {
    let nested = match json_member(item, "beta"@) {
        Some(b) => text_member(b, "url"@, "URL"@),
        None => None,
    };
    match nested {
        Some(u) => Some(u),
        None => text_member(item, "betaURL"@, "betaUrl"@),
    }
}

/// The session a listed item describes: one with a string `name` (or
/// `Name`), with its `status` (or `Status`) and remote endpoint.
pub open spec fn item_session(item: serde_json::Value) -> Option<Session> {
    match text_member(item, "name"@, "Name"@) {
        Some(n) => Some(
            Session {
                name: n,
                status: text_member(item, "status"@, "Status"@),
                beta_url: beta_url_of(item),
                beta_host: match beta_url_of(item) {
                    Some(u) => host_of_url(u),
                    None => None,
                },
            },
        ),
        None => None,
    }
}

pub open spec fn item_sessions(items: Seq<serde_json::Value>) -> Seq<Session>
    decreases items.len(),
{
    if items.len() == 0 {
        Seq::empty()
    } else {
        let rest = item_sessions(items.drop_last());
        match item_session(items.last()) {
            Some(s) => rest.push(s),
            None => rest,
        }
    }
}

/// The sessions of a structured listing: one per array element that names
/// a session; nothing when the document is not an array.
pub open spec fn json_sessions(v: serde_json::Value) -> Seq<Session> {
    match json_items(v) {
        Some(items) => item_sessions(items),
        None => Seq::empty(),
    }
}

/// The non-empty session names of a structured listing.
pub open spec fn item_names(items: Seq<serde_json::Value>) -> Seq<Seq<char>>
    decreases items.len(),
{
    if items.len() == 0 {
        Seq::empty()
    } else {
        let rest = item_names(items.drop_last());
        match text_member(items.last(), "name"@, "Name"@) {
            Some(n) => if n.len() > 0 {
                rest.push(n)
            } else {
                rest
            },
            None => rest,
        }
    }
}

pub open spec fn json_names(v: serde_json::Value) -> Seq<Seq<char>> {
    match json_items(v) {
        Some(items) => item_names(items),
        None => Seq::empty(),
    }
}

fn get_either<'a>(v: &'a serde_json::Value, a: &str, b: &str) -> (r: Option<&'a serde_json::Value>)
    ensures
        match r {
            Some(m) => member_either(*v, a@, b@) == Some(*m),
            None => member_either(*v, a@, b@) is None,
        },
{
    match json_get(v, a) {
        Some(x) => Some(x),
        None => json_get(v, b),
    }
}

fn text_of_member(v: &serde_json::Value, a: &str, b: &str) -> (r: Option<String>)
    ensures
        opt_view(r) == text_member(*v, a@, b@),
{
    match get_either(v, a, b) {
        Some(x) => match json_str(x) {
            Some(s) => Some(String::from_str(s)),
            None => None,
        },
        None => None,
    }
}

fn beta_url(item: &serde_json::Value) -> (r: Option<String>)
    ensures
        opt_view(r) == beta_url_of(*item),
{
    let nested = match json_get(item, "beta") {
        Some(b) => text_of_member(b, "url", "URL"),
        None => None,
    };
    match nested {
        Some(u) => Some(u),
        None => text_of_member(item, "betaURL", "betaUrl"),
    }
}

fn session_of_item(item: &serde_json::Value) -> (r: Option<SyncSession>)
    ensures
        match r {
            Some(s) => item_session(*item) == Some(s@),
            None => item_session(*item) is None,
        },
{
    match text_of_member(item, "name", "Name") {
        Some(name) => {
            let status = text_of_member(item, "status", "Status");
            let beta_url = beta_url(item);
            let beta_host = match &beta_url {
                Some(u) => parse_host_from_url(u.as_str()),
                None => None,
            };
            Some(SyncSession { name, status, beta_url, beta_host })
        },
        None => None,
    }
}

/// The sessions of a structured listing `raw`, or none when `raw` is not
/// JSON.
pub fn sessions_from_json(raw: &str) -> (r: Option<Vec<SyncSession>>)
    ensures
        match r {
            Some(s) => json_of(raw@) matches Some(v) && sessions_view(s@) == json_sessions(v),
            None => json_of(raw@) is None,
        },
{
    let value = match parse_json(raw) {
        Some(v) => v,
        None => {
            return None;
        },
    };
    let mut out: Vec<SyncSession> = Vec::new();
    match json_array(&value) {
        Some(items) => {
            let mut i: usize = 0;
            while i < items.len()
                invariant
                    i <= items@.len(),
                    json_items(value) == Some(items@),
                    sessions_view(out@) == item_sessions(items@.take(i as int)),
                decreases items.len() - i,
            {
                proof {
                    assert(items@.take(i + 1).drop_last() =~= items@.take(i as int));
                }
                match session_of_item(&items[i]) {
                    Some(s) => {
                        out.push(s);
                        assert(sessions_view(out@) =~= item_sessions(items@.take(i as int)).push(
                            out@.last()@,
                        ));
                    },
                    None => {},
                }
                i += 1;
            }
            proof {
                assert(items@.take(items@.len() as int) =~= items@);
            }
        },
        None => {},
    }
    Some(out)
}

/// The non-empty session names of a structured listing `raw`, or none when
/// `raw` is not JSON.
pub fn names_from_json(raw: &str) -> (r: Option<Vec<String>>)
    ensures
        match r {
            Some(n) => json_of(raw@) matches Some(v) && strs_view(n@) == json_names(v),
            None => json_of(raw@) is None,
        },
{
    let value = match parse_json(raw) {
        Some(v) => v,
        None => {
            return None;
        },
    };
    let mut out: Vec<String> = Vec::new();
    match json_array(&value) {
        Some(items) => {
            let mut i: usize = 0;
            while i < items.len()
                invariant
                    i <= items@.len(),
                    json_items(value) == Some(items@),
                    strs_view(out@) == item_names(items@.take(i as int)),
                decreases items.len() - i,
            {
                proof {
                    assert(items@.take(i + 1).drop_last() =~= items@.take(i as int));
                }
                match text_of_member(&items[i], "name", "Name") {
                    Some(n) => {
                        if n.as_str().unicode_len() > 0 {
                            out.push(n);
                            assert(strs_view(out@) =~= item_names(items@.take(i as int)).push(
                                out@.last()@,
                            ));
                        }
                    },
                    None => {},
                }
                i += 1;
            }
            proof {
                assert(items@.take(items@.len() as int) =~= items@);
            }
        },
        None => {},
    }
    Some(out)
}

/// The sessions of the structured listing, when it was had (`structured`
/// is the output of the structured query, none when that query failed),
/// is JSON, and lists at least one session. Otherwise none: the caller then
/// falls back to the text listing, read by `sessions_from_text`.
pub fn list_syncs(structured: Option<&str>) -> (r: Option<Vec<SyncSession>>)
    ensures
        match r {
            Some(s) => structured matches Some(raw) && json_of(raw@) matches Some(v)
                && json_sessions(v).len() > 0 && sessions_view(s@) == json_sessions(v),
            None => match structured {
                Some(raw) => match json_of(raw@) {
                    Some(v) => json_sessions(v).len() == 0,
                    None => true,
                },
                None => true,
            },
        },
{
    match structured {
        Some(raw) => match sessions_from_json(raw) {
            Some(sessions) => {
                if sessions.len() > 0 {
                    Some(sessions)
                } else {
                    None
                }
            },
            None => None,
        },
        None => None,
    }
}

/// The live session names from the structured listing, with the same
/// fallback rule as `list_syncs`: none when the structured query failed,
/// was not JSON, or named no session.
pub fn mutagen_existing_names(structured: Option<&str>) -> (r: Option<Vec<String>>)
    ensures
        match r {
            Some(n) => structured matches Some(raw) && json_of(raw@) matches Some(v)
                && json_names(v).len() > 0 && strs_view(n@) == json_names(v),
            None => match structured {
                Some(raw) => match json_of(raw@) {
                    Some(v) => json_names(v).len() == 0,
                    None => true,
                },
                None => true,
            },
        },
{
    match structured {
        Some(raw) => match names_from_json(raw) {
            Some(names) => {
                if names.len() > 0 {
                    Some(names)
                } else {
                    None
                }
            },
            None => None,
        },
        None => None,
    }
}

/// The names of `sessions`, in order.
pub fn session_names(sessions: &[SyncSession]) -> (r: Vec<String>)
    ensures
        strs_view(r@) == sessions_view(sessions@).map_values(|s: Session| s.name),
{
    let mut r: Vec<String> = Vec::new();
    let mut i: usize = 0;
    while i < sessions.len()
        invariant
            i <= sessions@.len(),
            r@.len() == i,
            forall|k: int| 0 <= k < i ==> r@[k]@ == sessions@[k].name@,
        decreases sessions.len() - i,
    {
        r.push(sessions[i].name.clone());
        i += 1;
    }
    assert(strs_view(r@) =~= sessions_view(sessions@).map_values(|s: Session| s.name));
    r
}

/// A structured listing item names its session under `name` or, when that
/// member is missing, under `Name`.
pub proof fn law_structured_name_either_case(item: serde_json::Value, n: Seq<char>)
    ensures
        (json_member(item, "name"@) matches Some(x) && json_text(x) == Some(n)) ==> (item_session(
            item,
        ) matches Some(s) && s.name == n),
        (json_member(item, "name"@) is None && (json_member(item, "Name"@) matches Some(x)
            && json_text(x) == Some(n))) ==> (item_session(item) matches Some(s) && s.name == n),
{
}

} // verus!
