//! Pure rules of the remote-control surface: topic names, command
//! parsing, display-identifier sanitation, and the management address
//! derived from the catalog address.

use vstd::prelude::*;
use crate::messages::SlideshowCommand;
use crate::strutil::{str_eq, sp_contains, contains_str};

verus! {

/// Builds the command topic of a display: `signage/tv/<id>/command`.
pub fn command_topic(tv_id: &str) -> (r: String)
    ensures
        r@ == "signage/tv/"@ + tv_id@ + "/command"@,
{
    let mut r = "signage/tv/".to_owned();
    r.append(tv_id);
    r.append("/command");
    r
}

/// Builds the status topic of a display: `signage/tv/<id>/status`.
pub fn status_topic(tv_id: &str) -> (r: String)
    ensures
        r@ == "signage/tv/"@ + tv_id@ + "/status"@,
{
    let mut r = "signage/tv/".to_owned();
    r.append(tv_id);
    r.append("/status");
    r
}

/// Builds the error topic of a display: `signage/tv/<id>/error`.
pub fn error_topic(tv_id: &str) -> (r: String)
    ensures
        r@ == "signage/tv/"@ + tv_id@ + "/error"@,
{
    let mut r = "signage/tv/".to_owned();
    r.append(tv_id);
    r.append("/error");
    r
}

/// Builds the heartbeat topic of a display: `signage/tv/<id>/heartbeat`.
pub fn heartbeat_topic(tv_id: &str) -> (r: String)
    ensures
        r@ == "signage/tv/"@ + tv_id@ + "/heartbeat"@,
{
    let mut r = "signage/tv/".to_owned();
    r.append(tv_id);
    r.append("/heartbeat");
    r
}

/// Builds the current-image topic of a display:
/// `signage/tv/<id>/image/current`.
pub fn current_image_topic(tv_id: &str) -> (r: String)
    ensures
        r@ == "signage/tv/"@ + tv_id@ + "/image/current"@,
{
    let mut r = "signage/tv/".to_owned();
    r.append(tv_id);
    r.append("/image/current");
    r
}

/// Whether an inbound topic is the command topic of this display.
pub fn is_command_topic(topic: &str, tv_id: &str) -> (r: bool)
    ensures
        r == (topic@ == "signage/tv/"@ + tv_id@ + "/command"@),
{
    let expected = command_topic(tv_id);
    str_eq(topic, expected.as_str())
}

/// What each action word means: exactly `play`, `pause`, `next`,
/// `previous`, `reboot` and `shutdown` map to their commands, any other
/// word is rejected.
pub open spec fn simple_command_action_spec(a: Seq<char>) -> Option<SlideshowCommand> {
    if a == "play"@ {
        Some(SlideshowCommand::Play)
    } else if a == "pause"@ {
        Some(SlideshowCommand::Pause)
    } else if a == "next"@ {
        Some(SlideshowCommand::Next)
    } else if a == "previous"@ {
        Some(SlideshowCommand::Previous)
    } else if a == "reboot"@ {
        Some(SlideshowCommand::Reboot)
    } else if a == "shutdown"@ {
        Some(SlideshowCommand::Shutdown)
    } else {
        None
    }
}

/// Reads a payload-free action word, as [`simple_command_action_spec`]
/// describes.
pub fn simple_command_from_action(action: &str) -> (r: Option<SlideshowCommand>)
    ensures
        r == simple_command_action_spec(action@),
{
    proof {
        reveal_strlit("play");
        reveal_strlit("pause");
        reveal_strlit("next");
        reveal_strlit("previous");
        reveal_strlit("reboot");
        reveal_strlit("shutdown");
    }
    if str_eq(action, "play") {
        Some(SlideshowCommand::Play)
    } else if str_eq(action, "pause") {
        Some(SlideshowCommand::Pause)
    } else if str_eq(action, "next") {
        Some(SlideshowCommand::Next)
    } else if str_eq(action, "previous") {
        Some(SlideshowCommand::Previous)
    } else if str_eq(action, "reboot") {
        Some(SlideshowCommand::Reboot)
    } else if str_eq(action, "shutdown") {
        Some(SlideshowCommand::Shutdown)
    } else {
        None
    }
}

/// Whether a character counts as blank when a hostname is trimmed.
pub open spec fn sp_is_ws(c: char) -> bool {
    c == ' ' || c == '\t' || c == '\n' || c == '\r'
}

/// A hostname character as it appears in a display identifier: blanks
/// inside the name become underscores.
pub open spec fn sp_ident_char(c: char) -> char {
    if c == ' ' {
        '_'
    } else {
        c
    }
}

/// Derives a display identifier from a hostname: the name is trimmed of
/// blanks, inner spaces become underscores, and the result is prefixed
/// with `tv_`.  An empty or `localhost` hostname yields nothing.
pub fn sanitize_tv_id(hostname: &str) -> (r: Option<String>)
    ensures
        match r {
            Some(t) => exists|a: int, b: int|
                #![trigger hostname@[a], hostname@[b - 1]]
                {
                    &&& 0 <= a <= b <= hostname@.len()
                    &&& (forall|i: int| 0 <= i < a ==> sp_is_ws(#[trigger] hostname@[i]))
                    &&& (forall|i: int|
                        b <= i < hostname@.len() ==> sp_is_ws(#[trigger] hostname@[i]))
                    &&& a < b
                    &&& !sp_is_ws(hostname@[a])
                    &&& !sp_is_ws(hostname@[b - 1])
                    &&& t@.len() == 3 + (b - a)
                    &&& t@.subrange(0, 3) == "tv_"@
                    &&& (forall|j: int|
                        0 <= j < b - a ==> t@[3 + j] == sp_ident_char(
                            #[trigger] hostname@[a + j],
                        ))
                },
            None => (forall|i: int| 0 <= i < hostname@.len() ==> sp_is_ws(#[trigger] hostname@[i]))
                || (exists|a: int, b: int|
                #![trigger hostname@.subrange(a, b)]
                {
                    &&& 0 <= a < b <= hostname@.len()
                    &&& (forall|i: int| 0 <= i < a ==> sp_is_ws(#[trigger] hostname@[i]))
                    &&& (forall|i: int|
                        b <= i < hostname@.len() ==> sp_is_ws(#[trigger] hostname@[i]))
                    &&& hostname@.subrange(a, b) == "localhost"@
                }),
        },
{
    proof {
        reveal_strlit("tv_");
        reveal_strlit("localhost");
    }
    let n = hostname.unicode_len();
    let mut a: usize = 0;
    while a < n && is_ws(hostname.get_char(a))
        invariant
            n == hostname@.len(),
            a <= n,
            forall|i: int| 0 <= i < a ==> sp_is_ws(#[trigger] hostname@[i]),
        decreases n - a,
    {
        a = a + 1;
    }
    let mut b: usize = n;
    while b > a && is_ws(hostname.get_char(b - 1))
        invariant
            n == hostname@.len(),
            a <= b <= n,
            forall|i: int| b <= i < n ==> sp_is_ws(#[trigger] hostname@[i]),
        decreases b,
    {
        b = b - 1;
    }
    if a >= b {
        return None;
    }
    let trimmed = hostname.substring_char(a, b);
    if str_eq(trimmed, "localhost") {
        proof {
            assert(hostname@.subrange(a as int, b as int) == "localhost"@);
        }
        return None;
    }
    let mut t = "tv_".to_owned();
    let mut j: usize = 0;
    while j < b - a
        invariant
            n == hostname@.len(),
            a < b <= n,
            j <= b - a,
            t@.len() == 3 + j,
            t@.subrange(0, 3) == "tv_"@,
            forall|k: int| 0 <= k < j ==> t@[3 + k] == sp_ident_char(#[trigger] hostname@[a + k]),
        decreases b - a - j,
    {
        let c = hostname.get_char(a + j);
        if c == ' ' {
            t.push('_');
        } else {
            t.push(c);
        }
        proof {
            assert(t@.subrange(0, 3) =~= "tv_"@);
        }
        j = j + 1;
    }
    Some(t)
}

fn is_ws(c: char) -> (r: bool)
    ensures
        r == sp_is_ws(c),
{
    c == ' ' || c == '\t' || c == '\n' || c == '\r'
}

/// What the address parser finds as the host part of an address, if any.
pub uninterp spec fn url_host(s: Seq<char>) -> Option<Seq<char>>;

/// Relies on url::Url::parse and url::Url::host_str: the host component
/// of an address is a function of the address alone.
#[verifier::external_body]
fn host_of_url(s: &str) -> (r: Option<String>)
    ensures
        match r {
            Some(h) => url_host(s@) == Some(h@),
            None => url_host(s@) is None,
        },
{
    match url::Url::parse(s) {
        Ok(u) => u.host_str().map(|h| h.to_string()),
        Err(_) => None,
    }
}

/// The management service address derived from the catalog address: a
/// local catalog maps to the local management port, any other catalog
/// maps to port 3000 of its host; an address with no host yields nothing.
pub fn management_url(couchdb_url: &str) -> (r: Option<String>)
    ensures
        (sp_contains(couchdb_url@, "localhost"@) || sp_contains(couchdb_url@, "127.0.0.1"@))
            ==> (r matches Some(u) && u@ == "http://localhost:3000"@),
        !(sp_contains(couchdb_url@, "localhost"@) || sp_contains(couchdb_url@, "127.0.0.1"@))
            ==> match url_host(couchdb_url@) {
            Some(h) => r matches Some(u) && u@ == "http://"@ + h + ":3000"@,
            None => r is None,
        },
{
    proof {
        reveal_strlit("localhost");
        reveal_strlit("127.0.0.1");
    }
    if contains_str(couchdb_url, "localhost") || contains_str(couchdb_url, "127.0.0.1") {
        return Some("http://localhost:3000".to_owned());
    }
    match host_of_url(couchdb_url) {
        Some(h) => {
            let mut u = "http://".to_owned();
            u.append(h.as_str());
            u.append(":3000");
            Some(u)
        },
        None => None,
    }
}

} // verus!
