//! What goes between the tool and the server: file events, the URLs and log
//! lines built for them, and the decisions taken on the server's answers.
use vstd::prelude::*;
use crate::text::{join3, trim, trim_seq, same_text};

verus! {

broadcast use vstd::string::group_string_axioms;

/// A change of a watched file, as reported to the server.
pub struct SyncEvent {
    pub timestamp: String,
    pub event_kind: String,
    pub path: String,
    pub watched_path: String,
}

impl SyncEvent {
    /// The modification event of the file `path` under the watched directory
    /// `watched_path`, stamped with `timestamp` (the current time, which the
    /// caller reads from the clock).
    pub fn new(path: &str, watched_path: String, timestamp: String) -> (e: SyncEvent)
        ensures
            e.timestamp == timestamp,
            e.event_kind@ == "Modify"@,
            e.path@ == path@,
            e.watched_path == watched_path,
    {
        SyncEvent {
            timestamp,
            event_kind: String::from_str("Modify"),
            path: String::from_str(path),
            watched_path,
        }
    }
}

/// The line written to the event log: `[timestamp] [kind] - path`.
pub open spec fn log_line_spec(timestamp: Seq<char>, kind: Seq<char>, path: Seq<char>) -> Seq<
    char,
> {
    "["@ + timestamp + "] ["@ + kind + "] - "@ + path
}

/// The event log line for `path`, changed as `kind` at `timestamp`.
pub fn log_line(timestamp: &str, kind: &str, path: &str) -> (r: String)
    ensures
        r@ == log_line_spec(timestamp@, kind@, path@),
{
    let mut r = join3("[", timestamp, "] [");
    r.append(kind);
    r.append("] - ");
    r.append(path);
    r
}

/// The URL from which the archive of updates is fetched.
pub open spec fn fetch_url_spec(server_ip: Seq<char>) -> Seq<char> {
    "http://"@ + server_ip + ":8443/fetch"@
}

/// For every address the URL is `http://`, the address unchanged, then port
/// 8443 and the `/fetch` path; the address can be read back from it.
pub proof fn lemma_fetch_url_shape(server_ip: Seq<char>)
    ensures
        fetch_url_spec(server_ip) == "http://"@ + server_ip + ":8443/fetch"@,
        fetch_url_spec(server_ip).len() == server_ip.len() + 18,
        fetch_url_spec(server_ip).subrange(7, 7 + server_ip.len() as int) == server_ip,
        fetch_url_spec(server_ip).subrange(
            7 + server_ip.len() as int,
            fetch_url_spec(server_ip).len() as int,
        ) == seq![':', '8', '4', '4', '3', '/', 'f', 'e', 't', 'c', 'h'],
{
    reveal_strlit("http://");
    reveal_strlit(":8443/fetch");
    let u = fetch_url_spec(server_ip);
    assert(u.subrange(7, 7 + server_ip.len() as int) =~= server_ip);
    assert(u.subrange(7 + server_ip.len() as int, u.len() as int) =~= seq![
        ':',
        '8',
        '4',
        '4',
        '3',
        '/',
        'f',
        'e',
        't',
        'c',
        'h',
    ]);
}

/// The URL from which the archive of updates is fetched from `server_ip`.
pub fn fetch_url(server_ip: &str) -> (r: String)
    ensures
        r@ == fetch_url_spec(server_ip@),
        r@ == "http://"@ + server_ip@ + ":8443/fetch"@,
{
    join3("http://", server_ip, ":8443/fetch")
}

/// Whether the server's answer to the update check says that an update is
/// available: it does when the status is 200 (OK) and the body, trimmed of
/// whitespace, is `true`; a 204 (No Content) or any other status says no.
pub fn update_available(status: u16, body: &str) -> (r: bool)
    ensures
        r == (status == 200 && trim_seq(body@) == "true"@),
{
    if status == 200 {
        let t = trim(body);
        same_text(t.as_str(), "true")
    } else {
        false
    }
}

/// What to do after the update check.
pub enum PollDecision<E> {
    /// An update is available: fetch and unpack the archive; its outcome is
    /// the outcome of the poll.
    Receive,
    /// The poll is over with this outcome.
    Finish(Result<(), E>),
}

/// The decision of one poll for updates, given the outcome of the update
/// check: fetch the archive when an update is available, finish successfully
/// when none is, and finish with the check's error when the check failed.
pub fn poll_for_update<E>(update_check: Result<bool, E>) -> (d: PollDecision<E>)
    ensures
        match update_check {
            Ok(true) => d is Receive,
            Ok(false) => d == PollDecision::<E>::Finish(Ok(())),
            Err(e) => d == PollDecision::<E>::Finish(Err(e)),
        },
{
    match update_check {
        Ok(true) => PollDecision::Receive,
        Ok(false) => PollDecision::Finish(Ok(())),
        Err(e) => PollDecision::Finish(Err(e)),
    }
}

} // verus!
