//! Session logic of the bridge that owns one language-server process.
//!
//! The bridge's blocking work — spawning the process, reading and writing
//! frames, timing out — happens outside the library. What is decided here,
//! and verified: how request ids are issued, what the request and
//! notification envelopes contain, how an incoming message is classified
//! against a pending request, and the shutdown protocol that always ends
//! with the process released.

use vstd::prelude::*;
use vstd::string::*;
use crate::decimal::dec_bytes;
use crate::json::{obj_get, get_field, take_fields2, JsonValue};

verus! {

/// Milliseconds a request may wait for its response before it fails with a
/// timeout; the shutdown wait uses the same bound.
pub const REQUEST_TIMEOUT_MS: u64 = 15000;

/// The session-owned request-id counter. Ids start at 1 and are never
/// reused within a session's lifetime.
pub struct Session {
    pub next_request_id: u64,
}

impl Session {
    pub fn new() -> (s: Session)
        ensures
            s.next_request_id == 1,
    {
        Session { next_request_id: 1 }
    }

    /// Takes the next request id; each call returns one more than the
    /// call before it.
    pub fn allocate_id(&mut self) -> (id: u64)
        requires
            old(self).next_request_id < u64::MAX,
        ensures
            id == old(self).next_request_id,
            final(self).next_request_id == id + 1,
    {
        let id = self.next_request_id;
        self.next_request_id = self.next_request_id + 1;
        id
    }
}

/// Id monotonicity: `n` sequential requests on one session are issued
/// consecutive, pairwise distinct ids; on a fresh session they are exactly
/// `1, 2, ..., n`.
pub fn issue_request_ids(s: &mut Session, n: u64) -> (ids: Vec<u64>)
    requires
        old(s).next_request_id + n <= u64::MAX,
    ensures
        final(s).next_request_id == old(s).next_request_id + n,
        ids@.len() == n as nat,
        forall|k: int| 0 <= k < n ==> ids@[k] == old(s).next_request_id + k,
        forall|k1: int, k2: int|
            0 <= k1 < n && 0 <= k2 < n && k1 != k2 ==> ids@[k1] != ids@[k2],
{
    let mut ids: Vec<u64> = Vec::new();
    let mut k: u64 = 0;
    while k < n
        invariant
            0 <= k <= n,
            old(s).next_request_id + n <= u64::MAX,
            s.next_request_id == old(s).next_request_id + k,
            ids@.len() == k as nat,
            forall|j: int| 0 <= j < k ==> ids@[j] == old(s).next_request_id + j,
        decreases n - k,
    {
        let id = s.allocate_id();
        ids.push(id);
        k = k + 1;
    }
    ids
}

/// The decimal digit characters of `n`.
pub open spec fn dec_chars(n: nat) -> Seq<char> {
    dec_bytes(n).map_values(|b: u8| b as char)
}

/// Whether a reply's id field designates the request issued with `id`.
/// Ids on the wire may be integers or strings.
pub open spec fn id_matches(v: JsonValue, id: u64) -> bool {
    ||| (v is Int && v->Int_0 == id as i128)
    ||| (v is Str && v->Str_0@ == dec_chars(id as nat))
}

/// Checks if a reply's id field matches the expected request id.
pub fn matches_id(candidate: &JsonValue, id: u64) -> (r: bool)
    ensures
        r == id_matches(*candidate, id),
{
    match candidate {
        JsonValue::Int(i) => *i == id as i128,
        JsonValue::Str(s) => {
            let digits = crate::decimal::u64_to_dec(id);
            let m = digits.len();
            let st = s.as_str();
            let n = st.unicode_len();
            if n != m {
                proof {
                    assert(dec_chars(id as nat).len() == dec_bytes(id as nat).len());
                    assert(s@.len() != dec_chars(id as nat).len());
                    assert(!(s@ == dec_chars(id as nat)));
                    assert((*candidate) is Str && (*candidate)->Str_0@ == s@);
                    assert(!((*candidate) is Int));
                    assert(!id_matches(*candidate, id));
                }
                return false;
            }
            let mut i: usize = 0;
            while i < n
                invariant
                    id_matches(*candidate, id) == (s@ == dec_chars(id as nat)),
                    n == st@.len(),
                    st@ == s@,
                    m == n,
                    digits@ == dec_bytes(id as nat),
                    m == digits@.len(),
                    0 <= i <= n,
                    forall|k: int| 0 <= k < i ==> st@[k] == dec_chars(id as nat)[k],
                decreases n - i,
            {
                let c = st.get_char(i);
                let d = digits[i] as char;
                proof {
                    assert(dec_chars(id as nat)[i as int] == dec_bytes(id as nat)[i as int] as char);
                }
                if c != d {
                    proof {
                        assert(st@[i as int] != dec_chars(id as nat)[i as int]);
                        assert(s@ != dec_chars(id as nat));
                        assert(!id_matches(*candidate, id));
                    }
                    return false;
                }
                i = i + 1;
            }
            proof {
                assert(dec_chars(id as nat).len() == dec_bytes(id as nat).len());
                assert(s@ =~= dec_chars(id as nat));
            }
            true
        },
        _ => false,
    }
}

/// What a message read while a request is pending means for that request.
#[derive(Debug)]
pub enum ReplyAction {
    /// A notification, a reply for another id, or a non-object: read on.
    Ignore,
    /// The matching response's result.
    Success(JsonValue),
    /// The matching response carried an error payload from the server.
    RemoteError(JsonValue),
    /// The matching response carried neither result nor error.
    Invalid,
}

/// How one incoming message is treated while the request issued with `id`
/// waits: anything that is not an object with a matching id is discarded;
/// a matching response yields its result field, or failing that its error
/// field, and is a protocol violation with neither.
pub open spec fn classify_reply_spec(msg: JsonValue, id: u64) -> ReplyAction {
    match msg {
        JsonValue::Object(fields) => match obj_get(fields@, "id"@) {
            None => ReplyAction::Ignore,
            Some(idv) => if !id_matches(idv, id) {
                ReplyAction::Ignore
            } else {
                match obj_get(fields@, "result"@) {
                    Some(r) => ReplyAction::Success(r),
                    None => match obj_get(fields@, "error"@) {
                        Some(e) => ReplyAction::RemoteError(e),
                        None => ReplyAction::Invalid,
                    },
                }
            },
        },
        _ => ReplyAction::Ignore,
    }
}

pub fn classify_reply(msg: JsonValue, id: u64) -> (r: ReplyAction)
    ensures
        r == classify_reply_spec(msg, id),
{
    match msg {
        JsonValue::Object(fields) => {
            let found = match get_field(&fields, "id") {
                None => false,
                Some(v) => matches_id(v, id),
            };
            if !found {
                return ReplyAction::Ignore;
            }
            proof {
                reveal_strlit("result");
                reveal_strlit("error");
                assert("result"@.len() == 6);
                assert("error"@.len() == 5);
                assert("result"@ != "error"@);
            }
            let (res, err) = take_fields2(fields, "result", "error");
            match res {
                Some(r) => ReplyAction::Success(r),
                None => match err {
                    Some(e) => ReplyAction::RemoteError(e),
                    None => ReplyAction::Invalid,
                },
            }
        },
        _ => ReplyAction::Ignore,
    }
}

/// The action settling a request from a reply stream read in order: the
/// first message not discarded decides; `Ignore` when none decides.
pub open spec fn correlate_spec(msgs: Seq<JsonValue>, id: u64) -> ReplyAction
    decreases msgs.len(),
{
    if msgs.len() == 0 {
        ReplyAction::Ignore
    } else if classify_reply_spec(msgs[0], id) is Ignore {
        correlate_spec(msgs.drop_first(), id)
    } else {
        classify_reply_spec(msgs[0], id)
    }
}

/// Scans a reply stream in order, discarding notifications and replies for
/// other ids, and returns what the first decisive message settles.
pub fn correlate(msgs: Vec<JsonValue>, id: u64) -> (r: ReplyAction)
    ensures
        r == correlate_spec(msgs@, id),
{
    let ghost orig = msgs@;
    let mut rest = msgs;
    while rest.len() != 0
        invariant
            orig == msgs@,
            correlate_spec(orig, id) == correlate_spec(rest@, id),
        decreases rest@.len(),
    {
        let ghost before = rest@;
        let m = rest.remove(0);
        proof {
            assert(before.remove(0) =~= before.drop_first());
            assert(before[0] == m);
        }
        match classify_reply(m, id) {
            ReplyAction::Ignore => {},
            a => {
                proof {
                    assert(!(a is Ignore));
                    assert(before.len() > 0);
                    assert(classify_reply_spec(before[0], id) == a);
                    assert(correlate_spec(before, id) == a);
                    assert(correlate_spec(orig, id) == a);
                }
                return a;
            },
        }
    }
    ReplyAction::Ignore
}

/// Response filtering: in a reply stream holding a notification, then a
/// response for another id, then the matching response, the request is
/// settled by the matching response's result alone.
pub proof fn lemma_response_filtering(
    m1: JsonValue,
    m2: JsonValue,
    m3: JsonValue,
    id: u64,
    res: JsonValue,
)
    requires
        m1 matches JsonValue::Object(f1) && obj_get(f1@, "id"@) is None,
        m2 matches JsonValue::Object(f2) && (obj_get(f2@, "id"@) matches Some(v) && !id_matches(
            v,
            id,
        )),
        m3 matches JsonValue::Object(f3) && (obj_get(f3@, "id"@) matches Some(v) && id_matches(
            v,
            id,
        )) && obj_get(f3@, "result"@) == Some(res),
    ensures
        correlate_spec(seq![m1, m2, m3], id) == ReplyAction::Success(res),
{
    let s = seq![m1, m2, m3];
    assert(s.drop_first() =~= seq![m2, m3]);
    assert(seq![m2, m3].drop_first() =~= seq![m3]);
    assert(seq![m3].drop_first() =~= Seq::<JsonValue>::empty());
    assert(classify_reply_spec(m1, id) is Ignore);
    assert(classify_reply_spec(m2, id) is Ignore);
    assert(classify_reply_spec(m3, id) == ReplyAction::Success(res));
    assert(correlate_spec(s, id) == correlate_spec(seq![m2, m3], id));
    assert(correlate_spec(seq![m2, m3], id) == correlate_spec(seq![m3], id));
    assert(correlate_spec(seq![m3], id) == ReplyAction::Success(res));
}

/// Builds the request envelope: protocol version, id, method, parameters.
pub fn build_request(id: u64, method: &str, params: JsonValue) -> (r: JsonValue)
    ensures
        r matches JsonValue::Object(f) && {
            &&& f@.len() == 4
            &&& f@[0].0@ == "jsonrpc"@ && (f@[0].1 matches JsonValue::Str(v) && v@ == "2.0"@)
            &&& f@[1].0@ == "id"@ && f@[1].1 == JsonValue::Int(id as i128)
            &&& f@[2].0@ == "method"@ && (f@[2].1 matches JsonValue::Str(m) && m@ == method@)
            &&& f@[3].0@ == "params"@ && f@[3].1 == params
        },
{
    let mut f: Vec<(String, JsonValue)> = Vec::new();
    f.push((String::from_str("jsonrpc"), JsonValue::Str(String::from_str("2.0"))));
    f.push((String::from_str("id"), JsonValue::Int(id as i128)));
    f.push((String::from_str("method"), JsonValue::Str(method.to_owned())));
    f.push((String::from_str("params"), params));
    JsonValue::Object(f)
}

/// Builds the notification envelope: as a request, but carrying no id.
pub fn build_notification(method: &str, params: JsonValue) -> (r: JsonValue)
    ensures
        r matches JsonValue::Object(f) && {
            &&& f@.len() == 3
            &&& f@[0].0@ == "jsonrpc"@ && (f@[0].1 matches JsonValue::Str(v) && v@ == "2.0"@)
            &&& f@[1].0@ == "method"@ && (f@[1].1 matches JsonValue::Str(m) && m@ == method@)
            &&& f@[2].0@ == "params"@ && f@[2].1 == params
        },
{
    let mut f: Vec<(String, JsonValue)> = Vec::new();
    f.push((String::from_str("jsonrpc"), JsonValue::Str(String::from_str("2.0"))));
    f.push((String::from_str("method"), JsonValue::Str(method.to_owned())));
    f.push((String::from_str("params"), params));
    JsonValue::Object(f)
}

/// `s` without its trailing separators.
pub open spec fn strip_trailing_slashes(s: Seq<char>) -> Seq<char>
    decreases s.len(),
{
    if s.len() > 0 && s.last() == '/' {
        strip_trailing_slashes(s.drop_last())
    } else {
        s
    }
}

proof fn lemma_strip_slashes_is(s: Seq<char>, h: int)
    requires
        0 <= h <= s.len(),
        forall|i: int| h <= i < s.len() ==> s[i] == '/',
        h == 0 || s[h - 1] != '/',
    ensures
        strip_trailing_slashes(s) == s.subrange(0, h),
    decreases s.len(),
{
    if s.len() == 0 {
        assert(strip_trailing_slashes(s) =~= s.subrange(0, 0));
    } else if s.last() == '/' {
        assert(h < s.len());
        let t = s.drop_last();
        assert(forall|i: int| h <= i < t.len() ==> t[i] == s[i] && s[i] == '/');
        lemma_strip_slashes_is(t, h);
        assert(t.subrange(0, h) =~= s.subrange(0, h));
    } else {
        assert(h == s.len());
        assert(strip_trailing_slashes(s) =~= s.subrange(0, h));
    }
}

/// The name of a workspace directory: its final path component, ignoring
/// trailing separators; a path with no component left is named
/// `workspace`.
pub open spec fn workspace_name_spec(path: Seq<char>) -> Seq<char> {
    let base = crate::utils::after_last(strip_trailing_slashes(path), '/');
    if base.len() == 0 {
        "workspace"@
    } else {
        base
    }
}

/// The display name of the workspace directory, as the initialize
/// handshake announces it.
pub fn workspace_display_name(path: &str) -> (r: String)
    ensures
        r@ == workspace_name_spec(path@),
{
    let n = path.unicode_len();
    let mut h: usize = n;
    while h > 0 && path.get_char(h - 1) == '/'
        invariant
            n == path@.len(),
            0 <= h <= n,
            forall|i: int| h <= i < n ==> path@[i] == '/',
        decreases h,
    {
        h = h - 1;
    }
    proof {
        lemma_strip_slashes_is(path@, h as int);
    }
    let ghost stripped = strip_trailing_slashes(path@);
    let mut start: usize = 0;
    let mut j: usize = 0;
    while j < h
        invariant
            n == path@.len(),
            0 <= start <= j <= h <= n,
            start == 0 || path@[start - 1] == '/',
            forall|i: int| start <= i < j ==> path@[i] != '/',
        decreases h - j,
    {
        if path.get_char(j) == '/' {
            start = j + 1;
        }
        j = j + 1;
    }
    proof {
        assert(stripped == path@.subrange(0, h as int));
        assert(forall|i: int| 0 <= i < h ==> stripped[i] == path@[i]);
        crate::utils::lemma_after_last_subrange(stripped, '/', start as int);
        assert(crate::utils::after_last(stripped, '/') =~= path@.subrange(
            start as int,
            h as int,
        ));
    }
    if start == h {
        String::from_str("workspace")
    } else {
        path.substring_char(start, h).to_owned()
    }
}

/// The initialize request's parameters: the client process id, the root
/// both as URI and as plain path, an empty capability set, and one
/// workspace folder named after the root directory.
pub fn initialize_params(pid: u64, root_uri: &str, root_path: &str, workspace_name: &str) -> (r:
    JsonValue)
    ensures
        r matches JsonValue::Object(f) && {
            &&& f@.len() == 5
            &&& f@[0].0@ == "processId"@ && f@[0].1 == JsonValue::Int(pid as i128)
            &&& f@[1].0@ == "rootUri"@ && (f@[1].1 matches JsonValue::Str(v) && v@ == root_uri@)
            &&& f@[2].0@ == "rootPath"@ && (f@[2].1 matches JsonValue::Str(v) && v@ == root_path@)
            &&& f@[3].0@ == "capabilities"@ && (f@[3].1 matches JsonValue::Object(c) && c@.len()
                == 0)
            &&& f@[4].0@ == "workspaceFolders"@ && (f@[4].1 matches JsonValue::Array(ws)
                && ws@.len() == 1 && (ws@[0] matches JsonValue::Object(w) && {
                &&& w@.len() == 2
                &&& w@[0].0@ == "name"@ && (w@[0].1 matches JsonValue::Str(v) && v@
                    == workspace_name@)
                &&& w@[1].0@ == "uri"@ && (w@[1].1 matches JsonValue::Str(v) && v@ == root_uri@)
            }))
        },
{
    let mut w: Vec<(String, JsonValue)> = Vec::new();
    w.push((String::from_str("name"), JsonValue::Str(workspace_name.to_owned())));
    w.push((String::from_str("uri"), JsonValue::Str(root_uri.to_owned())));
    let mut ws: Vec<JsonValue> = Vec::new();
    ws.push(JsonValue::Object(w));
    let mut f: Vec<(String, JsonValue)> = Vec::new();
    f.push((String::from_str("processId"), JsonValue::Int(pid as i128)));
    f.push((String::from_str("rootUri"), JsonValue::Str(root_uri.to_owned())));
    f.push((String::from_str("rootPath"), JsonValue::Str(root_path.to_owned())));
    f.push((String::from_str("capabilities"), JsonValue::Object(Vec::new())));
    f.push((String::from_str("workspaceFolders"), JsonValue::Array(ws)));
    JsonValue::Object(f)
}

/// How the server process was confirmed gone.
#[derive(Clone, Copy, Debug, PartialEq, Eq, Structural)]
pub enum ReleaseKind {
    /// It exited on its own within the wait bound.
    Exited,
    /// It was force-killed.
    Killed,
}

/// Where the shutdown protocol stands. Each phase names the one action its
/// driver must perform next; `Released` is the only terminal phase.
#[derive(Clone, Copy, Debug, PartialEq, Eq, Structural)]
pub enum ShutdownPhase {
    /// Send the shutdown request and await its response.
    Start,
    /// The request succeeded: send the exit notification.
    ExitNotice,
    /// Wait, bounded by the request timeout, for the process to end.
    AwaitExit,
    /// Force-kill the process.
    Kill,
    /// The process is gone; nothing is left to do.
    Released(ReleaseKind),
}

/// What the driver observed while performing the current phase's action.
#[derive(Clone, Copy, Debug, PartialEq, Eq, Structural)]
pub enum ShutdownEvent {
    RequestOk,
    RequestFailed,
    NoticeSent,
    NoticeFailed,
    ProcessExited,
    WaitFailed,
    WaitTimedOut,
    KillDone,
}

/// Which observations can be made while performing a phase's action.
pub open spec fn event_fits(p: ShutdownPhase, e: ShutdownEvent) -> bool {
    match p {
        ShutdownPhase::Start => e is RequestOk || e is RequestFailed,
        ShutdownPhase::ExitNotice => e is NoticeSent || e is NoticeFailed,
        ShutdownPhase::AwaitExit => e is ProcessExited || e is WaitFailed || e is WaitTimedOut,
        ShutdownPhase::Kill => e is KillDone,
        ShutdownPhase::Released(_) => false,
    }
}

pub open spec fn shutdown_step_spec(p: ShutdownPhase, e: ShutdownEvent) -> ShutdownPhase {
    if !event_fits(p, e) {
        p
    } else {
        match p {
            ShutdownPhase::Start => if e is RequestOk {
                ShutdownPhase::ExitNotice
            } else {
                ShutdownPhase::Kill
            },
            ShutdownPhase::ExitNotice => ShutdownPhase::AwaitExit,
            ShutdownPhase::AwaitExit => if e is ProcessExited {
                ShutdownPhase::Released(ReleaseKind::Exited)
            } else {
                ShutdownPhase::Kill
            },
            ShutdownPhase::Kill => ShutdownPhase::Released(ReleaseKind::Killed),
            ShutdownPhase::Released(_) => p,
        }
    }
}

/// Advances the shutdown protocol by one observed outcome. A failed
/// shutdown request or a failed or timed-out wait falls back to the forced
/// kill; a failed exit notification is tolerated and only logged by the
/// driver.
pub fn shutdown_step(p: ShutdownPhase, e: ShutdownEvent) -> (r: ShutdownPhase)
    ensures
        r == shutdown_step_spec(p, e),
{
    match p {
        ShutdownPhase::Start => match e {
            ShutdownEvent::RequestOk => ShutdownPhase::ExitNotice,
            ShutdownEvent::RequestFailed => ShutdownPhase::Kill,
            _ => p,
        },
        ShutdownPhase::ExitNotice => match e {
            ShutdownEvent::NoticeSent | ShutdownEvent::NoticeFailed => ShutdownPhase::AwaitExit,
            _ => p,
        },
        ShutdownPhase::AwaitExit => match e {
            ShutdownEvent::ProcessExited => ShutdownPhase::Released(ReleaseKind::Exited),
            ShutdownEvent::WaitFailed | ShutdownEvent::WaitTimedOut => ShutdownPhase::Kill,
            _ => p,
        },
        ShutdownPhase::Kill => match e {
            ShutdownEvent::KillDone => ShutdownPhase::Released(ReleaseKind::Killed),
            _ => p,
        },
        ShutdownPhase::Released(_) => p,
    }
}

/// How many steps a phase is, at most, from `Released`.
pub open spec fn phase_rank(p: ShutdownPhase) -> nat {
    match p {
        ShutdownPhase::Start => 4,
        ShutdownPhase::ExitNotice => 3,
        ShutdownPhase::AwaitExit => 2,
        ShutdownPhase::Kill => 1,
        ShutdownPhase::Released(_) => 0,
    }
}

/// Every fitting observation brings the protocol strictly closer to
/// `Released`: no step, successful or failed, can stall it.
pub proof fn lemma_shutdown_step_progress(p: ShutdownPhase, e: ShutdownEvent)
    requires
        event_fits(p, e),
    ensures
        phase_rank(shutdown_step_spec(p, e)) < phase_rank(p),
{
}

/// The phase after the protocol consumes `events` in order, starting at
/// `p`; an observation that does not fit its phase leaves the phase
/// unchanged.
pub open spec fn run_shutdown(p: ShutdownPhase, events: Seq<ShutdownEvent>) -> ShutdownPhase
    decreases events.len(),
{
    if events.len() == 0 {
        p
    } else {
        run_shutdown(shutdown_step_spec(p, events[0]), events.drop_first())
    }
}

/// Whether each observation of `events` fits the phase it meets.
pub open spec fn fitting_run(p: ShutdownPhase, events: Seq<ShutdownEvent>) -> bool
    decreases events.len(),
{
    events.len() == 0 || (event_fits(p, events[0]) && fitting_run(
        shutdown_step_spec(p, events[0]),
        events.drop_first(),
    ))
}

/// The shutdown protocol always releases the process: a run of fitting
/// observations that has not yet reached `Released` is shorter than the
/// phase's rank, so a driver that performs each phase's action and feeds
/// back what it observed reaches `Released` — the process gone, by its own
/// exit or by forced kill — within `phase_rank` steps, whatever the
/// individual outcomes were.
pub proof fn lemma_shutdown_always_releases(p: ShutdownPhase, events: Seq<ShutdownEvent>)
    requires
        fitting_run(p, events),
        !(run_shutdown(p, events) is Released),
    ensures
        events.len() < phase_rank(p),
    decreases events.len(),
{
    if events.len() == 0 {
        assert(run_shutdown(p, events) == p);
        assert(phase_rank(p) > 0);
    } else {
        let p2 = shutdown_step_spec(p, events[0]);
        lemma_shutdown_step_progress(p, events[0]);
        lemma_shutdown_always_releases(p2, events.drop_first());
    }
}

} // verus!
