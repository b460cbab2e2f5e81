use vstd::prelude::*;
use vstd::utf8::encode_utf8;
use crate::snapshots::{os_random, ARGON2_MAX_PASSWORD};
use crate::protocol::{AUTH, PONG, SNAPSHOT_LIST, SNAPSHOT_GET, SNAPSHOT_LIST_REPLY, SNAPSHOT_FRAME, SNAPSHOT_ERROR, AGENT_START, AGENT_STOP, AGENT_SNAPSHOT, FrameHeader, be32, be64, be64_value, u32_to_be, u64_to_be, u64_from_be, append_bytes};

verus! {

/// Whether a viewer is being served, and a counter of the changes of that
/// flag that the control writer waits on.
#[derive(Clone, Copy, Debug, PartialEq, Eq, Structural)]
pub struct ViewerState {
    pub active: bool,
    pub generation: u64,
}

/// `x + 1`, wrapping to 0 after `u64::MAX`.
pub open spec fn next_generation(x: u64) -> u64 {
    if x == u64::MAX { 0 } else { (x + 1) as u64 }
}

/// Sets whether a viewer is active. A change bumps the generation (wrapping)
/// and is reported, so that waiters are woken; setting the same value again
/// changes nothing.
pub fn set_viewer_active(state: &mut ViewerState, active: bool) -> (changed: bool)
    ensures
        changed == (old(state).active != active),
        changed ==> *final(state) == (ViewerState { active, generation: next_generation(old(state).generation) }),
        !changed ==> *final(state) == *old(state),
{
    if state.active != active {
        state.active = active;
        state.generation = state.generation.wrapping_add(1);
        true
    } else {
        false
    }
}

/// Setting the viewer flag and then setting it back leaves the flag as it was
/// and bumps the generation twice, so a waiter never misses the change.
pub proof fn lemma_toggle_bumps_twice(s: ViewerState, active: bool)
    requires
        s.active != active,
    ensures
        ({
            let s1 = ViewerState { active, generation: next_generation(s.generation) };
            let s2 = ViewerState { active: s.active, generation: next_generation(s1.generation) };
            &&& s1.generation != s.generation
            &&& s2.generation != s1.generation
            &&& s2.active == s.active
        }),
{
}

/// What the service tells the capture agent after waiting on the viewer
/// state: a periodic snapshot when the wait timed out with no viewer, else to
/// start or stop streaming.
pub open spec fn control_kind(timed_out: bool, active: bool) -> u8 {
    if timed_out && !active {
        AGENT_SNAPSHOT
    } else if active {
        AGENT_START
    } else {
        AGENT_STOP
    }
}

pub fn agent_control_kind(timed_out: bool, active: bool) -> (r: u8)
    ensures
        r == control_kind(timed_out, active),
{
    if timed_out && !active {
        AGENT_SNAPSHOT
    } else if active {
        AGENT_START
    } else {
        AGENT_STOP
    }
}

/// A control message as the capture agent reads it.
#[derive(Clone, Copy, Debug, PartialEq, Eq, Structural)]
pub enum AgentCommand {
    /// Stream frames: a viewer is watching.
    Start,
    /// Stop streaming: the viewer left.
    Stop,
    /// Capture and send one frame for the archive, and stay connected.
    Snapshot,
    /// Anything else: the session ends.
    End,
}

/// How the capture agent reads a control message from the service.
pub open spec fn command_of(kind: u8) -> AgentCommand {
    if kind == AGENT_START {
        AgentCommand::Start
    } else if kind == AGENT_STOP {
        AgentCommand::Stop
    } else if kind == AGENT_SNAPSHOT {
        AgentCommand::Snapshot
    } else {
        AgentCommand::End
    }
}

pub fn agent_command(kind: u8) -> (r: AgentCommand)
    ensures
        r == command_of(kind),
{
    if kind == AGENT_START {
        AgentCommand::Start
    } else if kind == AGENT_STOP {
        AgentCommand::Stop
    } else if kind == AGENT_SNAPSHOT {
        AgentCommand::Snapshot
    } else {
        AgentCommand::End
    }
}

/// What the capture agent knows of the service's wishes: whether the
/// session is still up, whether a viewer is watching, and whether a periodic
/// snapshot was asked for and not yet sent.
#[derive(Clone, Copy, Debug, PartialEq, Eq, Structural)]
pub struct AgentControl {
    pub connected: bool,
    pub active: bool,
    pub snapshot_pending: bool,
}

impl AgentControl {
    /// A freshly authenticated session: connected, idle.
    pub fn new() -> (r: AgentControl)
        ensures
            r == (AgentControl { connected: true, active: false, snapshot_pending: false }),
    {
        AgentControl { connected: true, active: false, snapshot_pending: false }
    }

    /// Applies a control message.
    pub fn apply(&mut self, command: AgentCommand)
        ensures
            match command {
                AgentCommand::Start => *final(self) == (AgentControl { active: true, ..*old(self) }),
                AgentCommand::Stop => *final(self) == (AgentControl { active: false, ..*old(self) }),
                AgentCommand::Snapshot => *final(self) == (AgentControl { snapshot_pending: true, ..*old(self) }),
                AgentCommand::End => *final(self) == (AgentControl { connected: false, active: false, snapshot_pending: false }),
            },
    {
        match command {
            AgentCommand::Start => self.active = true,
            AgentCommand::Stop => self.active = false,
            AgentCommand::Snapshot => self.snapshot_pending = true,
            AgentCommand::End => {
                self.connected = false;
                self.active = false;
                self.snapshot_pending = false;
            },
        }
    }

    /// Whether the agent should capture: still connected, and a viewer is
    /// watching or a snapshot is pending.
    pub fn wants_frame(&self) -> (r: bool)
        ensures
            r == (self.connected && (self.active || self.snapshot_pending)),
    {
        self.connected && (self.active || self.snapshot_pending)
    }

    /// Records that a frame was sent: a pending snapshot is fulfilled.
    pub fn frame_sent(&mut self)
        ensures
            *final(self) == (AgentControl { snapshot_pending: false, ..*old(self) }),
    {
        self.snapshot_pending = false;
    }

    /// Whether the capture device stays open after a frame: only while a
    /// viewer is watching; between periodic snapshots it is released.
    pub fn keeps_capturing(&self) -> (r: bool)
        ensures
            r == self.active,
    {
        self.active
    }
}

/// A snapshot request while no viewer is watching makes the agent capture
/// exactly one frame and stay connected.
pub proof fn lemma_snapshot_captures_once(c: AgentControl)
    requires
        c.connected,
        !c.active,
    ensures
        ({
            let asked = AgentControl { snapshot_pending: true, ..c };
            let sent = AgentControl { snapshot_pending: false, ..asked };
            &&& command_of(AGENT_SNAPSHOT) == AgentCommand::Snapshot
            &&& asked.connected && (asked.active || asked.snapshot_pending)
            &&& sent.connected
            &&& !(sent.active || sent.snapshot_pending)
        }),
{
}

/// Whether a captured frame differs from the last one sent; byte-identical
/// frames are dropped before encoding.
pub fn frame_changed(previous: &[u8], current: &[u8]) -> (r: bool)
    ensures
        r == (previous@ != current@),
{
    if previous.len() != current.len() {
        return true;
    }
    let mut i: usize = 0;
    while i < current.len()
        invariant
            i <= current@.len(),
            previous@.len() == current@.len(),
            previous@.subrange(0, i as int) == current@.subrange(0, i as int),
        decreases current@.len() - i,
    {
        if previous[i] != current[i] {
            assert(previous@[i as int] != current@[i as int]);
            return true;
        }
        i = i + 1;
        assert(previous@.subrange(0, i as int) =~= current@.subrange(0, i as int));
    }
    assert(previous@ =~= previous@.subrange(0, i as int));
    assert(current@ =~= current@.subrange(0, i as int));
    false
}

/// The id of the newest archived frame after a store attempt for frame `id`:
/// it moves to `id` only where the frame was stored; a failed store leaves it.
pub fn next_archived(last: u64, id: u64, stored: bool) -> (r: u64)
    ensures
        r == (if stored { id } else { last }),
{
    if stored { id } else { last }
}

/// Whether the capture agent's first message authenticates it: an `AUTH`
/// message whose payload is the UTF-8 bytes of the configured token.
pub fn agent_authorized(kind: u8, token: &[u8], expected: &str) -> (r: bool)
    ensures
        r == (kind == AUTH && token@ == encode_utf8(expected@)),
{
    let want = expected.as_bytes();
    if kind != AUTH || token.len() != want.len() {
        return false;
    }
    let mut i: usize = 0;
    while i < token.len()
        invariant
            i <= token@.len(),
            token@.len() == want@.len(),
            want@ == encode_utf8(expected@),
            token@.subrange(0, i as int) == want@.subrange(0, i as int),
        decreases token@.len() - i,
    {
        if token[i] != want[i] {
            assert(token@[i as int] != want@[i as int]);
            return false;
        }
        i = i + 1;
        assert(token@.subrange(0, i as int) =~= want@.subrange(0, i as int));
    }
    assert(token@ =~= token@.subrange(0, i as int));
    assert(want@ =~= want@.subrange(0, i as int));
    true
}

/// Whether `password` verifies against the stored Argon2 PHC string `stored`.
pub uninterp spec fn argon2_phc_verifies(stored: Seq<char>, password: Seq<u8>) -> bool;

/// `argon2::PasswordHash::new` on the stored string, then
/// `PasswordVerifier::verify_password` of `argon2::Argon2::default()`: true
/// when the string parses and the password verifies against it, which is
/// `argon2_phc_verifies` of the two.
#[verifier::external_body]
fn phc_verifies(stored: &str, password: &[u8]) -> (r: bool)
    ensures
        r == argon2_phc_verifies(stored@, password@),
{
    match argon2::PasswordHash::new(stored) {
        Ok(hash) => argon2::PasswordVerifier::verify_password(&argon2::Argon2::default(), password, &hash).is_ok(),
        Err(_) => false,
    }
}

#[verifier::external_type_specification]
#[verifier::external_body]
pub struct ExPasswordHashError(argon2::password_hash::Error);

/// `argon2::Argon2::default().hash_password` with the salt
/// `SaltString::encode_b64(salt)`, as its PHC string. Encoding 16 salt bytes
/// always succeeds; with these parameters the crate refuses only a password
/// longer than `ARGON2_MAX_PASSWORD`. Verification recomputes the hash from
/// the salt and parameters that the string carries, so the string verifies
/// the password it was made from. The string itself is left unnamed.
#[verifier::external_body]
fn argon2_phc_hash(password: &[u8], salt: &[u8; 16]) -> (r: Result<String, argon2::password_hash::Error>)
    ensures
        r is Ok <==> password@.len() <= ARGON2_MAX_PASSWORD,
        r matches Ok(hash) ==> argon2_phc_verifies(hash@, password@),
{
    let salt = argon2::password_hash::SaltString::encode_b64(salt)?;
    argon2::PasswordHasher::hash_password(&argon2::Argon2::default(), password, &salt).map(|h| h.to_string())
}

/// Why a password could not be hashed.
#[derive(Clone, Copy, Debug, PartialEq, Eq, Structural)]
pub enum PasswordHashError {
    /// The operating system's random generator failed to give a salt.
    RandomUnavailable,
    /// Argon2 refused the password (longer than `ARGON2_MAX_PASSWORD`).
    TooLong,
}

/// A fresh salted Argon2id hash of the viewing password, as the service
/// stores it, with 16 salt bytes from the operating system's generator.
/// Where the generator fails, `RandomUnavailable`; otherwise success exactly
/// for passwords Argon2 accepts, and whatever salt was drawn, the hash lets
/// that password in.
pub fn hash_password(password: &[u8]) -> (r: Result<String, PasswordHashError>)
    ensures
        password@.len() > ARGON2_MAX_PASSWORD ==> r is Err,
        r == Err::<String, PasswordHashError>(PasswordHashError::TooLong) ==> password@.len() > ARGON2_MAX_PASSWORD,
        password@.len() <= ARGON2_MAX_PASSWORD && r is Err
            ==> r == Err::<String, PasswordHashError>(PasswordHashError::RandomUnavailable),
        r matches Ok(hash) ==> argon2_phc_verifies(hash@, password@),
        r matches Ok(hash) ==> viewer_admits(AUTH, password@, hash@),
{
    let salt: [u8; 16] = match os_random() {
        Ok(bytes) => bytes,
        Err(_) => return Err(PasswordHashError::RandomUnavailable),
    };
    match argon2_phc_hash(password, &salt) {
        Ok(hash) => Ok(hash),
        Err(_) => Err(PasswordHashError::TooLong),
    }
}

impl PasswordHashError {
    /// A short description of the error.
    pub fn message(&self) -> (r: &'static str)
        ensures
            *self == PasswordHashError::RandomUnavailable ==> r@ == "random generator unavailable"@,
            *self == PasswordHashError::TooLong ==> r@ == "password too long"@,
    {
        match self {
            PasswordHashError::RandomUnavailable => "random generator unavailable",
            PasswordHashError::TooLong => "password too long",
        }
    }
}

/// Whether a password matches the stored hash, where one could be read.
pub fn password_matches(stored: Option<&str>, password: &[u8]) -> (r: bool)
    ensures
        r == (match stored {
            Some(s) => argon2_phc_verifies(s@, password@),
            None => false,
        }),
{
    match stored {
        Some(s) => phc_verifies(s, password),
        None => false,
    }
}

/// Whether installing starts a fresh archive: where the new password does
/// not match the stored hash (or none could be read), or the protected
/// archive key is missing. Old files cannot be opened under a new key.
pub fn init_resets_archive(stored: Option<&str>, password: &[u8], key_exists: bool) -> (r: bool)
    ensures
        r == (!key_exists || match stored {
            Some(s) => !argon2_phc_verifies(s@, password@),
            None => true,
        }),
{
    !password_matches(stored, password) || !key_exists
}

/// Whether a viewer's first message is an `AUTH` message whose payload
/// verifies against the stored password hash.
pub open spec fn viewer_admits(kind: u8, supplied: Seq<u8>, stored: Seq<char>) -> bool {
    kind == AUTH && argon2_phc_verifies(stored, supplied)
}

/// Whether a viewer's first message authenticates it: an `AUTH` message whose
/// payload verifies against the stored password hash.
pub fn viewer_authenticated(kind: u8, supplied: &[u8], stored: &str) -> (r: bool)
    ensures
        r == viewer_admits(kind, supplied@, stored@),
{
    kind == AUTH && phc_verifies(stored, supplied)
}

/// A request from an authenticated viewer.
#[derive(Clone, Copy, Debug, PartialEq, Eq, Structural)]
pub enum ViewerRequest {
    /// A keep-alive answer.
    Pong,
    /// The ids of the saved screenshots.
    ListSnapshots,
    /// One saved screenshot.
    GetSnapshot(u64),
    /// `DISCONNECT` or anything else: the session ends.
    Close,
}

/// How the service reads a viewer's message.
pub open spec fn viewer_request(kind: u8, payload: Seq<u8>) -> ViewerRequest {
    if kind == PONG {
        ViewerRequest::Pong
    } else if kind == SNAPSHOT_LIST && payload.len() == 0 {
        ViewerRequest::ListSnapshots
    } else if kind == SNAPSHOT_GET && payload.len() == 8 {
        ViewerRequest::GetSnapshot(be64_value(payload) as u64)
    } else {
        ViewerRequest::Close
    }
}

/// A screenshot request with an eight-byte payload asks for the id that the
/// eight bytes spell in big-endian order, all sixty-four bits of it.
pub proof fn lemma_snapshot_request_id(p: Seq<u8>)
    requires
        p.len() == 8,
    ensures
        viewer_request(SNAPSHOT_GET, p) == ViewerRequest::GetSnapshot(
            (p[0] * 0x100_0000_0000_0000 + p[1] * 0x1_0000_0000_0000 + p[2] * 0x100_0000_0000
                + p[3] * 0x1_0000_0000 + p[4] * 0x100_0000 + p[5] * 0x1_0000 + p[6] * 0x100
                + p[7]) as u64,
        ),
{
    let hi = p.subrange(0, 4);
    let lo = p.subrange(4, 8);
    assert(hi[0] == p[0] && hi[1] == p[1] && hi[2] == p[2] && hi[3] == p[3]);
    assert(lo[0] == p[4] && lo[1] == p[5] && lo[2] == p[6] && lo[3] == p[7]);
}

pub fn classify_viewer_request(kind: u8, payload: &[u8]) -> (r: ViewerRequest)
    ensures
        r == viewer_request(kind, payload@),
{
    if kind == PONG {
        ViewerRequest::Pong
    } else if kind == SNAPSHOT_LIST && payload.len() == 0 {
        ViewerRequest::ListSnapshots
    } else if kind == SNAPSHOT_GET && payload.len() == 8 {
        ViewerRequest::GetSnapshot(u64_from_be(payload))
    } else {
        ViewerRequest::Close
    }
}

/// The payload of `SCREEN_INFO`: width and height, big-endian.
pub fn screen_info_payload(width: u32, height: u32) -> (r: Vec<u8>)
    ensures
        r@ == be32(width) + be32(height),
{
    let mut out: Vec<u8> = Vec::new();
    append_bytes(&mut out, &u32_to_be(width));
    append_bytes(&mut out, &u32_to_be(height));
    out
}

/// The big-endian bytes of each id, in order.
pub open spec fn id_list_bytes(ids: Seq<u64>) -> Seq<u8>
    decreases ids.len(),
{
    if ids.len() == 0 {
        seq![]
    } else {
        id_list_bytes(ids.drop_last()) + be64(ids.last())
    }
}

/// The payload of `SNAPSHOT_LIST_REPLY`.
pub fn snapshot_list_payload(ids: &Vec<u64>) -> (r: Vec<u8>)
    ensures
        r@ == id_list_bytes(ids@),
{
    let mut out: Vec<u8> = Vec::new();
    let mut i: usize = 0;
    while i < ids.len()
        invariant
            i <= ids@.len(),
            out@ == id_list_bytes(ids@.take(i as int)),
        decreases ids@.len() - i,
    {
        append_bytes(&mut out, &u64_to_be(ids[i]));
        assert(ids@.take(i + 1).drop_last() =~= ids@.take(i as int));
        i = i + 1;
    }
    assert(ids@.take(i as int) =~= ids@);
    out
}

/// The reply to a listing request: the ids where the archive could be
/// listed, else `SNAPSHOT_ERROR` with no payload.
pub fn list_reply(ids: Option<&Vec<u64>>) -> (r: (u8, Vec<u8>))
    ensures
        match ids {
            Some(v) => r.0 == SNAPSHOT_LIST_REPLY && r.1@ == id_list_bytes(v@),
            None => r.0 == SNAPSHOT_ERROR && r.1@.len() == 0,
        },
{
    match ids {
        Some(v) => (SNAPSHOT_LIST_REPLY, snapshot_list_payload(v)),
        None => (SNAPSHOT_ERROR, Vec::new()),
    }
}

/// The reply to a screenshot request: the decrypted frame where it could be
/// read, else `SNAPSHOT_ERROR` with no payload.
pub fn snapshot_reply(frame: Option<Vec<u8>>) -> (r: (u8, Vec<u8>))
    ensures
        match frame {
            Some(d) => r.0 == SNAPSHOT_FRAME && r.1@ == d@,
            None => r.0 == SNAPSHOT_ERROR && r.1@.len() == 0,
        },
{
    match frame {
        Some(d) => (SNAPSHOT_FRAME, d),
        None => (SNAPSHOT_ERROR, Vec::new()),
    }
}

/// What the service sends a viewer next.
#[derive(Clone, Copy, Debug, PartialEq, Eq)]
pub enum FeedStep {
    /// No new frame: a `PING` keeps the connection alive.
    Ping,
    /// A new frame, preceded by `SCREEN_INFO` with this size where it changed.
    Frame { screen_info: Option<(u32, u32)> },
}

/// What a viewer has been sent: the id of the last frame and its size.
#[derive(Clone, Copy, Debug, PartialEq, Eq, Structural)]
pub struct ViewerFeed {
    pub last_id: u64,
    pub last_width: u32,
    pub last_height: u32,
}

impl ViewerFeed {
    /// A viewer that has been sent nothing yet.
    pub fn new() -> (r: ViewerFeed)
        ensures
            r == (ViewerFeed { last_id: 0, last_width: 0, last_height: 0 }),
    {
        ViewerFeed { last_id: 0, last_width: 0, last_height: 0 }
    }

    /// Decides what to send for the latest frame (`None` where there is
    /// none): a `PING` where there is no frame or it was already sent, else
    /// the frame, with `SCREEN_INFO` first where its size differs from the
    /// last one sent.
    pub fn next(&mut self, latest: Option<FrameHeader>) -> (r: FeedStep)
        ensures
            match latest {
                None => r == FeedStep::Ping && *final(self) == *old(self),
                Some(f) => if f.id == old(self).last_id {
                    r == FeedStep::Ping && *final(self) == *old(self)
                } else {
                    &&& final(self).last_id == f.id
                    &&& final(self).last_width == f.width
                    &&& final(self).last_height == f.height
                    &&& r == (FeedStep::Frame {
                        screen_info: if f.width == old(self).last_width && f.height == old(self).last_height {
                            None
                        } else {
                            Some((f.width, f.height))
                        },
                    })
                },
            },
    {
        match latest {
            None => FeedStep::Ping,
            Some(f) => {
                if f.id == self.last_id {
                    return FeedStep::Ping;
                }
                let screen_info = if f.width == self.last_width && f.height == self.last_height {
                    None
                } else {
                    Some((f.width, f.height))
                };
                self.last_id = f.id;
                self.last_width = f.width;
                self.last_height = f.height;
                FeedStep::Frame { screen_info }
            },
        }
    }
}

} // verus!
