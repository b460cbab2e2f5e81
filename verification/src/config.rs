use vstd::prelude::*;
use vstd::utf8::{encode_utf8, encode_scalar};
use crate::text::{chars_of, trim, trim_chars, parse_u64, parse_unsigned, string_from_chars, hex, hex_string};

verus! {

/// The host's settings, as the configuration file holds them.
#[derive(Clone, Debug)]
pub struct Config {
    pub device_name: String,
    pub port: u16,
    pub jpeg_quality: u8,
    pub max_fps: u8,
    pub agent_token: String,
    pub ipc_port: u16,
}

/// The loopback port on which the service listens for the capture agent.
pub const IPC_PORT: u16 = 45901;
pub const DEFAULT_JPEG_QUALITY: u8 = 70;
pub const DEFAULT_MAX_FPS: u8 = 30;
/// Longest device name, in UTF-8 bytes.
pub const MAX_NAME_BYTES: usize = 64;
/// Shortest and longest password, in UTF-8 bytes.
pub const MIN_PASSWORD_BYTES: usize = 8;
pub const MAX_PASSWORD_BYTES: usize = 256;

/// The number of UTF-8 bytes that spell `s`.
pub open spec fn utf8_len(s: Seq<char>) -> nat {
    encode_utf8(s).len()
}

/// Index of the first `'\n'` in `s`, or its length.
pub open spec fn newline_index(s: Seq<char>) -> nat
    decreases s.len(),
{
    if s.len() == 0 || s[0] == '\n' {
        0
    } else {
        1 + newline_index(s.drop_first())
    }
}

/// `l` without one trailing `'\r'`.
pub open spec fn strip_cr(l: Seq<char>) -> Seq<char> {
    if l.len() > 0 && l.last() == '\r' {
        l.drop_last()
    } else {
        l
    }
}

proof fn lemma_newline_index(s: Seq<char>)
    ensures
        newline_index(s) <= s.len(),
        newline_index(s) < s.len() ==> s[newline_index(s) as int] == '\n',
        forall|k: int| 0 <= k < newline_index(s) ==> s[k] != '\n',
    decreases s.len(),
{
    if s.len() > 0 && s[0] != '\n' {
        lemma_newline_index(s.drop_first());
        assert forall|k: int| 0 <= k < newline_index(s) implies s[k] != '\n' by {
            if k > 0 {
                assert(s[k] == s.drop_first()[k - 1]);
            }
        }
    }
}

/// The lines of `s` as `str::lines` gives them: split at each `'\n'`, one
/// `'\r'` before it dropped, no empty line after a final `'\n'`.
pub open spec fn lines(s: Seq<char>) -> Seq<Seq<char>>
    decreases s.len(),
{
    if s.len() == 0 {
        seq![]
    } else {
        let i = newline_index(s);
        if i >= s.len() {
            seq![s]
        } else {
            seq![strip_cr(s.subrange(0, i as int))] + lines(s.subrange(i + 1 as int, s.len() as int))
        }
    }
}

/// `s` without trailing `'\r'` characters (`trim_end_matches('\r')`).
pub open spec fn trim_end_cr(s: Seq<char>) -> Seq<char>
    decreases s.len(),
{
    if s.len() > 0 && s.last() == '\r' {
        trim_end_cr(s.drop_last())
    } else {
        s
    }
}

/// The lines of `cs`, as `str::lines` gives them.
pub fn split_lines(cs: &[char]) -> (r: Vec<Vec<char>>)
    ensures
        r@.map_values(|l: Vec<char>| l@) == lines(cs@),
{
    let n = cs.len();
    let mut out: Vec<Vec<char>> = Vec::new();
    let mut pos: usize = 0;
    assert(cs@.subrange(0, n as int) =~= cs@);
    while pos < n
        invariant
            pos <= n,
            n == cs@.len(),
            lines(cs@) == out@.map_values(|l: Vec<char>| l@) + lines(cs@.subrange(pos as int, n as int)),
        decreases n - pos,
    {
        let ghost rest = cs@.subrange(pos as int, n as int);
        proof { lemma_newline_index(rest); }
        let mut end: usize = pos;
        while end < n && cs[end] != '\n'
            invariant
                pos <= end <= n,
                n == cs@.len(),
                rest == cs@.subrange(pos as int, n as int),
                end - pos <= newline_index(rest),
                newline_index(rest) <= rest.len(),
                newline_index(rest) < rest.len() ==> rest[newline_index(rest) as int] == '\n',
                forall|k: int| 0 <= k < newline_index(rest) ==> rest[k] != '\n',
            decreases n - end,
        {
            proof {
                if end - pos == newline_index(rest) && end - pos < rest.len() {
                    assert(rest[end - pos] == cs@[end as int]);
                }
            }
            end = end + 1;
        }
        proof {
            if end < n {
                assert(rest[end - pos] == '\n');
                if end - pos < newline_index(rest) {
                    assert(rest[end - pos] != '\n');
                }
            }
        }
        let mut line: Vec<char> = Vec::new();
        let mut k: usize = pos;
        while k < end
            invariant
                pos <= k <= end <= n,
                n == cs@.len(),
                line@ == cs@.subrange(pos as int, k as int),
            decreases end - k,
        {
            line.push(cs[k]);
            k = k + 1;
            assert(line@ =~= cs@.subrange(pos as int, k as int));
        }
        let ghost before = out@;
        if end < n {
            if end > pos && cs[end - 1] == '\r' {
                line.pop();
            }
            assert(line@ =~= strip_cr(rest.subrange(0, (end - pos) as int)));
            assert(rest.subrange(end - pos + 1, rest.len() as int) =~= cs@.subrange(end + 1, n as int));
            out.push(line);
            assert(out@.map_values(|l: Vec<char>| l@) =~= before.map_values(|l: Vec<char>| l@).push(strip_cr(rest.subrange(0, (end - pos) as int))));
            pos = end + 1;
        } else {
            assert(line@ =~= rest);
            out.push(line);
            assert(out@.map_values(|l: Vec<char>| l@) =~= before.map_values(|l: Vec<char>| l@).push(rest));
            assert(cs@.subrange(n as int, n as int) =~= Seq::<char>::empty());
            pos = n;
        }
    }
    assert(cs@.subrange(n as int, n as int) =~= Seq::<char>::empty());
    assert(out@.map_values(|l: Vec<char>| l@) + Seq::<Seq<char>>::empty() =~= out@.map_values(|l: Vec<char>| l@));
    out
}


/// The UTF-8 width of `c`.
pub open spec fn utf8_width(c: char) -> nat {
    let v = c as u32;
    if v <= 0x7F { 1 } else if v <= 0x7FF { 2 } else if v <= 0xFFFF { 3 } else { 4 }
}

proof fn lemma_utf8_len_step(s: Seq<char>, i: int)
    requires
        0 <= i < s.len(),
    ensures
        utf8_len(s.skip(i)) == utf8_width(s[i]) + utf8_len(s.skip(i + 1)),
{
    let t = s.skip(i);
    assert(t.drop_first() =~= s.skip(i + 1));
    assert(t[0] == s[i]);
    let v = s[i] as u32;
    vstd::utf8::char_is_scalar(s[i]);
    assert(encode_utf8(t) == encode_scalar(v) + encode_utf8(t.drop_first()));
    if v <= 0x7F {
        assert(encode_scalar(v).len() == 1);
    } else if v <= 0x7FF {
        assert(encode_scalar(v).len() == 2);
    } else if v <= 0xFFFF {
        assert(!(0xD800 <= v <= 0xDFFF));
        assert(encode_scalar(v).len() == 3);
    } else {
        assert(encode_scalar(v).len() == 4);
    }
}

/// The UTF-8 length of `cs` where it is at most `cap`, else some number above `cap`.
pub fn utf8_len_at_most(cs: &[char], cap: u64) -> (r: u64)
    requires
        cap <= 0xFFFF_FFFF,
    ensures
        utf8_len(cs@) <= cap ==> r == utf8_len(cs@),
        utf8_len(cs@) > cap ==> r > cap,
{
    let mut acc: u64 = 0;
    let mut i: usize = 0;
    assert(cs@.skip(0) =~= cs@);
    while i < cs.len()
        invariant
            i <= cs@.len(),
            acc <= cap,
            cap <= 0xFFFF_FFFF,
            acc + utf8_len(cs@.skip(i as int)) == utf8_len(cs@),
        decreases cs@.len() - i,
    {
        proof { lemma_utf8_len_step(cs@, i as int); }
        let v = cs[i] as u32;
        let w: u64 = if v <= 0x7F { 1 } else if v <= 0x7FF { 2 } else if v <= 0xFFFF { 3 } else { 4 };
        acc = acc + w;
        i = i + 1;
        if acc > cap {
            return acc;
        }
    }
    acc
}

/// Why the installer's settings file is refused.
#[derive(Clone, Copy, Debug, PartialEq, Eq, Structural)]
pub enum InitError {
    MissingName,
    MissingPort,
    /// The second line is not a port number.
    InvalidPort,
    MissingPassword,
    /// Empty or over-long name, port 0 or the agent's port, or a password
    /// outside 8 to 256 bytes.
    InvalidSettings,
}

impl InitError {
    /// A short description of the error.
    pub fn message(&self) -> (r: &'static str)
        ensures
            *self == InitError::MissingName ==> r@ == "missing device name"@,
            *self == InitError::MissingPort ==> r@ == "missing port"@,
            *self == InitError::InvalidPort ==> r@ == "invalid port"@,
            *self == InitError::MissingPassword ==> r@ == "missing password"@,
            *self == InitError::InvalidSettings ==> r@ == "invalid device name, port, or password (8-256 bytes)"@,
    {
        match self {
            InitError::MissingName => "missing device name",
            InitError::MissingPort => "missing port",
            InitError::InvalidPort => "invalid port",
            InitError::MissingPassword => "missing password",
            InitError::InvalidSettings => "invalid device name, port, or password (8-256 bytes)",
        }
    }
}

/// What the installer's settings file asks for.
pub struct InitRequest {
    pub device_name: String,
    pub port: u16,
    pub password: String,
}

/// What the installer's settings file says: the device name on the first
/// line (trimmed), the port on the second (trimmed), the password on the
/// third (trailing carriage returns removed), each checked.
pub open spec fn init_outcome(input: Seq<char>) -> Result<(Seq<char>, u16, Seq<char>), InitError> {
    let ls = lines(input);
    if ls.len() < 1 {
        Err(InitError::MissingName)
    } else if ls.len() < 2 {
        Err(InitError::MissingPort)
    } else {
        match parse_unsigned(trim(ls[1]), u16::MAX as nat) {
            None => Err(InitError::InvalidPort),
            Some(port) => if ls.len() < 3 {
                Err(InitError::MissingPassword)
            } else {
                let name = trim(ls[0]);
                let password = trim_end_cr(ls[2]);
                if name.len() == 0 || utf8_len(name) > MAX_NAME_BYTES || port == 0 || port == IPC_PORT
                    || utf8_len(password) < MIN_PASSWORD_BYTES || utf8_len(password) > MAX_PASSWORD_BYTES {
                    Err(InitError::InvalidSettings)
                } else {
                    Ok((name, port as u16, password))
                }
            },
        }
    }
}

/// With a valid name and password on the first and third lines, the settings
/// are accepted exactly when the port on the second line is neither 0 nor the
/// agent's port 45901, and the accepted port is the one written.
pub proof fn lemma_any_other_port_accepted(input: Seq<char>, port: nat)
    requires
        lines(input).len() >= 3,
        parse_unsigned(trim(lines(input)[1]), u16::MAX as nat) == Some(port),
        trim(lines(input)[0]).len() > 0,
        utf8_len(trim(lines(input)[0])) <= 64,
        8 <= utf8_len(trim_end_cr(lines(input)[2])) <= 256,
    ensures
        init_outcome(input) is Ok <==> (port != 0 && port != 45901),
        init_outcome(input) matches Ok(r) ==> r.1 == port && r.0 == trim(lines(input)[0])
            && r.2 == trim_end_cr(lines(input)[2]),
{
}

/// Reads the installer's settings file.
pub fn parse_init(input: &str) -> (r: Result<InitRequest, InitError>)
    ensures
        match r {
            Ok(req) => init_outcome(input@) == Ok::<(Seq<char>, u16, Seq<char>), InitError>((req.device_name@, req.port, req.password@)),
            Err(e) => init_outcome(input@) == Err::<(Seq<char>, u16, Seq<char>), InitError>(e),
        },
{
    let cs = chars_of(input);
    let ls = split_lines(&cs);
    let ghost lv = ls@.map_values(|l: Vec<char>| l@);
    assert(lv.len() == ls@.len());
    if ls.len() < 1 {
        return Err(InitError::MissingName);
    }
    assert(lv[0] == ls@[0]@);
    let name = trim_chars(&ls[0]);
    if ls.len() < 2 {
        return Err(InitError::MissingPort);
    }
    assert(lv[1] == ls@[1]@);
    let port_text = trim_chars(&ls[1]);
    let port: u16 = match parse_u64(&port_text) {
        Some(v) => {
            if v > 65535 {
                return Err(InitError::InvalidPort);
            }
            v as u16
        },
        None => return Err(InitError::InvalidPort),
    };
    if ls.len() < 3 {
        return Err(InitError::MissingPassword);
    }
    assert(lv[2] == ls@[2]@);
    let line = &ls[2];
    let mut end = line.len();
    assert(line@.subrange(0, end as int) =~= line@);
    while end > 0 && line[end - 1] == '\r'
        invariant
            end <= line@.len(),
            trim_end_cr(line@) == trim_end_cr(line@.subrange(0, end as int)),
        decreases end,
    {
        assert(line@.subrange(0, end as int).drop_last() =~= line@.subrange(0, end - 1));
        end = end - 1;
    }
    assert(line@.subrange(0, 0) =~= Seq::<char>::empty());
    let password = string_from_chars(&line[0..end]);
    assert(password@ == trim_end_cr(line@));
    let name_bytes = utf8_len_at_most(&name, MAX_NAME_BYTES as u64);
    let password_bytes = utf8_len_at_most(&line[0..end], MAX_PASSWORD_BYTES as u64);
    if name.len() == 0 || name_bytes > MAX_NAME_BYTES as u64 || port == 0 || port == IPC_PORT
        || password_bytes < MIN_PASSWORD_BYTES as u64 || password_bytes > MAX_PASSWORD_BYTES as u64 {
        return Err(InitError::InvalidSettings);
    }
    Ok(InitRequest { device_name: string_from_chars(&name), port, password })
}

/// The agent's token as the configuration file holds it: the token's bytes in
/// lower-case hexadecimal.
pub fn agent_token_text(token: &[u8; 32]) -> (r: String)
    ensures
        r@ == hex(token@),
        r@.len() == 64,
{
    proof { crate::text::lemma_hex_len(token@); }
    hex_string(token)
}

/// The configuration that the installer writes for a device name, a port and
/// an agent token.
pub fn new_config(device_name: String, port: u16, agent_token: String) -> (r: Config)
    ensures
        r.device_name == device_name,
        r.port == port,
        r.jpeg_quality == DEFAULT_JPEG_QUALITY,
        r.max_fps == DEFAULT_MAX_FPS,
        r.agent_token == agent_token,
        r.ipc_port == IPC_PORT,
{
    Config {
        device_name,
        port,
        jpeg_quality: DEFAULT_JPEG_QUALITY,
        max_fps: DEFAULT_MAX_FPS,
        agent_token,
        ipc_port: IPC_PORT,
    }
}

} // verus!
