//! Wire protocol between the controller and the confined supervisor.
//!
//! Each message travels as a frame: a 16-bit little-endian length followed
//! by at most [`MAX_FRAME_LENGTH`] bytes of payload.  The payload is a
//! compact binary rendering of a tagged union: a `Request` on the way in,
//! an execute result or a cleanup acknowledgement on the way out.  Both
//! directions are encoded and decoded here, and decoding is proved to
//! invert encoding.

use vstd::bytes::{
    spec_u16_to_le_bytes, spec_u16_from_le_bytes, spec_u32_to_le_bytes, spec_u32_from_le_bytes,
    spec_u64_to_le_bytes, spec_u64_from_le_bytes, u16_to_le_bytes, u16_from_le_bytes,
    u32_to_le_bytes, u32_from_le_bytes, u64_to_le_bytes, u64_from_le_bytes,
    lemma_auto_spec_u16_to_from_le_bytes, lemma_auto_spec_u32_to_from_le_bytes,
    lemma_auto_spec_u64_to_from_le_bytes,
};
use vstd::prelude::*;
use vstd::slice::{slice_subrange, slice_to_vec};
use vstd::utf8::{decode_utf8, encode_utf8, valid_utf8};

verus! {

/// A frame payload may hold at most this many bytes; anything longer is a
/// protocol violation.
pub const MAX_FRAME_LENGTH: usize = 4096;

/// A violation of the wire protocol.
#[derive(Debug, PartialEq, Eq, Structural)]
pub enum ProtocolError {
    /// A frame announced more than [`MAX_FRAME_LENGTH`] bytes of payload.
    Oversize,
    /// The data ended before the announced frame did.
    Truncated,
    /// The payload did not spell a well-formed message.
    Malformed,
}

// ---------------------------------------------------------------------------
// Little-endian integer fields
// ---------------------------------------------------------------------------

pub open spec fn spec_decode_u32(s: Seq<u8>) -> Option<(u32, int)> {
    if s.len() >= 4 {
        Some((spec_u32_from_le_bytes(s.subrange(0, 4)), 4int))
    } else {
        None
    }
}

pub open spec fn spec_decode_u64(s: Seq<u8>) -> Option<(u64, int)> {
    if s.len() >= 8 {
        Some((spec_u64_from_le_bytes(s.subrange(0, 8)), 8int))
    } else {
        None
    }
}

/// Round trip for a 32-bit field.
pub proof fn lemma_u32_round_trip(x: u32, rest: Seq<u8>)
    ensures
        spec_u32_to_le_bytes(x).len() == 4,
        spec_decode_u32(spec_u32_to_le_bytes(x) + rest) == Some::<(u32, int)>((x, 4int)),
{
    lemma_auto_spec_u32_to_from_le_bytes();
    assert((spec_u32_to_le_bytes(x) + rest).subrange(0, 4) =~= spec_u32_to_le_bytes(x));
}

/// Round trip for a 64-bit field.
pub proof fn lemma_u64_round_trip(x: u64, rest: Seq<u8>)
    ensures
        spec_u64_to_le_bytes(x).len() == 8,
        spec_decode_u64(spec_u64_to_le_bytes(x) + rest) == Some::<(u64, int)>((x, 8int)),
{
    lemma_auto_spec_u64_to_from_le_bytes();
    assert((spec_u64_to_le_bytes(x) + rest).subrange(0, 8) =~= spec_u64_to_le_bytes(x));
}

pub(crate) fn encode_u32(out: &mut Vec<u8>, x: u32)
    ensures
        final(out)@ == old(out)@ + spec_u32_to_le_bytes(x),
{
    let mut bs = u32_to_le_bytes(x);
    out.append(&mut bs);
}

fn encode_u64(out: &mut Vec<u8>, x: u64)
    ensures
        final(out)@ == old(out)@ + spec_u64_to_le_bytes(x),
{
    let mut bs = u64_to_le_bytes(x);
    out.append(&mut bs);
}

pub(crate) fn decode_u32(bytes: &[u8], pos: usize) -> (r: Option<(u32, usize)>)
    requires
        pos <= bytes@.len(),
    ensures
        match r {
            Some((v, end)) => {
                &&& pos <= end <= bytes@.len()
                &&& spec_decode_u32(bytes@.skip(pos as int)) == Some::<(u32, int)>((
                    v,
                    end - pos,
                ))
            },
            None => spec_decode_u32(bytes@.skip(pos as int)) is None,
        },
{
    if bytes.len() - pos >= 4 {
        let field = slice_subrange(bytes, pos, pos + 4);
        let v = u32_from_le_bytes(field);
        proof {
            assert(bytes@.subrange(pos as int, pos + 4) =~= bytes@.skip(pos as int).subrange(
                0,
                4,
            ));
        }
        Some((v, pos + 4))
    } else {
        None
    }
}

fn decode_u64(bytes: &[u8], pos: usize) -> (r: Option<(u64, usize)>)
    requires
        pos <= bytes@.len(),
    ensures
        match r {
            Some((v, end)) => {
                &&& pos <= end <= bytes@.len()
                &&& spec_decode_u64(bytes@.skip(pos as int)) == Some::<(u64, int)>((
                    v,
                    end - pos,
                ))
            },
            None => spec_decode_u64(bytes@.skip(pos as int)) is None,
        },
{
    if bytes.len() - pos >= 8 {
        let field = slice_subrange(bytes, pos, pos + 8);
        let v = u64_from_le_bytes(field);
        proof {
            assert(bytes@.subrange(pos as int, pos + 8) =~= bytes@.skip(pos as int).subrange(
                0,
                8,
            ));
        }
        Some((v, pos + 8))
    } else {
        None
    }
}

// ---------------------------------------------------------------------------
// Strings: a 64-bit byte count, then that many bytes of UTF-8
// ---------------------------------------------------------------------------

pub open spec fn spec_encode_str(s: Seq<char>) -> Seq<u8> {
    spec_u64_to_le_bytes(encode_utf8(s).len() as u64) + encode_utf8(s)
}

pub open spec fn spec_decode_str(s: Seq<u8>) -> Option<(Seq<char>, int)> {
    match spec_decode_u64(s) {
        None => None,
        Some((n, _)) => {
            if n <= s.len() - 8 && valid_utf8(s.subrange(8, 8 + n)) {
                Some((decode_utf8(s.subrange(8, 8 + n)), 8 + n))
            } else {
                None
            }
        },
    }
}

/// Round trip for a string field.
pub proof fn lemma_str_round_trip(s: Seq<char>, rest: Seq<u8>)
    requires
        encode_utf8(s).len() <= u64::MAX,
    ensures
        spec_decode_str(spec_encode_str(s) + rest) == Some::<(Seq<char>, int)>((
            s,
            spec_encode_str(s).len() as int,
        )),
{
    broadcast use vstd::utf8::encode_utf8_valid_utf8, vstd::utf8::encode_utf8_decode_utf8;

    let bs = encode_utf8(s);
    let n = bs.len() as u64;
    let whole = spec_encode_str(s) + rest;
    lemma_u64_round_trip(n, bs + rest);
    assert(whole =~= spec_u64_to_le_bytes(n) + (bs + rest));
    assert(whole.subrange(8, 8 + n as int) =~= bs);
}

/// Relies on `String::from_utf8`: it succeeds on exactly the valid UTF-8
/// byte strings and decodes the bytes it was given.
#[verifier::external_body]
fn string_from_utf8(v: Vec<u8>) -> (r: Option<String>)
    ensures
        match r {
            Some(s) => valid_utf8(v@) && s@ == decode_utf8(v@),
            None => !valid_utf8(v@),
        },
{
    match String::from_utf8(v) {
        Ok(s) => Some(s),
        Err(_) => None,
    }
}

fn encode_str(out: &mut Vec<u8>, s: &str)
    ensures
        final(out)@ == old(out)@ + spec_encode_str(s@),
{
    let mut bs = s.as_bytes_vec();
    encode_u64(out, bs.len() as u64);
    out.append(&mut bs);
}

fn decode_str(bytes: &[u8], pos: usize) -> (r: Option<(String, usize)>)
    requires
        pos <= bytes@.len(),
    ensures
        match r {
            Some((v, end)) => {
                &&& pos <= end <= bytes@.len()
                &&& spec_decode_str(bytes@.skip(pos as int)) == Some::<(Seq<char>, int)>((
                    v@,
                    end - pos,
                ))
            },
            None => spec_decode_str(bytes@.skip(pos as int)) is None,
        },
{
    let tail = Ghost(bytes@.skip(pos as int));
    match decode_u64(bytes, pos) {
        None => None,
        Some((n, mid)) => {
            if n <= (bytes.len() - mid) as u64 {
                let n = n as usize;
                let field = slice_subrange(bytes, mid, mid + n);
                proof {
                    assert(field@ =~= tail@.subrange(8, 8 + n as int));
                }
                match string_from_utf8(slice_to_vec(field)) {
                    None => None,
                    Some(s) => Some((s, mid + n)),
                }
            } else {
                None
            }
        },
    }
}

// ---------------------------------------------------------------------------
// Signed 32-bit fields: file descriptors, exit statuses, signal numbers
// ---------------------------------------------------------------------------

pub open spec fn spec_encode_i32(x: i32) -> Seq<u8> {
    spec_u32_to_le_bytes(x as u32)
}

pub open spec fn spec_decode_i32(s: Seq<u8>) -> Option<(i32, int)> {
    match spec_decode_u32(s) {
        None => None,
        Some((v, k)) => Some((v as i32, k)),
    }
}

proof fn lemma_i32_cast(x: i32)
    ensures
        ((x as u32) as i32) == x,
{
    assert(((x as u32) as i32) == x) by (bit_vector);
}

/// Round trip for a signed 32-bit field.
pub proof fn lemma_i32_round_trip(x: i32, rest: Seq<u8>)
    ensures
        spec_encode_i32(x).len() == 4,
        spec_decode_i32(spec_encode_i32(x) + rest) == Some::<(i32, int)>((x, 4int)),
{
    lemma_u32_round_trip(x as u32, rest);
    lemma_i32_cast(x);
}

pub(crate) fn encode_i32(out: &mut Vec<u8>, x: i32)
    ensures
        final(out)@ == old(out)@ + spec_encode_i32(x),
{
    encode_u32(out, x as u32);
}

pub(crate) fn decode_i32(bytes: &[u8], pos: usize) -> (r: Option<(i32, usize)>)
    requires
        pos <= bytes@.len(),
    ensures
        match r {
            Some((v, end)) => {
                &&& pos <= end <= bytes@.len()
                &&& spec_decode_i32(bytes@.skip(pos as int)) == Some::<(i32, int)>((
                    v,
                    end - pos,
                ))
            },
            None => spec_decode_i32(bytes@.skip(pos as int)) is None,
        },
{
    match decode_u32(bytes, pos) {
        None => None,
        Some((v, end)) => Some((v as i32, end)),
    }
}

// ---------------------------------------------------------------------------
// The messages
// ---------------------------------------------------------------------------

/// How the payload may use a file opened for it.
#[derive(Clone, Copy, Debug, PartialEq, Eq, Structural)]
pub enum FileMode {
    ReadOnly,
    WriteOnly,
}

/// One file the supervisor opens for the payload before `execve`: the path
/// inside the sandbox, the descriptor numbers the open file is duplicated
/// onto, and the access mode.
#[derive(Debug, PartialEq, Eq)]
pub struct OpenFile {
    pub path: String,
    pub fds: Vec<i32>,
    pub mode: FileMode,
}

/// The mathematical value of an [`OpenFile`].
pub ghost struct OpenFileV {
    pub path: Seq<char>,
    pub fds: Seq<i32>,
    pub mode: FileMode,
}

impl View for OpenFile {
    type V = OpenFileV;

    open spec fn view(&self) -> OpenFileV {
        OpenFileV { path: self.path@, fds: self.fds@, mode: self.mode }
    }
}

impl DeepView for OpenFile {
    type V = OpenFileV;

    open spec fn deep_view(&self) -> OpenFileV {
        self.view()
    }
}

/// Everything the supervisor needs to run one payload.
#[derive(Debug, PartialEq, Eq)]
pub struct ExecuteCommand {
    pub file: String,
    pub args: Vec<String>,
    pub envs: Vec<String>,
    pub working_dir: String,
    pub open_files: Vec<OpenFile>,
    pub cgroup_file: Option<String>,
}

/// The mathematical value of an [`ExecuteCommand`].
pub ghost struct ExecuteCommandV {
    pub file: Seq<char>,
    pub args: Seq<Seq<char>>,
    pub envs: Seq<Seq<char>>,
    pub working_dir: Seq<char>,
    pub open_files: Seq<OpenFileV>,
    pub cgroup_file: Option<Seq<char>>,
}

impl View for ExecuteCommand {
    type V = ExecuteCommandV;

    open spec fn view(&self) -> ExecuteCommandV {
        ExecuteCommandV {
            file: self.file@,
            args: self.args.deep_view(),
            envs: self.envs.deep_view(),
            working_dir: self.working_dir@,
            open_files: self.open_files.deep_view(),
            cgroup_file: match self.cgroup_file {
                Some(p) => Some(p@),
                None => None,
            },
        }
    }
}

impl DeepView for ExecuteCommand {
    type V = ExecuteCommandV;

    open spec fn deep_view(&self) -> ExecuteCommandV {
        self.view()
    }
}

/// One request from the controller to the supervisor.
#[derive(Debug, PartialEq, Eq)]
pub enum Request {
    Execute(ExecuteCommand),
    Cleanup,
}

/// The mathematical value of a [`Request`].
pub ghost enum RequestV {
    Execute(ExecuteCommandV),
    Cleanup,
}

impl View for Request {
    type V = RequestV;

    open spec fn view(&self) -> RequestV {
        match self {
            Request::Execute(cmd) => RequestV::Execute(cmd@),
            Request::Cleanup => RequestV::Cleanup,
        }
    }
}

impl DeepView for Request {
    type V = RequestV;

    open spec fn deep_view(&self) -> RequestV {
        self.view()
    }
}

/// How a payload came to an end other than exiting on its own.
#[derive(Clone, Copy, Debug, PartialEq, Eq, Structural)]
pub enum ExecuteError {
    /// The payload was killed by this signal.
    Signaled(i32),
}

/// What one execute request came to: the payload's exit status, or the
/// signal that ended it.
pub type ExecuteResult = Result<i32, ExecuteError>;

// ---------------------------------------------------------------------------
// Encoding and decoding of the messages
// ---------------------------------------------------------------------------

pub open spec fn spec_encode_str_seq(l: Seq<Seq<char>>) -> Seq<u8>
    decreases l.len(),
{
    if l.len() == 0 {
        Seq::empty()
    } else {
        spec_encode_str(l[0]) + spec_encode_str_seq(l.drop_first())
    }
}

pub open spec fn spec_encode_str_list(l: Seq<Seq<char>>) -> Seq<u8> {
    spec_u64_to_le_bytes(l.len() as u64) + spec_encode_str_seq(l)
}

pub open spec fn spec_decode_str_seq(s: Seq<u8>, n: nat) -> Option<(Seq<Seq<char>>, int)>
    decreases n,
{
    if n == 0 {
        Some((Seq::empty(), 0int))
    } else {
        match spec_decode_str(s) {
            None => None,
            Some((v, k)) => match spec_decode_str_seq(s.skip(k), (n - 1) as nat) {
                None => None,
                Some((vs, m)) => Some((seq![v] + vs, k + m)),
            },
        }
    }
}

pub open spec fn spec_decode_str_list(s: Seq<u8>) -> Option<(Seq<Seq<char>>, int)> {
    match spec_decode_u64(s) {
        None => None,
        Some((n, _)) => match spec_decode_str_seq(s.skip(8), n as nat) {
            None => None,
            Some((vs, m)) => Some((vs, 8 + m)),
        },
    }
}

pub open spec fn spec_encode_i32_seq(l: Seq<i32>) -> Seq<u8>
    decreases l.len(),
{
    if l.len() == 0 {
        Seq::empty()
    } else {
        spec_encode_i32(l[0]) + spec_encode_i32_seq(l.drop_first())
    }
}

pub open spec fn spec_encode_i32_list(l: Seq<i32>) -> Seq<u8> {
    spec_u64_to_le_bytes(l.len() as u64) + spec_encode_i32_seq(l)
}

pub open spec fn spec_decode_i32_seq(s: Seq<u8>, n: nat) -> Option<(Seq<i32>, int)>
    decreases n,
{
    if n == 0 {
        Some((Seq::empty(), 0int))
    } else {
        match spec_decode_i32(s) {
            None => None,
            Some((v, k)) => match spec_decode_i32_seq(s.skip(k), (n - 1) as nat) {
                None => None,
                Some((vs, m)) => Some((seq![v] + vs, k + m)),
            },
        }
    }
}

pub open spec fn spec_decode_i32_list(s: Seq<u8>) -> Option<(Seq<i32>, int)> {
    match spec_decode_u64(s) {
        None => None,
        Some((n, _)) => match spec_decode_i32_seq(s.skip(8), n as nat) {
            None => None,
            Some((vs, m)) => Some((vs, 8 + m)),
        },
    }
}

pub open spec fn spec_encode_mode(m: FileMode) -> Seq<u8> {
    match m {
        FileMode::ReadOnly => spec_u32_to_le_bytes(0),
        FileMode::WriteOnly => spec_u32_to_le_bytes(1),
    }
}

pub open spec fn spec_decode_mode(s: Seq<u8>) -> Option<(FileMode, int)> {
    match spec_decode_u32(s) {
        None => None,
        Some((t, k)) => {
            if t == 0 {
                Some((FileMode::ReadOnly, k))
            } else if t == 1 {
                Some((FileMode::WriteOnly, k))
            } else {
                None
            }
        },
    }
}

pub open spec fn spec_encode_open_file(f: OpenFileV) -> Seq<u8> {
    spec_encode_str(f.path) + spec_encode_i32_list(f.fds) + spec_encode_mode(f.mode)
}

pub open spec fn spec_decode_open_file(s: Seq<u8>) -> Option<(OpenFileV, int)> {
    match spec_decode_str(s) {
        None => None,
        Some((path, a)) => match spec_decode_i32_list(s.skip(a)) {
            None => None,
            Some((fds, b)) => match spec_decode_mode(s.skip(a + b)) {
                None => None,
                Some((mode, c)) => Some((OpenFileV { path, fds, mode }, a + b + c)),
            },
        },
    }
}

pub open spec fn spec_encode_open_file_seq(l: Seq<OpenFileV>) -> Seq<u8>
    decreases l.len(),
{
    if l.len() == 0 {
        Seq::empty()
    } else {
        spec_encode_open_file(l[0]) + spec_encode_open_file_seq(l.drop_first())
    }
}

pub open spec fn spec_encode_open_file_list(l: Seq<OpenFileV>) -> Seq<u8> {
    spec_u64_to_le_bytes(l.len() as u64) + spec_encode_open_file_seq(l)
}

pub open spec fn spec_decode_open_file_seq(s: Seq<u8>, n: nat) -> Option<(Seq<OpenFileV>, int)>
    decreases n,
{
    if n == 0 {
        Some((Seq::empty(), 0int))
    } else {
        match spec_decode_open_file(s) {
            None => None,
            Some((v, k)) => match spec_decode_open_file_seq(s.skip(k), (n - 1) as nat) {
                None => None,
                Some((vs, m)) => Some((seq![v] + vs, k + m)),
            },
        }
    }
}

pub open spec fn spec_decode_open_file_list(s: Seq<u8>) -> Option<(Seq<OpenFileV>, int)> {
    match spec_decode_u64(s) {
        None => None,
        Some((n, _)) => match spec_decode_open_file_seq(s.skip(8), n as nat) {
            None => None,
            Some((vs, m)) => Some((vs, 8 + m)),
        },
    }
}

pub open spec fn spec_encode_opt_str(o: Option<Seq<char>>) -> Seq<u8> {
    match o {
        None => seq![0u8],
        Some(s) => seq![1u8] + spec_encode_str(s),
    }
}

pub open spec fn spec_decode_opt_str(s: Seq<u8>) -> Option<(Option<Seq<char>>, int)> {
    if s.len() == 0 {
        None
    } else if s[0] == 0u8 {
        Some((None, 1int))
    } else if s[0] == 1u8 {
        match spec_decode_str(s.skip(1)) {
            None => None,
            Some((v, k)) => Some((Some(v), 1 + k)),
        }
    } else {
        None
    }
}

pub open spec fn spec_encode_command(c: ExecuteCommandV) -> Seq<u8> {
    spec_encode_str(c.file) + spec_encode_str_list(c.args) + spec_encode_str_list(c.envs)
        + spec_encode_str(c.working_dir) + spec_encode_open_file_list(c.open_files)
        + spec_encode_opt_str(c.cgroup_file)
}

pub open spec fn spec_decode_command(s: Seq<u8>) -> Option<(ExecuteCommandV, int)> {
    match spec_decode_str(s) {
        None => None,
        Some((file, a)) => match spec_decode_str_list(s.skip(a)) {
            None => None,
            Some((args, b)) => match spec_decode_str_list(s.skip(a + b)) {
                None => None,
                Some((envs, c)) => match spec_decode_str(s.skip(a + b + c)) {
                    None => None,
                    Some((working_dir, d)) => match spec_decode_open_file_list(
                        s.skip(a + b + c + d),
                    ) {
                        None => None,
                        Some((open_files, e)) => match spec_decode_opt_str(
                            s.skip(a + b + c + d + e),
                        ) {
                            None => None,
                            Some((cgroup_file, f)) => Some((
                                (ExecuteCommandV {
                                    file,
                                    args,
                                    envs,
                                    working_dir,
                                    open_files,
                                    cgroup_file,
                                }),
                                a + b + c + d + e + f,
                            )),
                        },
                    },
                },
            },
        },
    }
}

pub open spec fn spec_encode_request(r: RequestV) -> Seq<u8> {
    match r {
        RequestV::Execute(c) => spec_u32_to_le_bytes(0) + spec_encode_command(c),
        RequestV::Cleanup => spec_u32_to_le_bytes(1),
    }
}

pub open spec fn spec_decode_request(s: Seq<u8>) -> Option<(RequestV, int)> {
    match spec_decode_u32(s) {
        None => None,
        Some((t, k)) => {
            if t == 0 {
                match spec_decode_command(s.skip(k)) {
                    None => None,
                    Some((c, m)) => Some((RequestV::Execute(c), k + m)),
                }
            } else if t == 1 {
                Some((RequestV::Cleanup, k))
            } else {
                None
            }
        },
    }
}

pub open spec fn spec_encode_result(r: ExecuteResult) -> Seq<u8> {
    match r {
        Ok(status) => spec_u32_to_le_bytes(0) + spec_encode_i32(status),
        Err(ExecuteError::Signaled(sig)) => spec_u32_to_le_bytes(1) + spec_encode_i32(sig),
    }
}

pub open spec fn spec_decode_result(s: Seq<u8>) -> Option<(ExecuteResult, int)> {
    match spec_decode_u32(s) {
        None => None,
        Some((t, k)) => {
            if t == 0 {
                match spec_decode_i32(s.skip(k)) {
                    None => None,
                    Some((status, m)) => Some((Ok(status), k + m)),
                }
            } else if t == 1 {
                match spec_decode_i32(s.skip(k)) {
                    None => None,
                    Some((sig, m)) => Some((Err(ExecuteError::Signaled(sig)), k + m)),
                }
            } else {
                None
            }
        },
    }
}

// ---------------------------------------------------------------------------
// Executable encoders
// ---------------------------------------------------------------------------

fn encode_str_seq_from(out: &mut Vec<u8>, l: &Vec<String>, i: usize)
    requires
        i <= l@.len(),
    ensures
        final(out)@ == old(out)@ + spec_encode_str_seq(l.deep_view().skip(i as int)),
    decreases l@.len() - i,
{
    if i < l.len() {
        encode_str(out, l[i].as_str());
        encode_str_seq_from(out, l, i + 1);
        proof {
            let dv = l.deep_view();
            assert(dv.skip(i as int).drop_first() =~= dv.skip(i + 1));
            assert(dv.skip(i as int)[0] == dv[i as int]);
            assert(final(out)@ =~= old(out)@ + spec_encode_str_seq(dv.skip(i as int)));
        }
    } else {
        proof {
            assert(final(out)@ =~= old(out)@ + spec_encode_str_seq(
                l.deep_view().skip(i as int),
            ));
        }
    }
}

fn encode_str_list(out: &mut Vec<u8>, l: &Vec<String>)
    ensures
        final(out)@ == old(out)@ + spec_encode_str_list(l.deep_view()),
{
    encode_u64(out, l.len() as u64);
    encode_str_seq_from(out, l, 0);
    proof {
        assert(l.deep_view().skip(0) =~= l.deep_view());
        assert(final(out)@ =~= old(out)@ + spec_encode_str_list(l.deep_view()));
    }
}

fn encode_i32_seq_from(out: &mut Vec<u8>, l: &Vec<i32>, i: usize)
    requires
        i <= l@.len(),
    ensures
        final(out)@ == old(out)@ + spec_encode_i32_seq(l@.skip(i as int)),
    decreases l@.len() - i,
{
    if i < l.len() {
        encode_i32(out, l[i]);
        encode_i32_seq_from(out, l, i + 1);
        proof {
            assert(l@.skip(i as int).drop_first() =~= l@.skip(i + 1));
            assert(final(out)@ =~= old(out)@ + spec_encode_i32_seq(l@.skip(i as int)));
        }
    } else {
        proof {
            assert(final(out)@ =~= old(out)@ + spec_encode_i32_seq(l@.skip(i as int)));
        }
    }
}

fn encode_i32_list(out: &mut Vec<u8>, l: &Vec<i32>)
    ensures
        final(out)@ == old(out)@ + spec_encode_i32_list(l@),
{
    encode_u64(out, l.len() as u64);
    encode_i32_seq_from(out, l, 0);
    proof {
        assert(l@.skip(0) =~= l@);
        assert(final(out)@ =~= old(out)@ + spec_encode_i32_list(l@));
    }
}

fn encode_mode(out: &mut Vec<u8>, m: FileMode)
    ensures
        final(out)@ == old(out)@ + spec_encode_mode(m),
{
    match m {
        FileMode::ReadOnly => encode_u32(out, 0),
        FileMode::WriteOnly => encode_u32(out, 1),
    }
}

fn encode_open_file(out: &mut Vec<u8>, f: &OpenFile)
    ensures
        final(out)@ == old(out)@ + spec_encode_open_file(f@),
{
    encode_str(out, f.path.as_str());
    encode_i32_list(out, &f.fds);
    encode_mode(out, f.mode);
    proof {
        assert(final(out)@ =~= old(out)@ + spec_encode_open_file(f@));
    }
}

fn encode_open_file_seq_from(out: &mut Vec<u8>, l: &Vec<OpenFile>, i: usize)
    requires
        i <= l@.len(),
    ensures
        final(out)@ == old(out)@ + spec_encode_open_file_seq(l.deep_view().skip(i as int)),
    decreases l@.len() - i,
{
    if i < l.len() {
        encode_open_file(out, &l[i]);
        encode_open_file_seq_from(out, l, i + 1);
        proof {
            let dv = l.deep_view();
            assert(dv.skip(i as int).drop_first() =~= dv.skip(i + 1));
            assert(dv.skip(i as int)[0] == dv[i as int]);
            assert(final(out)@ =~= old(out)@ + spec_encode_open_file_seq(dv.skip(i as int)));
        }
    } else {
        proof {
            assert(final(out)@ =~= old(out)@ + spec_encode_open_file_seq(
                l.deep_view().skip(i as int),
            ));
        }
    }
}

fn encode_open_file_list(out: &mut Vec<u8>, l: &Vec<OpenFile>)
    ensures
        final(out)@ == old(out)@ + spec_encode_open_file_list(l.deep_view()),
{
    encode_u64(out, l.len() as u64);
    encode_open_file_seq_from(out, l, 0);
    proof {
        assert(l.deep_view().skip(0) =~= l.deep_view());
        assert(final(out)@ =~= old(out)@ + spec_encode_open_file_list(l.deep_view()));
    }
}

fn encode_opt_str(out: &mut Vec<u8>, o: &Option<String>)
    ensures
        final(out)@ == old(out)@ + spec_encode_opt_str(
            match o {
                Some(s) => Some(s@),
                None => None,
            },
        ),
{
    match o {
        None => {
            out.push(0);
            proof {
                assert(final(out)@ =~= old(out)@ + seq![0u8]);
            }
        },
        Some(s) => {
            out.push(1);
            encode_str(out, s.as_str());
            proof {
                assert(final(out)@ =~= old(out)@ + (seq![1u8] + spec_encode_str(s@)));
            }
        },
    }
}

fn encode_command(out: &mut Vec<u8>, c: &ExecuteCommand)
    ensures
        final(out)@ == old(out)@ + spec_encode_command(c@),
{
    encode_str(out, c.file.as_str());
    encode_str_list(out, &c.args);
    encode_str_list(out, &c.envs);
    encode_str(out, c.working_dir.as_str());
    encode_open_file_list(out, &c.open_files);
    encode_opt_str(out, &c.cgroup_file);
    proof {
        assert(final(out)@ =~= old(out)@ + spec_encode_command(c@));
    }
}

/// Renders a request as a frame payload.
pub fn encode_request(r: &Request) -> (out: Vec<u8>)
    ensures
        out@ == spec_encode_request(r@),
{
    let mut out = Vec::new();
    match r {
        Request::Execute(c) => {
            encode_u32(&mut out, 0);
            encode_command(&mut out, c);
        },
        Request::Cleanup => {
            encode_u32(&mut out, 1);
        },
    }
    proof {
        assert(out@ =~= spec_encode_request(r@));
    }
    out
}

/// Renders an execute result as a frame payload.
pub fn encode_result(r: &ExecuteResult) -> (out: Vec<u8>)
    ensures
        out@ == spec_encode_result(*r),
{
    let mut out = Vec::new();
    match r {
        Ok(status) => {
            encode_u32(&mut out, 0);
            encode_i32(&mut out, *status);
        },
        Err(ExecuteError::Signaled(sig)) => {
            encode_u32(&mut out, 1);
            encode_i32(&mut out, *sig);
        },
    }
    proof {
        assert(out@ =~= spec_encode_result(*r));
    }
    out
}

// ---------------------------------------------------------------------------
// Executable decoders
// ---------------------------------------------------------------------------

fn decode_mode(bytes: &[u8], pos: usize) -> (r: Option<(FileMode, usize)>)
    requires
        pos <= bytes@.len(),
    ensures
        match r {
            Some((v, end)) => {
                &&& pos <= end <= bytes@.len()
                &&& spec_decode_mode(bytes@.skip(pos as int)) == Some::<(FileMode, int)>((
                    v,
                    end - pos,
                ))
            },
            None => spec_decode_mode(bytes@.skip(pos as int)) is None,
        },
{
    match decode_u32(bytes, pos) {
        None => None,
        Some((t, end)) => {
            if t == 0 {
                Some((FileMode::ReadOnly, end))
            } else if t == 1 {
                Some((FileMode::WriteOnly, end))
            } else {
                None
            }
        },
    }
}

fn decode_str_seq(bytes: &[u8], pos: usize, n: u64) -> (r: Option<(Vec<String>, usize)>)
    requires
        pos <= bytes@.len(),
    ensures
        match r {
            Some((v, end)) => {
                &&& pos <= end <= bytes@.len()
                &&& spec_decode_str_seq(bytes@.skip(pos as int), n as nat) == Some::<
                    (Seq<Seq<char>>, int),
                >((v.deep_view(), end - pos))
            },
            None => spec_decode_str_seq(bytes@.skip(pos as int), n as nat) is None,
        },
    decreases n,
{
    if n == 0 {
        let v: Vec<String> = Vec::new();
        proof {
            assert(v.deep_view() =~= Seq::<Seq<char>>::empty());
        }
        Some((v, pos))
    } else {
        match decode_str(bytes, pos) {
            None => None,
            Some((s, mid)) => {
                proof {
                    assert(bytes@.skip(pos as int).skip(mid - pos) =~= bytes@.skip(mid as int));
                }
                match decode_str_seq(bytes, mid, n - 1) {
                    None => None,
                    Some((mut v, end)) => {
                        let ghost tail_dv = v.deep_view();
                        v.insert(0, s);
                        proof {
                            assert(v.deep_view() =~= seq![s@] + tail_dv);
                        }
                        Some((v, end))
                    },
                }
            },
        }
    }
}

fn decode_str_list(bytes: &[u8], pos: usize) -> (r: Option<(Vec<String>, usize)>)
    requires
        pos <= bytes@.len(),
    ensures
        match r {
            Some((v, end)) => {
                &&& pos <= end <= bytes@.len()
                &&& spec_decode_str_list(bytes@.skip(pos as int)) == Some::<
                    (Seq<Seq<char>>, int),
                >((v.deep_view(), end - pos))
            },
            None => spec_decode_str_list(bytes@.skip(pos as int)) is None,
        },
{
    match decode_u64(bytes, pos) {
        None => None,
        Some((n, mid)) => {
            proof {
                assert(bytes@.skip(pos as int).skip(8) =~= bytes@.skip(mid as int));
            }
            match decode_str_seq(bytes, mid, n) {
                None => None,
                Some((v, end)) => Some((v, end)),
            }
        },
    }
}

fn decode_i32_seq(bytes: &[u8], pos: usize, n: u64) -> (r: Option<(Vec<i32>, usize)>)
    requires
        pos <= bytes@.len(),
    ensures
        match r {
            Some((v, end)) => {
                &&& pos <= end <= bytes@.len()
                &&& spec_decode_i32_seq(bytes@.skip(pos as int), n as nat) == Some::<
                    (Seq<i32>, int),
                >((v@, end - pos))
            },
            None => spec_decode_i32_seq(bytes@.skip(pos as int), n as nat) is None,
        },
    decreases n,
{
    if n == 0 {
        let v: Vec<i32> = Vec::new();
        proof {
            assert(v@ =~= Seq::<i32>::empty());
        }
        Some((v, pos))
    } else {
        match decode_i32(bytes, pos) {
            None => None,
            Some((x, mid)) => {
                proof {
                    assert(bytes@.skip(pos as int).skip(mid - pos) =~= bytes@.skip(mid as int));
                }
                match decode_i32_seq(bytes, mid, n - 1) {
                    None => None,
                    Some((mut v, end)) => {
                        let ghost tail = v@;
                        v.insert(0, x);
                        proof {
                            assert(v@ =~= seq![x] + tail);
                        }
                        Some((v, end))
                    },
                }
            },
        }
    }
}

fn decode_i32_list(bytes: &[u8], pos: usize) -> (r: Option<(Vec<i32>, usize)>)
    requires
        pos <= bytes@.len(),
    ensures
        match r {
            Some((v, end)) => {
                &&& pos <= end <= bytes@.len()
                &&& spec_decode_i32_list(bytes@.skip(pos as int)) == Some::<(Seq<i32>, int)>((
                    v@,
                    end - pos,
                ))
            },
            None => spec_decode_i32_list(bytes@.skip(pos as int)) is None,
        },
{
    match decode_u64(bytes, pos) {
        None => None,
        Some((n, mid)) => {
            proof {
                assert(bytes@.skip(pos as int).skip(8) =~= bytes@.skip(mid as int));
            }
            match decode_i32_seq(bytes, mid, n) {
                None => None,
                Some((v, end)) => Some((v, end)),
            }
        },
    }
}

fn decode_open_file(bytes: &[u8], pos: usize) -> (r: Option<(OpenFile, usize)>)
    requires
        pos <= bytes@.len(),
    ensures
        match r {
            Some((v, end)) => {
                &&& pos <= end <= bytes@.len()
                &&& spec_decode_open_file(bytes@.skip(pos as int)) == Some::<(OpenFileV, int)>((
                    v@,
                    end - pos,
                ))
            },
            None => spec_decode_open_file(bytes@.skip(pos as int)) is None,
        },
{
    match decode_str(bytes, pos) {
        None => None,
        Some((path, a)) => {
            proof {
                assert(bytes@.skip(pos as int).skip(a - pos) =~= bytes@.skip(a as int));
            }
            match decode_i32_list(bytes, a) {
                None => None,
                Some((fds, b)) => {
                    proof {
                        assert(bytes@.skip(pos as int).skip(b - pos) =~= bytes@.skip(b as int));
                    }
                    match decode_mode(bytes, b) {
                        None => None,
                        Some((mode, c)) => Some((OpenFile { path, fds, mode }, c)),
                    }
                },
            }
        },
    }
}

fn decode_open_file_seq(bytes: &[u8], pos: usize, n: u64) -> (r: Option<(Vec<OpenFile>, usize)>)
    requires
        pos <= bytes@.len(),
    ensures
        match r {
            Some((v, end)) => {
                &&& pos <= end <= bytes@.len()
                &&& spec_decode_open_file_seq(bytes@.skip(pos as int), n as nat) == Some::<
                    (Seq<OpenFileV>, int),
                >((v.deep_view(), end - pos))
            },
            None => spec_decode_open_file_seq(bytes@.skip(pos as int), n as nat) is None,
        },
    decreases n,
{
    if n == 0 {
        let v: Vec<OpenFile> = Vec::new();
        proof {
            assert(v.deep_view() =~= Seq::<OpenFileV>::empty());
        }
        Some((v, pos))
    } else {
        match decode_open_file(bytes, pos) {
            None => None,
            Some((f, mid)) => {
                proof {
                    assert(bytes@.skip(pos as int).skip(mid - pos) =~= bytes@.skip(mid as int));
                }
                match decode_open_file_seq(bytes, mid, n - 1) {
                    None => None,
                    Some((mut v, end)) => {
                        let ghost tail_dv = v.deep_view();
                        let ghost fv = f@;
                        v.insert(0, f);
                        proof {
                            assert(v.deep_view() =~= seq![fv] + tail_dv);
                        }
                        Some((v, end))
                    },
                }
            },
        }
    }
}

fn decode_open_file_list(bytes: &[u8], pos: usize) -> (r: Option<(Vec<OpenFile>, usize)>)
    requires
        pos <= bytes@.len(),
    ensures
        match r {
            Some((v, end)) => {
                &&& pos <= end <= bytes@.len()
                &&& spec_decode_open_file_list(bytes@.skip(pos as int)) == Some::<
                    (Seq<OpenFileV>, int),
                >((v.deep_view(), end - pos))
            },
            None => spec_decode_open_file_list(bytes@.skip(pos as int)) is None,
        },
{
    match decode_u64(bytes, pos) {
        None => None,
        Some((n, mid)) => {
            proof {
                assert(bytes@.skip(pos as int).skip(8) =~= bytes@.skip(mid as int));
            }
            match decode_open_file_seq(bytes, mid, n) {
                None => None,
                Some((v, end)) => Some((v, end)),
            }
        },
    }
}

fn decode_opt_str(bytes: &[u8], pos: usize) -> (r: Option<(Option<String>, usize)>)
    requires
        pos <= bytes@.len(),
    ensures
        match r {
            Some((v, end)) => {
                &&& pos <= end <= bytes@.len()
                &&& (spec_decode_opt_str(bytes@.skip(pos as int)) == Some::<
                    (Option<Seq<char>>, int),
                >((
                    match v {
                        Some(s) => Some(s@),
                        None => None,
                    },
                    end - pos,
                )))
            },
            None => spec_decode_opt_str(bytes@.skip(pos as int)) is None,
        },
{
    if pos >= bytes.len() {
        return None;
    }
    let tag = *vstd::slice::slice_index_get(bytes, pos);
    if tag == 0 {
        Some((None, pos + 1))
    } else if tag == 1 {
        proof {
            assert(bytes@.skip(pos as int).skip(1) =~= bytes@.skip(pos + 1));
        }
        match decode_str(bytes, pos + 1) {
            None => None,
            Some((s, end)) => Some((Some(s), end)),
        }
    } else {
        None
    }
}

fn decode_command(bytes: &[u8], pos: usize) -> (r: Option<(ExecuteCommand, usize)>)
    requires
        pos <= bytes@.len(),
    ensures
        match r {
            Some((v, end)) => {
                &&& pos <= end <= bytes@.len()
                &&& spec_decode_command(bytes@.skip(pos as int)) == Some::<
                    (ExecuteCommandV, int),
                >((v@, end - pos))
            },
            None => spec_decode_command(bytes@.skip(pos as int)) is None,
        },
{
    match decode_str(bytes, pos) {
        None => None,
        Some((file, a)) => {
            proof {
                assert(bytes@.skip(pos as int).skip(a - pos) =~= bytes@.skip(a as int));
            }
            match decode_str_list(bytes, a) {
                None => None,
                Some((args, b)) => {
                    proof {
                        assert(bytes@.skip(pos as int).skip(b - pos) =~= bytes@.skip(b as int));
                    }
                    match decode_str_list(bytes, b) {
                        None => None,
                        Some((envs, c)) => {
                            proof {
                                assert(bytes@.skip(pos as int).skip(c - pos) =~= bytes@.skip(
                                    c as int,
                                ));
                            }
                            match decode_str(bytes, c) {
                                None => None,
                                Some((working_dir, d)) => {
                                    proof {
                                        assert(bytes@.skip(pos as int).skip(d - pos)
                                            =~= bytes@.skip(d as int));
                                    }
                                    match decode_open_file_list(bytes, d) {
                                        None => None,
                                        Some((open_files, e)) => {
                                            proof {
                                                assert(bytes@.skip(pos as int).skip(e - pos)
                                                    =~= bytes@.skip(e as int));
                                            }
                                            match decode_opt_str(bytes, e) {
                                                None => None,
                                                Some((cgroup_file, f)) => Some((
                                                    (ExecuteCommand {
                                                        file,
                                                        args,
                                                        envs,
                                                        working_dir,
                                                        open_files,
                                                        cgroup_file,
                                                    }),
                                                    f,
                                                )),
                                            }
                                        },
                                    }
                                },
                            }
                        },
                    }
                },
            }
        },
    }
}

/// Reads a request back out of a frame payload.  The payload must spell a
/// request exactly, with nothing left over; anything else is refused.
pub fn decode_request(payload: &[u8]) -> (r: Option<Request>)
    ensures
        match spec_decode_request(payload@) {
            Some((v, n)) => {
                if n == payload@.len() {
                    r matches Some(req) && req@ == v
                } else {
                    r is None
                }
            },
            None => r is None,
        },
{
    proof {
        assert(payload@.skip(0) =~= payload@);
    }
    match decode_u32(payload, 0) {
        None => None,
        Some((t, k)) => {
            if t == 0 {
                proof {
                    assert(payload@.skip(0).skip(k as int) =~= payload@.skip(k as int));
                }
                match decode_command(payload, k) {
                    None => None,
                    Some((c, end)) => {
                        if end == payload.len() {
                            Some(Request::Execute(c))
                        } else {
                            None
                        }
                    },
                }
            } else if t == 1 {
                if k == payload.len() {
                    Some(Request::Cleanup)
                } else {
                    None
                }
            } else {
                None
            }
        },
    }
}

/// Reads an execute result back out of a frame payload.  The payload must
/// spell a result exactly, with nothing left over; anything else is refused.
pub fn decode_result(payload: &[u8]) -> (r: Option<ExecuteResult>)
    ensures
        match spec_decode_result(payload@) {
            Some((v, n)) => {
                if n == payload@.len() {
                    r == Some(v)
                } else {
                    r is None
                }
            },
            None => r is None,
        },
{
    proof {
        assert(payload@.skip(0) =~= payload@);
    }
    match decode_u32(payload, 0) {
        None => None,
        Some((t, k)) => {
            proof {
                assert(payload@.skip(0).skip(k as int) =~= payload@.skip(k as int));
            }
            if t == 0 {
                match decode_i32(payload, k) {
                    None => None,
                    Some((status, end)) => {
                        if end == payload.len() {
                            Some(Ok(status))
                        } else {
                            None
                        }
                    },
                }
            } else if t == 1 {
                match decode_i32(payload, k) {
                    None => None,
                    Some((sig, end)) => {
                        if end == payload.len() {
                            Some(Err(ExecuteError::Signaled(sig)))
                        } else {
                            None
                        }
                    },
                }
            } else {
                None
            }
        },
    }
}

// ---------------------------------------------------------------------------
// Framing: a 16-bit little-endian length, then the payload
// ---------------------------------------------------------------------------

pub open spec fn spec_frame(payload: Seq<u8>) -> Seq<u8>
    recommends
        payload.len() <= MAX_FRAME_LENGTH,
{
    spec_u16_to_le_bytes(payload.len() as u16) + payload
}

/// Wraps a payload in a length-prefixed frame.  A payload longer than
/// [`MAX_FRAME_LENGTH`] is refused, and nothing is produced for it.
pub fn frame(payload: &Vec<u8>) -> (r: Result<Vec<u8>, ProtocolError>)
    ensures
        match r {
            Ok(f) => payload@.len() <= MAX_FRAME_LENGTH && f@ == spec_frame(payload@),
            Err(e) => payload@.len() > MAX_FRAME_LENGTH && e == ProtocolError::Oversize,
        },
{
    if payload.len() > MAX_FRAME_LENGTH {
        return Err(ProtocolError::Oversize);
    }
    let mut out = u16_to_le_bytes(payload.len() as u16);
    let mut i: usize = 0;
    while i < payload.len()
        invariant
            i <= payload@.len(),
            out@ == spec_u16_to_le_bytes(payload@.len() as u16) + payload@.take(i as int),
        decreases payload@.len() - i,
    {
        out.push(payload[i]);
        i = i + 1;
        proof {
            assert(out@ =~= spec_u16_to_le_bytes(payload@.len() as u16) + payload@.take(i as int));
        }
    }
    proof {
        assert(out@ =~= spec_frame(payload@));
    }
    Ok(out)
}

/// Reads one frame off the front of `bytes`: the payload and the number of
/// bytes consumed.  A frame announcing more than [`MAX_FRAME_LENGTH`] bytes
/// is rejected, whatever follows the length field; a shorter buffer than
/// announced is reported as truncated.  The buffer itself is never touched.
pub fn deframe(bytes: &[u8]) -> (r: Result<(Vec<u8>, usize), ProtocolError>)
    ensures
        match r {
            Ok((payload, end)) => {
                &&& payload@.len() <= MAX_FRAME_LENGTH
                &&& end == 2 + payload@.len()
                &&& end <= bytes@.len()
                &&& bytes@.subrange(0, end as int) == spec_frame(payload@)
            },
            Err(ProtocolError::Oversize) => bytes@.len() >= 2 && spec_u16_from_le_bytes(
                bytes@.subrange(0, 2),
            ) > MAX_FRAME_LENGTH,
            Err(ProtocolError::Truncated) => bytes@.len() < 2 || (spec_u16_from_le_bytes(
                bytes@.subrange(0, 2),
            ) <= MAX_FRAME_LENGTH && bytes@.len() < 2 + spec_u16_from_le_bytes(
                bytes@.subrange(0, 2),
            )),
            Err(ProtocolError::Malformed) => false,
        },
{
    if bytes.len() < 2 {
        return Err(ProtocolError::Truncated);
    }
    let head = slice_subrange(bytes, 0, 2);
    let n = u16_from_le_bytes(head) as usize;
    if n > MAX_FRAME_LENGTH {
        return Err(ProtocolError::Oversize);
    }
    if bytes.len() - 2 < n {
        return Err(ProtocolError::Truncated);
    }
    let payload = slice_to_vec(slice_subrange(bytes, 2, 2 + n));
    proof {
        lemma_auto_spec_u16_to_from_le_bytes();
        assert(bytes@.subrange(0, 2 + n as int) =~= spec_u16_to_le_bytes(n as u16)
            + bytes@.subrange(2, 2 + n as int));
    }
    Ok((payload, 2 + n))
}

// ---------------------------------------------------------------------------
// Decoding inverts encoding
// ---------------------------------------------------------------------------

/// Whether a string's encoding fits its 64-bit length field.  Every string
/// a program can hold does; only unbounded mathematical strings do not.
pub open spec fn str_fits(s: Seq<char>) -> bool {
    encode_utf8(s).len() <= u64::MAX
}

pub open spec fn str_seq_fits(l: Seq<Seq<char>>) -> bool {
    l.len() <= u64::MAX && forall|i: int| 0 <= i < l.len() ==> str_fits(#[trigger] l[i])
}

pub open spec fn open_file_fits(f: OpenFileV) -> bool {
    str_fits(f.path) && f.fds.len() <= u64::MAX
}

pub open spec fn open_file_seq_fits(l: Seq<OpenFileV>) -> bool {
    l.len() <= u64::MAX && forall|i: int| 0 <= i < l.len() ==> open_file_fits(#[trigger] l[i])
}

pub open spec fn command_fits(c: ExecuteCommandV) -> bool {
    &&& str_fits(c.file)
    &&& str_seq_fits(c.args)
    &&& str_seq_fits(c.envs)
    &&& str_fits(c.working_dir)
    &&& open_file_seq_fits(c.open_files)
    &&& (c.cgroup_file matches Some(p) ==> str_fits(p))
}

pub open spec fn request_fits(r: RequestV) -> bool {
    match r {
        RequestV::Execute(c) => command_fits(c),
        RequestV::Cleanup => true,
    }
}

proof fn lemma_str_seq_round_trip(l: Seq<Seq<char>>, rest: Seq<u8>)
    requires
        forall|i: int| 0 <= i < l.len() ==> str_fits(#[trigger] l[i]),
    ensures
        spec_decode_str_seq(spec_encode_str_seq(l) + rest, l.len()) == Some::<
            (Seq<Seq<char>>, int),
        >((l, spec_encode_str_seq(l).len() as int)),
    decreases l.len(),
{
    if l.len() == 0 {
        assert(spec_encode_str_seq(l) + rest =~= rest);
        assert(l =~= Seq::<Seq<char>>::empty());
    } else {
        let head_enc = spec_encode_str(l[0]);
        let tail = l.drop_first();
        let tail_enc = spec_encode_str_seq(tail);
        let whole = spec_encode_str_seq(l) + rest;
        assert(whole =~= head_enc + (tail_enc + rest));
        lemma_str_round_trip(l[0], tail_enc + rest);
        assert(whole.skip(head_enc.len() as int) =~= tail_enc + rest);
        assert(forall|i: int| 0 <= i < tail.len() ==> str_fits(#[trigger] tail[i])) by {
            assert(forall|i: int| 0 <= i < tail.len() ==> #[trigger] tail[i] == l[i + 1]);
        }
        lemma_str_seq_round_trip(tail, rest);
        assert(seq![l[0]] + tail =~= l);
    }
}

proof fn lemma_str_list_round_trip(l: Seq<Seq<char>>, rest: Seq<u8>)
    requires
        str_seq_fits(l),
    ensures
        spec_decode_str_list(spec_encode_str_list(l) + rest) == Some::<(Seq<Seq<char>>, int)>((
            l,
            spec_encode_str_list(l).len() as int,
        )),
{
    let seq_enc = spec_encode_str_seq(l);
    let whole = spec_encode_str_list(l) + rest;
    assert(whole =~= spec_u64_to_le_bytes(l.len() as u64) + (seq_enc + rest));
    lemma_u64_round_trip(l.len() as u64, seq_enc + rest);
    assert(whole.skip(8) =~= seq_enc + rest);
    lemma_str_seq_round_trip(l, rest);
}

proof fn lemma_i32_seq_round_trip(l: Seq<i32>, rest: Seq<u8>)
    ensures
        spec_decode_i32_seq(spec_encode_i32_seq(l) + rest, l.len()) == Some::<(Seq<i32>, int)>((
            l,
            spec_encode_i32_seq(l).len() as int,
        )),
    decreases l.len(),
{
    if l.len() == 0 {
        assert(spec_encode_i32_seq(l) + rest =~= rest);
        assert(l =~= Seq::<i32>::empty());
    } else {
        let head_enc = spec_encode_i32(l[0]);
        let tail = l.drop_first();
        let tail_enc = spec_encode_i32_seq(tail);
        let whole = spec_encode_i32_seq(l) + rest;
        assert(whole =~= head_enc + (tail_enc + rest));
        lemma_i32_round_trip(l[0], tail_enc + rest);
        assert(whole.skip(head_enc.len() as int) =~= tail_enc + rest);
        lemma_i32_seq_round_trip(tail, rest);
        assert(seq![l[0]] + tail =~= l);
    }
}

proof fn lemma_i32_list_round_trip(l: Seq<i32>, rest: Seq<u8>)
    requires
        l.len() <= u64::MAX,
    ensures
        spec_decode_i32_list(spec_encode_i32_list(l) + rest) == Some::<(Seq<i32>, int)>((
            l,
            spec_encode_i32_list(l).len() as int,
        )),
{
    let seq_enc = spec_encode_i32_seq(l);
    let whole = spec_encode_i32_list(l) + rest;
    assert(whole =~= spec_u64_to_le_bytes(l.len() as u64) + (seq_enc + rest));
    lemma_u64_round_trip(l.len() as u64, seq_enc + rest);
    assert(whole.skip(8) =~= seq_enc + rest);
    lemma_i32_seq_round_trip(l, rest);
}

proof fn lemma_mode_round_trip(m: FileMode, rest: Seq<u8>)
    ensures
        spec_decode_mode(spec_encode_mode(m) + rest) == Some::<(FileMode, int)>((
            m,
            spec_encode_mode(m).len() as int,
        )),
{
    match m {
        FileMode::ReadOnly => lemma_u32_round_trip(0, rest),
        FileMode::WriteOnly => lemma_u32_round_trip(1, rest),
    }
}

proof fn lemma_open_file_round_trip(f: OpenFileV, rest: Seq<u8>)
    requires
        open_file_fits(f),
    ensures
        spec_decode_open_file(spec_encode_open_file(f) + rest) == Some::<(OpenFileV, int)>((
            f,
            spec_encode_open_file(f).len() as int,
        )),
{
    let path_enc = spec_encode_str(f.path);
    let fds_enc = spec_encode_i32_list(f.fds);
    let mode_enc = spec_encode_mode(f.mode);
    let whole = spec_encode_open_file(f) + rest;
    assert(whole =~= path_enc + (fds_enc + (mode_enc + rest)));
    lemma_str_round_trip(f.path, fds_enc + (mode_enc + rest));
    assert(whole.skip(path_enc.len() as int) =~= fds_enc + (mode_enc + rest));
    lemma_i32_list_round_trip(f.fds, mode_enc + rest);
    assert(whole.skip((path_enc.len() + fds_enc.len()) as int) =~= mode_enc + rest);
    lemma_mode_round_trip(f.mode, rest);
}

proof fn lemma_open_file_seq_round_trip(l: Seq<OpenFileV>, rest: Seq<u8>)
    requires
        forall|i: int| 0 <= i < l.len() ==> open_file_fits(#[trigger] l[i]),
    ensures
        spec_decode_open_file_seq(spec_encode_open_file_seq(l) + rest, l.len()) == Some::<
            (Seq<OpenFileV>, int),
        >((l, spec_encode_open_file_seq(l).len() as int)),
    decreases l.len(),
{
    if l.len() == 0 {
        assert(spec_encode_open_file_seq(l) + rest =~= rest);
        assert(l =~= Seq::<OpenFileV>::empty());
    } else {
        let head_enc = spec_encode_open_file(l[0]);
        let tail = l.drop_first();
        let tail_enc = spec_encode_open_file_seq(tail);
        let whole = spec_encode_open_file_seq(l) + rest;
        assert(whole =~= head_enc + (tail_enc + rest));
        lemma_open_file_round_trip(l[0], tail_enc + rest);
        assert(whole.skip(head_enc.len() as int) =~= tail_enc + rest);
        assert(forall|i: int| 0 <= i < tail.len() ==> open_file_fits(#[trigger] tail[i])) by {
            assert(forall|i: int| 0 <= i < tail.len() ==> #[trigger] tail[i] == l[i + 1]);
        }
        lemma_open_file_seq_round_trip(tail, rest);
        assert(seq![l[0]] + tail =~= l);
    }
}

proof fn lemma_open_file_list_round_trip(l: Seq<OpenFileV>, rest: Seq<u8>)
    requires
        open_file_seq_fits(l),
    ensures
        spec_decode_open_file_list(spec_encode_open_file_list(l) + rest) == Some::<
            (Seq<OpenFileV>, int),
        >((l, spec_encode_open_file_list(l).len() as int)),
{
    let seq_enc = spec_encode_open_file_seq(l);
    let whole = spec_encode_open_file_list(l) + rest;
    assert(whole =~= spec_u64_to_le_bytes(l.len() as u64) + (seq_enc + rest));
    lemma_u64_round_trip(l.len() as u64, seq_enc + rest);
    assert(whole.skip(8) =~= seq_enc + rest);
    lemma_open_file_seq_round_trip(l, rest);
}

proof fn lemma_opt_str_round_trip(o: Option<Seq<char>>, rest: Seq<u8>)
    requires
        o matches Some(s) ==> str_fits(s),
    ensures
        spec_decode_opt_str(spec_encode_opt_str(o) + rest) == Some::<(Option<Seq<char>>, int)>((
            o,
            spec_encode_opt_str(o).len() as int,
        )),
{
    match o {
        None => {
            assert((spec_encode_opt_str(o) + rest)[0] == 0u8);
        },
        Some(s) => {
            let whole = spec_encode_opt_str(o) + rest;
            assert(whole[0] == 1u8);
            assert(whole.skip(1) =~= spec_encode_str(s) + rest);
            lemma_str_round_trip(s, rest);
        },
    }
}

#[verifier::spinoff_prover]
#[verifier::rlimit(60)]
proof fn lemma_command_round_trip(c: ExecuteCommandV, rest: Seq<u8>)
    requires
        command_fits(c),
    ensures
        spec_decode_command(spec_encode_command(c) + rest) == Some::<(ExecuteCommandV, int)>((
            c,
            spec_encode_command(c).len() as int,
        )),
{
    let e1 = spec_encode_str(c.file);
    let e2 = spec_encode_str_list(c.args);
    let e3 = spec_encode_str_list(c.envs);
    let e4 = spec_encode_str(c.working_dir);
    let e5 = spec_encode_open_file_list(c.open_files);
    let e6 = spec_encode_opt_str(c.cgroup_file);
    let whole = spec_encode_command(c) + rest;
    assert(whole =~= e1 + (e2 + (e3 + (e4 + (e5 + (e6 + rest))))));
    lemma_str_round_trip(c.file, e2 + (e3 + (e4 + (e5 + (e6 + rest)))));
    assert(whole.skip(e1.len() as int) =~= e2 + (e3 + (e4 + (e5 + (e6 + rest)))));
    lemma_str_list_round_trip(c.args, e3 + (e4 + (e5 + (e6 + rest))));
    assert(whole.skip((e1.len() + e2.len()) as int) =~= e3 + (e4 + (e5 + (e6 + rest))));
    lemma_str_list_round_trip(c.envs, e4 + (e5 + (e6 + rest)));
    assert(whole.skip((e1.len() + e2.len() + e3.len()) as int) =~= e4 + (e5 + (e6 + rest)));
    lemma_str_round_trip(c.working_dir, e5 + (e6 + rest));
    assert(whole.skip((e1.len() + e2.len() + e3.len() + e4.len()) as int) =~= e5 + (e6 + rest));
    lemma_open_file_list_round_trip(c.open_files, e6 + rest);
    assert(whole.skip((e1.len() + e2.len() + e3.len() + e4.len() + e5.len()) as int) =~= e6 + rest);
    lemma_opt_str_round_trip(c.cgroup_file, rest);
}

/// Decoding a request's encoding yields the request back, whole: the wire
/// codec loses nothing on the way in.
pub proof fn lemma_request_round_trip(r: RequestV)
    requires
        request_fits(r),
    ensures
        spec_decode_request(spec_encode_request(r)) == Some::<(RequestV, int)>((
            r,
            spec_encode_request(r).len() as int,
        )),
{
    match r {
        RequestV::Execute(c) => {
            let whole = spec_encode_request(r) + Seq::<u8>::empty();
            assert(spec_encode_request(r) =~= whole);
            assert(whole =~= spec_u32_to_le_bytes(0) + (spec_encode_command(c)
                + Seq::<u8>::empty()));
            lemma_u32_round_trip(0, spec_encode_command(c) + Seq::<u8>::empty());
            assert(whole.skip(4) =~= spec_encode_command(c) + Seq::<u8>::empty());
            lemma_command_round_trip(c, Seq::<u8>::empty());
            assert(spec_encode_command(c) + Seq::<u8>::empty() =~= spec_encode_command(c));
        },
        RequestV::Cleanup => {
            lemma_u32_round_trip(1, Seq::<u8>::empty());
            assert(spec_u32_to_le_bytes(1) + Seq::<u8>::empty() =~= spec_encode_request(r));
        },
    }
}

/// Decoding an execute result's encoding yields the result back: the wire
/// codec loses nothing on the way out either.
pub proof fn lemma_result_round_trip(r: ExecuteResult)
    ensures
        spec_decode_result(spec_encode_result(r)) == Some::<(ExecuteResult, int)>((
            r,
            spec_encode_result(r).len() as int,
        )),
{
    match r {
        Ok(status) => {
            let whole = spec_encode_result(r);
            assert(whole =~= spec_u32_to_le_bytes(0) + (spec_encode_i32(status)
                + Seq::<u8>::empty()));
            lemma_u32_round_trip(0, spec_encode_i32(status) + Seq::<u8>::empty());
            assert(whole.skip(4) =~= spec_encode_i32(status) + Seq::<u8>::empty());
            lemma_i32_round_trip(status, Seq::<u8>::empty());
            assert(spec_encode_i32(status) + Seq::<u8>::empty() =~= spec_encode_i32(status));
        },
        Err(ExecuteError::Signaled(sig)) => {
            let whole = spec_encode_result(r);
            assert(whole =~= spec_u32_to_le_bytes(1) + (spec_encode_i32(sig)
                + Seq::<u8>::empty()));
            lemma_u32_round_trip(1, spec_encode_i32(sig) + Seq::<u8>::empty());
            assert(whole.skip(4) =~= spec_encode_i32(sig) + Seq::<u8>::empty());
            lemma_i32_round_trip(sig, Seq::<u8>::empty());
            assert(spec_encode_i32(sig) + Seq::<u8>::empty() =~= spec_encode_i32(sig));
        },
    }
}

/// What reading one framed request off the front of a byte stream yields:
/// the decoded request and the bytes consumed, or the protocol violation.
pub open spec fn spec_read_request(s: Seq<u8>) -> Result<(RequestV, int), ProtocolError> {
    if s.len() < 2 {
        Err(ProtocolError::Truncated)
    } else {
        let n = spec_u16_from_le_bytes(s.subrange(0, 2)) as int;
        if n > MAX_FRAME_LENGTH {
            Err(ProtocolError::Oversize)
        } else if s.len() < 2 + n {
            Err(ProtocolError::Truncated)
        } else {
            match spec_decode_request(s.subrange(2, 2 + n)) {
                Some((v, m)) => {
                    if m == n {
                        Ok((v, 2 + n))
                    } else {
                        Err(ProtocolError::Malformed)
                    }
                },
                None => Err(ProtocolError::Malformed),
            }
        }
    }
}

/// Reads one framed request off the front of `bytes`: deframes, refuses
/// oversize and short frames, and decodes the payload.
pub fn read_request(bytes: &[u8]) -> (r: Result<(Request, usize), ProtocolError>)
    ensures
        match r {
            Ok((req, end)) => spec_read_request(bytes@) matches Ok(p) && p.0 == req@ && p.1
                == end,
            Err(e) => spec_read_request(bytes@) == Err::<(RequestV, int), ProtocolError>(e),
        },
{
    match deframe(bytes) {
        Err(e) => Err(e),
        Ok((payload, end)) => {
            proof {
                lemma_auto_spec_u16_to_from_le_bytes();
                assert(bytes@.subrange(0, 2) =~= spec_frame(payload@).subrange(0, 2));
                assert(bytes@.subrange(2, 2 + payload@.len() as int) =~= spec_frame(
                    payload@,
                ).subrange(2, 2 + payload@.len() as int));
                assert(spec_frame(payload@).subrange(2, 2 + payload@.len() as int)
                    =~= payload@);
                assert(spec_frame(payload@).subrange(0, 2) =~= spec_u16_to_le_bytes(
                    payload@.len() as u16,
                ));
            }
            match decode_request(payload.as_slice()) {
                Some(req) => Ok((req, end)),
                None => Err(ProtocolError::Malformed),
            }
        },
    }
}

/// What reading one framed execute result yields, seen from the
/// controller's side of the socket.
pub open spec fn spec_read_result(s: Seq<u8>) -> Result<(ExecuteResult, int), ProtocolError> {
    if s.len() < 2 {
        Err(ProtocolError::Truncated)
    } else {
        let n = spec_u16_from_le_bytes(s.subrange(0, 2)) as int;
        if n > MAX_FRAME_LENGTH {
            Err(ProtocolError::Oversize)
        } else if s.len() < 2 + n {
            Err(ProtocolError::Truncated)
        } else {
            match spec_decode_result(s.subrange(2, 2 + n)) {
                Some((v, m)) => {
                    if m == n {
                        Ok((v, 2 + n))
                    } else {
                        Err(ProtocolError::Malformed)
                    }
                },
                None => Err(ProtocolError::Malformed),
            }
        }
    }
}

/// Reads one framed execute result off the front of `bytes`.
pub fn read_result(bytes: &[u8]) -> (r: Result<(ExecuteResult, usize), ProtocolError>)
    ensures
        match r {
            Ok((res, end)) => spec_read_result(bytes@) matches Ok(p) && p.0 == res && p.1
                == end,
            Err(e) => spec_read_result(bytes@) == Err::<(ExecuteResult, int), ProtocolError>(e),
        },
{
    match deframe(bytes) {
        Err(e) => Err(e),
        Ok((payload, end)) => {
            proof {
                lemma_auto_spec_u16_to_from_le_bytes();
                assert(bytes@.subrange(0, 2) =~= spec_frame(payload@).subrange(0, 2));
                assert(bytes@.subrange(2, 2 + payload@.len() as int) =~= spec_frame(
                    payload@,
                ).subrange(2, 2 + payload@.len() as int));
                assert(spec_frame(payload@).subrange(2, 2 + payload@.len() as int)
                    =~= payload@);
                assert(spec_frame(payload@).subrange(0, 2) =~= spec_u16_to_le_bytes(
                    payload@.len() as u16,
                ));
            }
            match decode_result(payload.as_slice()) {
                Some(res) => Ok((res, end)),
                None => Err(ProtocolError::Malformed),
            }
        },
    }
}

/// A request that fits one frame survives the whole path: encoded, framed,
/// deframed and decoded, it is the same request, whole.
pub proof fn lemma_framed_request_round_trip(r: RequestV)
    requires
        request_fits(r),
        spec_encode_request(r).len() <= MAX_FRAME_LENGTH,
    ensures
        spec_read_request(spec_frame(spec_encode_request(r))) == Ok::<
            (RequestV, int),
            ProtocolError,
        >((r, 2 + spec_encode_request(r).len() as int)),
{
    lemma_auto_spec_u16_to_from_le_bytes();
    let payload = spec_encode_request(r);
    let framed = spec_frame(payload);
    assert(framed.subrange(0, 2) =~= spec_u16_to_le_bytes(payload.len() as u16));
    assert(framed.subrange(2, 2 + payload.len() as int) =~= payload);
    lemma_request_round_trip(r);
}

/// An execute result survives the whole path in the same way.
pub proof fn lemma_framed_result_round_trip(r: ExecuteResult)
    requires
        spec_encode_result(r).len() <= MAX_FRAME_LENGTH,
    ensures
        spec_read_result(spec_frame(spec_encode_result(r))) == Ok::<
            (ExecuteResult, int),
            ProtocolError,
        >((r, 2 + spec_encode_result(r).len() as int)),
{
    lemma_auto_spec_u16_to_from_le_bytes();
    let payload = spec_encode_result(r);
    let framed = spec_frame(payload);
    assert(framed.subrange(0, 2) =~= spec_u16_to_le_bytes(payload.len() as u16));
    assert(framed.subrange(2, 2 + payload.len() as int) =~= payload);
    lemma_result_round_trip(r);
}

/// Framing a payload and reading the frame back yields the payload.
pub proof fn lemma_frame_round_trip(payload: Seq<u8>, rest: Seq<u8>)
    requires
        payload.len() <= MAX_FRAME_LENGTH,
    ensures
        (spec_frame(payload) + rest).subrange(0, 2 + payload.len() as int) == spec_frame(payload),
        spec_u16_from_le_bytes((spec_frame(payload) + rest).subrange(0, 2)) == payload.len(),
{
    lemma_auto_spec_u16_to_from_le_bytes();
    let whole = spec_frame(payload) + rest;
    assert(whole.subrange(0, 2) =~= spec_u16_to_le_bytes(payload.len() as u16));
    assert(whole.subrange(0, 2 + payload.len() as int) =~= spec_frame(payload));
}

} // verus!
