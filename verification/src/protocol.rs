//! The framed request/response protocol between the in-process module and
//! the privileged worker. Every message is a 4-byte little-endian length
//! followed by a payload; the payload is a tagged document carrying either
//! an `Apply` or a `Restore` request, or a status/message/backups response.
//! Encoding and decoding are inverse on well-formed messages.

use vstd::prelude::*;
use vstd::bytes::{
    lemma_auto_spec_u32_to_from_le_bytes, spec_u32_from_le_bytes, spec_u32_to_le_bytes,
    u32_from_le_bytes, u32_to_le_bytes,
};
use vstd::slice::slice_subrange;
use vstd::utf8::{decode_utf8, encode_utf8, encode_utf8_decode_utf8, encode_utf8_valid_utf8,
    valid_utf8};
use crate::attrs::{AttributeMap, keys_distinct, spec_get, lemma_spec_get_characterizes};
use crate::text::string_from_utf8;

verus! {

/// The request tag for a privileged mutation with backups.
pub const APPLY_TAG: u8 = 1;

/// The request tag for replaying recorded values.
pub const RESTORE_TAG: u8 = 2;

/// A request to mutate attributes for the given requesting process,
/// recording pre-mutation backups.
pub struct ResetpropSessionRequest {
    pub pid: u32,
    pub props: AttributeMap,
}

/// A request to replay the given values directly, without read-before-write.
pub struct RestoreRequest {
    pub props: AttributeMap,
}

/// The tagged request union carried by the channel.
pub enum CompanionRequest {
    Apply(ResetpropSessionRequest),
    Restore(RestoreRequest),
}

/// The response document: status 0 means success; failure carries a
/// message; a successful mutation echoes the backups.
pub struct CompanionResponse {
    pub status: i32,
    pub message: Option<String>,
    pub backups: Option<AttributeMap>,
}

/// A request at specification level.
pub enum SpecRequest {
    Apply { pid: u32, props: Seq<(Seq<char>, Seq<char>)> },
    Restore { props: Seq<(Seq<char>, Seq<char>)> },
}

/// A response at specification level.
pub struct SpecResponse {
    pub status: int,
    pub message: Option<Seq<char>>,
    pub backups: Option<Seq<(Seq<char>, Seq<char>)>>,
}

impl View for CompanionRequest {
    type V = SpecRequest;

    open spec fn view(&self) -> SpecRequest {
        match self {
            CompanionRequest::Apply(a) => SpecRequest::Apply { pid: a.pid, props: a.props@ },
            CompanionRequest::Restore(r) => SpecRequest::Restore { props: r.props@ },
        }
    }
}

impl View for CompanionResponse {
    type V = SpecResponse;

    open spec fn view(&self) -> SpecResponse {
        SpecResponse {
            status: self.status as int,
            message: match &self.message {
                Some(s) => Some(s@),
                None => None,
            },
            backups: match &self.backups {
                Some(b) => Some(b@),
                None => None,
            },
        }
    }
}

impl CompanionRequest {
    /// The carried attribute map has distinct keys.
    pub open spec fn wf(&self) -> bool {
        match self {
            CompanionRequest::Apply(a) => a.props.wf(),
            CompanionRequest::Restore(r) => r.props.wf(),
        }
    }
}

impl CompanionResponse {
    /// The library only produces status 0 (success) and -1 (failure); a
    /// carried backup map has distinct keys.
    pub open spec fn wf(&self) -> bool {
        &&& (self.status == 0 || self.status == -1)
        &&& match &self.backups {
            Some(b) => b.wf(),
            None => true,
        }
    }

    /// A bare success.
    pub fn ok() -> (r: CompanionResponse)
        ensures
            r@.status == 0,
            r@.message is None,
            r@.backups is None,
            r.wf(),
    {
        CompanionResponse { status: 0, message: None, backups: None }
    }

    /// A failure carrying its message.
    pub fn err(msg: String) -> (r: CompanionResponse)
        ensures
            r@.status == -1,
            r@.message == Some(msg@),
            r@.backups is None,
            r.wf(),
    {
        CompanionResponse { status: -1, message: Some(msg), backups: None }
    }

    /// A success echoing the recorded backups.
    pub fn ok_with_backups(backups: AttributeMap) -> (r: CompanionResponse)
        requires
            backups.wf(),
        ensures
            r@.status == 0,
            r@.message is None,
            r@.backups == Some(backups@),
            r.wf(),
    {
        CompanionResponse { status: 0, message: None, backups: Some(backups) }
    }
}

/// Why a payload was rejected.
#[derive(Clone, Copy, PartialEq, Eq, Structural, Debug)]
pub enum DecodeError {
    /// The payload ends before the structure it announces.
    Truncated,
    /// The leading request tag is unknown.
    BadTag,
    /// The response status byte is unknown.
    BadStatus,
    /// An optional-field marker is neither absent nor present.
    BadFlag,
    /// A string field is not valid UTF-8.
    BadText,
    /// An attribute map repeats a key.
    DuplicateKey,
    /// Bytes remain after the document.
    Trailing,
}

// ---------------------------------------------------------------------------
// Specification-level serialization
// ---------------------------------------------------------------------------

/// A string's encoding fits its 32-bit length prefix.
pub open spec fn str_fits(s: Seq<char>) -> bool {
    encode_utf8(s).len() <= u32::MAX
}

/// One length-prefixed string.
pub open spec fn spec_str_bytes(s: Seq<char>) -> Seq<u8> {
    spec_u32_to_le_bytes(encode_utf8(s).len() as u32) + encode_utf8(s)
}

/// The entries of a map, each a key string then a value string.
pub open spec fn spec_entries_bytes(m: Seq<(Seq<char>, Seq<char>)>) -> Seq<u8>
    decreases m.len(),
{
    if m.len() == 0 {
        Seq::empty()
    } else {
        spec_str_bytes(m[0].0) + spec_str_bytes(m[0].1) + spec_entries_bytes(m.drop_first())
    }
}

/// An attribute map: an entry count, then the entries in order.
pub open spec fn spec_map_bytes(m: Seq<(Seq<char>, Seq<char>)>) -> Seq<u8> {
    spec_u32_to_le_bytes(m.len() as u32) + spec_entries_bytes(m)
}

pub open spec fn entries_fit(m: Seq<(Seq<char>, Seq<char>)>) -> bool {
    forall|i: int|
        0 <= i < m.len() ==> str_fits((#[trigger] m[i]).0) && str_fits(m[i].1)
}

pub open spec fn map_fits(m: Seq<(Seq<char>, Seq<char>)>) -> bool {
    m.len() <= u32::MAX && entries_fit(m)
}

/// A request payload: a tag, for `Apply` the requesting process id, then
/// the attribute map.
pub open spec fn spec_request_bytes(r: SpecRequest) -> Seq<u8> {
    match r {
        SpecRequest::Apply { pid, props } => seq![APPLY_TAG] + spec_u32_to_le_bytes(pid)
            + spec_map_bytes(props),
        SpecRequest::Restore { props } => seq![RESTORE_TAG] + spec_map_bytes(props),
    }
}

pub open spec fn request_fits(r: SpecRequest) -> bool {
    match r {
        SpecRequest::Apply { pid, props } => map_fits(props),
        SpecRequest::Restore { props } => map_fits(props),
    }
}

/// A request both sides of the channel can carry faithfully.
pub open spec fn request_valid(r: SpecRequest) -> bool {
    match r {
        SpecRequest::Apply { pid, props } => map_fits(props) && keys_distinct(props),
        SpecRequest::Restore { props } => map_fits(props) && keys_distinct(props),
    }
}

pub open spec fn spec_status_byte(status: int) -> u8 {
    if status == 0 {
        0
    } else {
        1
    }
}

pub open spec fn spec_opt_str_bytes(o: Option<Seq<char>>) -> Seq<u8> {
    match o {
        None => seq![0u8],
        Some(s) => seq![1u8] + spec_str_bytes(s),
    }
}

pub open spec fn spec_opt_map_bytes(o: Option<Seq<(Seq<char>, Seq<char>)>>) -> Seq<u8> {
    match o {
        None => seq![0u8],
        Some(m) => seq![1u8] + spec_map_bytes(m),
    }
}

/// A response payload: the status, the optional message, the optional
/// backup map.
pub open spec fn spec_response_bytes(r: SpecResponse) -> Seq<u8> {
    seq![spec_status_byte(r.status)] + spec_opt_str_bytes(r.message) + spec_opt_map_bytes(
        r.backups,
    )
}

pub open spec fn response_fits(r: SpecResponse) -> bool {
    &&& match r.message {
        Some(s) => str_fits(s),
        None => true,
    }
    &&& match r.backups {
        Some(m) => map_fits(m),
        None => true,
    }
}

/// A response both sides of the channel can carry faithfully.
pub open spec fn response_valid(r: SpecResponse) -> bool {
    &&& (r.status == 0 || r.status == -1)
    &&& response_fits(r)
    &&& match r.backups {
        Some(m) => keys_distinct(m),
        None => true,
    }
}

// ---------------------------------------------------------------------------
// Specification-level parsing
// ---------------------------------------------------------------------------

/// Parses one length-prefixed string, returning it and the remaining bytes.
pub open spec fn spec_parse_str(b: Seq<u8>) -> Result<(Seq<char>, Seq<u8>), DecodeError> {
    if b.len() < 4 {
        Err(DecodeError::Truncated)
    } else {
        let n = spec_u32_from_le_bytes(b.take(4)) as int;
        if b.len() < 4 + n {
            Err(DecodeError::Truncated)
        } else {
            let raw = b.subrange(4, 4 + n);
            if valid_utf8(raw) {
                Ok((decode_utf8(raw), b.skip(4 + n)))
            } else {
                Err(DecodeError::BadText)
            }
        }
    }
}

/// Parses `n` key/value entries, rejecting repeated keys.
pub open spec fn spec_parse_entries(b: Seq<u8>, n: nat, acc: Seq<(Seq<char>, Seq<char>)>) -> Result<
    (Seq<(Seq<char>, Seq<char>)>, Seq<u8>),
    DecodeError,
>
    decreases n,
{
    if n == 0 {
        Ok((acc, b))
    } else {
        match spec_parse_str(b) {
            Err(e) => Err(e),
            Ok((k, b1)) => match spec_parse_str(b1) {
                Err(e) => Err(e),
                Ok((v, b2)) => if spec_get(acc, k) is Some {
                    Err(DecodeError::DuplicateKey)
                } else {
                    spec_parse_entries(b2, (n - 1) as nat, acc.push((k, v)))
                },
            },
        }
    }
}

/// Parses one attribute map.
pub open spec fn spec_parse_map(b: Seq<u8>) -> Result<
    (Seq<(Seq<char>, Seq<char>)>, Seq<u8>),
    DecodeError,
> {
    if b.len() < 4 {
        Err(DecodeError::Truncated)
    } else {
        spec_parse_entries(b.skip(4), spec_u32_from_le_bytes(b.take(4)) as nat, Seq::empty())
    }
}

/// Parses a whole request payload; trailing bytes are rejected.
pub open spec fn spec_parse_request(b: Seq<u8>) -> Result<SpecRequest, DecodeError> {
    if b.len() < 1 {
        Err(DecodeError::Truncated)
    } else if b[0] == APPLY_TAG {
        if b.len() < 5 {
            Err(DecodeError::Truncated)
        } else {
            match spec_parse_map(b.skip(5)) {
                Err(e) => Err(e),
                Ok((props, rest)) => if rest.len() == 0 {
                    Ok(SpecRequest::Apply { pid: spec_u32_from_le_bytes(b.subrange(1, 5)), props })
                } else {
                    Err(DecodeError::Trailing)
                },
            }
        }
    } else if b[0] == RESTORE_TAG {
        match spec_parse_map(b.skip(1)) {
            Err(e) => Err(e),
            Ok((props, rest)) => if rest.len() == 0 {
                Ok(SpecRequest::Restore { props })
            } else {
                Err(DecodeError::Trailing)
            },
        }
    } else {
        Err(DecodeError::BadTag)
    }
}

pub open spec fn spec_parse_opt_str(b: Seq<u8>) -> Result<
    (Option<Seq<char>>, Seq<u8>),
    DecodeError,
> {
    if b.len() < 1 {
        Err(DecodeError::Truncated)
    } else if b[0] == 0 {
        Ok((None, b.skip(1)))
    } else if b[0] == 1 {
        match spec_parse_str(b.skip(1)) {
            Err(e) => Err(e),
            Ok((s, rest)) => Ok((Some(s), rest)),
        }
    } else {
        Err(DecodeError::BadFlag)
    }
}

pub open spec fn spec_parse_opt_map(b: Seq<u8>) -> Result<
    (Option<Seq<(Seq<char>, Seq<char>)>>, Seq<u8>),
    DecodeError,
> {
    if b.len() < 1 {
        Err(DecodeError::Truncated)
    } else if b[0] == 0 {
        Ok((None, b.skip(1)))
    } else if b[0] == 1 {
        match spec_parse_map(b.skip(1)) {
            Err(e) => Err(e),
            Ok((m, rest)) => Ok((Some(m), rest)),
        }
    } else {
        Err(DecodeError::BadFlag)
    }
}

/// Parses a whole response payload; trailing bytes are rejected.
pub open spec fn spec_parse_response(b: Seq<u8>) -> Result<SpecResponse, DecodeError> {
    if b.len() < 1 {
        Err(DecodeError::Truncated)
    } else if b[0] != 0 && b[0] != 1 {
        Err(DecodeError::BadStatus)
    } else {
        let status: int = if b[0] == 0 {
            0
        } else {
            -1
        };
        match spec_parse_opt_str(b.skip(1)) {
            Err(e) => Err(e),
            Ok((message, b1)) => match spec_parse_opt_map(b1) {
                Err(e) => Err(e),
                Ok((backups, rest)) => if rest.len() == 0 {
                    Ok(SpecResponse { status, message, backups })
                } else {
                    Err(DecodeError::Trailing)
                },
            },
        }
    }
}

// ---------------------------------------------------------------------------
// Encoding
// ---------------------------------------------------------------------------

/// Appends one length-prefixed string; fails only on a string whose
/// encoding overflows the length prefix.
fn encode_str_into(out: &mut Vec<u8>, s: &String) -> (ok: bool)
    ensures
        ok ==> final(out)@ == old(out)@ + spec_str_bytes(s@) && str_fits(s@),
        !ok ==> !str_fits(s@),
{
    let bytes = s.as_str().as_bytes();
    let n = bytes.len();
    if n > u32::MAX as usize {
        return false;
    }
    let ghost before = out@;
    let mut len_bytes = u32_to_le_bytes(n as u32);
    out.append(&mut len_bytes);
    out.extend_from_slice(bytes);
    proof {
        assert(out@ =~= before + spec_str_bytes(s@));
    }
    true
}

/// Appends one attribute map: the entry count, then every entry in order.
fn encode_map_into(out: &mut Vec<u8>, m: &AttributeMap) -> (ok: bool)
    ensures
        ok ==> final(out)@ == old(out)@ + spec_map_bytes(m@) && map_fits(m@),
        !ok ==> !map_fits(m@),
{
    let n = m.len();
    if n > u32::MAX as usize {
        return false;
    }
    let ghost base = out@ + spec_u32_to_le_bytes(n as u32);
    let mut len_bytes = u32_to_le_bytes(n as u32);
    out.append(&mut len_bytes);
    let mut i: usize = 0;
    while i < n
        invariant
            n == m@.len(),
            i <= n,
            out@ == base + spec_entries_bytes(m@.take(i as int)),
            forall|j: int|
                0 <= j < i ==> str_fits((#[trigger] m@[j]).0) && str_fits(m@[j].1),
        decreases n - i,
    {
        if !encode_str_into(out, m.key_at(i)) {
            return false;
        }
        if !encode_str_into(out, m.value_at(i)) {
            return false;
        }
        proof {
            assert(m@.take(i + 1) =~= m@.take(i as int).push(m@[i as int]));
            lemma_entries_bytes_snoc(m@.take(i as int), m@[i as int]);
        }
        i = i + 1;
    }
    proof {
        assert(m@.take(n as int) =~= m@);
    }
    true
}

/// Splitting the last entry off an entry sequence splits its encoding.
proof fn lemma_entries_bytes_snoc(s: Seq<(Seq<char>, Seq<char>)>, p: (Seq<char>, Seq<char>))
    ensures
        spec_entries_bytes(s.push(p)) == spec_entries_bytes(s) + spec_str_bytes(p.0)
            + spec_str_bytes(p.1),
    decreases s.len(),
{
    if s.len() == 0 {
        let sp = s.push(p);
        assert(sp[0] == p);
        assert(sp.drop_first() =~= s);
        assert(spec_entries_bytes(s) == Seq::<u8>::empty());
        assert(spec_entries_bytes(sp) == spec_str_bytes(p.0) + spec_str_bytes(p.1)
            + spec_entries_bytes(s));
        assert(spec_entries_bytes(sp) =~= spec_entries_bytes(s) + spec_str_bytes(p.0)
            + spec_str_bytes(p.1));
    } else {
        let sp = s.push(p);
        assert(sp[0] == s[0]);
        assert(sp.drop_first() =~= s.drop_first().push(p));
        assert(spec_entries_bytes(sp) == spec_str_bytes(s[0].0) + spec_str_bytes(s[0].1)
            + spec_entries_bytes(s.drop_first().push(p)));
        lemma_entries_bytes_snoc(s.drop_first(), p);
        assert(spec_entries_bytes(s) == spec_str_bytes(s[0].0) + spec_str_bytes(s[0].1)
            + spec_entries_bytes(s.drop_first()));
        assert(spec_entries_bytes(sp) =~= spec_entries_bytes(s) + spec_str_bytes(p.0)
            + spec_str_bytes(p.1));
    }
}

/// Encodes a request payload; `None` exactly when the attribute map
/// overflows a length prefix.
pub fn encode_request(req: &CompanionRequest) -> (r: Option<Vec<u8>>)
    ensures
        match r {
            Some(b) => b@ == spec_request_bytes(req@) && request_fits(req@),
            None => !request_fits(req@),
        },
{
    let mut out: Vec<u8> = Vec::new();
    match req {
        CompanionRequest::Apply(a) => {
            out.push(APPLY_TAG);
            let mut pid_bytes = u32_to_le_bytes(a.pid);
            out.append(&mut pid_bytes);
            if !encode_map_into(&mut out, &a.props) {
                return None;
            }
            proof {
                assert(out@ =~= spec_request_bytes(req@));
            }
            Some(out)
        },
        CompanionRequest::Restore(rr) => {
            out.push(RESTORE_TAG);
            if !encode_map_into(&mut out, &rr.props) {
                return None;
            }
            proof {
                assert(out@ =~= spec_request_bytes(req@));
            }
            Some(out)
        },
    }
}

/// Encodes a response payload; `None` exactly when a field overflows a
/// length prefix.
pub fn encode_response(resp: &CompanionResponse) -> (r: Option<Vec<u8>>)
    ensures
        match r {
            Some(b) => b@ == spec_response_bytes(resp@) && response_fits(resp@),
            None => !response_fits(resp@),
        },
{
    let mut out: Vec<u8> = Vec::new();
    if resp.status == 0 {
        out.push(0);
    } else {
        out.push(1);
    }
    match &resp.message {
        None => {
            out.push(0);
        },
        Some(s) => {
            out.push(1);
            if !encode_str_into(&mut out, s) {
                return None;
            }
        },
    }
    match &resp.backups {
        None => {
            out.push(0);
        },
        Some(b) => {
            out.push(1);
            if !encode_map_into(&mut out, b) {
                return None;
            }
        },
    }
    proof {
        assert(out@ =~= spec_response_bytes(resp@));
    }
    Some(out)
}


// ---------------------------------------------------------------------------
// Decoding
// ---------------------------------------------------------------------------

/// Reads a little-endian length at `pos`.
fn read_u32(buf: &Vec<u8>, pos: usize) -> (r: Option<(u32, usize)>)
    requires
        pos <= buf@.len(),
    ensures
        match r {
            Some(p) => pos + 4 <= buf@.len() && p.0 == spec_u32_from_le_bytes(
                buf@.subrange(pos as int, pos + 4),
            ) && p.1 == pos + 4,
            None => buf@.len() < pos + 4,
        },
{
    if buf.len() - pos < 4 {
        return None;
    }
    let four = slice_subrange(buf.as_slice(), pos, pos + 4);
    let x = u32_from_le_bytes(four);
    Some((x, pos + 4))
}

/// Reads one length-prefixed string at `pos`.
fn read_str(buf: &Vec<u8>, pos: usize) -> (r: Result<(String, usize), DecodeError>)
    requires
        pos <= buf@.len(),
    ensures
        match r {
            Ok(p) => pos <= p.1 <= buf@.len() && spec_parse_str(buf@.skip(pos as int)) == Ok::<
                (Seq<char>, Seq<u8>),
                DecodeError,
            >((p.0@, buf@.skip(p.1 as int))),
            Err(e) => spec_parse_str(buf@.skip(pos as int)) == Err::<
                (Seq<char>, Seq<u8>),
                DecodeError,
            >(e),
        },
{
    let ghost tail = buf@.skip(pos as int);
    let (n32, cur) = match read_u32(buf, pos) {
        Some(p) => p,
        None => {
            return Err(DecodeError::Truncated);
        },
    };
    proof {
        assert(tail.take(4) =~= buf@.subrange(pos as int, pos + 4));
    }
    let n = n32 as usize;
    if buf.len() - cur < n {
        return Err(DecodeError::Truncated);
    }
    let raw = slice_subrange(buf.as_slice(), cur, cur + n);
    proof {
        assert(raw@ =~= tail.subrange(4, 4 + n as int));
    }
    match string_from_utf8(raw) {
        Some(s) => {
            proof {
                vstd::utf8::encode_utf8_decode_utf8(s@);
                assert(buf@.skip(cur + n as int) =~= tail.skip(4 + n as int));
            }
            Ok((s, cur + n))
        },
        None => Err(DecodeError::BadText),
    }
}

/// Reads one attribute map at `pos`, rejecting repeated keys.
fn read_map(buf: &Vec<u8>, pos: usize) -> (r: Result<(AttributeMap, usize), DecodeError>)
    requires
        pos <= buf@.len(),
    ensures
        match r {
            Ok(p) => pos <= p.1 <= buf@.len() && p.0.wf() && spec_parse_map(
                buf@.skip(pos as int),
            ) == Ok::<(Seq<(Seq<char>, Seq<char>)>, Seq<u8>), DecodeError>((
                p.0@,
                buf@.skip(p.1 as int),
            )),
            Err(e) => spec_parse_map(buf@.skip(pos as int)) == Err::<
                (Seq<(Seq<char>, Seq<char>)>, Seq<u8>),
                DecodeError,
            >(e),
        },
{
    let ghost tail = buf@.skip(pos as int);
    let (count32, start) = match read_u32(buf, pos) {
        Some(p) => p,
        None => {
            return Err(DecodeError::Truncated);
        },
    };
    proof {
        assert(tail.take(4) =~= buf@.subrange(pos as int, pos + 4));
        assert(tail.skip(4) =~= buf@.skip(start as int));
    }
    let count = count32 as usize;
    let mut m = AttributeMap::new();
    let mut cur = start;
    let mut i: usize = 0;
    proof {
        assert(spec_parse_map(buf@.skip(pos as int)) == spec_parse_entries(
            buf@.skip(cur as int),
            (count - i) as nat,
            m@,
        ));
    }
    while i < count
        invariant
            i <= count,
            pos <= cur <= buf@.len(),
            m.wf(),
            spec_parse_map(buf@.skip(pos as int)) == spec_parse_entries(
                buf@.skip(cur as int),
                (count - i) as nat,
                m@,
            ),
        decreases count - i,
    {
        let ghost entry_tail = buf@.skip(cur as int);
        let (k, c1) = match read_str(buf, cur) {
            Ok(p) => p,
            Err(e) => {
                proof {
                    assert(spec_parse_entries(entry_tail, (count - i) as nat, m@)
                        == Err::<(Seq<(Seq<char>, Seq<char>)>, Seq<u8>), DecodeError>(e));
                }
                return Err(e);
            },
        };
        let (v, c2) = match read_str(buf, c1) {
            Ok(p) => p,
            Err(e) => {
                proof {
                    assert(spec_parse_entries(entry_tail, (count - i) as nat, m@)
                        == Err::<(Seq<(Seq<char>, Seq<char>)>, Seq<u8>), DecodeError>(e));
                }
                return Err(e);
            },
        };
        if m.contains_key(&k) {
            proof {
                assert(spec_parse_entries(entry_tail, (count - i) as nat, m@)
                    == Err::<(Seq<(Seq<char>, Seq<char>)>, Seq<u8>), DecodeError>(
                    DecodeError::DuplicateKey,
                ));
            }
            return Err(DecodeError::DuplicateKey);
        }
        let ghost before = m@;
        proof {
            assert(spec_parse_entries(entry_tail, (count - i) as nat, before)
                == spec_parse_entries(
                buf@.skip(c2 as int),
                (count - i - 1) as nat,
                before.push((k@, v@)),
            ));
        }
        m.insert(k, v);
        cur = c2;
        i = i + 1;
    }
    proof {
        assert(spec_parse_entries(buf@.skip(cur as int), 0, m@) == Ok::<
            (Seq<(Seq<char>, Seq<char>)>, Seq<u8>),
            DecodeError,
        >((m@, buf@.skip(cur as int))));
    }
    Ok((m, cur))
}

/// Decodes a request payload. Exactly the byte strings the specification
/// parser accepts are decoded, to the value it gives; every other payload
/// is rejected with the error the specification parser names.
pub fn decode_request(buf: &Vec<u8>) -> (r: Result<CompanionRequest, DecodeError>)
    ensures
        match r {
            Ok(req) => spec_parse_request(buf@) == Ok::<SpecRequest, DecodeError>(req@)
                && req.wf(),
            Err(e) => spec_parse_request(buf@) == Err::<SpecRequest, DecodeError>(e),
        },
{
    if buf.len() == 0 {
        return Err(DecodeError::Truncated);
    }
    let tag = buf[0];
    if tag == APPLY_TAG {
        let (pid, _p1) = match read_u32(buf, 1) {
            Some(p) => p,
            None => {
                return Err(DecodeError::Truncated);
            },
        };
        let (props, end) = match read_map(buf, 5) {
            Ok(p) => p,
            Err(e) => {
                return Err(e);
            },
        };
        if end != buf.len() {
            return Err(DecodeError::Trailing);
        }
        Ok(CompanionRequest::Apply(ResetpropSessionRequest { pid, props }))
    } else if tag == RESTORE_TAG {
        let (props, end) = match read_map(buf, 1) {
            Ok(p) => p,
            Err(e) => {
                return Err(e);
            },
        };
        if end != buf.len() {
            return Err(DecodeError::Trailing);
        }
        Ok(CompanionRequest::Restore(RestoreRequest { props }))
    } else {
        Err(DecodeError::BadTag)
    }
}

/// Reads an optional string (an absence/presence marker, then the string)
/// at `pos`.
fn read_opt_str(buf: &Vec<u8>, pos: usize) -> (r: Result<(Option<String>, usize), DecodeError>)
    requires
        pos <= buf@.len(),
    ensures
        match r {
            Ok(p) => pos <= p.1 <= buf@.len() && spec_parse_opt_str(buf@.skip(pos as int)) == Ok::<
                (Option<Seq<char>>, Seq<u8>),
                DecodeError,
            >((
                match &p.0 {
                    Some(s) => Some(s@),
                    None => None,
                },
                buf@.skip(p.1 as int),
            )),
            Err(e) => spec_parse_opt_str(buf@.skip(pos as int)) == Err::<
                (Option<Seq<char>>, Seq<u8>),
                DecodeError,
            >(e),
        },
{
    let ghost tail = buf@.skip(pos as int);
    if pos == buf.len() {
        return Err(DecodeError::Truncated);
    }
    let flag = buf[pos];
    proof {
        assert(tail[0] == buf@[pos as int]);
        assert(tail.skip(1) =~= buf@.skip(pos + 1));
    }
    if flag == 0 {
        Ok((None, pos + 1))
    } else if flag == 1 {
        match read_str(buf, pos + 1) {
            Ok(p) => Ok((Some(p.0), p.1)),
            Err(e) => Err(e),
        }
    } else {
        Err(DecodeError::BadFlag)
    }
}

/// Reads an optional attribute map (an absence/presence marker, then the
/// map) at `pos`.
fn read_opt_map(buf: &Vec<u8>, pos: usize) -> (r: Result<
    (Option<AttributeMap>, usize),
    DecodeError,
>)
    requires
        pos <= buf@.len(),
    ensures
        match r {
            Ok(p) => pos <= p.1 <= buf@.len() && spec_parse_opt_map(buf@.skip(pos as int)) == Ok::<
                (Option<Seq<(Seq<char>, Seq<char>)>>, Seq<u8>),
                DecodeError,
            >((
                match &p.0 {
                    Some(m) => Some(m@),
                    None => None,
                },
                buf@.skip(p.1 as int),
            )) && match &p.0 {
                Some(m) => m.wf(),
                None => true,
            },
            Err(e) => spec_parse_opt_map(buf@.skip(pos as int)) == Err::<
                (Option<Seq<(Seq<char>, Seq<char>)>>, Seq<u8>),
                DecodeError,
            >(e),
        },
{
    let ghost tail = buf@.skip(pos as int);
    if pos == buf.len() {
        return Err(DecodeError::Truncated);
    }
    let flag = buf[pos];
    proof {
        assert(tail[0] == buf@[pos as int]);
        assert(tail.skip(1) =~= buf@.skip(pos + 1));
    }
    if flag == 0 {
        Ok((None, pos + 1))
    } else if flag == 1 {
        match read_map(buf, pos + 1) {
            Ok(p) => Ok((Some(p.0), p.1)),
            Err(e) => Err(e),
        }
    } else {
        Err(DecodeError::BadFlag)
    }
}

/// Decodes a response payload, exactly as the specification parser reads it.
pub fn decode_response(buf: &Vec<u8>) -> (r: Result<CompanionResponse, DecodeError>)
    ensures
        match r {
            Ok(resp) => spec_parse_response(buf@) == Ok::<SpecResponse, DecodeError>(resp@)
                && resp.wf(),
            Err(e) => spec_parse_response(buf@) == Err::<SpecResponse, DecodeError>(e),
        },
{
    if buf.len() == 0 {
        return Err(DecodeError::Truncated);
    }
    let status_byte = buf[0];
    if status_byte != 0 && status_byte != 1 {
        return Err(DecodeError::BadStatus);
    }
    let status: i32 = if status_byte == 0 {
        0
    } else {
        -1
    };
    let (message, p1) = match read_opt_str(buf, 1) {
        Ok(p) => p,
        Err(e) => {
            return Err(e);
        },
    };
    let (backups, p2) = match read_opt_map(buf, p1) {
        Ok(p) => p,
        Err(e) => {
            return Err(e);
        },
    };
    if p2 != buf.len() {
        return Err(DecodeError::Trailing);
    }
    Ok(CompanionResponse { status, message, backups })
}

// ---------------------------------------------------------------------------
// Round trips
// ---------------------------------------------------------------------------

/// An encoded string parses back to the same characters, leaving the
/// following bytes untouched.
proof fn lemma_parse_str_roundtrip(s: Seq<char>, rest: Seq<u8>)
    requires
        str_fits(s),
    ensures
        spec_parse_str(spec_str_bytes(s) + rest) == Ok::<(Seq<char>, Seq<u8>), DecodeError>(
            (s, rest),
        ),
{
    let eb = encode_utf8(s);
    let b = spec_str_bytes(s) + rest;
    lemma_auto_spec_u32_to_from_le_bytes();
    assert(b.take(4) =~= spec_u32_to_le_bytes(eb.len() as u32));
    assert(spec_u32_from_le_bytes(b.take(4)) == eb.len());
    assert(b.subrange(4, 4 + eb.len() as int) =~= eb);
    encode_utf8_valid_utf8(s);
    encode_utf8_decode_utf8(s);
    assert(b.skip(4 + eb.len() as int) =~= rest);
}

/// Encoded entries parse back to themselves appended to the accumulator,
/// as long as no key repeats.
proof fn lemma_parse_entries_roundtrip(
    m: Seq<(Seq<char>, Seq<char>)>,
    rest: Seq<u8>,
    acc: Seq<(Seq<char>, Seq<char>)>,
)
    requires
        entries_fit(m),
        keys_distinct(acc + m),
    ensures
        spec_parse_entries(spec_entries_bytes(m) + rest, m.len(), acc) == Ok::<
            (Seq<(Seq<char>, Seq<char>)>, Seq<u8>),
            DecodeError,
        >((acc + m, rest)),
    decreases m.len(),
{
    if m.len() == 0 {
        assert(spec_entries_bytes(m) + rest =~= rest);
        assert(acc + m =~= acc);
    } else {
        let p = m[0];
        let b = spec_entries_bytes(m) + rest;
        let rest1 = spec_str_bytes(p.1) + (spec_entries_bytes(m.drop_first()) + rest);
        assert(b =~= spec_str_bytes(p.0) + rest1);
        lemma_parse_str_roundtrip(p.0, rest1);
        lemma_parse_str_roundtrip(p.1, spec_entries_bytes(m.drop_first()) + rest);
        lemma_spec_get_characterizes(acc, p.0);
        assert forall|j: int| 0 <= j < acc.len() implies (#[trigger] acc[j]).0 != p.0 by {
            assert((acc + m)[j] == acc[j]);
            assert((acc + m)[acc.len() as int] == p);
        }
        assert(spec_get(acc, p.0) is None);
        assert(forall|i: int|
            0 <= i < m.drop_first().len() ==> #[trigger] m.drop_first()[i] == m[i + 1]);
        assert(acc.push(p) + m.drop_first() =~= acc + m);
        lemma_parse_entries_roundtrip(m.drop_first(), rest, acc.push(p));
    }
}

/// An encoded attribute map parses back to itself.
proof fn lemma_parse_map_roundtrip(m: Seq<(Seq<char>, Seq<char>)>, rest: Seq<u8>)
    requires
        map_fits(m),
        keys_distinct(m),
    ensures
        spec_parse_map(spec_map_bytes(m) + rest) == Ok::<
            (Seq<(Seq<char>, Seq<char>)>, Seq<u8>),
            DecodeError,
        >((m, rest)),
{
    let b = spec_map_bytes(m) + rest;
    lemma_auto_spec_u32_to_from_le_bytes();
    assert(b.take(4) =~= spec_u32_to_le_bytes(m.len() as u32));
    assert(spec_u32_from_le_bytes(b.take(4)) == m.len());
    assert(b.skip(4) =~= spec_entries_bytes(m) + rest);
    assert(Seq::<(Seq<char>, Seq<char>)>::empty() + m =~= m);
    lemma_parse_entries_roundtrip(m, rest, Seq::empty());
}

/// Decoding an encoded request yields the request unchanged: the protocol
/// round-trips every request whose attribute map has distinct keys and fits
/// the length prefixes.
pub proof fn lemma_request_roundtrip(rv: SpecRequest)
    requires
        request_valid(rv),
    ensures
        spec_parse_request(spec_request_bytes(rv)) == Ok::<SpecRequest, DecodeError>(rv),
{
    lemma_auto_spec_u32_to_from_le_bytes();
    match rv {
        SpecRequest::Apply { pid, props } => {
            let b = spec_request_bytes(rv);
            assert(b[0] == APPLY_TAG);
            assert(b.len() >= 9);
            assert(b.subrange(1, 5) =~= spec_u32_to_le_bytes(pid));
            assert(b.skip(5) =~= spec_map_bytes(props) + Seq::<u8>::empty());
            lemma_parse_map_roundtrip(props, Seq::empty());
        },
        SpecRequest::Restore { props } => {
            let b = spec_request_bytes(rv);
            assert(b[0] == RESTORE_TAG);
            assert(b.skip(1) =~= spec_map_bytes(props) + Seq::<u8>::empty());
            lemma_parse_map_roundtrip(props, Seq::empty());
        },
    }
}

/// Decoding an encoded response yields the response unchanged, for every
/// response the library produces (status 0 or -1, fields fitting their
/// length prefixes, backup keys distinct).
pub proof fn lemma_response_roundtrip(rv: SpecResponse)
    requires
        response_valid(rv),
    ensures
        spec_parse_response(spec_response_bytes(rv)) == Ok::<SpecResponse, DecodeError>(rv),
{
    let b = spec_response_bytes(rv);
    let b1 = spec_opt_str_bytes(rv.message) + spec_opt_map_bytes(rv.backups);
    assert(b[0] == spec_status_byte(rv.status));
    assert(b.skip(1) =~= b1);
    match rv.message {
        None => {
            assert(b1[0] == 0);
            assert(b1.skip(1) =~= spec_opt_map_bytes(rv.backups));
        },
        Some(s) => {
            assert(b1[0] == 1);
            assert(b1.skip(1) =~= spec_str_bytes(s) + spec_opt_map_bytes(rv.backups));
            lemma_parse_str_roundtrip(s, spec_opt_map_bytes(rv.backups));
        },
    }
    assert(spec_parse_opt_str(b1) == Ok::<(Option<Seq<char>>, Seq<u8>), DecodeError>(
        (rv.message, spec_opt_map_bytes(rv.backups)),
    ));
    let b2 = spec_opt_map_bytes(rv.backups);
    match rv.backups {
        None => {
            assert(b2[0] == 0);
            assert(b2.skip(1) =~= Seq::<u8>::empty());
        },
        Some(m) => {
            assert(b2[0] == 1);
            assert(b2.skip(1) =~= spec_map_bytes(m) + Seq::<u8>::empty());
            lemma_parse_map_roundtrip(m, Seq::empty());
        },
    }
    assert(spec_parse_opt_map(b2) == Ok::<
        (Option<Seq<(Seq<char>, Seq<char>)>>, Seq<u8>),
        DecodeError,
    >((rv.backups, Seq::empty())));
}

// ---------------------------------------------------------------------------
// Framing
// ---------------------------------------------------------------------------

/// A framed message: the payload length, little-endian, then the payload.
pub open spec fn spec_frame_bytes(payload: Seq<u8>) -> Seq<u8> {
    spec_u32_to_le_bytes(payload.len() as u32) + payload
}

/// A whole frame parses to its payload when the buffer holds exactly the
/// announced length.
pub open spec fn spec_parse_frame(b: Seq<u8>) -> Option<Seq<u8>> {
    if b.len() >= 4 && b.len() - 4 == spec_u32_from_le_bytes(b.take(4)) {
        Some(b.skip(4))
    } else {
        None
    }
}

/// A frame built from a payload that fits the length prefix parses back to
/// that payload.
pub proof fn lemma_frame_roundtrip(payload: Seq<u8>)
    requires
        payload.len() <= u32::MAX,
    ensures
        spec_parse_frame(spec_frame_bytes(payload)) == Some(payload),
{
    let b = spec_frame_bytes(payload);
    lemma_auto_spec_u32_to_from_le_bytes();
    assert(b.take(4) =~= spec_u32_to_le_bytes(payload.len() as u32));
    assert(b.skip(4) =~= payload);
}

/// Prefixes the payload with its length; `None` exactly when the payload
/// overflows the prefix.
pub fn encode_frame(payload: &Vec<u8>) -> (r: Option<Vec<u8>>)
    ensures
        match r {
            Some(b) => b@ == spec_frame_bytes(payload@) && payload@.len() <= u32::MAX,
            None => payload@.len() > u32::MAX,
        },
{
    if payload.len() > u32::MAX as usize {
        return None;
    }
    let mut out = u32_to_le_bytes(payload.len() as u32);
    out.extend_from_slice(payload.as_slice());
    proof {
        assert(out@ =~= spec_frame_bytes(payload@));
    }
    Some(out)
}

/// The payload length a frame header announces.
pub fn frame_payload_len(header: &Vec<u8>) -> (n: u32)
    requires
        header@.len() == 4,
    ensures
        n == spec_u32_from_le_bytes(header@),
{
    let four = slice_subrange(header.as_slice(), 0, 4);
    proof {
        assert(four@ =~= header@);
    }
    u32_from_le_bytes(four)
}

/// Splits a complete frame into its payload; `None` when the buffer is
/// shorter than a header or does not hold exactly the announced length.
pub fn decode_frame(buf: &Vec<u8>) -> (r: Option<Vec<u8>>)
    ensures
        match r {
            Some(p) => spec_parse_frame(buf@) == Some(p@),
            None => spec_parse_frame(buf@) is None,
        },
{
    if buf.len() < 4 {
        return None;
    }
    let four = slice_subrange(buf.as_slice(), 0, 4);
    proof {
        assert(four@ =~= buf@.take(4));
    }
    let n = u32_from_le_bytes(four);
    if n as usize != buf.len() - 4 {
        return None;
    }
    let payload = slice_subrange(buf.as_slice(), 4, buf.len());
    proof {
        assert(payload@ =~= buf@.skip(4));
    }
    let mut out: Vec<u8> = Vec::new();
    out.extend_from_slice(payload);
    proof {
        assert(out@ =~= buf@.skip(4));
    }
    Some(out)
}

} // verus!
