//! Wire encoding of the control messages.
//!
//! Integers are variable-length: values up to 250 take one byte; larger
//! ones take a marker byte (251, 252 or 253) and then 2, 4 or 8
//! little-endian bytes. A string is its UTF-8 length, so encoded, then its
//! bytes. A flag is one byte, 0 or 1; an enum is its variant's index in one
//! byte, then its fields. Each message travels behind a 4-byte big-endian
//! length. The `parse_*` functions define what the decoders accept.
//!
//! These are the bytes that bincode 2 writes in its standard configuration.
//! The format is written out here, encoder and parser both, so that decoding
//! what was encoded is proved to give the value back instead of being
//! assumed of an outside decoder.
use crate::protocol::{
    Action, MatchStatus, PathStatus, Request, RequestModel, Validation, VersionHeader,
    VersionResponse, VersionStatus, VersionStatusModel,
};
use crate::stream_framer::{le32, le32_value, lemma_le32_round_trip, push_le32, push_range};
use vstd::prelude::*;
use vstd::utf8::{decode_utf8, encode_utf8, valid_utf8};

verus! {

pub open spec fn le16(n: u16) -> Seq<u8> {
    seq![(n & 0xff) as u8, ((n >> 8u16) & 0xff) as u8]
}

pub open spec fn le16_value(b: Seq<u8>) -> u16 {
    (b[0] as u16) | ((b[1] as u16) << 8u16)
}

pub open spec fn le64(n: u64) -> Seq<u8> {
    le32((n & 0xffff_ffff) as u32) + le32((n >> 32u64) as u32)
}

pub open spec fn le64_value(b: Seq<u8>) -> u64 {
    (le32_value(b.subrange(0, 4)) as u64) | ((le32_value(b.subrange(4, 8)) as u64) << 32u64)
}

/// The four big-endian bytes of `n`.
pub open spec fn be32(n: u32) -> Seq<u8> {
    seq![
        ((n >> 24u32) & 0xff) as u8,
        ((n >> 16u32) & 0xff) as u8,
        ((n >> 8u32) & 0xff) as u8,
        (n & 0xff) as u8,
    ]
}

pub open spec fn be32_value(b: Seq<u8>) -> u32 {
    ((b[0] as u32) << 24u32) | ((b[1] as u32) << 16u32) | ((b[2] as u32) << 8u32) | (b[3] as u32)
}

/// The variable-length form of an integer.
pub open spec fn varint(x: u64) -> Seq<u8> {
    if x <= 250 {
        seq![x as u8]
    } else if x <= 0xffff {
        seq![251u8] + le16(x as u16)
    } else if x <= 0xffff_ffff {
        seq![252u8] + le32(x as u32)
    } else {
        seq![253u8] + le64(x)
    }
}

/// Reads a variable-length integer at the start of `b`: its value and the
/// number of bytes it took. A value must use the shortest form.
pub open spec fn parse_varint(b: Seq<u8>) -> Option<(u64, nat)> {
    if b.len() == 0 {
        None
    } else if b[0] <= 250 {
        Some((b[0] as u64, 1))
    } else if b[0] == 251 {
        if b.len() >= 3 && le16_value(b.subrange(1, 3)) > 250 {
            Some((le16_value(b.subrange(1, 3)) as u64, 3))
        } else {
            None
        }
    } else if b[0] == 252 {
        if b.len() >= 5 && le32_value(b.subrange(1, 5)) > 0xffff {
            Some((le32_value(b.subrange(1, 5)) as u64, 5))
        } else {
            None
        }
    } else if b[0] == 253 {
        if b.len() >= 9 && le64_value(b.subrange(1, 9)) > 0xffff_ffff {
            Some((le64_value(b.subrange(1, 9)), 9))
        } else {
            None
        }
    } else {
        None
    }
}

pub open spec fn enc_bool(x: bool) -> Seq<u8> {
    seq![if x { 1u8 } else { 0u8 }]
}

pub open spec fn parse_bool(b: Seq<u8>) -> Option<(bool, nat)> {
    if b.len() == 0 || b[0] > 1 {
        None
    } else {
        Some((b[0] == 1, 1))
    }
}

pub open spec fn enc_str(s: Seq<char>) -> Seq<u8> {
    varint(encode_utf8(s).len() as u64) + encode_utf8(s)
}

#[verifier::opaque]
pub open spec fn parse_str(b: Seq<u8>) -> Option<(Seq<char>, nat)> {
    match parse_varint(b) {
        Some((n, k)) => {
            if k + n <= b.len() && valid_utf8(b.subrange(k as int, k + n)) {
                Some((decode_utf8(b.subrange(k as int, k + n)), (k + n) as nat))
            } else {
                None
            }
        },
        None => None,
    }
}

pub open spec fn enc_action(a: Action) -> Seq<u8> {
    match a {
        Action::Upload => seq![0u8],
        Action::Run(w) => seq![1u8] + enc_bool(w),
    }
}

pub open spec fn parse_action(b: Seq<u8>) -> Option<(Action, nat)> {
    if b.len() == 0 {
        None
    } else if b[0] == 0 {
        Some((Action::Upload, 1))
    } else if b[0] == 1 {
        match parse_bool(b.skip(1)) {
            Some((w, k)) => Some((Action::Run(w), 1 + k)),
            None => None,
        }
    } else {
        None
    }
}

pub open spec fn enc_request(r: RequestModel) -> Seq<u8> {
    enc_action(r.action) + enc_str(r.path) + varint(r.size) + varint(r.hash) + r.password
        + enc_bool(r.use_compression) + enc_str(r.version)
}

/// Reads a request's action and path.
#[verifier::opaque]
pub open spec fn parse_action_path(b: Seq<u8>) -> Option<((Action, Seq<char>), nat)> {
    match parse_action(b) {
        None => None,
        Some((action, n1)) => match parse_str(b.skip(n1 as int)) {
            None => None,
            Some((path, n2)) => Some(((action, path), n1 + n2)),
        },
    }
}

/// Reads a request's size and hash.
#[verifier::opaque]
pub open spec fn parse_size_hash(b: Seq<u8>) -> Option<((u64, u64), nat)> {
    match parse_varint(b) {
        None => None,
        Some((size, n1)) => match parse_varint(b.skip(n1 as int)) {
            None => None,
            Some((hash, n2)) => Some(((size, hash), n1 + n2)),
        },
    }
}

/// Reads a request's password digest, compression flag and version.
#[verifier::opaque]
pub open spec fn parse_request_tail(b: Seq<u8>) -> Option<((Seq<u8>, bool, Seq<char>), nat)> {
    if b.len() < 32 {
        None
    } else {
        match parse_bool(b.skip(32)) {
            None => None,
            Some((c, n1)) => match parse_str(b.skip(32 + n1 as int)) {
                None => None,
                Some((v, n2)) => Some(((b.subrange(0, 32), c, v), 32 + n1 + n2)),
            },
        }
    }
}

pub open spec fn parse_request(b: Seq<u8>) -> Option<(RequestModel, nat)> {
    match parse_action_path(b) {
        None => None,
        Some(((action, path), n1)) => match parse_size_hash(b.skip(n1 as int)) {
            None => None,
            Some(((size, hash), n2)) => match parse_request_tail(b.skip(n1 as int + n2)) {
                None => None,
                Some(((password, use_compression, version), n3)) => Some(
                    (
                        RequestModel { action, path, size, hash, password, use_compression, version },
                        n1 + n2 + n3,
                    ),
                ),
            },
        },
    }
}

pub open spec fn enc_version_status(v: VersionStatusModel) -> Seq<u8> {
    match v {
        VersionStatusModel::Match => seq![0u8],
        VersionStatusModel::Mismatch(s) => seq![1u8] + enc_str(s),
    }
}

pub open spec fn parse_version_status(b: Seq<u8>) -> Option<(VersionStatusModel, nat)> {
    if b.len() == 0 {
        None
    } else if b[0] == 0 {
        Some((VersionStatusModel::Match, 1))
    } else if b[0] == 1 {
        match parse_str(b.skip(1)) {
            Some((s, k)) => Some((VersionStatusModel::Mismatch(s), 1 + k)),
            None => None,
        }
    } else {
        None
    }
}

pub open spec fn match_tag(m: MatchStatus) -> u8 {
    match m {
        MatchStatus::Match => 0,
        MatchStatus::Mismatch => 1,
    }
}

pub open spec fn match_of_tag(t: u8) -> Option<MatchStatus> {
    if t == 0 {
        Some(MatchStatus::Match)
    } else if t == 1 {
        Some(MatchStatus::Mismatch)
    } else {
        None
    }
}

pub open spec fn path_tag(p: PathStatus) -> u8 {
    match p {
        PathStatus::Valid => 0,
        PathStatus::InvalidComponents => 1,
        PathStatus::AbsolutePath => 2,
        PathStatus::EscapesWorkingDir => 3,
        PathStatus::CanonicalizationFailed => 4,
    }
}

pub open spec fn path_of_tag(t: u8) -> Option<PathStatus> {
    if t == 0 {
        Some(PathStatus::Valid)
    } else if t == 1 {
        Some(PathStatus::InvalidComponents)
    } else if t == 2 {
        Some(PathStatus::AbsolutePath)
    } else if t == 3 {
        Some(PathStatus::EscapesWorkingDir)
    } else if t == 4 {
        Some(PathStatus::CanonicalizationFailed)
    } else {
        None
    }
}

pub open spec fn enc_validation(v: Validation) -> Seq<u8> {
    seq![match_tag(v.password), match_tag(v.hash), path_tag(v.path)]
}

pub open spec fn parse_validation(b: Seq<u8>) -> Option<(Validation, nat)> {
    if b.len() < 3 {
        None
    } else {
        match (match_of_tag(b[0]), match_of_tag(b[1]), path_of_tag(b[2])) {
            (Some(password), Some(hash), Some(path)) => Some(
                (Validation { password, hash, path }, 3),
            ),
            _ => None,
        }
    }
}

/// A request whose fields can be encoded: a 32-byte password digest and
/// strings whose lengths fit the length field.
pub open spec fn encodable_request(r: RequestModel) -> bool {
    &&& r.password.len() == 32
    &&& encode_utf8(r.path).len() <= u64::MAX
    &&& encode_utf8(r.version).len() <= u64::MAX
}

proof fn lemma_le16_round_trip(n: u16)
    ensures
        le16_value(le16(n)) == n,
        le16(n).len() == 2,
{
    assert(((n & 0xff) as u8 as u16) | ((((n >> 8u16) & 0xff) as u8 as u16) << 8u16) == n)
        by (bit_vector);
}

proof fn lemma_le64_round_trip(n: u64)
    ensures
        le64_value(le64(n)) == n,
        le64(n).len() == 8,
{
    let lo = (n & 0xffff_ffff) as u32;
    let hi = (n >> 32u64) as u32;
    lemma_le32_round_trip(lo);
    lemma_le32_round_trip(hi);
    assert(le64(n).subrange(0, 4) =~= le32(lo));
    assert(le64(n).subrange(4, 8) =~= le32(hi));
    assert(((n & 0xffff_ffff) as u32 as u64) | (((n >> 32u64) as u32 as u64) << 32u64) == n)
        by (bit_vector);
}

proof fn lemma_be32_round_trip(n: u32)
    ensures
        be32_value(be32(n)) == n,
        be32(n).len() == 4,
{
    assert((((((n >> 24u32) & 0xff) as u8) as u32) << 24u32) | (((((n >> 16u32) & 0xff) as u8)
        as u32) << 16u32) | (((((n >> 8u32) & 0xff) as u8) as u32) << 8u32) | (((n & 0xff) as u8)
        as u32) == n) by (bit_vector);
}

proof fn lemma_varint_round_trip(x: u64, rest: Seq<u8>)
    ensures
        parse_varint(varint(x) + rest) == Some((x, varint(x).len())),
        1 <= varint(x).len() <= 9,
{
    let b = varint(x) + rest;
    if x <= 250 {
    } else if x <= 0xffff {
        lemma_le16_round_trip(x as u16);
        assert(b.subrange(1, 3) =~= le16(x as u16));
    } else if x <= 0xffff_ffff {
        lemma_le32_round_trip(x as u32);
        assert(b.subrange(1, 5) =~= le32(x as u32));
    } else {
        lemma_le64_round_trip(x);
        assert(b.subrange(1, 9) =~= le64(x));
    }
}

proof fn lemma_bool_round_trip(x: bool, rest: Seq<u8>)
    ensures
        parse_bool(enc_bool(x) + rest) == Some((x, 1nat)),
{
}

proof fn lemma_str_round_trip(s: Seq<char>, rest: Seq<u8>)
    requires
        encode_utf8(s).len() <= u64::MAX,
    ensures
        parse_str(enc_str(s) + rest) == Some((s, enc_str(s).len())),
{
    reveal(parse_str);
    vstd::utf8::encode_utf8_valid_utf8(s);
    vstd::utf8::encode_utf8_decode_utf8(s);
    let u = encode_utf8(s);
    let v = varint(u.len() as u64);
    lemma_varint_round_trip(u.len() as u64, u + rest);
    let b = enc_str(s) + rest;
    assert(b =~= v + (u + rest));
    assert(b.subrange(v.len() as int, (v.len() + u.len()) as int) =~= u);
}

proof fn lemma_action_round_trip(a: Action, rest: Seq<u8>)
    ensures
        parse_action(enc_action(a) + rest) == Some((a, enc_action(a).len())),
{
    match a {
        Action::Upload => {},
        Action::Run(w) => {
            let b = enc_action(a) + rest;
            assert(b.skip(1) =~= enc_bool(w) + rest);
            lemma_bool_round_trip(w, rest);
        },
    }
}

proof fn lemma_action_path_round_trip(a: Action, path: Seq<char>, rest: Seq<u8>)
    requires
        encode_utf8(path).len() <= u64::MAX,
    ensures
        parse_action_path(enc_action(a) + enc_str(path) + rest) == Some(
            ((a, path), enc_action(a).len() + enc_str(path).len()),
        ),
{
    reveal(parse_action_path);
    let b = enc_action(a) + enc_str(path) + rest;
    assert(b =~= enc_action(a) + (enc_str(path) + rest));
    lemma_action_round_trip(a, enc_str(path) + rest);
    assert(b.skip(enc_action(a).len() as int) =~= enc_str(path) + rest);
    lemma_str_round_trip(path, rest);
}

proof fn lemma_size_hash_round_trip(size: u64, hash: u64, rest: Seq<u8>)
    ensures
        parse_size_hash(varint(size) + varint(hash) + rest) == Some(
            ((size, hash), varint(size).len() + varint(hash).len()),
        ),
{
    reveal(parse_size_hash);
    let b = varint(size) + varint(hash) + rest;
    assert(b =~= varint(size) + (varint(hash) + rest));
    lemma_varint_round_trip(size, varint(hash) + rest);
    assert(b.skip(varint(size).len() as int) =~= varint(hash) + rest);
    lemma_varint_round_trip(hash, rest);
}

proof fn lemma_request_tail_round_trip(
    password: Seq<u8>,
    c: bool,
    version: Seq<char>,
    rest: Seq<u8>,
)
    requires
        password.len() == 32,
        encode_utf8(version).len() <= u64::MAX,
    ensures
        parse_request_tail(password + enc_bool(c) + enc_str(version) + rest) == Some(
            ((password, c, version), 33 + enc_str(version).len()),
        ),
{
    reveal(parse_request_tail);
    let b = password + enc_bool(c) + enc_str(version) + rest;
    assert(b.skip(32) =~= enc_bool(c) + (enc_str(version) + rest));
    lemma_bool_round_trip(c, enc_str(version) + rest);
    assert(b.skip(33) =~= enc_str(version) + rest);
    lemma_str_round_trip(version, rest);
    assert(b.subrange(0, 32) =~= password);
}

/// Request round trip: decoding the encoding of any encodable request gives
/// back that request, and takes exactly the encoded bytes, whatever follows them.
pub proof fn lemma_request_round_trip(r: RequestModel, rest: Seq<u8>)
    requires
        encodable_request(r),
    ensures
        parse_request(enc_request(r) + rest) == Some((r, enc_request(r).len())),
{
    let e1 = enc_action(r.action) + enc_str(r.path);
    let e2 = varint(r.size) + varint(r.hash);
    let e3 = r.password + enc_bool(r.use_compression) + enc_str(r.version);
    let b = enc_request(r) + rest;
    assert(b =~= e1 + (e2 + e3 + rest));
    lemma_action_path_round_trip(r.action, r.path, e2 + e3 + rest);
    assert(e1 + (e2 + e3 + rest) =~= enc_action(r.action) + enc_str(r.path) + (e2 + e3 + rest));
    assert(b.skip(e1.len() as int) =~= e2 + (e3 + rest));
    lemma_size_hash_round_trip(r.size, r.hash, e3 + rest);
    assert(e2 + (e3 + rest) =~= varint(r.size) + varint(r.hash) + (e3 + rest));
    assert(b.skip(e1.len() as int + e2.len()) =~= e3 + rest);
    lemma_request_tail_round_trip(r.password, r.use_compression, r.version, rest);
    assert(enc_request(r).len() == e1.len() + e2.len() + e3.len());
}

/// Version response round trip: decoding the encoding of a status gives it back.
pub proof fn lemma_version_status_round_trip(v: VersionStatusModel, rest: Seq<u8>)
    requires
        v matches VersionStatusModel::Mismatch(s) ==> encode_utf8(s).len() <= u64::MAX,
    ensures
        parse_version_status(enc_version_status(v) + rest) == Some(
            (v, enc_version_status(v).len()),
        ),
{
    match v {
        VersionStatusModel::Match => {},
        VersionStatusModel::Mismatch(s) => {
            let b = enc_version_status(v) + rest;
            assert(b.skip(1) =~= enc_str(s) + rest);
            lemma_str_round_trip(s, rest);
        },
    }
}

/// Validation round trip: decoding the encoding of a verdict gives it back.
pub proof fn lemma_validation_round_trip(v: Validation, rest: Seq<u8>)
    ensures
        parse_validation(enc_validation(v) + rest) == Some((v, 3nat)),
{
    let b = enc_validation(v) + rest;
    assert(b[0] == match_tag(v.password));
    assert(b[1] == match_tag(v.hash));
    assert(b[2] == path_tag(v.path));
}

/// Version header round trip: decoding the encoding of a version string gives it back.
pub proof fn lemma_version_header_round_trip(s: Seq<char>, rest: Seq<u8>)
    requires
        encode_utf8(s).len() <= u64::MAX,
    ensures
        parse_str(enc_str(s) + rest) == Some((s, enc_str(s).len())),
{
    lemma_str_round_trip(s, rest);
}

/// Message framing round trip: the length read back from a frame's header
/// is the length of the payload that was framed.
pub proof fn lemma_frame_length_round_trip(n: u32)
    ensures
        be32_value(be32(n)) == n,
{
    lemma_be32_round_trip(n);
}

// Executable encoders and decoders.

/// Relies on `String::from_utf8`: it succeeds exactly on well-formed UTF-8,
/// and the string then holds the characters that the bytes encode.
#[verifier::external_body]
fn string_from_utf8(bytes: Vec<u8>) -> (r: Option<String>)
    ensures
        r is Some <==> valid_utf8(bytes@),
        r matches Some(s) ==> s@ == decode_utf8(bytes@),
{
    String::from_utf8(bytes).ok()
}

fn push_varint(out: &mut Vec<u8>, x: u64)
    ensures
        final(out)@ == old(out)@ + varint(x),
{
    if x <= 250 {
        out.push(x as u8);
    } else if x <= 0xffff {
        out.push(251u8);
        let y = x as u16;
        out.push((y & 0xff) as u8);
        out.push(((y >> 8u16) & 0xff) as u8);
    } else if x <= 0xffff_ffff {
        out.push(252u8);
        push_le32(out, x as u32);
    } else {
        out.push(253u8);
        push_le32(out, (x & 0xffff_ffff) as u32);
        push_le32(out, (x >> 32u64) as u32);
    }
    assert(out@ =~= old(out)@ + varint(x));
}

fn read_le32(b: &[u8], p: usize) -> (r: u32)
    requires
        p + 4 <= b@.len(),
    ensures
        r == le32_value(b@.subrange(p as int, p + 4)),
{
    let s = Ghost(b@.subrange(p as int, p + 4));
    assert(s@[0] == b@[p as int] && s@[1] == b@[p + 1] && s@[2] == b@[p + 2] && s@[3] == b@[p
        + 3]);
    (b[p] as u32) | ((b[p + 1] as u32) << 8u32) | ((b[p + 2] as u32) << 16u32) | ((b[p + 3] as u32)
        << 24u32)
}

fn read_varint(b: &[u8], pos: usize) -> (r: Option<(u64, usize)>)
    requires
        pos <= b@.len(),
    ensures
        match parse_varint(b@.skip(pos as int)) {
            Some((v, k)) => r matches Some((x, e)) && x == v && e == pos + k && pos + k <= b@.len(),
            None => r is None,
        },
{
    let ghost t = b@.skip(pos as int);
    if pos >= b.len() {
        return None;
    }
    let first = b[pos];
    assert(t[0] == first);
    let avail = b.len() - pos;
    if first <= 250 {
        Some((first as u64, pos + 1))
    } else if first == 251 {
        if avail < 3 {
            return None;
        }
        assert(t.subrange(1, 3)[0] == b@[pos + 1] && t.subrange(1, 3)[1] == b@[pos + 2]);
        let v: u16 = (b[pos + 1] as u16) | ((b[pos + 2] as u16) << 8u16);
        if v > 250 {
            Some((v as u64, pos + 3))
        } else {
            None
        }
    } else if first == 252 {
        if avail < 5 {
            return None;
        }
        let v = read_le32(b, pos + 1);
        assert(t.subrange(1, 5) =~= b@.subrange(pos + 1, pos + 5));
        if v > 0xffff {
            Some((v as u64, pos + 5))
        } else {
            None
        }
    } else if first == 253 {
        if avail < 9 {
            return None;
        }
        let lo = read_le32(b, pos + 1);
        let hi = read_le32(b, pos + 5);
        assert(t.subrange(1, 9).subrange(0, 4) =~= b@.subrange(pos + 1, pos + 5));
        assert(t.subrange(1, 9).subrange(4, 8) =~= b@.subrange(pos + 5, pos + 9));
        let v: u64 = (lo as u64) | ((hi as u64) << 32u64);
        if v > 0xffff_ffff {
            Some((v, pos + 9))
        } else {
            None
        }
    } else {
        None
    }
}

fn push_bool(out: &mut Vec<u8>, x: bool)
    ensures
        final(out)@ == old(out)@ + enc_bool(x),
{
    out.push(if x { 1u8 } else { 0u8 });
    assert(out@ =~= old(out)@ + enc_bool(x));
}

fn read_bool(b: &[u8], pos: usize) -> (r: Option<(bool, usize)>)
    requires
        pos <= b@.len(),
    ensures
        match parse_bool(b@.skip(pos as int)) {
            Some((v, k)) => r matches Some((x, e)) && x == v && e == pos + k && pos + k <= b@.len(),
            None => r is None,
        },
{
    if pos >= b.len() || b[pos] > 1 {
        None
    } else {
        Some((b[pos] == 1, pos + 1))
    }
}

fn push_str(out: &mut Vec<u8>, s: &str)
    ensures
        final(out)@ == old(out)@ + enc_str(s@),
{
    let bytes = s.as_bytes();
    assert(bytes@ == encode_utf8(s@));
    push_varint(out, bytes.len() as u64);
    push_range(out, bytes, 0, bytes.len());
    assert(bytes@.subrange(0, bytes@.len() as int) =~= bytes@);
    assert(out@ =~= old(out)@ + enc_str(s@));
}

fn read_str(b: &[u8], pos: usize) -> (r: Option<(String, usize)>)
    requires
        pos <= b@.len(),
    ensures
        match parse_str(b@.skip(pos as int)) {
            Some((v, k)) => r matches Some((s, e)) && s@ == v && e == pos + k && pos + k <= b@.len(),
            None => r is None,
        },
{
    reveal(parse_str);
    let ghost t = b@.skip(pos as int);
    match read_varint(b, pos) {
        None => None,
        Some((n, p)) => {
            if n > (b.len() - p) as u64 {
                return None;
            }
            let end = p + n as usize;
            let mut bytes: Vec<u8> = Vec::new();
            push_range(&mut bytes, b, p, end);
            assert(bytes@ =~= t.subrange((p - pos) as int, (p - pos) + n));
            match string_from_utf8(bytes) {
                Some(s) => Some((s, end)),
                None => None,
            }
        },
    }
}

fn push_action(out: &mut Vec<u8>, a: Action)
    ensures
        final(out)@ == old(out)@ + enc_action(a),
{
    match a {
        Action::Upload => {
            out.push(0u8);
        },
        Action::Run(w) => {
            out.push(1u8);
            push_bool(out, w);
        },
    }
    assert(out@ =~= old(out)@ + enc_action(a));
}

fn read_action(b: &[u8], pos: usize) -> (r: Option<(Action, usize)>)
    requires
        pos <= b@.len(),
    ensures
        match parse_action(b@.skip(pos as int)) {
            Some((v, k)) => r matches Some((x, e)) && x == v && e == pos + k && pos + k <= b@.len(),
            None => r is None,
        },
{
    let ghost t = b@.skip(pos as int);
    if pos >= b.len() {
        None
    } else if b[pos] == 0 {
        Some((Action::Upload, pos + 1))
    } else if b[pos] == 1 {
        assert(t.skip(1) =~= b@.skip(pos + 1));
        match read_bool(b, pos + 1) {
            Some((w, p)) => Some((Action::Run(w), p)),
            None => None,
        }
    } else {
        None
    }
}

/// The encoding of a request.
pub fn encode_request(r: &Request) -> (out: Vec<u8>)
    ensures
        out@ == enc_request(r@),
{
    let mut out: Vec<u8> = Vec::new();
    push_action(&mut out, r.action);
    push_str(&mut out, r.path.as_str());
    push_varint(&mut out, r.size);
    push_varint(&mut out, r.hash);
    let pw = r.password.as_slice();
    push_range(&mut out, pw, 0, 32);
    assert(pw@.subrange(0, 32) =~= r.password@);
    push_bool(&mut out, r.use_compression);
    push_str(&mut out, r.version.as_str());
    assert(out@ =~= enc_request(r@));
    out
}

fn read_action_path(b: &[u8], pos: usize) -> (r: Option<(Action, String, usize)>)
    requires
        pos <= b@.len(),
    ensures
        match parse_action_path(b@.skip(pos as int)) {
            Some(((a, s), k)) => r matches Some((x, y, e)) && x == a && y@ == s && e == pos + k
                && pos + k <= b@.len(),
            None => r is None,
        },
{
    reveal(parse_action_path);
    let (action, at1) = match read_action(b, pos) {
        Some(x) => x,
        None => return None,
    };
    assert(b@.skip(pos as int).skip(at1 - pos) =~= b@.skip(at1 as int));
    match read_str(b, at1) {
        Some((path, at2)) => Some((action, path, at2)),
        None => None,
    }
}

fn read_size_hash(b: &[u8], pos: usize) -> (r: Option<(u64, u64, usize)>)
    requires
        pos <= b@.len(),
    ensures
        match parse_size_hash(b@.skip(pos as int)) {
            Some(((s, h), k)) => r matches Some((x, y, e)) && x == s && y == h && e == pos + k
                && pos + k <= b@.len(),
            None => r is None,
        },
{
    reveal(parse_size_hash);
    let (size, at1) = match read_varint(b, pos) {
        Some(x) => x,
        None => return None,
    };
    assert(b@.skip(pos as int).skip(at1 - pos) =~= b@.skip(at1 as int));
    match read_varint(b, at1) {
        Some((hash, at2)) => Some((size, hash, at2)),
        None => None,
    }
}

fn read_request_tail(b: &[u8], pos: usize) -> (r: Option<([u8; 32], bool, String, usize)>)
    requires
        pos <= b@.len(),
    ensures
        match parse_request_tail(b@.skip(pos as int)) {
            Some(((pw, c, v), k)) => r matches Some((x, y, z, e)) && x@ == pw && y == c && z@ == v
                && e == pos + k && pos + k <= b@.len(),
            None => r is None,
        },
{
    reveal(parse_request_tail);
    let ghost t = b@.skip(pos as int);
    if b.len() - pos < 32 {
        return None;
    }
    let blen = b.len();
    let mut password = [0u8; 32];
    let mut i: usize = 0;
    while i < 32
        invariant
            blen == b@.len(),
            pos + 32 <= b@.len(),
            i <= 32,
            forall|j: int| 0 <= j < i ==> password@[j] == b@[pos + j],
        decreases 32 - i,
    {
        password[i] = b[pos + i];
        i = i + 1;
    }
    assert(password@ =~= t.subrange(0, 32));
    let at1 = pos + 32;
    assert(t.skip(32) =~= b@.skip(at1 as int));
    let (c, at2) = match read_bool(b, at1) {
        Some(x) => x,
        None => return None,
    };
    assert(t.skip(33) =~= b@.skip(at2 as int));
    match read_str(b, at2) {
        Some((version, at3)) => Some((password, c, version, at3)),
        None => None,
    }
}

/// Decodes a request from the start of `b`; bytes after it are ignored.
pub fn decode_request(b: &[u8]) -> (r: Option<Request>)
    ensures
        match parse_request(b@) {
            Some((m, _)) => r is Some && r->0@ == m,
            None => r is None,
        },
{
    assert(b@.skip(0) =~= b@);
    let (action, path, at1) = match read_action_path(b, 0) {
        Some(x) => x,
        None => return None,
    };
    let (size, hash, at2) = match read_size_hash(b, at1) {
        Some(x) => x,
        None => return None,
    };
    assert(b@.skip(at1 as int) =~= b@.skip(0).skip(at1 as int));
    let (password, use_compression, version, _at3) = match read_request_tail(b, at2) {
        Some(x) => x,
        None => return None,
    };
    Some(Request { action, path, size, hash, password, use_compression, version })
}

/// The encoding of a version header.
pub fn encode_version_header(h: &VersionHeader) -> (out: Vec<u8>)
    ensures
        out@ == enc_str(h@),
{
    let mut out: Vec<u8> = Vec::new();
    push_str(&mut out, h.0.as_str());
    assert(out@ =~= enc_str(h@));
    out
}

/// Decodes a version header from the start of `b`.
pub fn decode_version_header(b: &[u8]) -> (r: Option<VersionHeader>)
    ensures
        match parse_str(b@) {
            Some((m, _)) => r is Some && r->0@ == m,
            None => r is None,
        },
{
    assert(b@.skip(0) =~= b@);
    match read_str(b, 0) {
        Some((s, _)) => Some(VersionHeader(s)),
        None => None,
    }
}

/// The encoding of a version response.
pub fn encode_version_response(v: &VersionResponse) -> (out: Vec<u8>)
    ensures
        out@ == enc_version_status(v@),
{
    let mut out: Vec<u8> = Vec::new();
    match &v.0 {
        VersionStatus::Match => {
            out.push(0u8);
        },
        VersionStatus::Mismatch(s) => {
            out.push(1u8);
            push_str(&mut out, s.as_str());
        },
    }
    assert(out@ =~= enc_version_status(v@));
    out
}

/// Decodes a version response from the start of `b`.
pub fn decode_version_response(b: &[u8]) -> (r: Option<VersionResponse>)
    ensures
        match parse_version_status(b@) {
            Some((m, _)) => r is Some && r->0@ == m,
            None => r is None,
        },
{
    if b.len() == 0 {
        None
    } else if b[0] == 0 {
        Some(VersionResponse(VersionStatus::Match))
    } else if b[0] == 1 {
        match read_str(b, 1) {
            Some((s, _)) => Some(VersionResponse(VersionStatus::Mismatch(s))),
            None => None,
        }
    } else {
        None
    }
}

fn match_status_tag(m: MatchStatus) -> (t: u8)
    ensures
        t == match_tag(m),
{
    match m {
        MatchStatus::Match => 0,
        MatchStatus::Mismatch => 1,
    }
}

fn match_status_of(t: u8) -> (r: Option<MatchStatus>)
    ensures
        r == match_of_tag(t),
{
    if t == 0 {
        Some(MatchStatus::Match)
    } else if t == 1 {
        Some(MatchStatus::Mismatch)
    } else {
        None
    }
}

fn path_status_tag(p: PathStatus) -> (t: u8)
    ensures
        t == path_tag(p),
{
    match p {
        PathStatus::Valid => 0,
        PathStatus::InvalidComponents => 1,
        PathStatus::AbsolutePath => 2,
        PathStatus::EscapesWorkingDir => 3,
        PathStatus::CanonicalizationFailed => 4,
    }
}

fn path_status_of(t: u8) -> (r: Option<PathStatus>)
    ensures
        r == path_of_tag(t),
{
    if t == 0 {
        Some(PathStatus::Valid)
    } else if t == 1 {
        Some(PathStatus::InvalidComponents)
    } else if t == 2 {
        Some(PathStatus::AbsolutePath)
    } else if t == 3 {
        Some(PathStatus::EscapesWorkingDir)
    } else if t == 4 {
        Some(PathStatus::CanonicalizationFailed)
    } else {
        None
    }
}

/// The encoding of a validation.
pub fn encode_validation(v: &Validation) -> (out: Vec<u8>)
    ensures
        out@ == enc_validation(*v),
{
    let mut out: Vec<u8> = Vec::new();
    out.push(match_status_tag(v.password));
    out.push(match_status_tag(v.hash));
    out.push(path_status_tag(v.path));
    assert(out@ =~= enc_validation(*v));
    out
}

/// Decodes a validation from the start of `b`.
pub fn decode_validation(b: &[u8]) -> (r: Option<Validation>)
    ensures
        match parse_validation(b@) {
            Some((m, _)) => r == Some(m),
            None => r is None,
        },
{
    if b.len() < 3 {
        return None;
    }
    match (match_status_of(b[0]), match_status_of(b[1]), path_status_of(b[2])) {
        (Some(password), Some(hash), Some(path)) => Some(Validation { password, hash, path }),
        _ => None,
    }
}

/// Puts a payload behind its 4-byte big-endian length.
pub fn frame_message(payload: &[u8]) -> (out: Vec<u8>)
    requires
        payload@.len() <= u32::MAX,
    ensures
        out@ == be32(payload@.len() as u32) + payload@,
{
    let n = payload.len() as u32;
    let mut out: Vec<u8> = Vec::new();
    out.push(((n >> 24u32) & 0xff) as u8);
    out.push(((n >> 16u32) & 0xff) as u8);
    out.push(((n >> 8u32) & 0xff) as u8);
    out.push((n & 0xff) as u8);
    push_range(&mut out, payload, 0, payload.len());
    assert(payload@.subrange(0, payload@.len() as int) =~= payload@);
    assert(out@ =~= be32(n) + payload@);
    out
}

/// The payload length that a 4-byte message header announces.
pub fn message_length(header: &[u8; 4]) -> (n: u32)
    ensures
        n == be32_value(header@),
{
    ((header[0] as u32) << 24u32) | ((header[1] as u32) << 16u32) | ((header[2] as u32) << 8u32)
        | (header[3] as u32)
}

} // verus!
