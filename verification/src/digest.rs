//! SHA-256 digests of driver images and their hexadecimal text form, and the
//! record of one driver's hashing.

use vstd::prelude::*;
use sha2::Digest;
use crate::paths::{resolve_path, resolve_sys_path, HashError, HashFailure, PathContext};
use crate::text::{concat_str, string_of};

verus! {

/// The error type of `hex::decode`.
#[verifier::external_type_specification]
#[verifier::external_body]
pub struct ExFromHexError(hex::FromHexError);

/// The SHA-256 digest of a byte sequence, as `sha2::Sha256` computes it.
pub uninterp spec fn sha256_of(data: Seq<u8>) -> Seq<u8>;

/// SHA-256 of `data` (calls `<sha2::Sha256 as Digest>::digest`).
/// The contract names the result and claims its documented size of 32 bytes.
#[verifier::external_body]
fn sha256_digest(data: &[u8]) -> (r: Vec<u8>)
    ensures
        r@ == sha256_of(data@),
        r@.len() == 32,
{
    sha2::Sha256::digest(data).to_vec()
}

/// An ASCII hexadecimal digit of either case.
pub open spec fn is_hex_digit(c: char) -> bool {
    ('0' <= c && c <= '9') || ('a' <= c && c <= 'f') || ('A' <= c && c <= 'F')
}

/// The value of a hexadecimal digit.
pub open spec fn hex_value(c: char) -> int {
    if '0' <= c && c <= '9' {
        c as u32 - 48
    } else if 'a' <= c && c <= 'f' {
        c as u32 - 87
    } else {
        c as u32 - 55
    }
}

/// Text that `hex::decode` accepts: an even number of hexadecimal digits.
pub open spec fn is_hex_text(s: Seq<char>) -> bool {
    s.len() % 2 == 0 && forall|i: int| 0 <= i < s.len() ==> is_hex_digit(s[i])
}

/// The bytes that hexadecimal text stands for, two digits per byte, high digit first.
pub open spec fn hex_bytes(s: Seq<char>) -> Seq<u8> {
    Seq::new(s.len() / 2, |i: int| (hex_value(s[2 * i]) * 16 + hex_value(s[2 * i + 1])) as u8)
}

/// The lower-case hexadecimal digit for a value below 16.
pub open spec fn hex_digit_lower(n: int) -> char {
    if n < 10 {
        (48 + n) as char
    } else {
        (87 + n) as char
    }
}

/// Lower-case hexadecimal text of bytes, two digits per byte, high digit first
/// (what `hex::encode` returns).
pub open spec fn hex_lower(b: Seq<u8>) -> Seq<char> {
    Seq::new(
        2 * b.len(),
        |i: int|
            if i % 2 == 0 {
                hex_digit_lower(b[i / 2] as int / 16)
            } else {
                hex_digit_lower(b[i / 2] as int % 16)
            },
    )
}

/// Lower-case hexadecimal text of `data` (calls `hex::encode`).
/// The contract claims the documented result: two lower-case digits per byte.
#[verifier::external_body]
fn hex_encode(data: &[u8]) -> (r: String)
    ensures
        r@ == hex_lower(data@),
{
    hex::encode(data)
}

/// Decodes hexadecimal text (calls `hex::decode`). The contract claims what the crate's
/// source shows: the text is accepted exactly when it is an even number of hexadecimal
/// digits of either case, and each pair of digits gives one byte. Which error comes
/// back on other text is left unsaid.
#[verifier::external_body]
fn hex_decode(s: &str) -> (r: Result<Vec<u8>, hex::FromHexError>)
    ensures
        r is Ok <==> is_hex_text(s@),
        r matches Ok(v) ==> v@ == hex_bytes(s@),
{
    hex::decode(s)
}

/// Executable hexadecimal decoding of characters, through `hex::decode`.
pub fn decode_hex_chars(s: &Vec<char>) -> (r: Option<Vec<u8>>)
    ensures
        r is Some <==> is_hex_text(s@),
        r matches Some(v) ==> v@ == hex_bytes(s@),
{
    let text = string_of(s);
    match hex_decode(text.as_str()) {
        Ok(v) => Some(v),
        Err(_) => None,
    }
}

/// The lower-case hexadecimal SHA-256 digest of `data`.
pub fn sha256_hex(data: &[u8]) -> (r: String)
    ensures
        r@ == hex_lower(sha256_of(data@)),
        r@.len() == 64,
        forall|i: int| 0 <= i < r@.len() ==> is_lower_hex_digit(#[trigger] r@[i]),
{
    let digest = sha256_digest(data);
    proof {
        lemma_hex_lower_digits(digest@);
    }
    hex_encode(digest.as_slice())
}

/// A digit of lower-case hexadecimal text: `0`..=`9` or `a`..=`f`.
pub open spec fn is_lower_hex_digit(c: char) -> bool {
    ('0' <= c && c <= '9') || ('a' <= c && c <= 'f')
}

/// Lower-case hexadecimal text has two lower-case digits per byte.
pub proof fn lemma_hex_lower_digits(b: Seq<u8>)
    ensures
        hex_lower(b).len() == 2 * b.len(),
        forall|i: int| 0 <= i < hex_lower(b).len() ==> is_lower_hex_digit(#[trigger] hex_lower(b)[i]),
{
    assert forall|i: int| 0 <= i < hex_lower(b).len() implies is_lower_hex_digit(#[trigger] hex_lower(b)[i]) by {
        lemma_hex_digit(b[i / 2] as int / 16);
        lemma_hex_digit(b[i / 2] as int % 16);
    }
}

proof fn lemma_hex_digit(n: int)
    requires
        0 <= n < 16,
    ensures
        is_hex_digit(hex_digit_lower(n)),
        hex_value(hex_digit_lower(n)) == n,
        !('A' <= hex_digit_lower(n) && hex_digit_lower(n) <= 'Z'),
        !crate::text::is_white_space(hex_digit_lower(n)),
        is_lower_hex_digit(hex_digit_lower(n)),
{
    let u: u32 = if n < 10 {
        (48 + n) as u32
    } else {
        (87 + n) as u32
    };
    let c = hex_digit_lower(n);
    assert(c == u as char);
    vstd::utf8::char_u32_cast(c, c as u32);
    assert((u as char) as u32 == u) by {
        assert(vstd::utf8::is_scalar(u));
    }
}

/// Law: lower-case hexadecimal text decodes back to the bytes it was made from.
pub proof fn law_hex_roundtrip(b: Seq<u8>)
    ensures
        is_hex_text(hex_lower(b)),
        hex_bytes(hex_lower(b)) == b,
        forall|i: int| 0 <= i < hex_lower(b).len() ==> !crate::text::is_white_space(#[trigger] hex_lower(b)[i]),
{
    let h = hex_lower(b);
    assert forall|i: int| 0 <= i < h.len() implies is_hex_digit(h[i]) && !crate::text::is_white_space(h[i]) by {
        lemma_hex_digit(b[i / 2] as int / 16);
        lemma_hex_digit(b[i / 2] as int % 16);
    }
    assert forall|i: int| 0 <= i < b.len() implies hex_bytes(h)[i] == b[i] by {
        assert((2 * i) / 2 == i && (2 * i + 1) / 2 == i && (2 * i) % 2 == 0 && (2 * i + 1) % 2
            == 1);
        lemma_hex_digit(b[i] as int / 16);
        lemma_hex_digit(b[i] as int % 16);
        assert((b[i] / 16) * 16 + b[i] % 16 == b[i]);
    }
    assert(hex_bytes(h) =~= b);
}


/// What reading a driver's file gave: its whole contents; the operating system's error
/// code and text when the file could not be opened; or the system's text when a read
/// failed after the file was opened (as on a locked byte range).
pub enum FileRead {
    Contents(Vec<u8>),
    OpenFailed { code: i32, detail: String },
    ReadFailed { detail: String },
}

/// The model of hashing a file at `win_path` after reading it: the lower-case hex
/// digest of its contents, or the error that an open failure maps to (code 2: not
/// found, code 5: access denied, anything else: a read failure with the system's text);
/// a read that failed after the open is a read failure too, never a partial digest.
pub open spec fn file_hash_result(win_path: Seq<char>, read: FileRead) -> Result<Seq<char>, HashFailure> {
    match read {
        FileRead::Contents(data) => Ok(hex_lower(sha256_of(data@))),
        FileRead::OpenFailed { code, detail } => Err(
            if code == 2 {
                HashFailure::FileNotFound(win_path)
            } else if code == 5 {
                HashFailure::AccessDenied(win_path)
            } else {
                HashFailure::ReadFailed(win_path + ": "@ + detail@)
            },
        ),
        FileRead::ReadFailed { detail } => Err(HashFailure::ReadFailed(win_path + ": "@ + detail@)),
    }
}

/// Hashes what was read of the file at `win_path`, or maps the failure to an error.
pub fn file_sha256_result(win_path: &str, read: FileRead) -> (r: Result<String, HashError>)
    ensures
        crate::paths::resolved_view(r) == file_hash_result(win_path@, read),
        read matches FileRead::Contents(d) ==> (r matches Ok(h) && h@ == hex_lower(sha256_of(d@))
            && h@.len() == 64),
        read matches FileRead::OpenFailed { code, detail } ==> (r matches Err(e) && e@ == (
        if code == 2 {
            HashFailure::FileNotFound(win_path@)
        } else if code == 5 {
            HashFailure::AccessDenied(win_path@)
        } else {
            HashFailure::ReadFailed(win_path@ + ": "@ + detail@)
        })),
        read matches FileRead::ReadFailed { detail } ==> (r matches Err(e) && e@
            == HashFailure::ReadFailed(win_path@ + ": "@ + detail@)),
{
    match read {
        FileRead::Contents(data) => Ok(sha256_hex(data.as_slice())),
        FileRead::OpenFailed { code, detail } => {
            if code == 2 {
                Err(HashError::FileNotFound(String::from_str(win_path)))
            } else if code == 5 {
                Err(HashError::AccessDenied(String::from_str(win_path)))
            } else {
                let head = concat_str(win_path, ": ");
                let message = concat_str(head.as_str(), detail.as_str());
                Err(HashError::ReadFailed(message))
            }
        },
        FileRead::ReadFailed { detail } => {
            let head = concat_str(win_path, ": ");
            let message = concat_str(head.as_str(), detail.as_str());
            Err(HashError::ReadFailed(message))
        },
    }
}

/// The outcome of hashing one driver: the path that the enumeration reported, the Win32
/// path it resolved to (empty when it did not resolve), and either the lower-case hex
/// SHA-256 digest of the file or the error that prevented it.
pub struct DriverHash {
    pub sys_path: String,
    pub resolved_path: String,
    pub sha256: Option<String>,
    pub error: Option<HashError>,
}

/// The next thing to do when hashing a driver: read the file at the resolved path, or
/// nothing more because the outcome is known.
pub enum HashStep {
    ReadFile { resolved_path: String },
    Done(DriverHash),
}

/// The first step of hashing a driver: resolve its path. On success the file at the
/// resolved path is to be read next; on failure the outcome holds the error and an
/// empty resolved path.
pub fn begin_hash_driver(sys_path: &str, ctx: &PathContext) -> (r: HashStep)
    ensures
        match resolve_path(sys_path@, *ctx) {
            Ok(p) => r matches HashStep::ReadFile { resolved_path } && resolved_path@ == p,
            Err(e) => r matches HashStep::Done(h) && h.sys_path@ == sys_path@
                && h.resolved_path@ == Seq::<char>::empty() && h.sha256 is None
                && (h.error matches Some(he) && he@ == e),
        },
{
    match resolve_sys_path(sys_path, ctx) {
        Ok(p) => HashStep::ReadFile { resolved_path: p },
        Err(e) => HashStep::Done(
            DriverHash {
                sys_path: String::from_str(sys_path),
                resolved_path: String::new(),
                sha256: None,
                error: Some(e),
            },
        ),
    }
}

/// The last step of hashing a driver: the outcome from what reading the file at the
/// resolved path gave. Exactly one of the digest and the error is present.
pub fn finish_hash_driver(sys_path: &str, resolved_path: String, read: FileRead) -> (r: DriverHash)
    ensures
        r.sys_path@ == sys_path@,
        r.resolved_path@ == resolved_path@,
        match file_hash_result(resolved_path@, read) {
            Ok(h) => r.sha256 matches Some(s) && s@ == h && r.error is None,
            Err(e) => r.sha256 is None && (r.error matches Some(he) && he@ == e),
        },
        read matches FileRead::Contents(d) ==> (r.sha256 matches Some(s) && s@ == hex_lower(
            sha256_of(d@),
        )),
        !(read is Contents) ==> r.sha256 is None && r.error is Some,
{
    match file_sha256_result(resolved_path.as_str(), read) {
        Ok(h) => DriverHash {
            sys_path: String::from_str(sys_path),
            resolved_path,
            sha256: Some(h),
            error: None,
        },
        Err(e) => DriverHash {
            sys_path: String::from_str(sys_path),
            resolved_path,
            sha256: None,
            error: Some(e),
        },
    }
}


proof fn lemma_hex_digit_case(c: char)
    ensures
        is_hex_digit(crate::text::ascii_lower_char(c)) == is_hex_digit(c),
        is_hex_digit(c) ==> hex_value(crate::text::ascii_lower_char(c)) == hex_value(c),
        is_hex_digit(crate::text::ascii_upper_char(c)) == is_hex_digit(c),
        is_hex_digit(c) ==> hex_value(crate::text::ascii_upper_char(c)) == hex_value(c),
{
    crate::text::lemma_ascii_case_codes(c);
}

/// ASCII case does not change what hexadecimal text stands for.
pub proof fn lemma_hex_case(t: Seq<char>)
    ensures
        is_hex_text(crate::text::to_ascii_lowercase(t)) == is_hex_text(t),
        is_hex_text(t) ==> hex_bytes(crate::text::to_ascii_lowercase(t)) == hex_bytes(t),
        is_hex_text(crate::text::to_ascii_uppercase(t)) == is_hex_text(t),
        is_hex_text(t) ==> hex_bytes(crate::text::to_ascii_uppercase(t)) == hex_bytes(t),
{
    let l = crate::text::to_ascii_lowercase(t);
    let u = crate::text::to_ascii_uppercase(t);
    assert forall|i: int| 0 <= i < t.len() implies is_hex_digit(#[trigger] l[i]) == is_hex_digit(t[i])
        && is_hex_digit(u[i]) == is_hex_digit(t[i]) && (is_hex_digit(t[i]) ==> hex_value(l[i])
        == hex_value(t[i]) && hex_value(u[i]) == hex_value(t[i])) by {
        lemma_hex_digit_case(t[i]);
    }
    if is_hex_text(t) {
        assert forall|i: int| 0 <= i < l.len() implies is_hex_digit(l[i]) by {
            assert(is_hex_digit(l[i]) == is_hex_digit(t[i]));
        }
        assert forall|i: int| 0 <= i < u.len() implies is_hex_digit(u[i]) by {
            assert(is_hex_digit(u[i]) == is_hex_digit(t[i]));
        }
        assert forall|i: int| 0 <= i < t.len() / 2 implies hex_bytes(l)[i] == hex_bytes(t)[i] && hex_bytes(u)[i] == hex_bytes(t)[i] by {
            assert(is_hex_digit(t[2 * i]) && is_hex_digit(t[2 * i + 1]));
            assert(hex_value(l[2 * i]) == hex_value(t[2 * i]));
            assert(hex_value(l[2 * i + 1]) == hex_value(t[2 * i + 1]));
            assert(hex_value(u[2 * i]) == hex_value(t[2 * i]));
            assert(hex_value(u[2 * i + 1]) == hex_value(t[2 * i + 1]));
        }
        assert(hex_bytes(l) =~= hex_bytes(t));
        assert(hex_bytes(u) =~= hex_bytes(t));
    } else {
        if is_hex_text(l) {
            assert forall|i: int| 0 <= i < t.len() implies is_hex_digit(t[i]) by {
                assert(is_hex_digit(l[i]) == is_hex_digit(t[i]));
            }
        }
        if is_hex_text(u) {
            assert forall|i: int| 0 <= i < t.len() implies is_hex_digit(t[i]) by {
                assert(is_hex_digit(u[i]) == is_hex_digit(t[i]));
            }
        }
    }
}


/// Law: hashing a file's contents gives the lower-case hexadecimal SHA-256 digest of all
/// of them, whatever their length, and each kind of failure gives its own error: code 2
/// a missing file, code 5 denied access, any other open failure or a failed read a read
/// failure carrying the path and the system's text.
pub proof fn law_file_hash_result(p: Seq<char>, read: FileRead)
    ensures
        read matches FileRead::Contents(d) ==> file_hash_result(p, read) == Ok::<Seq<char>, HashFailure>(hex_lower(sha256_of(d@))),
        read matches FileRead::OpenFailed { code, detail } ==> file_hash_result(p, read) == Err::<Seq<char>, HashFailure>(
            if code == 2 {
                HashFailure::FileNotFound(p)
            } else if code == 5 {
                HashFailure::AccessDenied(p)
            } else {
                HashFailure::ReadFailed(p + ": "@ + detail@)
            },
        ),
        read matches FileRead::ReadFailed { detail } ==> file_hash_result(p, read) == Err::<Seq<char>, HashFailure>(
            HashFailure::ReadFailed(p + ": "@ + detail@),
        ),
{
}

/// Law: two byte sequences have the same lower-case hexadecimal text exactly when they
/// are equal.
pub proof fn law_hex_text_injective(a: Seq<u8>, b: Seq<u8>)
    ensures
        hex_lower(a) == hex_lower(b) <==> a == b,
{
    law_hex_roundtrip(a);
    law_hex_roundtrip(b);
}

} // verus!
