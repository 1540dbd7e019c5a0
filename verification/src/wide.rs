//! UTF-16 ("wide") strings as the Windows API exchanges them: encoding names
//! into NUL-terminated buffers and decoding the buffers that API calls fill.

use vstd::prelude::*;

verus! {

/// The UTF-16 code units of one character.
pub open spec fn utf16_of_char(c: char) -> Seq<u16> {
    let v = c as u32 as int;
    if v < 0x10000 {
        seq![v as u16]
    } else {
        seq![(0xD800 + (v - 0x10000) / 0x400) as u16, (0xDC00 + (v - 0x10000) % 0x400) as u16]
    }
}

/// The UTF-16 encoding of a character sequence.
pub open spec fn utf16_encode(s: Seq<char>) -> Seq<u16>
    decreases s.len(),
{
    if s.len() == 0 {
        Seq::empty()
    } else {
        utf16_of_char(s[0]) + utf16_encode(s.drop_first())
    }
}

/// A unit that is not a surrogate.
pub open spec fn is_plain_unit(u: u16) -> bool {
    u < 0xD800 || u > 0xDFFF
}

/// A high (leading) surrogate.
pub open spec fn is_high_surrogate(u: u16) -> bool {
    0xD800 <= u <= 0xDBFF
}

/// A low (trailing) surrogate.
pub open spec fn is_low_surrogate(u: u16) -> bool {
    0xDC00 <= u <= 0xDFFF
}

/// The replacement character U+FFFD that stands for an unpaired surrogate.
pub open spec fn replacement_char() -> char {
    0xFFFDu32 as char
}

/// Lossy UTF-16 decoding: surrogate pairs combine into one character and every
/// unpaired surrogate becomes U+FFFD.
pub open spec fn utf16_decode_lossy(u: Seq<u16>) -> Seq<char>
    decreases u.len(),
{
    if u.len() == 0 {
        Seq::empty()
    } else if is_plain_unit(u[0]) {
        seq![u[0] as u32 as char] + utf16_decode_lossy(u.drop_first())
    } else if is_high_surrogate(u[0]) && u.len() >= 2 && is_low_surrogate(u[1]) {
        seq![
            (0x10000 + (u[0] - 0xD800) * 0x400 + (u[1] - 0xDC00)) as u32 as char,
        ] + utf16_decode_lossy(u.skip(2))
    } else {
        seq![replacement_char()] + utf16_decode_lossy(u.drop_first())
    }
}

proof fn lemma_char_roundtrip(c: char, rest: Seq<u16>)
    ensures
        utf16_decode_lossy(utf16_of_char(c) + rest) == seq![c] + utf16_decode_lossy(rest),
{
    let v = c as u32 as int;
    let u = utf16_of_char(c) + rest;
    if v < 0x10000 {
        assert(u.drop_first() =~= rest);
        assert(v < 0xD800 || v > 0xDFFF);
        assert((u[0] as u32 as char) == c);
    } else {
        let q = (v - 0x10000) / 0x400;
        let r = (v - 0x10000) % 0x400;
        assert(0 <= q < 0x400 && 0 <= r < 0x400 && q * 0x400 + r == v - 0x10000) by (nonlinear_arith)
            requires
                0x10000 <= v <= 0x10FFFF,
                q == (v - 0x10000) / 0x400,
                r == (v - 0x10000) % 0x400,
        ;
        assert(u.skip(2) =~= rest);
        assert(is_high_surrogate(u[0]) && is_low_surrogate(u[1]));
        assert(((0x10000 + (u[0] - 0xD800) * 0x400 + (u[1] - 0xDC00)) as u32 as char) == c);
    }
}

/// Decoding what `utf16_encode` produced gives the characters back.
pub proof fn lemma_utf16_roundtrip(s: Seq<char>)
    ensures
        utf16_decode_lossy(utf16_encode(s)) == s,
    decreases s.len(),
{
    if s.len() > 0 {
        lemma_char_roundtrip(s[0], utf16_encode(s.drop_first()));
        lemma_utf16_roundtrip(s.drop_first());
        assert(seq![s[0]] + s.drop_first() =~= s);
    }
}


/// The encoding of a concatenation is the concatenation of the encodings.
pub proof fn lemma_utf16_encode_append(a: Seq<char>, b: Seq<char>)
    ensures
        utf16_encode(a + b) == utf16_encode(a) + utf16_encode(b),
    decreases a.len(),
{
    if a.len() == 0 {
        assert(a + b =~= b);
    } else {
        assert((a + b)[0] == a[0]);
        assert((a + b).drop_first() =~= a.drop_first() + b);
        lemma_utf16_encode_append(a.drop_first(), b);
        assert(utf16_of_char(a[0]) + (utf16_encode(a.drop_first()) + utf16_encode(b))
            =~= utf16_of_char(a[0]) + utf16_encode(a.drop_first()) + utf16_encode(b));
    }
}

/// The UTF-16 code units of a string.
pub fn encode_utf16_units(s: &str) -> (r: Vec<u16>)
    ensures
        r@ == utf16_encode(s@),
{
    let cs = crate::text::chars_of(s);
    let mut r: Vec<u16> = Vec::new();
    let mut i: usize = 0;
    assert(cs@.take(0) =~= Seq::<char>::empty());
    while i < cs.len()
        invariant
            i <= cs@.len(),
            r@ == utf16_encode(cs@.take(i as int)),
        decreases cs@.len() - i,
    {
        let c = cs[i];
        proof {
            vstd::utf8::char_is_scalar(c);
            assert(cs@.take(i + 1) =~= cs@.take(i as int) + seq![c]);
            lemma_utf16_encode_append(cs@.take(i as int), seq![c]);
            assert(seq![c].drop_first() =~= Seq::<char>::empty());
            assert(utf16_encode(Seq::<char>::empty()) == Seq::<u16>::empty());
            assert(utf16_encode(seq![c].drop_first()) == Seq::<u16>::empty());
            assert(seq![c][0] == c);
            assert(utf16_encode(seq![c]) =~= utf16_of_char(c));
        }
        let v = c as u32;
        if v < 0x10000 {
            r.push(v as u16);
        } else {
            let u = v - 0x10000;
            r.push((0xD800 + u / 0x400) as u16);
            r.push((0xDC00 + u % 0x400) as u16);
        }
        i += 1;
        assert(r@ =~= utf16_encode(cs@.take(i as int)));
    }
    assert(cs@.take(i as int) =~= cs@);
    r
}

/// The character with a code point (calls `char::from_u32`). The contract claims the
/// documented behaviour: `None` exactly when the value is not a Unicode scalar value.
#[verifier::external_body]
fn char_from_u32(v: u32) -> (r: Option<char>)
    ensures
        vstd::utf8::is_scalar(v) ==> r == Some(v as char),
        !vstd::utf8::is_scalar(v) ==> r is None,
{
    char::from_u32(v)
}

/// Lossy decoding of UTF-16 units.
pub fn decode_utf16_lossy(units: &[u16]) -> (r: String)
    ensures
        r@ == utf16_decode_lossy(units@),
{
    let n = units.len();
    let mut out = String::new();
    let mut i: usize = 0;
    assert(units@.skip(0) =~= units@);
    while i < n
        invariant
            n == units@.len(),
            i <= n,
            utf16_decode_lossy(units@) == out@ + utf16_decode_lossy(units@.skip(i as int)),
        decreases n - i,
    {
        let rest = Ghost(units@.skip(i as int));
        assert(rest@[0] == units@[i as int]);
        assert(rest@.drop_first() =~= units@.skip(i + 1));
        let w = units[i];
        let ghost before = out@;
        if w < 0xD800 || w > 0xDFFF {
            let v = w as u32;
            assert(vstd::utf8::is_scalar(v));
            let c = char_from_u32(v).unwrap();
            crate::text::push_char(&mut out, c);
            i += 1;
            assert(out@ + utf16_decode_lossy(units@.skip(i as int)) =~= before + (seq![c]
                + utf16_decode_lossy(rest@.drop_first())));
        } else if w <= 0xDBFF && i + 1 < n && units[i + 1] >= 0xDC00 && units[i + 1] <= 0xDFFF {
            assert(rest@[1] == units@[i + 1]);
            assert(rest@.skip(2) =~= units@.skip(i + 2));
            let v: u32 = 0x10000 + (w as u32 - 0xD800) * 0x400 + (units[i + 1] as u32 - 0xDC00);
            assert(vstd::utf8::is_scalar(v));
            let c = char_from_u32(v).unwrap();
            crate::text::push_char(&mut out, c);
            i += 2;
            assert(out@ + utf16_decode_lossy(units@.skip(i as int)) =~= before + (seq![c]
                + utf16_decode_lossy(rest@.skip(2))));
        } else {
            let c = '\u{FFFD}';
            proof {
                vstd::utf8::char_u32_cast(c, 0xFFFDu32);
            }
            crate::text::push_char(&mut out, c);
            i += 1;
            assert(out@ + utf16_decode_lossy(units@.skip(i as int)) =~= before + (seq![c]
                + utf16_decode_lossy(rest@.drop_first())));
        }
    }
    assert(units@.skip(n as int) =~= Seq::<u16>::empty());
    assert(out@ + Seq::<char>::empty() =~= out@);
    out
}

/// The NUL-terminated UTF-16 form of `s`, as the wide-character Windows API takes it.
pub fn wide_string(s: &str) -> (r: Vec<u16>)
    ensures
        r@ == utf16_encode(s@).push(0u16),
{
    let mut r = encode_utf16_units(s);
    r.push(0u16);
    r
}

/// The number of units before the first NUL among the first `max` units of `b`,
/// or `max` when none of them is NUL.
pub open spec fn terminated_len(b: Seq<u16>, max: nat) -> nat
    decreases max,
{
    if max == 0 {
        0
    } else {
        let k = terminated_len(b, (max - 1) as nat);
        if k < max - 1 {
            k
        } else if b[max - 1] == 0 {
            (max - 1) as nat
        } else {
            max
        }
    }
}

proof fn lemma_terminated_len_bound(b: Seq<u16>, max: nat)
    ensures
        terminated_len(b, max) <= max,
    decreases max,
{
    if max > 0 {
        lemma_terminated_len_bound(b, (max - 1) as nat);
    }
}

proof fn lemma_terminated_len_stable(b: Seq<u16>, m: nat, n: nat)
    requires
        m <= n,
        terminated_len(b, m) < m,
    ensures
        terminated_len(b, n) == terminated_len(b, m),
    decreases n - m,
{
    if m < n {
        lemma_terminated_len_stable(b, m, (n - 1) as nat);
        lemma_terminated_len_bound(b, (n - 1) as nat);
    }
}

/// What `terminated_len` means, stated without recursion.
pub proof fn lemma_terminated_len(b: Seq<u16>, max: nat)
    requires
        max <= b.len(),
    ensures
        terminated_len(b, max) <= max,
        forall|j: int| 0 <= j < terminated_len(b, max) ==> b[j] != 0,
        terminated_len(b, max) < max ==> b[terminated_len(b, max) as int] == 0,
    decreases max,
{
    lemma_terminated_len_bound(b, max);
    if max > 0 {
        lemma_terminated_len(b, (max - 1) as nat);
    }
}

/// The number of units that a reader with limit `max` looks at: the limit, but no
/// more than the buffer holds.
pub open spec fn clamped(buf: Seq<u16>, max: nat) -> nat {
    if max <= buf.len() {
        max
    } else {
        buf.len()
    }
}

/// The text in a UTF-16 buffer: the units before the first NUL among the first `max`
/// units (and within the buffer), decoded lossily.
pub open spec fn wide_text(buf: Seq<u16>, max: nat) -> Seq<char> {
    utf16_decode_lossy(buf.take(terminated_len(buf, clamped(buf, max)) as int))
}

/// The string in the first `max_len` units of a UTF-16 buffer, up to the first NUL,
/// decoded lossily. A limit beyond the buffer reads up to its end.
pub fn wide_to_string(buf: &[u16], max_len: usize) -> (r: String)
    ensures
        r@ == wide_text(buf@, max_len as nat),
{
    let limit = if max_len <= buf.len() {
        max_len
    } else {
        buf.len()
    };
    let mut len: usize = 0;
    while len < limit && buf[len] != 0u16
        invariant
            limit <= buf@.len(),
            len <= limit,
            terminated_len(buf@, len as nat) == len,
        decreases limit - len,
    {
        len += 1;
    }
    proof {
        if len < limit {
            assert(terminated_len(buf@, (len + 1) as nat) == len);
            lemma_terminated_len_stable(buf@, (len + 1) as nat, limit as nat);
        }
    }
    let mut units: Vec<u16> = Vec::new();
    let mut i: usize = 0;
    while i < len
        invariant
            len <= limit <= buf@.len(),
            i <= len,
            units@ == buf@.take(i as int),
        decreases len - i,
    {
        units.push(buf[i]);
        i += 1;
        assert(units@ =~= buf@.take(i as int));
    }
    decode_utf16_lossy(units.as_slice())
}

/// The Windows directory from the buffer that `GetWindowsDirectoryW` filled: `reported`
/// is the count it returned, and the buffer's length is the capacity it was given.
/// A count of 0 (failure) or one that does not fit the buffer gives `None`.
pub fn windows_dir_from_buffer(buf: &[u16], reported: u32) -> (r: Option<String>)
    ensures
        reported == 0 || reported as int >= buf@.len() ==> r is None,
        reported != 0 && (reported as int) < buf@.len() ==> (r matches Some(d) && d@
            == wide_text(buf@, reported as nat)),
{
    if reported == 0 || reported as usize >= buf.len() {
        None
    } else {
        Some(wide_to_string(buf, reported as usize))
    }
}

/// The name that `QueryDosDeviceW` is asked about for a drive letter: the wide form
/// of the drive, a colon and a NUL, itself NUL-terminated.
pub fn dos_device_query_name(drive: char) -> (r: Vec<u16>)
    ensures
        r@ == utf16_encode(seq![drive, ':', '\0']).push(0u16),
{
    let mut name = String::new();
    crate::text::push_char(&mut name, drive);
    crate::text::push_char(&mut name, ':');
    crate::text::push_char(&mut name, '\0');
    assert(name@ =~= seq![drive, ':', '\0']);
    wide_string(name.as_str())
}

/// The target of a DOS device from the buffer that `QueryDosDeviceW` filled:
/// `reported` is the count it returned; 0 means that the query failed. A count beyond
/// the buffer reads up to its end.
pub fn dos_device_target(buf: &[u16], reported: u32) -> (r: Option<String>)
    ensures
        reported == 0 ==> r is None,
        reported != 0 ==> (r matches Some(t) && t@ == wide_text(buf@, reported as nat)),
{
    if reported == 0 {
        None
    } else {
        Some(wide_to_string(buf, reported as usize))
    }
}

/// Law: a string without NUL characters comes back unchanged when its wide form (with
/// the terminating NUL) is read back as a wide buffer with any limit that covers its
/// characters, `usize::MAX` included.
pub proof fn law_wide_roundtrip(s: Seq<char>, max: nat)
    requires
        forall|i: int| 0 <= i < s.len() ==> s[i] != '\0',
        max >= utf16_encode(s).len(),
    ensures
        wide_text(utf16_encode(s).push(0u16), max) == s,
{
    let w = utf16_encode(s).push(0u16);
    let m = clamped(w, max);
    lemma_encode_no_nul(s);
    lemma_terminated_len(w, m);
    let k = terminated_len(w, m) as int;
    let n = utf16_encode(s).len() as int;
    if k < n {
        assert(w[k] == utf16_encode(s)[k]);
    } else if k > n {
        assert(w[n] == 0);
    }
    assert(w.take(k) =~= utf16_encode(s));
    lemma_utf16_roundtrip(s);
}

/// The encoding of a NUL-free string holds no zero unit.
proof fn lemma_encode_no_nul(s: Seq<char>)
    requires
        forall|i: int| 0 <= i < s.len() ==> s[i] != '\0',
    ensures
        forall|j: int| 0 <= j < utf16_encode(s).len() ==> utf16_encode(s)[j] != 0,
    decreases s.len(),
{
    if s.len() > 0 {
        assert forall|i: int| 0 <= i < s.drop_first().len() implies s.drop_first()[i] != '\0' by {
            assert(s.drop_first()[i] == s[i + 1]);
        }
        lemma_encode_no_nul(s.drop_first());
        let head = utf16_of_char(s[0]);
        let tail = utf16_encode(s.drop_first());
        assert(s[0] != '\0');
        assert forall|j: int| 0 <= j < head.len() implies head[j] != 0 by {
            let v = s[0] as u32;
            vstd::utf8::char_u32_cast(s[0], v);
            assert((0u32 as char) == '\0');
            assert(v != 0);
        }
        assert forall|j: int| 0 <= j < utf16_encode(s).len() implies utf16_encode(s)[j] != 0 by {
            if j >= head.len() {
                assert(utf16_encode(s)[j] == tail[j - head.len()]);
            } else {
                assert(utf16_encode(s)[j] == head[j]);
            }
        }
    }
}


/// Law: the text read from a wide buffer is the lossy decoding of the units before the
/// first NUL, looking at no more than `max` units and no more than the buffer holds.
pub proof fn law_wide_text(buf: Seq<u16>, max: nat)
    ensures
        exists|k: int|
            #![trigger buf.take(k)]
            0 <= k <= buf.len() && k <= max && wide_text(buf, max) == utf16_decode_lossy(buf.take(k))
                && (forall|j: int| 0 <= j < k ==> buf[j] != 0) && (k < max && k < buf.len()
                ==> buf[k] == 0),
{
    let m = clamped(buf, max);
    lemma_terminated_len(buf, m);
    let k = terminated_len(buf, m) as int;
    assert(0 <= k <= buf.len() && k <= max && wide_text(buf, max) == utf16_decode_lossy(buf.take(k))
        && (forall|j: int| 0 <= j < k ==> buf[j] != 0) && (k < max && k < buf.len() ==> buf[k] == 0));
}

} // verus!
