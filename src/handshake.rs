//! The opening handshake: the key that the initiator sends, the accept
//! value derived from it, and the acceptor's check of the request.
use vstd::prelude::*;
use vstd::utf8::{encode_utf8, valid_utf8};

use crate::bytes::{append_slice, push_be};
use crate::support::{base64_encode, random_u32, sha1_digest, sha1_of, utf8_string};

verus! {

/// The GUID that the accept value appends to the key before hashing.
pub const SEC_WS_MAGIC: &'static str = "258EAFA5-E914-47DA-95CA-C5AB0DC85B11";

/// The base64 digit of a six-bit value.
pub open spec fn base64_digit(v: int) -> char {
    if v < 26 {
        ((65 + v) as u8) as char
    } else if v < 52 {
        ((97 + v - 26) as u8) as char
    } else if v < 62 {
        ((48 + v - 52) as u8) as char
    } else if v == 62 {
        '+'
    } else {
        '/'
    }
}

/// Standard base64: each three bytes become four digits; a last group of
/// one or two bytes is padded with `=` to four.
pub open spec fn base64_of(b: Seq<u8>) -> Seq<char>
    decreases b.len(),
{
    if b.len() == 0 {
        Seq::empty()
    } else {
        let x = b[0] as int;
        let y = if b.len() > 1 { b[1] as int } else { 0 };
        let z = if b.len() > 2 { b[2] as int } else { 0 };
        let d0 = base64_digit(x / 4);
        let d1 = base64_digit((x % 4) * 16 + y / 16);
        let d2 = base64_digit((y % 16) * 4 + z / 64);
        let d3 = base64_digit(z % 64);
        if b.len() == 1 {
            seq![d0, d1, '=', '=']
        } else if b.len() == 2 {
            seq![d0, d1, d2, '=']
        } else {
            seq![d0, d1, d2, d3] + base64_of(b.subrange(3, b.len() as int))
        }
    }
}

/// Base64 writes four digits for each started group of three bytes.
pub proof fn lemma_base64_len(b: Seq<u8>)
    ensures
        base64_of(b).len() == 4 * ((b.len() + 2) / 3),
    decreases b.len(),
{
    if b.len() > 2 {
        lemma_base64_len(b.subrange(3, b.len() as int));
    }
}

/// The accept value for a key: base64 of the SHA-1 digest of the key
/// followed by the GUID.
pub open spec fn accept_value(key: Seq<u8>) -> Seq<char> {
    base64_of(sha1_of(key + encode_utf8(SEC_WS_MAGIC@)))
}

/// The accept value for the key bytes.
pub fn accept_key(key: &[u8]) -> (r: String)
    ensures
        r@ == accept_value(key@),
        r@.len() == 28,
{
    let mut data: Vec<u8> = Vec::new();
    append_slice(&mut data, key);
    append_slice(&mut data, SEC_WS_MAGIC.as_bytes());
    let digest = sha1_digest(data.as_slice());
    proof {
        lemma_base64_len(digest@);
    }
    base64_encode(digest.as_slice())
}

/// The accept value for a key, as the acceptor sends it back.
pub fn generate_response_key(key: &str) -> (r: String)
    ensures
        r@ == accept_value(encode_utf8(key@)),
        r@.len() == 28,
{
    accept_key(key.as_bytes())
}

/// The key that the initiator sends for a nonce: its base64 form.
pub fn encode_sec_key(nonce: &[u8]) -> (r: String)
    ensures
        r@ == base64_of(nonce@),
        nonce@.len() == 16 ==> r@.len() == 24,
{
    proof {
        lemma_base64_len(nonce@);
    }
    base64_encode(nonce)
}

/// A fresh key for the initiator's request: sixteen random bytes in base64.
pub fn generate_sec_key() -> (r: String)
    ensures
        exists|nonce: Seq<u8>| nonce.len() == 16 && r@ == base64_of(nonce),
        r@.len() == 24,
{
    let mut nonce: Vec<u8> = Vec::new();
    let mut i: usize = 0;
    while i < 4
        invariant
            i <= 4,
            nonce@.len() == 4 * i,
        decreases 4 - i,
    {
        let word = random_u32();
        push_be(&mut nonce, word as u64, 4);
        proof {
            crate::bytes::lemma_be_bytes_len(word as nat, 4);
        }
        i += 1;
    }
    encode_sec_key(nonce.as_slice())
}

/// A line without the carriage return that ended it, if one did.
pub open spec fn strip_cr(l: Seq<u8>) -> Seq<u8> {
    if l.len() > 0 && l.last() == 13 {
        l.drop_last()
    } else {
        l
    }
}

/// The lines of `s[start..]`, where the line that begins at `start` has
/// been scanned up to `i` without a line feed.
pub open spec fn lines_from(s: Seq<u8>, start: int, i: int) -> Seq<Seq<u8>>
    decreases s.len() - i,
{
    if i >= s.len() {
        if start < s.len() {
            seq![s.subrange(start, s.len() as int)]
        } else {
            Seq::empty()
        }
    } else if s[i] == 10 {
        seq![strip_cr(s.subrange(start, i))] + lines_from(s, i + 1, i + 1)
    } else {
        lines_from(s, start, i + 1)
    }
}

/// The lines of a text: split at each line feed, a carriage return before
/// it dropped, no empty last line after a final line feed.
pub open spec fn lines_of(s: Seq<u8>) -> Seq<Seq<u8>> {
    lines_from(s, 0, 0)
}

/// The lines held in vectors, as byte sequences.
pub open spec fn lines_view(v: Seq<Vec<u8>>) -> Seq<Seq<u8>> {
    v.map_values(|l: Vec<u8>| l@)
}

/// The bytes `s[start..end]` as a new vector.
fn copy_bytes(s: &[u8], start: usize, end: usize) -> (r: Vec<u8>)
    requires
        start <= end <= s@.len(),
    ensures
        r@ == s@.subrange(start as int, end as int),
{
    let mut out: Vec<u8> = Vec::new();
    let mut i: usize = start;
    while i < end
        invariant
            start <= i <= end,
            end <= s@.len(),
            out@ == s@.subrange(start as int, i as int),
        decreases end - i,
    {
        out.push(s[i]);
        i += 1;
        proof {
            assert(out@ =~= s@.subrange(start as int, i as int));
        }
    }
    out
}

/// The lines of a text.
pub fn split_lines(s: &[u8]) -> (r: Vec<Vec<u8>>)
    ensures
        lines_view(r@) == lines_of(s@),
{
    let n = s.len();
    let mut lines: Vec<Vec<u8>> = Vec::new();
    let mut start: usize = 0;
    let mut i: usize = 0;
    while i < n
        invariant
            n == s@.len(),
            start <= i <= n,
            lines_view(lines@) + lines_from(s@, start as int, i as int) == lines_of(s@),
        decreases n - i,
    {
        if s[i] == 10 {
            let end: usize = if i > start && s[i - 1] == 13 { i - 1 } else { i };
            let line = copy_bytes(s, start, end);
            proof {
                let l = s@.subrange(start as int, i as int);
                assert(line@ =~= strip_cr(l));
                let rest = lines_from(s@, i + 1, i + 1);
                assert(lines_view(lines@.push(line)) =~= lines_view(lines@).push(line@));
                assert(lines_view(lines@).push(line@) + rest =~= lines_view(lines@) + (seq![line@]
                    + rest));
            }
            lines.push(line);
            start = i + 1;
        }
        i += 1;
    }
    if start < n {
        let line = copy_bytes(s, start, n);
        proof {
            assert(lines_view(lines@.push(line)) =~= lines_view(lines@) + seq![line@]);
        }
        lines.push(line);
    } else {
        proof {
            assert(lines_view(lines@) + Seq::<Seq<u8>>::empty() =~= lines_view(lines@));
        }
    }
    lines
}

/// An ASCII letter in lower case; other bytes as they are.
pub open spec fn ascii_lower(b: u8) -> u8 {
    if 65 <= b <= 90 {
        (b + 32) as u8
    } else {
        b
    }
}

/// Equal but for the case of ASCII letters.
pub open spec fn eq_ignore_case(a: Seq<u8>, b: Seq<u8>) -> bool {
    &&& a.len() == b.len()
    &&& forall|i: int| 0 <= i < a.len() ==> ascii_lower(#[trigger] a[i]) == ascii_lower(b[i])
}

/// `l` begins with `p`, but for the case of ASCII letters.
pub open spec fn starts_ignore_case(l: Seq<u8>, p: Seq<u8>) -> bool {
    l.len() >= p.len() && eq_ignore_case(l.subrange(0, p.len() as int), p)
}

fn lower_byte(b: u8) -> (r: u8)
    ensures
        r == ascii_lower(b),
{
    if 65 <= b && b <= 90 {
        b + 32
    } else {
        b
    }
}

/// Whether `l[start..start + p.len()]` equals `p` but for the case of
/// ASCII letters.
fn matches_ignore_case_at(l: &[u8], start: usize, p: &[u8]) -> (r: bool)
    requires
        start + p@.len() <= l@.len(),
    ensures
        r == eq_ignore_case(l@.subrange(start as int, start + p@.len()), p@),
{
    let n = p.len();
    let ln = l.len();
    let mut i: usize = 0;
    while i < n
        invariant
            n == p@.len(),
            ln == l@.len(),
            start + n <= l@.len(),
            i <= n,
            forall|j: int| 0 <= j < i ==> ascii_lower(l@[start + j]) == ascii_lower(p@[j]),
        decreases n - i,
    {
        if lower_byte(l[start + i]) != lower_byte(p[i]) {
            proof {
                let sub = l@.subrange(start as int, start + n);
                assert(ascii_lower(sub[i as int]) != ascii_lower(p@[i as int]));
            }
            return false;
        }
        i += 1;
    }
    proof {
        let sub = l@.subrange(start as int, start + n);
        assert forall|j: int| 0 <= j < sub.len() implies ascii_lower(#[trigger] sub[j])
            == ascii_lower(p@[j]) by {
            assert(sub[j] == l@[start + j]);
        }
    }
    true
}

/// Whether `a` equals `b` but for the case of ASCII letters.
pub fn eq_ignore_ascii_case(a: &[u8], b: &[u8]) -> (r: bool)
    ensures
        r == eq_ignore_case(a@, b@),
{
    if a.len() != b.len() {
        return false;
    }
    proof {
        assert(a@.subrange(0, b@.len() as int) =~= a@);
    }
    matches_ignore_case_at(a, 0, b)
}

/// Whether `l` begins with `p` but for the case of ASCII letters.
pub fn starts_with_ignore_ascii_case(l: &[u8], p: &[u8]) -> (r: bool)
    ensures
        r == starts_ignore_case(l@, p@),
{
    if l.len() < p.len() {
        return false;
    }
    matches_ignore_case_at(l, 0, p)
}

/// What follows the first `": "` of `l` at or after `k`.
pub open spec fn value_from(l: Seq<u8>, k: int) -> Option<Seq<u8>>
    decreases l.len() - k,
{
    if k + 1 >= l.len() {
        None
    } else if l[k] == 58 && l[k + 1] == 32 {
        Some(l.subrange(k + 2, l.len() as int))
    } else {
        value_from(l, k + 1)
    }
}

/// The value of a header line: what follows its first `": "`.
pub open spec fn header_value(l: Seq<u8>) -> Option<Seq<u8>> {
    value_from(l, 0)
}

/// The value of a header line: what follows its first `": "`.
pub fn split_header_value(l: &[u8]) -> (r: Option<Vec<u8>>)
    ensures
        match header_value(l@) {
            Some(v) => r matches Some(w) && w@ == v,
            None => r is None,
        },
{
    let n = l.len();
    if n < 2 {
        return None;
    }
    let mut k: usize = 0;
    while k < n - 1
        invariant
            n == l@.len(),
            n >= 2,
            value_from(l@, k as int) == header_value(l@),
        decreases n - k,
    {
        if l[k] == 58 && l[k + 1] == 32 {
            return Some(copy_bytes(l, k + 2, n));
        }
        k += 1;
    }
    None
}

/// ASCII whitespace: space, tab, line feed, vertical tab, form feed,
/// carriage return.
pub open spec fn is_space(b: u8) -> bool {
    b == 32 || (9 <= b <= 13)
}

/// `v` without the ASCII whitespace at its start.
pub open spec fn trim_start(v: Seq<u8>) -> Seq<u8>
    decreases v.len(),
{
    if v.len() > 0 && is_space(v[0]) {
        trim_start(v.drop_first())
    } else {
        v
    }
}

/// `v` without the ASCII whitespace at its end.
pub open spec fn trim_end(v: Seq<u8>) -> Seq<u8>
    decreases v.len(),
{
    if v.len() > 0 && is_space(v.last()) {
        trim_end(v.drop_last())
    } else {
        v
    }
}

/// `v` without the ASCII whitespace at either end.
pub open spec fn trim(v: Seq<u8>) -> Seq<u8> {
    trim_end(trim_start(v))
}

fn space_byte(b: u8) -> (r: bool)
    ensures
        r == is_space(b),
{
    b == 32 || (9 <= b && b <= 13)
}

/// Whether `v`, without the ASCII whitespace at either end, equals `w`.
pub fn trimmed_equals(v: &[u8], w: &[u8]) -> (r: bool)
    ensures
        r == (trim(v@) == w@),
{
    let n = v.len();
    let mut a: usize = 0;
    proof {
        assert(v@.subrange(0, n as int) =~= v@);
    }
    while a < n && space_byte(v[a])
        invariant
            a <= n,
            n == v@.len(),
            trim_start(v@) == trim_start(v@.subrange(a as int, n as int)),
        decreases n - a,
    {
        proof {
            assert(v@.subrange(a as int, n as int).drop_first() =~= v@.subrange(a + 1, n as int));
        }
        a += 1;
    }
    let mut b: usize = n;
    proof {
        assert(trim_start(v@.subrange(a as int, n as int)) == v@.subrange(a as int, n as int));
    }
    while b > a && space_byte(v[b - 1])
        invariant
            a <= b <= n,
            n == v@.len(),
            trim(v@) == trim_end(v@.subrange(a as int, b as int)),
        decreases b,
    {
        proof {
            assert(v@.subrange(a as int, b as int).drop_last() =~= v@.subrange(a as int, b - 1));
        }
        b -= 1;
    }
    proof {
        assert(trim_end(v@.subrange(a as int, b as int)) == v@.subrange(a as int, b as int));
    }
    if b - a != w.len() {
        proof {
            assert(trim(v@).len() != w@.len());
        }
        return false;
    }
    let mut i: usize = 0;
    while i < b - a
        invariant
            a <= b <= n,
            n == v@.len(),
            b - a == w@.len(),
            trim(v@) == v@.subrange(a as int, b as int),
            i <= b - a,
            forall|j: int| 0 <= j < i ==> v@[a + j] == w@[j],
        decreases b - a - i,
    {
        if v[a + i] != w[i] {
            proof {
                assert(v@.subrange(a as int, b as int)[i as int] != w@[i as int]);
            }
            return false;
        }
        i += 1;
    }
    proof {
        assert(v@.subrange(a as int, b as int) =~= w@);
    }
    true
}


/// The request line that asks for the upgrade.
pub const UPGRADE_LINE: &'static str = "upgrade: websocket";

/// The request line that asks to keep the connection for the upgrade.
pub const CONNECTION_LINE: &'static str = "connection: upgrade";

/// The request line that names the protocol version.
pub const VERSION_LINE: &'static str = "sec-websocket-version: 13";

/// The start of the request line that names the host.
pub const HOST_PREFIX: &'static str = "host:";

/// The start of the request line that carries the key.
pub const KEY_PREFIX: &'static str = "sec-websocket-key:";

/// The start of the response line that carries the accept value.
pub const ACCEPT_PREFIX: &'static str = "sec-websocket-accept:";

/// The acceptor's response up to the accept value.
pub const RESPONSE_HEAD: &'static str = "HTTP/1.1 101 Switching Protocols\r\nUpgrade: websocket\r\nConnection: upgrade\r\nSec-Websocket-Accept: ";

/// The initiator's request up to the host.
pub const REQUEST_HEAD: &'static str = "GET / HTTP/1.1\r\nHost: ";

/// The initiator's request from the host to the key.
pub const REQUEST_MIDDLE: &'static str = "\r\nUpgrade: websocket\r\nConnection: upgrade\r\nSec-Websocket-Key: ";

/// The initiator's request after the key.
pub const REQUEST_TAIL: &'static str = "\r\nSec-Websocket-Version: 13\r\n\r\n";

/// The end of the last header line and the blank line after it.
pub const HEADERS_END: &'static str = "\r\n\r\n";

/// Some line equals `p` but for the case of ASCII letters.
pub open spec fn has_line(ls: Seq<Seq<u8>>, p: Seq<u8>) -> bool {
    exists|i: int| 0 <= i < ls.len() && eq_ignore_case(#[trigger] ls[i], p)
}

/// `l` is a host line whose value, without surrounding whitespace, is `host`.
pub open spec fn host_line(l: Seq<u8>, host: Seq<u8>) -> bool {
    &&& starts_ignore_case(l, encode_utf8(HOST_PREFIX@))
    &&& header_value(l) matches Some(v)
    &&& trim(v) == host
}

/// The value of the first line that begins with `p` (case aside), or none
/// where there is no such line or it has no `": "`.
pub open spec fn prefixed_value(ls: Seq<Seq<u8>>, p: Seq<u8>) -> Option<Seq<u8>>
    decreases ls.len(),
{
    if ls.len() == 0 {
        None
    } else if starts_ignore_case(ls[0], p) {
        header_value(ls[0])
    } else {
        prefixed_value(ls.drop_first(), p)
    }
}

/// The request lines ask for a WebSocket upgrade, version 13, of `host`.
pub open spec fn upgrade_requested(ls: Seq<Seq<u8>>, host: Seq<u8>) -> bool {
    &&& has_line(ls, encode_utf8(UPGRADE_LINE@))
    &&& has_line(ls, encode_utf8(CONNECTION_LINE@))
    &&& has_line(ls, encode_utf8(VERSION_LINE@))
    &&& exists|i: int| 0 <= i < ls.len() && host_line(#[trigger] ls[i], host)
}

/// The key of an acceptable upgrade request for `host`, or none.
pub open spec fn request_key(request: Seq<u8>, host: Seq<u8>) -> Option<Seq<u8>> {
    let ls = lines_of(request);
    if upgrade_requested(ls, host) {
        prefixed_value(ls, encode_utf8(KEY_PREFIX@))
    } else {
        None
    }
}

fn any_line_equal(lines: &Vec<Vec<u8>>, p: &[u8]) -> (r: bool)
    ensures
        r == has_line(lines_view(lines@), p@),
{
    let n = lines.len();
    let mut i: usize = 0;
    while i < n
        invariant
            n == lines@.len(),
            i <= n,
            forall|j: int| 0 <= j < i ==> !eq_ignore_case(#[trigger] lines_view(lines@)[j], p@),
        decreases n - i,
    {
        if eq_ignore_ascii_case(lines[i].as_slice(), p) {
            proof {
                assert(eq_ignore_case(lines_view(lines@)[i as int], p@));
            }
            return true;
        }
        i += 1;
    }
    false
}

fn any_host_line(lines: &Vec<Vec<u8>>, host: &[u8]) -> (r: bool)
    ensures
        r == exists|i: int|
            0 <= i < lines@.len() && host_line(#[trigger] lines_view(lines@)[i], host@),
{
    let n = lines.len();
    let mut i: usize = 0;
    while i < n
        invariant
            n == lines@.len(),
            i <= n,
            forall|j: int| 0 <= j < i ==> !host_line(#[trigger] lines_view(lines@)[j], host@),
        decreases n - i,
    {
        let l = lines[i].as_slice();
        if starts_with_ignore_ascii_case(l, HOST_PREFIX.as_bytes()) {
            match split_header_value(l) {
                Some(v) => {
                    if trimmed_equals(v.as_slice(), host) {
                        proof {
                            assert(host_line(lines_view(lines@)[i as int], host@));
                        }
                        return true;
                    }
                },
                None => {},
            }
        }
        i += 1;
    }
    false
}

/// The value of the first line that begins with `p`, case aside.
fn first_prefixed_value(lines: &Vec<Vec<u8>>, p: &[u8]) -> (r: Option<Vec<u8>>)
    ensures
        match prefixed_value(lines_view(lines@), p@) {
            Some(v) => r matches Some(w) && w@ == v,
            None => r is None,
        },
{
    let n = lines.len();
    let mut i: usize = 0;
    proof {
        assert(lines_view(lines@).subrange(0, n as int) =~= lines_view(lines@));
    }
    while i < n
        invariant
            n == lines@.len(),
            i <= n,
            prefixed_value(lines_view(lines@), p@) == prefixed_value(
                lines_view(lines@).subrange(i as int, n as int),
                p@,
            ),
        decreases n - i,
    {
        let l = lines[i].as_slice();
        let ghost rest = lines_view(lines@).subrange(i as int, n as int);
        proof {
            assert(rest.drop_first() =~= lines_view(lines@).subrange(i + 1, n as int));
        }
        if starts_with_ignore_ascii_case(l, p) {
            return split_header_value(l);
        }
        i += 1;
    }
    None
}

/// The key of an upgrade request that asks for a WebSocket upgrade,
/// version 13, of `host`; none where the request does not.
pub fn validate_upgrade_headers(request: &[u8], host: &[u8]) -> (r: Option<Vec<u8>>)
    ensures
        match request_key(request@, host@) {
            Some(k) => r matches Some(w) && w@ == k,
            None => r is None,
        },
{
    let lines = split_lines(request);
    let ok = any_line_equal(&lines, UPGRADE_LINE.as_bytes()) && any_line_equal(
        &lines,
        CONNECTION_LINE.as_bytes(),
    ) && any_line_equal(&lines, VERSION_LINE.as_bytes()) && any_host_line(&lines, host);
    if !ok {
        return None;
    }
    first_prefixed_value(&lines, KEY_PREFIX.as_bytes())
}

/// Why a handshake fails.
#[derive(Debug, Clone, Copy, PartialEq, Eq, Structural)]
pub enum HandshakeError {
    /// The bytes are not UTF-8, or the peer's answer is missing or wrong.
    InvalidData,
    /// The request does not ask for an acceptable upgrade.
    Refused,
}

/// The acceptor's response that carries an accept value.
pub open spec fn response_bytes(accept: Seq<char>) -> Seq<u8> {
    encode_utf8(RESPONSE_HEAD@) + encode_utf8(accept) + encode_utf8(HEADERS_END@)
}

/// The initiator's request to `host` with `key`.
pub open spec fn request_bytes(host: Seq<char>, key: Seq<char>) -> Seq<u8> {
    encode_utf8(REQUEST_HEAD@) + encode_utf8(host) + encode_utf8(REQUEST_MIDDLE@) + encode_utf8(key)
        + encode_utf8(REQUEST_TAIL@)
}

fn is_utf8(b: &[u8]) -> (r: bool)
    ensures
        r == valid_utf8(b@),
{
    let copy = copy_bytes(b, 0, b.len());
    proof {
        assert(b@.subrange(0, b@.len() as int) =~= b@);
    }
    utf8_string(copy).is_some()
}

/// The acceptor's answer to an upgrade request for `host`: the 101
/// response with the accept value of the request's key; `InvalidData`
/// where the request is not UTF-8; `Refused` where it does not ask for an
/// acceptable upgrade.
pub fn upgrade_response(request: &[u8], host: &str) -> (r: Result<Vec<u8>, HandshakeError>)
    ensures
        !valid_utf8(request@) ==> r == Err::<Vec<u8>, _>(HandshakeError::InvalidData),
        valid_utf8(request@) ==> match request_key(request@, encode_utf8(host@)) {
            Some(k) => r matches Ok(b) && b@ == response_bytes(accept_value(k)),
            None => r == Err::<Vec<u8>, _>(HandshakeError::Refused),
        },
{
    if !is_utf8(request) {
        return Err(HandshakeError::InvalidData);
    }
    match validate_upgrade_headers(request, host.as_bytes()) {
        None => Err(HandshakeError::Refused),
        Some(key) => {
            let accept = accept_key(key.as_slice());
            let mut out: Vec<u8> = Vec::new();
            append_slice(&mut out, RESPONSE_HEAD.as_bytes());
            append_slice(&mut out, accept.as_str().as_bytes());
            append_slice(&mut out, HEADERS_END.as_bytes());
            Ok(out)
        },
    }
}

/// The initiator's upgrade request to `host` with `key`.
pub fn upgrade_request(host: &str, key: &str) -> (r: Vec<u8>)
    ensures
        r@ == request_bytes(host@, key@),
{
    let mut out: Vec<u8> = Vec::new();
    append_slice(&mut out, REQUEST_HEAD.as_bytes());
    append_slice(&mut out, host.as_bytes());
    append_slice(&mut out, REQUEST_MIDDLE.as_bytes());
    append_slice(&mut out, key.as_bytes());
    append_slice(&mut out, REQUEST_TAIL.as_bytes());
    out
}

fn bytes_equal(a: &[u8], b: &[u8]) -> (r: bool)
    ensures
        r == (a@ == b@),
{
    if a.len() != b.len() {
        return false;
    }
    let n = a.len();
    let mut i: usize = 0;
    while i < n
        invariant
            n == a@.len(),
            n == b@.len(),
            i <= n,
            forall|j: int| 0 <= j < i ==> a@[j] == b@[j],
        decreases n - i,
    {
        if a[i] != b[i] {
            return false;
        }
        i += 1;
    }
    proof {
        assert(a@ =~= b@);
    }
    true
}

/// The initiator's check of the acceptor's response to a request with
/// `key`: it holds exactly when the response is UTF-8 and its first accept
/// line carries the accept value of the key.
pub fn check_upgrade_response(response: &[u8], key: &str) -> (r: Result<(), HandshakeError>)
    ensures
        r is Ok <==> valid_utf8(response@) && prefixed_value(
            lines_of(response@),
            encode_utf8(ACCEPT_PREFIX@),
        ) == Some(encode_utf8(accept_value(encode_utf8(key@)))),
        r is Err ==> r == Err::<(), _>(HandshakeError::InvalidData),
{
    if !is_utf8(response) {
        return Err(HandshakeError::InvalidData);
    }
    let lines = split_lines(response);
    match first_prefixed_value(&lines, ACCEPT_PREFIX.as_bytes()) {
        None => Err(HandshakeError::InvalidData),
        Some(value) => {
            let expected = generate_response_key(key);
            if bytes_equal(value.as_slice(), expected.as_str().as_bytes()) {
                Ok(())
            } else {
                Err(HandshakeError::InvalidData)
            }
        },
    }
}

/// A request without the version line is refused, whatever else it holds.
pub proof fn lemma_refused_without_version(request: Seq<u8>, host: Seq<u8>)
    requires
        !has_line(lines_of(request), encode_utf8(VERSION_LINE@)),
    ensures
        request_key(request, host) is None,
{
}


/// The text read so far ends with the blank line that closes the headers.
pub open spec fn ends_headers(b: Seq<u8>) -> bool {
    b.len() >= 4 && b.subrange(b.len() - 4, b.len() as int) == encode_utf8(HEADERS_END@)
}

/// Whether the text read so far ends with the blank line that closes the
/// headers.
pub fn headers_complete(buf: &[u8]) -> (r: bool)
    ensures
        r == ends_headers(buf@),
{
    let n = buf.len();
    if n < 4 {
        return false;
    }
    let tail = copy_bytes(buf, n - 4, n);
    bytes_equal(tail.as_slice(), HEADERS_END.as_bytes())
}

} // verus!
