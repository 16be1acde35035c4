//! The opening handshake: finds the `sec-websocket-key` header of an HTTP
//! upgrade request and answers with the `101 Switching Protocols` response
//! whose accept key is the base64-encoded SHA-1 digest of the key and the
//! fixed GUID.

use vstd::prelude::*;
use vstd::utf8::valid_utf8;

use base64::Engine;
use sha1::Digest;

use crate::IOFailure;
use crate::frame::utf8_to_string;

verus! {

/// Index of the first occurrence of `b` in `s`, or `s.len()` when absent.
pub open spec fn first_index(s: Seq<u8>, b: u8) -> int
    decreases s.len(),
{
    if s.len() == 0 {
        0
    } else if s[0] == b {
        0
    } else {
        1 + first_index(s.skip(1), b)
    }
}

/// `first_index(s, b)` is the position whose prefix is free of `b`.
proof fn lemma_first_index_is(s: Seq<u8>, b: u8, k: int)
    requires
        0 <= k <= s.len(),
        forall|j: int| 0 <= j < k ==> s[j] != b,
        k < s.len() ==> s[k] == b,
    ensures
        first_index(s, b) == k,
    decreases k,
{
    if k == 0 {
    } else {
        assert(s[0] != b);
        let t = s.skip(1);
        assert forall|j: int| 0 <= j < k - 1 implies t[j] != b by {
            assert(t[j] == s[j + 1]);
        };
        if k - 1 < t.len() {
            assert(t[k - 1] == s[k]);
        }
        lemma_first_index_is(t, b, k - 1);
    }
}

/// A line with one trailing carriage return stripped.
pub open spec fn strip_cr(line: Seq<u8>) -> Seq<u8> {
    if line.len() > 0 && line.last() == 13 {
        line.drop_last()
    } else {
        line
    }
}

/// The lines of `s`: split at line feeds, a carriage return directly before a
/// line feed stripped, no final empty line after a trailing line feed.
pub open spec fn split_lines(s: Seq<u8>) -> Seq<Seq<u8>>
    decreases s.len(),
    via split_lines_decreases
{
    if s.len() == 0 {
        Seq::empty()
    } else {
        let i = first_index(s, 10);
        if i == s.len() {
            seq![s]
        } else {
            seq![strip_cr(s.take(i))] + split_lines(s.skip(i + 1))
        }
    }
}

#[via_fn]
proof fn split_lines_decreases(s: Seq<u8>) {
    lemma_first_index_bounds(s, 10);
}

/// `first_index` stays within the sequence.
proof fn lemma_first_index_bounds(s: Seq<u8>, b: u8)
    ensures
        0 <= first_index(s, b) <= s.len(),
    decreases s.len(),
{
    if s.len() == 0 {
    } else if s[0] == b {
    } else {
        lemma_first_index_bounds(s.skip(1), b);
    }
}

/// An ASCII uppercase letter lowered; any other byte unchanged.
pub open spec fn ascii_lower_byte(b: u8) -> u8 {
    if 65 <= b && b <= 90 {
        (b + 32) as u8
    } else {
        b
    }
}

/// Each byte lowered.
pub open spec fn ascii_lower(s: Seq<u8>) -> Seq<u8> {
    s.map_values(|b: u8| ascii_lower_byte(b))
}

/// Bytes treated as padding around header names and values.
pub open spec fn is_ws(b: u8) -> bool {
    b == 32 || b == 9 || b == 13 || b == 10
}

pub open spec fn trim_front(s: Seq<u8>) -> Seq<u8>
    decreases s.len(),
{
    if s.len() > 0 && is_ws(s[0]) {
        trim_front(s.skip(1))
    } else {
        s
    }
}

pub open spec fn trim_back(s: Seq<u8>) -> Seq<u8>
    decreases s.len(),
{
    if s.len() > 0 && is_ws(s.last()) {
        trim_back(s.drop_last())
    } else {
        s
    }
}

/// `s` without leading and trailing padding bytes.
pub open spec fn trim(s: Seq<u8>) -> Seq<u8> {
    trim_back(trim_front(s))
}

proof fn lemma_trim_front_skip(s: Seq<u8>, k: int)
    requires
        0 <= k <= s.len(),
        forall|j: int| 0 <= j < k ==> is_ws(s[j]),
        k < s.len() ==> !is_ws(s[k]),
    ensures
        trim_front(s) == s.skip(k),
    decreases k,
{
    if k == 0 {
        assert(s.skip(0) =~= s);
    } else {
        assert(is_ws(s[0]));
        let t = s.skip(1);
        assert forall|j: int| 0 <= j < k - 1 implies is_ws(t[j]) by {
            assert(t[j] == s[j + 1]);
        };
        if k - 1 < t.len() {
            assert(t[k - 1] == s[k]);
        }
        lemma_trim_front_skip(t, k - 1);
        assert(s.skip(1).skip(k - 1) =~= s.skip(k));
    }
}

proof fn lemma_trim_back_take(s: Seq<u8>, k: int)
    requires
        0 <= k <= s.len(),
        forall|j: int| k <= j < s.len() ==> is_ws(s[j]),
        k > 0 ==> !is_ws(s[k - 1]),
    ensures
        trim_back(s) == s.take(k),
    decreases s.len(),
{
    if k == s.len() {
        assert(s.take(k) =~= s);
    } else {
        assert(is_ws(s.last()));
        let t = s.drop_last();
        assert(t =~= s.take(s.len() - 1));
        assert forall|j: int| k <= j < t.len() implies is_ws(t[j]) by {
            assert(t[j] == s[j]);
        };
        if k > 0 {
            assert(t[k - 1] == s[k - 1]);
        }
        lemma_trim_back_take(t, k);
        assert(t.take(k) =~= s.take(k));
    }
}

/// The lowercased, trimmed name of a header line, or `None` when the line has
/// no colon.
pub open spec fn line_name(line: Seq<u8>) -> Option<Seq<u8>> {
    let i = first_index(line, 58);
    if i == line.len() {
        None
    } else {
        Some(ascii_lower(trim(line.take(i))))
    }
}

/// The trimmed value after the first colon of a header line.
pub open spec fn line_value(line: Seq<u8>) -> Seq<u8> {
    let i = first_index(line, 58);
    trim(line.skip(i + 1))
}

/// The value of the last header line carrying `name`, a later occurrence
/// overriding an earlier one.
pub open spec fn find_header(lines: Seq<Seq<u8>>, name: Seq<u8>) -> Option<Seq<u8>>
    decreases lines.len(),
{
    if lines.len() == 0 {
        None
    } else if line_name(lines.last()) == Some(name) {
        Some(line_value(lines.last()))
    } else {
        find_header(lines.drop_last(), name)
    }
}

/// The bytes of the header name `sec-websocket-key`.
pub open spec fn websocket_key_name() -> Seq<u8> {
    seq![115u8, 101, 99, 45, 119, 101, 98, 115, 111, 99, 107, 101, 116, 45, 107, 101, 121]
}

/// The `sec-websocket-key` value of a request, its header lines being every
/// line after the request line.
pub open spec fn spec_websocket_key(data: Seq<u8>) -> Option<Seq<u8>> {
    let lines = split_lines(data);
    if lines.len() == 0 {
        None
    } else {
        find_header(lines.drop_first(), websocket_key_name())
    }
}

/// The bytes of the fixed GUID a server appends to the key before hashing.
pub open spec fn accept_guid() -> Seq<u8> {
    seq![
        50u8, 53, 56, 69, 65, 70, 65, 53, 45, 69, 57, 49, 52, 45, 52, 55, 68, 65, 45, 57, 53, 67,
        65, 45, 67, 53, 65, 66, 48, 68, 67, 56, 53, 66, 49, 49,
    ]
}

/// The SHA-1 digest of a byte sequence.
pub uninterp spec fn sha1_of(bytes: Seq<u8>) -> Seq<u8>;

/// The standard base64 encoding, with padding, of a byte sequence.
pub uninterp spec fn base64_of(bytes: Seq<u8>) -> Seq<char>;

/// The `Sec-WebSocket-Accept` value for a key.
pub open spec fn spec_accept_key(key: Seq<u8>) -> Seq<char> {
    base64_of(sha1_of(key + accept_guid()))
}

/// The fixed response text that precedes the accept key.
pub open spec fn response_prefix() -> Seq<char> {
    "HTTP/1.1 101 Switching Protocols\r\nUpgrade: websocket\r\nConnection: Upgrade\r\nSec-WebSocket-Accept: "@
}

/// The fixed response text that follows the accept key.
pub open spec fn response_suffix() -> Seq<char> {
    "\r\n\r\n"@
}

/// The complete `101 Switching Protocols` response for a key.
pub open spec fn spec_handshake_response(key: Seq<u8>) -> Seq<char> {
    response_prefix() + spec_accept_key(key) + response_suffix()
}

/// Relies on `sha1::Sha1` through the `Digest` trait: the 20-byte digest is a
/// function of the input bytes alone.
#[verifier::external_body]
fn sha1_digest(input: &Vec<u8>) -> (r: Vec<u8>)
    ensures
        r@ == sha1_of(input@),
        r@.len() == 20,
{
    <sha1::Sha1 as Digest>::digest(input.as_slice()).to_vec()
}

/// Relies on base64's `STANDARD` engine: the encoding is a function of the
/// input bytes alone.
#[verifier::external_body]
fn base64_encode(input: &Vec<u8>) -> (r: String)
    ensures
        r@ == base64_of(input@),
{
    base64::engine::general_purpose::STANDARD.encode(input.as_slice())
}

/// Relies on `String::push_str`: appends the characters of `t`.
#[verifier::external_body]
fn push_str(s: &mut String, t: &str)
    ensures
        final(s)@ == old(s)@ + t@,
{
    s.push_str(t);
}

fn is_ws_byte(b: u8) -> (r: bool)
    ensures
        r == is_ws(b),
{
    b == 32 || b == 9 || b == 13 || b == 10
}

fn first_index_vec(line: &Vec<u8>, b: u8) -> (r: usize)
    ensures
        r == first_index(line@, b),
{
    let mut i: usize = 0;
    while i < line.len()
        invariant
            i <= line@.len(),
            forall|j: int| 0 <= j < i ==> line@[j] != b,
        decreases line@.len() - i,
    {
        if line[i] == b {
            proof {
                lemma_first_index_is(line@, b, i as int);
            }
            return i;
        }
        i = i + 1;
    }
    proof {
        lemma_first_index_is(line@, b, line@.len() as int);
    }
    i
}

fn trim_vec(line: &Vec<u8>) -> (r: Vec<u8>)
    ensures
        r@ == trim(line@),
{
    let mut a: usize = 0;
    while a < line.len() && is_ws_byte(line[a])
        invariant
            a <= line@.len(),
            forall|j: int| 0 <= j < a ==> is_ws(line@[j]),
        decreases line@.len() - a,
    {
        a = a + 1;
    }
    let mut b: usize = line.len();
    while b > a && is_ws_byte(line[b - 1])
        invariant
            a <= b <= line@.len(),
            forall|j: int| b <= j < line@.len() ==> is_ws(line@[j]),
        decreases b,
    {
        b = b - 1;
    }
    let r = vstd::slice::slice_to_vec(vstd::slice::slice_subrange(line.as_slice(), a, b));
    proof {
        lemma_trim_front_skip(line@, a as int);
        let t = line@.skip(a as int);
        assert forall|j: int| b - a <= j < t.len() implies is_ws(t[j]) by {
            assert(t[j] == line@[a + j]);
        };
        if b > a {
            assert(t[b - a - 1] == line@[b - 1]);
        }
        lemma_trim_back_take(t, b - a);
        assert(r@ =~= t.take(b - a));
    }
    r
}

fn ascii_lower_vec(v: &Vec<u8>) -> (r: Vec<u8>)
    ensures
        r@ == ascii_lower(v@),
{
    let mut out: Vec<u8> = Vec::new();
    let mut i: usize = 0;
    while i < v.len()
        invariant
            i <= v@.len(),
            out@.len() == i,
            forall|j: int| 0 <= j < i ==> out@[j] == ascii_lower_byte(v@[j]),
        decreases v@.len() - i,
    {
        let b = v[i];
        if 65 <= b && b <= 90 {
            out.push(b + 32);
        } else {
            out.push(b);
        }
        i = i + 1;
    }
    proof {
        assert(out@ =~= ascii_lower(v@));
    }
    out
}

fn bytes_eq(a: &Vec<u8>, b: &Vec<u8>) -> (r: bool)
    ensures
        r == (a@ == b@),
{
    if a.len() != b.len() {
        return false;
    }
    let mut i: usize = 0;
    while i < a.len()
        invariant
            a@.len() == b@.len(),
            i <= a@.len(),
            forall|j: int| 0 <= j < i ==> a@[j] == b@[j],
        decreases a@.len() - i,
    {
        if a[i] != b[i] {
            return false;
        }
        i = i + 1;
    }
    proof {
        assert(a@ =~= b@);
    }
    true
}

fn websocket_key_name_vec() -> (r: Vec<u8>)
    ensures
        r@ == websocket_key_name(),
{
    let mut v: Vec<u8> = Vec::new();
    v.push(115);
    v.push(101);
    v.push(99);
    v.push(45);
    v.push(119);
    v.push(101);
    v.push(98);
    v.push(115);
    v.push(111);
    v.push(99);
    v.push(107);
    v.push(101);
    v.push(116);
    v.push(45);
    v.push(107);
    v.push(101);
    v.push(121);
    proof {
        assert(v@ =~= websocket_key_name());
    }
    v
}

fn accept_guid_vec() -> (r: Vec<u8>)
    ensures
        r@ == accept_guid(),
{
    let mut v: Vec<u8> = Vec::new();
    v.push(50);
    v.push(53);
    v.push(56);
    v.push(69);
    v.push(65);
    v.push(70);
    v.push(65);
    v.push(53);
    v.push(45);
    v.push(69);
    v.push(57);
    v.push(49);
    v.push(52);
    v.push(45);
    v.push(52);
    v.push(55);
    v.push(68);
    v.push(65);
    v.push(45);
    v.push(57);
    v.push(53);
    v.push(67);
    v.push(65);
    v.push(45);
    v.push(67);
    v.push(53);
    v.push(65);
    v.push(66);
    v.push(48);
    v.push(68);
    v.push(67);
    v.push(56);
    v.push(53);
    v.push(66);
    v.push(49);
    v.push(49);
    proof {
        assert(v@ =~= accept_guid());
    }
    v
}

/// Splits the request bytes into lines, as `split_lines` describes.
fn split_lines_vec(data: &[u8]) -> (r: Vec<Vec<u8>>)
    ensures
        r.deep_view() == split_lines(data@),
{
    let n = data.len();
    let mut lines: Vec<Vec<u8>> = Vec::new();
    let ghost mut done: Seq<Seq<u8>> = Seq::empty();
    let mut start: usize = 0;
    let mut i: usize = 0;
    proof {
        assert(data@.skip(0) =~= data@);
        assert(done + split_lines(data@) =~= split_lines(data@));
    }
    while i < n
        invariant
            n == data@.len(),
            start <= i <= n,
            lines@.len() == done.len(),
            forall|k: int| 0 <= k < done.len() ==> lines@[k]@ == done[k],
            split_lines(data@) == done + split_lines(data@.skip(start as int)),
            forall|j: int| start <= j < i ==> data@[j] != 10,
        decreases n - i,
    {
        if *vstd::slice::slice_index_get(data, i) == 10 {
            let line_end = if i > start && *vstd::slice::slice_index_get(data, i - 1) == 13 {
                i - 1
            } else {
                i
            };
            let line = vstd::slice::slice_to_vec(
                vstd::slice::slice_subrange(data, start, line_end),
            );
            proof {
                let s = data@.skip(start as int);
                assert forall|j: int| 0 <= j < i - start implies s[j] != 10 by {
                    assert(s[j] == data@[start + j]);
                };
                assert(s[i - start] == data@[i as int]);
                lemma_first_index_is(s, 10, i - start);
                assert(s.take(i - start) =~= data@.subrange(start as int, i as int));
                assert(strip_cr(s.take(i - start)) =~= line@);
                assert(s.skip(i - start + 1) =~= data@.skip(i + 1));
                assert(split_lines(s) == seq![strip_cr(s.take(i - start))] + split_lines(
                    s.skip(i - start + 1),
                ));
                done = done.push(line@);
                assert(done + split_lines(data@.skip(i + 1)) =~= split_lines(data@));
            }
            lines.push(line);
            start = i + 1;
        }
        i = i + 1;
    }
    if start < n {
        let line = vstd::slice::slice_to_vec(vstd::slice::slice_subrange(data, start, n));
        proof {
            let s = data@.skip(start as int);
            assert forall|j: int| 0 <= j < s.len() implies s[j] != 10 by {
                assert(s[j] == data@[start + j]);
            };
            lemma_first_index_is(s, 10, s.len() as int);
            assert(split_lines(s) == seq![s]);
            assert(line@ =~= s);
            done = done.push(line@);
            assert(done =~= split_lines(data@));
        }
        lines.push(line);
    } else {
        proof {
            let s = data@.skip(start as int);
            assert(s.len() == 0);
            assert(done + split_lines(s) =~= done);
        }
    }
    proof {
        assert(lines.deep_view() =~~= split_lines(data@));
    }
    lines
}

/// Finds the `sec-websocket-key` header value, as `spec_websocket_key`
/// describes.
fn find_websocket_key(data: &[u8]) -> (r: Option<Vec<u8>>)
    ensures
        match spec_websocket_key(data@) {
            Some(v) => r matches Some(rv) && rv@ == v,
            None => r is None,
        },
{
    let lines = split_lines_vec(data);
    if lines.len() == 0 {
        return None;
    }
    let key_name = websocket_key_name_vec();
    let mut found: Option<Vec<u8>> = None;
    let mut i: usize = 1;
    while i < lines.len()
        invariant
            1 <= i <= lines@.len(),
            lines@.len() >= 1,
            lines.deep_view() == split_lines(data@),
            key_name@ == websocket_key_name(),
            match found {
                Some(v) => find_header(
                    lines.deep_view().subrange(1, i as int),
                    websocket_key_name(),
                ) == Some(v@),
                None => find_header(
                    lines.deep_view().subrange(1, i as int),
                    websocket_key_name(),
                ) is None,
            },
        decreases lines@.len() - i,
    {
        let line = &lines[i];
        proof {
            assert(lines.deep_view()[i as int] =~= line@);
        }
        let ci = first_index_vec(line, 58);
        proof {
            lemma_first_index_bounds(line@, 58);
        }
        if ci < line.len() {
            let raw_name = vstd::slice::slice_to_vec(
                vstd::slice::slice_subrange(line.as_slice(), 0, ci),
            );
            let trimmed = trim_vec(&raw_name);
            let name = ascii_lower_vec(&trimmed);
            proof {
                assert(raw_name@ =~= line@.take(ci as int));
                assert(line_name(line@) == Some(ascii_lower(trim(line@.take(ci as int)))));
            }
            if bytes_eq(&name, &key_name) {
                let after = vstd::slice::slice_to_vec(
                    vstd::slice::slice_subrange(line.as_slice(), ci + 1, line.len()),
                );
                let value = trim_vec(&after);
                proof {
                    assert(after@ =~= line@.skip(ci + 1));
                }
                found = Some(value);
            }
        }
        proof {
            let dv = lines.deep_view();
            assert(dv.subrange(1, i + 1).drop_last() =~= dv.subrange(1, i as int));
            assert(dv.subrange(1, i + 1).last() == dv[i as int]);
        }
        i = i + 1;
    }
    proof {
        assert(lines.deep_view().subrange(1, lines@.len() as int) =~= split_lines(
            data@,
        ).drop_first());
    }
    found
}

/// Builds the accept-key value: base64 of the SHA-1 digest of the key
/// followed by the fixed GUID.
fn websocket_accept_key(key: &Vec<u8>) -> (r: String)
    ensures
        r@ == spec_accept_key(key@),
{
    let mut input = vstd::slice::slice_to_vec(key.as_slice());
    let mut guid = accept_guid_vec();
    input.append(&mut guid);
    let digest = sha1_digest(&input);
    base64_encode(&digest)
}

/// An HTTP upgrade request, held as raw bytes known to be valid UTF-8.
pub struct Request<'a> {
    data: &'a [u8],
}

impl<'a> View for Request<'a> {
    type V = Seq<u8>;

    closed spec fn view(&self) -> Seq<u8> {
        self.data@
    }
}

impl<'a> Request<'a> {
    /// Accepts the raw request bytes exactly when they are valid UTF-8, as
    /// HTTP header text must be.
    pub fn new(data: &'a [u8]) -> (r: Result<Self, IOFailure>)
        ensures
            r is Ok <==> valid_utf8(data@),
            r matches Ok(req) ==> req@ == data@,
            r matches Err(e) ==> e == IOFailure::InvalidUtf8,
    {
        let copy = vstd::slice::slice_to_vec(data);
        match utf8_to_string(copy) {
            Some(_) => Ok(Request { data }),
            None => Err(IOFailure::InvalidUtf8),
        }
    }

    /// The complete `101 Switching Protocols` response when the request
    /// carries a `sec-websocket-key` header, and nothing when it does not.
    pub fn response(&self) -> (r: Option<String>)
        ensures
            match spec_websocket_key(self@) {
                Some(key) => r matches Some(s) && s@ == spec_handshake_response(key),
                None => r is None,
            },
    {
        match find_websocket_key(self.data) {
            None => None,
            Some(key) => {
                let accept = websocket_accept_key(&key);
                let mut out =
                    "HTTP/1.1 101 Switching Protocols\r\nUpgrade: websocket\r\nConnection: Upgrade\r\nSec-WebSocket-Accept: ".to_owned();
                push_str(&mut out, accept.as_str());
                push_str(&mut out, "\r\n\r\n");
                proof {
                    assert(out@ =~= spec_handshake_response(key@));
                }
                Some(out)
            },
        }
    }
}

} // verus!
