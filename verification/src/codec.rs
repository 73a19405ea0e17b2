//! The wire codec: NUL-terminated request frames whose payload is either a
//! `*`-prefixed command or a newline-separated path list, and the matching
//! responses (digest lines, `*ok`, error reports introduced by `!`).
//!
//! Everything here is byte-exact and verified; only the UTF-8 validity
//! test leans on the standard library.

use vstd::prelude::*;

use crate::bytes::{copy_range, push_all};

verus! {

/// Line separator inside a path-list payload.
pub const NL: u8 = 10;

/// Frame terminator: one NUL ends every request and every list/error
/// response.
pub const NUL: u8 = 0;

/// First payload byte of a command request.
pub const STAR: u8 = 42;

/// First byte of an error response.
pub const BANG: u8 = 33;

/// Optional trailing marker on a request path, stripped before use.
pub const QMARK: u8 = 63;

/// Index of the first occurrence of `sep` in `s`, or `s.len()` when `s`
/// holds none.
pub open spec fn first_sep(s: Seq<u8>, sep: u8) -> nat
    decreases s.len(),
{
    if s.len() == 0 {
        0
    } else if s[0] == sep {
        0
    } else {
        1 + first_sep(s.drop_first(), sep)
    }
}

/// `s` split at every occurrence of `sep`: n separators give n + 1 tokens,
/// in order, none holding `sep`.
pub open spec fn split_sep(s: Seq<u8>, sep: u8) -> Seq<Seq<u8>>
    decreases s.len(),
{
    let i = first_sep(s, sep) as int;
    if i >= s.len() {
        seq![s]
    } else {
        seq![s.take(i)] + split_sep(s.skip(i + 1), sep)
    }
}

/// A path with a trailing do-not-monitor marker has the marker stripped.
pub open spec fn strip_mark(p: Seq<u8>) -> Seq<u8> {
    if p.len() > 0 && p.last() == QMARK {
        p.drop_last()
    } else {
        p
    }
}

/// Empty lines dropped, every kept line stripped of its marker, order kept.
pub open spec fn clean_paths(toks: Seq<Seq<u8>>) -> Seq<Seq<u8>>
    decreases toks.len(),
{
    if toks.len() == 0 {
        Seq::empty()
    } else if toks[0].len() == 0 {
        clean_paths(toks.drop_first())
    } else {
        seq![strip_mark(toks[0])] + clean_paths(toks.drop_first())
    }
}

/// The path list a path-list payload denotes: split on newlines, empty
/// lines ignored, markers stripped.
pub open spec fn path_list_of(payload: Seq<u8>) -> Seq<Seq<u8>> {
    clean_paths(split_sep(payload, NL))
}

/// A decoded request: either a command (the bytes after `*`, before the
/// NUL) or an ordered list of paths.
pub enum Request {
    Command(Vec<u8>),
    PathList(Vec<Vec<u8>>),
}

/// What a request payload (the frame bytes before the NUL) denotes.
pub open spec fn payload_is_command(payload: Seq<u8>) -> bool {
    payload.len() > 0 && payload[0] == STAR
}

proof fn lemma_first_sep_at(t: Seq<u8>, sep: u8, k: int)
    requires
        0 <= k <= t.len(),
        forall|j: int| 0 <= j < k ==> t[j] != sep,
        k < t.len() ==> t[k] == sep,
    ensures
        first_sep(t, sep) == k,
    decreases t.len(),
{
    if t.len() == 0 {
    } else if t[0] == sep {
        assert(k == 0);
    } else {
        assert(k >= 1);
        lemma_first_sep_at(t.drop_first(), sep, k - 1);
    }
}

/// Finds the first occurrence of `sep`, or the length when there is none.
pub fn find_byte(data: &[u8], sep: u8) -> (r: usize)
    ensures
        r == first_sep(data@, sep),
        r <= data@.len(),
        r < data@.len() ==> data@[r as int] == sep,
        forall|j: int| 0 <= j < r ==> data@[j] != sep,
{
    let n: usize = data.len();
    let mut i: usize = 0;
    while i < n
        invariant
            0 <= i <= n == data@.len(),
            forall|j: int| 0 <= j < i ==> data@[j] != sep,
        decreases n - i,
    {
        if data[i] == sep {
            proof {
                lemma_first_sep_at(data@, sep, i as int);
            }
            return i;
        }
        i = i + 1;
    }
    proof {
        lemma_first_sep_at(data@, sep, n as int);
    }
    n
}

/// The payload of the first complete frame in an incoming byte stream:
/// everything before the first NUL, or nothing while no NUL has arrived.
pub open spec fn frame_payload(stream: Seq<u8>) -> Option<Seq<u8>> {
    if first_sep(stream, NUL) < stream.len() {
        Some(stream.take(first_sep(stream, NUL) as int))
    } else {
        None
    }
}

/// Extracts the first complete frame's payload from accumulated stream
/// bytes, if a NUL terminator has arrived.
pub fn extract_frame(stream: &[u8]) -> (r: Option<Vec<u8>>)
    ensures
        match r {
            Some(p) => frame_payload(stream@) == Some(p@),
            None => frame_payload(stream@) is None,
        },
{
    let end = find_byte(stream, NUL);
    if end < stream.len() {
        Some(copy_range(stream, 0, end))
    } else {
        None
    }
}

/// What a client prints of a response: everything before the trailing NUL
/// terminator; a response without one (the `*ok` acknowledgement) is
/// printed whole.
pub fn response_body(resp: &[u8]) -> (r: Vec<u8>)
    ensures
        resp@.len() > 0 && resp@.last() == NUL ==> r@ == resp@.drop_last(),
        !(resp@.len() > 0 && resp@.last() == NUL) ==> r@ == resp@,
{
    let n: usize = resp.len();
    if n > 0 && resp[n - 1] == NUL {
        let r = copy_range(resp, 0, n - 1);
        proof {
            assert(r@ =~= resp@.drop_last());
        }
        r
    } else {
        let r = copy_range(resp, 0, n);
        proof {
            assert(r@ =~= resp@);
        }
        r
    }
}

fn strip_mark_vec(p: Vec<u8>) -> (r: Vec<u8>)
    ensures
        r@ == strip_mark(p@),
{
    let mut q = p;
    if q.len() > 0 && q[q.len() - 1] == QMARK {
        q.pop();
        proof {
            assert(q@ =~= strip_mark(p@));
        }
    }
    q
}

/// Decodes a path-list payload into its paths: split on newlines, empty
/// lines ignored, do-not-monitor markers stripped, order kept.
pub fn parse_path_payload(payload: &[u8]) -> (r: Vec<Vec<u8>>)
    ensures
        r@.map_values(|p: Vec<u8>| p@) == path_list_of(payload@),
{
    let n: usize = payload.len();
    let mut r: Vec<Vec<u8>> = Vec::new();
    let mut start: usize = 0;
    let mut i: usize = 0;
    proof {
        assert(payload@.skip(0) =~= payload@);
        assert(r@.map_values(|p: Vec<u8>| p@) =~= Seq::<Seq<u8>>::empty());
        assert(Seq::<Seq<u8>>::empty() + path_list_of(payload@) =~= path_list_of(payload@));
    }
    while i < n
        invariant
            0 <= start <= i <= n == payload@.len(),
            forall|j: int| start <= j < i ==> payload@[j] != NL,
            path_list_of(payload@) == r@.map_values(|p: Vec<u8>| p@) + clean_paths(
                split_sep(payload@.skip(start as int), NL),
            ),
        decreases n - i,
    {
        if payload[i] == NL {
            let ghost t = payload@.skip(start as int);
            proof {
                lemma_first_sep_at(t, NL, i - start);
                assert(t.take(i - start) =~= payload@.subrange(start as int, i as int));
                assert(t.skip(i - start + 1) =~= payload@.skip(i + 1));
                assert(split_sep(t, NL).drop_first() =~= split_sep(payload@.skip(i + 1), NL));
            }
            let tok = copy_range(payload, start, i);
            if tok.len() > 0 {
                let cleaned = strip_mark_vec(tok);
                r.push(cleaned);
                proof {
                    assert(r@.map_values(|p: Vec<u8>| p@) =~= r@.drop_last().map_values(
                        |p: Vec<u8>| p@,
                    ).push(strip_mark(t.take(i - start))));
                }
            }
            start = i + 1;
        }
        i = i + 1;
    }
    let ghost t = payload@.skip(start as int);
    proof {
        lemma_first_sep_at(t, NL, n - start);
        assert(t.take(n - start) =~= t);
        assert(t =~= payload@.subrange(start as int, n as int));
        assert(split_sep(t, NL) =~= seq![t]);
        assert(seq![t].drop_first() =~= Seq::<Seq<u8>>::empty());
        assert(clean_paths(Seq::<Seq<u8>>::empty()) == Seq::<Seq<u8>>::empty());
    }
    let tok = copy_range(payload, start, n);
    if tok.len() > 0 {
        let cleaned = strip_mark_vec(tok);
        r.push(cleaned);
        proof {
            assert(clean_paths(seq![t]) =~= seq![strip_mark(t)]);
            assert(r@.map_values(|p: Vec<u8>| p@) =~= r@.drop_last().map_values(
                |p: Vec<u8>| p@,
            ).push(strip_mark(t)));
            assert(r@.drop_last().map_values(|p: Vec<u8>| p@) + seq![strip_mark(t)]
                =~= r@.drop_last().map_values(|p: Vec<u8>| p@).push(strip_mark(t)));
        }
    } else {
        proof {
            assert(clean_paths(seq![t]) =~= Seq::<Seq<u8>>::empty());
            assert(r@.map_values(|p: Vec<u8>| p@) + Seq::<Seq<u8>>::empty() =~= r@.map_values(
                |p: Vec<u8>| p@,
            ));
        }
    }
    r
}

/// A byte of the form `10xxxxxx`: a UTF-8 continuation byte.
fn is_cont(b: u8) -> (r: bool)
    ensures
        r == vstd::utf8::is_continuation_byte(b),
{
    0x80 <= b && b <= 0xbf
}

/// Decides UTF-8 validity of a byte string, scalar by scalar: correct
/// leading/continuation patterns, no overlong encoding, no surrogate, no
/// codepoint beyond the Unicode range.
pub fn is_valid_utf8(bytes: &[u8]) -> (r: bool)
    ensures
        r == vstd::utf8::valid_utf8(bytes@),
{
    let n: usize = bytes.len();
    let mut i: usize = 0;
    proof {
        assert(bytes@.skip(0) =~= bytes@);
    }
    while i < n
        invariant
            0 <= i <= n == bytes@.len(),
            vstd::utf8::valid_utf8(bytes@) == vstd::utf8::valid_utf8(bytes@.skip(i as int)),
        decreases n - i,
    {
        let ghost t = bytes@.skip(i as int);
        proof {
            assert(t.len() == n - i);
            assert(t[0] == bytes@[i as int]);
        }
        let b0 = bytes[i];
        let width: usize = if b0 <= 0x7f {
            1
        } else if 0xc0 <= b0 && b0 <= 0xdf {
            2
        } else if 0xe0 <= b0 && b0 <= 0xef {
            3
        } else if 0xf0 <= b0 && b0 <= 0xf7 {
            4
        } else {
            // A continuation byte in leading position, or 0xf8..=0xff:
            // no valid scalar can start here.
            proof {
                assert(!vstd::utf8::valid_leading_and_continuation_bytes_first_codepoint(t));
                assert(!vstd::utf8::valid_utf8(t));
            }
            return false;
        };
        if width > n - i {
            proof {
                assert(!vstd::utf8::valid_leading_and_continuation_bytes_first_codepoint(t));
                assert(!vstd::utf8::valid_utf8(t));
            }
            return false;
        }
        let continuations_ok = if width == 1 {
            true
        } else if width == 2 {
            is_cont(bytes[i + 1])
        } else if width == 3 {
            is_cont(bytes[i + 1]) && is_cont(bytes[i + 2])
        } else {
            is_cont(bytes[i + 1]) && is_cont(bytes[i + 2]) && is_cont(bytes[i + 3])
        };
        proof {
            if 1 < t.len() {
                assert(t[1] == bytes@[i + 1]);
            }
            if 2 < t.len() {
                assert(t[2] == bytes@[i + 2]);
            }
            if 3 < t.len() {
                assert(t[3] == bytes@[i + 3]);
            }
        }
        if !continuations_ok {
            proof {
                assert(!vstd::utf8::valid_leading_and_continuation_bytes_first_codepoint(t));
                assert(!vstd::utf8::valid_utf8(t));
            }
            return false;
        }
        // The leading and continuation patterns hold; now the decoded
        // codepoint, exactly as the decoding rules compute it.
        if width == 1 {
            proof {
                assert((b0 & 0x7f) <= 0x7f) by (bit_vector);
                assert(vstd::utf8::valid_first_scalar(t));
            }
        } else if width == 2 {
            let hi: u8 = b0 & 0x1f;
            let lo: u8 = bytes[i + 1] & 0x3f;
            let cp: u32 = ((hi as u32) << 6) | (lo as u32);
            if cp < 0x80 {
                proof {
                    assert(!vstd::utf8::not_overlong_encoding(
                        vstd::utf8::decode_first_codepoint(t),
                        2,
                    ));
                    assert(!vstd::utf8::valid_first_scalar(t));
                    assert(!vstd::utf8::valid_utf8(t));
                }
                return false;
            }
            proof {
                let x0 = b0;
                let x1 = bytes@[i + 1];
                assert((((x0 & 0x1f) as u32) << 6) | (((x1 & 0x3f) as u32)) <= 0x7ff)
                    by (bit_vector);
                assert(vstd::utf8::not_surrogate(vstd::utf8::decode_first_codepoint(t)));
                assert(vstd::utf8::valid_first_scalar(t));
            }
        } else if width == 3 {
            let hi: u8 = b0 & 0x0f;
            let mid: u8 = bytes[i + 1] & 0x3f;
            let lo: u8 = bytes[i + 2] & 0x3f;
            let cp: u32 = (((hi as u32) << 12) | ((mid as u32) << 6)) | (lo as u32);
            if cp < 0x800 || (0xd800 <= cp && cp <= 0xdfff) {
                proof {
                    assert(!vstd::utf8::valid_first_scalar(t));
                    assert(!vstd::utf8::valid_utf8(t));
                }
                return false;
            }
            proof {
                assert(vstd::utf8::valid_first_scalar(t));
            }
        } else {
            let hi: u8 = b0 & 0x07;
            let m1: u8 = bytes[i + 1] & 0x3f;
            let m2: u8 = bytes[i + 2] & 0x3f;
            let lo: u8 = bytes[i + 3] & 0x3f;
            let cp: u32 = ((((hi as u32) << 18) | ((m1 as u32) << 12)) | ((m2 as u32) << 6)) | (
            lo as u32);
            if cp < 0x10000 || 0x10ffff < cp {
                proof {
                    assert(!vstd::utf8::not_overlong_encoding(
                        vstd::utf8::decode_first_codepoint(t),
                        4,
                    ));
                    assert(!vstd::utf8::valid_first_scalar(t));
                    assert(!vstd::utf8::valid_utf8(t));
                }
                return false;
            }
            proof {
                assert(vstd::utf8::not_surrogate(vstd::utf8::decode_first_codepoint(t)));
                assert(vstd::utf8::valid_first_scalar(t));
            }
        }
        proof {
            assert(vstd::utf8::length_of_first_scalar(t) == width);
            assert(vstd::utf8::pop_first_scalar(t) =~= bytes@.skip(i + width));
            assert(vstd::utf8::valid_utf8(t) == vstd::utf8::valid_utf8(bytes@.skip(i + width)));
        }
        i = i + width;
    }
    proof {
        assert(bytes@.skip(n as int) =~= Seq::<u8>::empty());
        assert(vstd::utf8::valid_utf8(Seq::<u8>::empty()));
    }
    true
}

/// Decodes a frame payload: a leading `*` makes it a command (the bytes
/// after the `*`), anything else a path list. A payload that is not valid
/// UTF-8 is a protocol error and decodes to nothing: the connection is to
/// be dropped without a response.
pub fn parse_request(payload: &Vec<u8>) -> (r: Option<Request>)
    ensures
        !vstd::utf8::valid_utf8(payload@) ==> r is None,
        vstd::utf8::valid_utf8(payload@) && payload_is_command(payload@) ==> (r matches Some(
            Request::Command(c),
        ) && c@ == payload@.drop_first()),
        vstd::utf8::valid_utf8(payload@) && !payload_is_command(payload@) ==> (r matches Some(
            Request::PathList(ps),
        ) && ps@.map_values(|p: Vec<u8>| p@) == path_list_of(payload@)),
{
    if !is_valid_utf8(payload.as_slice()) {
        return None;
    }
    if payload.len() > 0 && payload[0] == STAR {
        Some(Request::Command(copy_range(payload.as_slice(), 1, payload.len())))
    } else {
        Some(Request::PathList(parse_path_payload(payload.as_slice())))
    }
}

/// The paths of a request joined by single newlines, no trailing newline:
/// the payload a client sends.
pub open spec fn joined_nl(paths: Seq<Seq<u8>>) -> Seq<u8>
    decreases paths.len(),
{
    if paths.len() == 0 {
        Seq::empty()
    } else if paths.len() == 1 {
        paths[0]
    } else {
        paths[0] + seq![NL] + joined_nl(paths.drop_first())
    }
}

proof fn lemma_joined_push(paths: Seq<Seq<u8>>, x: Seq<u8>)
    requires
        paths.len() > 0,
    ensures
        joined_nl(paths.push(x)) == joined_nl(paths) + seq![NL] + x,
    decreases paths.len(),
{
    if paths.len() == 1 {
        assert(paths.push(x).drop_first() =~= seq![x]);
        assert(joined_nl(seq![x]) == x);
        assert(joined_nl(paths.push(x)) =~= paths[0] + seq![NL] + x);
        assert(joined_nl(paths) + seq![NL] + x =~= paths[0] + seq![NL] + x);
    } else {
        lemma_joined_push(paths.drop_first(), x);
        assert(paths.push(x).drop_first() =~= paths.drop_first().push(x));
        assert(joined_nl(paths.push(x)) =~= joined_nl(paths) + seq![NL] + x);
    }
}

/// Encodes a path-list request: paths joined by newlines, one NUL after.
pub fn encode_request(paths: &Vec<Vec<u8>>) -> (r: Vec<u8>)
    ensures
        r@ == joined_nl(paths@.map_values(|p: Vec<u8>| p@)) + seq![NUL],
{
    let mut r: Vec<u8> = Vec::new();
    let mut i: usize = 0;
    while i < paths.len()
        invariant
            0 <= i <= paths@.len(),
            r@ == joined_nl(paths@.take(i as int).map_values(|p: Vec<u8>| p@)),
        decreases paths@.len() - i,
    {
        if i > 0 {
            r.push(NL);
        }
        push_all(&mut r, paths[i].as_slice());
        proof {
            let prev = paths@.take(i as int).map_values(|p: Vec<u8>| p@);
            let next = paths@.take(i + 1).map_values(|p: Vec<u8>| p@);
            assert(next =~= prev.push(paths@[i as int]@));
            if i > 0 {
                lemma_joined_push(prev, paths@[i as int]@);
            } else {
                assert(joined_nl(next) == next[0]);
            }
        }
        i = i + 1;
    }
    proof {
        assert(paths@.take(paths@.len() as int) =~= paths@);
    }
    r.push(NUL);
    proof {
        assert(r@ =~= joined_nl(paths@.map_values(|p: Vec<u8>| p@)) + seq![NUL]);
    }
    r
}

/// One digest per served path, in request order, each followed by a
/// newline.
pub open spec fn digest_lines(ds: Seq<Seq<u8>>) -> Seq<u8>
    decreases ds.len(),
{
    if ds.len() == 0 {
        Seq::empty()
    } else {
        ds[0] + seq![NL] + digest_lines(ds.drop_first())
    }
}

/// The success response to a path-list request: the digest lines, then one
/// NUL.
pub open spec fn hash_response_bytes(ds: Seq<Seq<u8>>) -> Seq<u8> {
    digest_lines(ds) + seq![NUL]
}

/// The failure response to a path-list request: `!`, the message, one NUL.
pub open spec fn error_response_bytes(msg: Seq<u8>) -> Seq<u8> {
    seq![BANG] + msg + seq![NUL]
}

/// The acknowledgement of a `clear` or `exit` command: `*ok` and a newline.
pub open spec fn ok_response_bytes() -> Seq<u8> {
    seq![STAR, 111u8, 107u8, NL]
}

/// The reply to a command this daemon does not know: the literal
/// `Unknown command`, a newline, one NUL.
pub open spec fn unknown_response_bytes() -> Seq<u8> {
    seq![
        85u8,
        110u8,
        107u8,
        110u8,
        111u8,
        119u8,
        110u8,
        32u8,
        99u8,
        111u8,
        109u8,
        109u8,
        97u8,
        110u8,
        100u8,
        NL,
        NUL,
    ]
}

proof fn lemma_digest_lines_push(ds: Seq<Seq<u8>>, x: Seq<u8>)
    ensures
        digest_lines(ds.push(x)) == digest_lines(ds) + x + seq![NL],
    decreases ds.len(),
{
    if ds.len() == 0 {
        assert(ds.push(x).drop_first() =~= Seq::<Seq<u8>>::empty());
        assert(digest_lines(Seq::<Seq<u8>>::empty()) == Seq::<u8>::empty());
        assert(digest_lines(ds.push(x)) =~= digest_lines(ds) + x + seq![NL]);
    } else {
        lemma_digest_lines_push(ds.drop_first(), x);
        assert(ds.push(x).drop_first() =~= ds.drop_first().push(x));
        assert(digest_lines(ds.push(x)) =~= digest_lines(ds) + x + seq![NL]);
    }
}

/// Encodes the success response: every digest in order, each followed by a
/// newline, then the NUL terminator.
pub fn encode_hash_response(digests: &Vec<Vec<u8>>) -> (r: Vec<u8>)
    ensures
        r@ == hash_response_bytes(digests@.map_values(|d: Vec<u8>| d@)),
{
    let mut r: Vec<u8> = Vec::new();
    let mut i: usize = 0;
    while i < digests.len()
        invariant
            0 <= i <= digests@.len(),
            r@ == digest_lines(digests@.take(i as int).map_values(|d: Vec<u8>| d@)),
        decreases digests@.len() - i,
    {
        push_all(&mut r, digests[i].as_slice());
        r.push(NL);
        proof {
            let prev = digests@.take(i as int).map_values(|d: Vec<u8>| d@);
            let next = digests@.take(i + 1).map_values(|d: Vec<u8>| d@);
            assert(next =~= prev.push(digests@[i as int]@));
            lemma_digest_lines_push(prev, digests@[i as int]@);
            assert(r@ =~= digest_lines(prev) + digests@[i as int]@ + seq![NL]);
        }
        i = i + 1;
    }
    proof {
        assert(digests@.take(digests@.len() as int) =~= digests@);
    }
    r.push(NUL);
    proof {
        assert(r@ =~= hash_response_bytes(digests@.map_values(|d: Vec<u8>| d@)));
    }
    r
}

/// Encodes the failure response: `!`, the message bytes, one NUL.
pub fn encode_error_response(msg: &[u8]) -> (r: Vec<u8>)
    ensures
        r@ == error_response_bytes(msg@),
{
    let mut r: Vec<u8> = Vec::new();
    r.push(BANG);
    push_all(&mut r, msg);
    r.push(NUL);
    proof {
        assert(r@ =~= error_response_bytes(msg@));
    }
    r
}

/// The `*ok` acknowledgement, as sent for `clear` and `exit`.
pub fn encode_ok_response() -> (r: Vec<u8>)
    ensures
        r@ == ok_response_bytes(),
{
    let mut r: Vec<u8> = Vec::new();
    r.push(STAR);
    r.push(111);
    r.push(107);
    r.push(NL);
    proof {
        assert(r@ =~= ok_response_bytes());
    }
    r
}

/// The reply to an unknown command.
pub fn encode_unknown_response() -> (r: Vec<u8>)
    ensures
        r@ == unknown_response_bytes(),
{
    let mut r: Vec<u8> = Vec::new();
    r.push(85);
    r.push(110);
    r.push(107);
    r.push(110);
    r.push(111);
    r.push(119);
    r.push(110);
    r.push(32);
    r.push(99);
    r.push(111);
    r.push(109);
    r.push(109);
    r.push(97);
    r.push(110);
    r.push(100);
    r.push(NL);
    r.push(NUL);
    proof {
        assert(r@ =~= unknown_response_bytes());
    }
    r
}

proof fn lemma_split_of_joined(paths: Seq<Seq<u8>>)
    requires
        paths.len() > 0,
        forall|i: int| 0 <= i < paths.len() ==> !(#[trigger] paths[i]).contains(NL),
    ensures
        split_sep(joined_nl(paths), NL) == paths,
    decreases paths.len(),
{
    let s = joined_nl(paths);
    if paths.len() == 1 {
        assert(forall|j: int| 0 <= j < s.len() ==> s[j] != NL) by {
            assert(forall|j: int| 0 <= j < paths[0].len() ==> paths[0][j] != NL);
        }
        lemma_first_sep_at(s, NL, s.len() as int);
        assert(split_sep(s, NL) =~= paths);
    } else {
        let head = paths[0];
        let rest = joined_nl(paths.drop_first());
        assert(s == head + seq![NL] + rest);
        assert forall|j: int| 0 <= j < head.len() implies s[j] != NL by {
            assert(s[j] == head[j]);
            assert(!head.contains(NL));
        }
        assert(s[head.len() as int] == NL);
        lemma_first_sep_at(s, NL, head.len() as int);
        assert(s.take(head.len() as int) =~= head);
        assert(s.skip(head.len() as int + 1) =~= rest);
        assert(forall|i: int|
            0 <= i < paths.drop_first().len() ==> !(#[trigger] paths.drop_first()[i]).contains(
                NL,
            ));
        lemma_split_of_joined(paths.drop_first());
        assert(split_sep(s, NL) =~= seq![head] + split_sep(rest, NL));
        assert(seq![head] + paths.drop_first() =~= paths);
    }
}

proof fn lemma_clean_of_nonempty(toks: Seq<Seq<u8>>)
    requires
        forall|i: int| 0 <= i < toks.len() ==> (#[trigger] toks[i]).len() > 0,
    ensures
        clean_paths(toks) == toks.map_values(|p: Seq<u8>| strip_mark(p)),
    decreases toks.len(),
{
    if toks.len() == 0 {
        assert(clean_paths(toks) =~= toks.map_values(|p: Seq<u8>| strip_mark(p)));
    } else {
        lemma_clean_of_nonempty(toks.drop_first());
        assert(clean_paths(toks) =~= toks.map_values(|p: Seq<u8>| strip_mark(p)));
    }
}

/// Round trip: a path-list request encoded from nonempty, newline-free
/// paths decodes to the same list, marker policy applied.
pub proof fn lemma_request_round_trip(paths: Seq<Seq<u8>>)
    requires
        forall|i: int|
            0 <= i < paths.len() ==> (#[trigger] paths[i]).len() > 0 && !paths[i].contains(NL),
    ensures
        path_list_of(joined_nl(paths)) == paths.map_values(|p: Seq<u8>| strip_mark(p)),
{
    if paths.len() == 0 {
        let s = joined_nl(paths);
        assert(s.len() == 0);
        lemma_first_sep_at(s, NL, 0);
        assert(split_sep(s, NL) =~= seq![s]);
        assert(seq![s].drop_first() =~= Seq::<Seq<u8>>::empty());
        assert(clean_paths(Seq::<Seq<u8>>::empty()) == Seq::<Seq<u8>>::empty());
        assert(path_list_of(s) =~= paths.map_values(|p: Seq<u8>| strip_mark(p)));
    } else {
        lemma_split_of_joined(paths);
        lemma_clean_of_nonempty(paths);
    }
}

/// The response keeps the request's order: splitting a success response's
/// payload on newlines recovers exactly the served digests, in the order
/// they were served, followed by the one empty token after the final
/// newline.
pub proof fn lemma_digest_lines_round_trip(ds: Seq<Seq<u8>>)
    requires
        forall|i: int| 0 <= i < ds.len() ==> !(#[trigger] ds[i]).contains(NL),
    ensures
        split_sep(digest_lines(ds), NL) == ds.push(Seq::<u8>::empty()),
    decreases ds.len(),
{
    if ds.len() == 0 {
        let s = digest_lines(ds);
        assert(s.len() == 0);
        lemma_first_sep_at(s, NL, 0);
        assert(split_sep(s, NL) =~= seq![s]);
        assert(ds.push(Seq::<u8>::empty()) =~= seq![s]);
    } else {
        let s = digest_lines(ds);
        let head = ds[0];
        let rest = digest_lines(ds.drop_first());
        assert(s == head + seq![NL] + rest);
        assert forall|j: int| 0 <= j < head.len() implies s[j] != NL by {
            assert(s[j] == head[j]);
            assert(!head.contains(NL));
        }
        assert(s[head.len() as int] == NL);
        lemma_first_sep_at(s, NL, head.len() as int);
        assert(s.take(head.len() as int) =~= head);
        assert(s.skip(head.len() as int + 1) =~= rest);
        assert(forall|i: int|
            0 <= i < ds.drop_first().len() ==> !(#[trigger] ds.drop_first()[i]).contains(NL));
        lemma_digest_lines_round_trip(ds.drop_first());
        assert(split_sep(s, NL) =~= seq![head] + ds.drop_first().push(Seq::<u8>::empty()));
        assert(seq![head] + ds.drop_first().push(Seq::<u8>::empty()) =~= ds.push(
            Seq::<u8>::empty(),
        ));
    }
}

/// Round trip without markers: paths that do not end with the marker come
/// back exactly as sent.
pub proof fn lemma_request_round_trip_unmarked(paths: Seq<Seq<u8>>)
    requires
        forall|i: int|
            0 <= i < paths.len() ==> (#[trigger] paths[i]).len() > 0 && !paths[i].contains(NL)
                && paths[i].last() != QMARK,
    ensures
        path_list_of(joined_nl(paths)) == paths,
{
    lemma_request_round_trip(paths);
    assert(paths.map_values(|p: Seq<u8>| strip_mark(p)) =~= paths);
}

} // verus!
