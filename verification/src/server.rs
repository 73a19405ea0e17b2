//! The per-connection handler's core: interpret a decoded request against
//! the cache and produce the exact response bytes. The caller reads the
//! frame, hashes the files the cache asks re-read, and writes the response;
//! every decision and every response byte is computed here.

use vstd::prelude::*;

use crate::bytes::bytes_eq;
use crate::cache::{covers_watched, empty_index, HashCache};
use crate::codec::{
    encode_error_response, encode_hash_response, encode_ok_response, encode_unknown_response,
    error_response_bytes, hash_response_bytes, ok_response_bytes, unknown_response_bytes,
};

verus! {

/// The `clear` command's name bytes.
pub open spec fn clear_command() -> Seq<u8> {
    seq![99u8, 108u8, 101u8, 97u8, 114u8]
}

/// The `exit` command's name bytes.
pub open spec fn exit_command() -> Seq<u8> {
    seq![101u8, 120u8, 105u8, 116u8]
}

fn clear_command_bytes() -> (r: Vec<u8>)
    ensures
        r@ == clear_command(),
{
    let mut r: Vec<u8> = Vec::new();
    r.push(99);
    r.push(108);
    r.push(101);
    r.push(97);
    r.push(114);
    proof {
        assert(r@ =~= clear_command());
    }
    r
}

fn exit_command_bytes() -> (r: Vec<u8>)
    ensures
        r@ == exit_command(),
{
    let mut r: Vec<u8> = Vec::new();
    r.push(101);
    r.push(120);
    r.push(105);
    r.push(116);
    proof {
        assert(r@ =~= exit_command());
    }
    r
}

/// What serving a command asks of the caller, beyond writing the response.
pub enum CommandEffect {
    /// `clear` was served: the listed directory watches are to be
    /// deregistered, best effort.
    Unwatch(Vec<Vec<u8>>),
    /// `exit` was served: after writing the response, shut the daemon
    /// down.
    Exit,
    /// An unknown command: nothing beyond the response.
    NoEffect,
}

/// Serves a command request: `clear` empties the cache and is acknowledged
/// with `*ok`, `exit` is acknowledged the same way and asks for shutdown,
/// anything else gets the unknown-command reply and changes nothing.
pub fn apply_command(cache: &mut HashCache, cmd: &Vec<u8>) -> (r: (Vec<u8>, CommandEffect))
    requires
        old(cache).wf(),
    ensures
        final(cache).wf(),
        final(cache).mode() == old(cache).mode(),
        cmd@ == clear_command() ==> final(cache).entries() == empty_index() && r.0@
            == ok_response_bytes() && r.1 is Unwatch,
        cmd@ == exit_command() ==> *final(cache) == *old(cache) && r.0@ == ok_response_bytes()
            && r.1 is Exit,
        cmd@ != clear_command() && cmd@ != exit_command() ==> *final(cache) == *old(cache) && r.0@
            == unknown_response_bytes() && r.1 is NoEffect,
        match r.1 {
            CommandEffect::Unwatch(dirs) => cmd@ == clear_command() && covers_watched(
                *old(cache),
                dirs@,
            ),
            CommandEffect::Exit => cmd@ == exit_command(),
            CommandEffect::NoEffect => cmd@ != clear_command() && cmd@ != exit_command(),
        },
{
    let clear_name = clear_command_bytes();
    let exit_name = exit_command_bytes();
    if bytes_eq(cmd.as_slice(), clear_name.as_slice()) {
        let dirs = cache.clear();
        (encode_ok_response(), CommandEffect::Unwatch(dirs))
    } else if bytes_eq(cmd.as_slice(), exit_name.as_slice()) {
        (encode_ok_response(), CommandEffect::Exit)
    } else {
        (encode_unknown_response(), CommandEffect::NoEffect)
    }
}

/// Index of the first failed result, or the length when all succeeded.
pub open spec fn first_err_of(rs: Seq<Result<Vec<u8>, Vec<u8>>>) -> nat
    decreases rs.len(),
{
    if rs.len() == 0 {
        0
    } else if rs[0] is Err {
        0
    } else {
        1 + first_err_of(rs.drop_first())
    }
}

proof fn lemma_first_err_at(rs: Seq<Result<Vec<u8>, Vec<u8>>>, k: int)
    requires
        0 <= k <= rs.len(),
        forall|j: int| 0 <= j < k ==> (#[trigger] rs[j]) is Ok,
        k < rs.len() ==> rs[k] is Err,
    ensures
        first_err_of(rs) == k,
    decreases rs.len(),
{
    if rs.len() == 0 {
    } else if rs[0] is Err {
        assert(k == 0);
    } else {
        assert(k >= 1);
        lemma_first_err_at(rs.drop_first(), k - 1);
    }
}

/// Builds the response to a path-list request from the per-path outcomes,
/// which arrive in request order: all successes give the digest lines in
/// that same order, any failure gives the error response carrying the
/// first failure's message — all-or-nothing, as the response layer
/// promises.
pub fn respond_to_path_results(results: Vec<Result<Vec<u8>, Vec<u8>>>) -> (r: Vec<u8>)
    ensures
        (forall|i: int| 0 <= i < results@.len() ==> (#[trigger] results@[i]) is Ok) ==> r@
            == hash_response_bytes(
            results@.map_values(|x: Result<Vec<u8>, Vec<u8>>| x->Ok_0@),
        ),
        (exists|i: int| 0 <= i < results@.len() && (#[trigger] results@[i]) is Err) ==> r@
            == error_response_bytes(results@[first_err_of(results@) as int]->Err_0@),
{
    let ghost orig = results@;
    let mut rest = results;
    let mut digests: Vec<Vec<u8>> = Vec::new();
    proof {
        assert(rest@ =~= orig.skip(0));
        assert(digests@.map_values(|d: Vec<u8>| d@) =~= orig.take(0).map_values(
            |x: Result<Vec<u8>, Vec<u8>>| x->Ok_0@,
        ));
    }
    while rest.len() > 0
        invariant
            orig == results@,
            rest@.len() <= orig.len(),
            rest@ == orig.skip(orig.len() - rest@.len()),
            forall|j: int| 0 <= j < orig.len() - rest@.len() ==> (#[trigger] orig[j]) is Ok,
            digests@.map_values(|d: Vec<u8>| d@) == orig.take(orig.len() - rest@.len()).map_values(
                |x: Result<Vec<u8>, Vec<u8>>| x->Ok_0@,
            ),
        decreases rest@.len(),
    {
        let ghost done = orig.len() - rest@.len();
        let ghost rest_pre = rest@;
        let head = rest.remove(0);
        proof {
            assert(rest_pre[0] == orig.skip(done)[0]);
            assert(orig.skip(done)[0] == orig[done]);
            assert(head == orig[done]);
            assert(rest@ =~= orig.skip(done + 1));
        }
        match head {
            Ok(d) => {
                let ghost digests_pre = digests@;
                digests.push(d);
                proof {
                    assert(orig[done] is Ok);
                    assert(digests@.map_values(|d2: Vec<u8>| d2@) =~= digests_pre.map_values(
                        |d2: Vec<u8>| d2@,
                    ).push(d@));
                    assert(orig.take(done + 1) =~= orig.take(done).push(orig[done]));
                    assert(orig.take(done + 1).map_values(|x: Result<Vec<u8>, Vec<u8>>| x->Ok_0@)
                        =~= orig.take(done).map_values(
                        |x: Result<Vec<u8>, Vec<u8>>| x->Ok_0@,
                    ).push(orig[done]->Ok_0@));
                }
            },
            Err(msg) => {
                let r = encode_error_response(msg.as_slice());
                proof {
                    assert(results@[done] is Err);
                    lemma_first_err_at(orig, done);
                    assert(first_err_of(results@) == done);
                    assert(msg@ == results@[done]->Err_0@);
                    assert(r@ == error_response_bytes(
                        results@[first_err_of(results@) as int]->Err_0@,
                    ));
                }
                return r;
            },
        }
    }
    proof {
        assert(orig.take(orig.len() as int) =~= orig);
    }
    encode_hash_response(&digests)
}

} // verus!
