//! Hashing: HASH/SHA1 and the SHA-2 family.
use vstd::prelude::*;
use crypto::digest::Digest;
use crypto::sha1::Sha1;
use crypto::sha2::{Sha224, Sha256, Sha384, Sha512, Sha512Trunc224, Sha512Trunc256};
use crate::env::{Env, EnvModel, seqs};
use crate::instructions::{Outcome, after_pops, answers, fail, is_instruction, named, ok, or_else, pop_n, push_all};
use crate::script::{TryInstruction, Error, ErrorModel, PassResult, result_model};

verus! {

/// The longest input hashed: the hashers count the input's bits in 64
/// bits and panic beyond.
pub open spec fn max_hash_input() -> nat {
    0x2000_0000_0000_0000
}

/// The digest of `data` under the algorithm numbered `which` (0 SHA-1,
/// 1 SHA-224, 2 SHA-256, 3 SHA-384, 4 SHA-512, 5 SHA-512/224,
/// 6 SHA-512/256).
pub open spec fn digest_of(which: nat, data: Seq<u8>) -> Seq<u8> {
    if which == 0 {
        sha1_digest(data)
    } else if which == 1 {
        sha224_digest(data)
    } else if which == 2 {
        sha256_digest(data)
    } else if which == 3 {
        sha384_digest(data)
    } else if which == 4 {
        sha512_digest(data)
    } else if which == 5 {
        sha512_224_digest(data)
    } else if which == 6 {
        sha512_256_digest(data)
    } else {
        sha512_256_digest(data)
    }
}

/// The instruction named for the algorithm numbered `which`.
pub open spec fn hash_name(which: nat) -> Seq<u8> {
    if which == 0 {
        seq![137u8, 72, 65, 83, 72, 47, 83, 72, 65, 49]
    } else if which == 1 {
        seq![139u8, 72, 65, 83, 72, 47, 83, 72, 65, 50, 50, 52]
    } else if which == 2 {
        seq![139u8, 72, 65, 83, 72, 47, 83, 72, 65, 50, 53, 54]
    } else if which == 3 {
        seq![139u8, 72, 65, 83, 72, 47, 83, 72, 65, 51, 56, 52]
    } else if which == 4 {
        seq![139u8, 72, 65, 83, 72, 47, 83, 72, 65, 53, 49, 50]
    } else if which == 5 {
        seq![143u8, 72, 65, 83, 72, 47, 83, 72, 65, 53, 49, 50, 45, 50, 50, 52]
    } else if which == 6 {
        seq![143u8, 72, 65, 83, 72, 47, 83, 72, 65, 53, 49, 50, 45, 50, 53, 54]
    } else {
        seq![]
    }
}

/// A hash instruction: `data -- digest`.
pub open spec fn hash_step(m: EnvModel, which: nat) -> Outcome {
    after_pops(
        m,
        1,
        |m1: EnvModel, t: Seq<Seq<u8>>|
            if t[0].len() >= max_hash_input() {
                fail(m1, ErrorModel::HeapAllocFailed)
            } else {
                ok(push_all(m1, seq![digest_of(which, t[0])]))
            },
    )
}

/// What the hash module does with an instruction, if it knows it: the
/// algorithms in the order they are numbered.
pub open spec fn hash_module_step(m: EnvModel, i: Seq<u8>) -> Option<Outcome> {
    hash_from(m, i, 0)
}

/// The SHA1 digest of some bytes, as `crypto::sha1::Sha1` computes it.
pub uninterp spec fn sha1_digest(data: Seq<u8>) -> Seq<u8>;

/// Hashes bytes with `Sha1` (`input`, then `result` into 20 bytes).
/// The digest has that length; its bytes are the algorithm's output.
#[verifier::external_body]
fn sha1(data: &[u8]) -> (r: Vec<u8>)
    requires
        data@.len() < max_hash_input(),
    ensures
        r@ == sha1_digest(data@),
        r@.len() == 20,
{
    let mut hasher = Sha1::new();
    hasher.input(data);
    let mut out = vec![0u8; 20];
    hasher.result(&mut out);
    out
}

/// The SHA224 digest of some bytes, as `crypto::sha2::Sha224` computes it.
pub uninterp spec fn sha224_digest(data: Seq<u8>) -> Seq<u8>;

/// Hashes bytes with `Sha224` (`input`, then `result` into 28 bytes).
/// The digest has that length; its bytes are the algorithm's output.
#[verifier::external_body]
fn sha224(data: &[u8]) -> (r: Vec<u8>)
    requires
        data@.len() < max_hash_input(),
    ensures
        r@ == sha224_digest(data@),
        r@.len() == 28,
{
    let mut hasher = Sha224::new();
    hasher.input(data);
    let mut out = vec![0u8; 28];
    hasher.result(&mut out);
    out
}

/// The SHA256 digest of some bytes, as `crypto::sha2::Sha256` computes it.
pub uninterp spec fn sha256_digest(data: Seq<u8>) -> Seq<u8>;

/// Hashes bytes with `Sha256` (`input`, then `result` into 32 bytes).
/// The digest has that length; its bytes are the algorithm's output.
#[verifier::external_body]
fn sha256(data: &[u8]) -> (r: Vec<u8>)
    requires
        data@.len() < max_hash_input(),
    ensures
        r@ == sha256_digest(data@),
        r@.len() == 32,
{
    let mut hasher = Sha256::new();
    hasher.input(data);
    let mut out = vec![0u8; 32];
    hasher.result(&mut out);
    out
}

/// The SHA384 digest of some bytes, as `crypto::sha2::Sha384` computes it.
pub uninterp spec fn sha384_digest(data: Seq<u8>) -> Seq<u8>;

/// Hashes bytes with `Sha384` (`input`, then `result` into 48 bytes).
/// The digest has that length; its bytes are the algorithm's output.
#[verifier::external_body]
fn sha384(data: &[u8]) -> (r: Vec<u8>)
    requires
        data@.len() < max_hash_input(),
    ensures
        r@ == sha384_digest(data@),
        r@.len() == 48,
{
    let mut hasher = Sha384::new();
    hasher.input(data);
    let mut out = vec![0u8; 48];
    hasher.result(&mut out);
    out
}

/// The SHA512 digest of some bytes, as `crypto::sha2::Sha512` computes it.
pub uninterp spec fn sha512_digest(data: Seq<u8>) -> Seq<u8>;

/// Hashes bytes with `Sha512` (`input`, then `result` into 64 bytes).
/// The digest has that length; its bytes are the algorithm's output.
#[verifier::external_body]
fn sha512(data: &[u8]) -> (r: Vec<u8>)
    requires
        data@.len() < max_hash_input(),
    ensures
        r@ == sha512_digest(data@),
        r@.len() == 64,
{
    let mut hasher = Sha512::new();
    hasher.input(data);
    let mut out = vec![0u8; 64];
    hasher.result(&mut out);
    out
}

/// The SHA512-224 digest of some bytes, as `crypto::sha2::Sha512Trunc224` computes it.
pub uninterp spec fn sha512_224_digest(data: Seq<u8>) -> Seq<u8>;

/// Hashes bytes with `Sha512Trunc224` (`input`, then `result` into 28 bytes).
/// The digest has that length; its bytes are the algorithm's output.
#[verifier::external_body]
fn sha512_224(data: &[u8]) -> (r: Vec<u8>)
    requires
        data@.len() < max_hash_input(),
    ensures
        r@ == sha512_224_digest(data@),
        r@.len() == 28,
{
    let mut hasher = Sha512Trunc224::new();
    hasher.input(data);
    let mut out = vec![0u8; 28];
    hasher.result(&mut out);
    out
}

/// The SHA512-256 digest of some bytes, as `crypto::sha2::Sha512Trunc256` computes it.
pub uninterp spec fn sha512_256_digest(data: Seq<u8>) -> Seq<u8>;

/// Hashes bytes with `Sha512Trunc256` (`input`, then `result` into 32 bytes).
/// The digest has that length; its bytes are the algorithm's output.
#[verifier::external_body]
fn sha512_256(data: &[u8]) -> (r: Vec<u8>)
    requires
        data@.len() < max_hash_input(),
    ensures
        r@ == sha512_256_digest(data@),
        r@.len() == 32,
{
    let mut hasher = Sha512Trunc256::new();
    hasher.input(data);
    let mut out = vec![0u8; 32];
    hasher.result(&mut out);
    out
}

fn digest(which: u8, data: &[u8]) -> (r: Vec<u8>)
    requires
        which < 7,
        data@.len() < max_hash_input(),
    ensures
        r@ == digest_of(which as nat, data@),
{
    if which == 0 {
        sha1(data)
    } else if which == 1 {
        sha224(data)
    } else if which == 2 {
        sha256(data)
    } else if which == 3 {
        sha384(data)
    } else if which == 4 {
        sha512(data)
    } else if which == 5 {
        sha512_224(data)
    } else {
        sha512_256(data)
    }
}

fn hash_name_bytes(which: u8) -> (r: Vec<u8>)
    requires
        which < 7,
    ensures
        r@ == hash_name(which as nat),
{
    if which == 0 {
        vec![137u8, 72, 65, 83, 72, 47, 83, 72, 65, 49]
    } else if which == 1 {
        vec![139u8, 72, 65, 83, 72, 47, 83, 72, 65, 50, 50, 52]
    } else if which == 2 {
        vec![139u8, 72, 65, 83, 72, 47, 83, 72, 65, 50, 53, 54]
    } else if which == 3 {
        vec![139u8, 72, 65, 83, 72, 47, 83, 72, 65, 51, 56, 52]
    } else if which == 4 {
        vec![139u8, 72, 65, 83, 72, 47, 83, 72, 65, 53, 49, 50]
    } else if which == 5 {
        vec![143u8, 72, 65, 83, 72, 47, 83, 72, 65, 53, 49, 50, 45, 50, 50, 52]
    } else {
        vec![143u8, 72, 65, 83, 72, 47, 83, 72, 65, 53, 49, 50, 45, 50, 53, 54]
    }
}

fn handle_hash(env: &mut Env, instruction: &[u8], which: u8) -> (r: PassResult)
    requires
        which < 7,
    ensures
        answers(named(instruction@, hash_name(which as nat), hash_step(old(env)@, which as nat)), old(env)@, final(env)@, result_model(r)),
{
    if !is_instruction(instruction, hash_name_bytes(which)) {
        return Err(Error::UnknownInstruction);
    }
    let mut t = match pop_n(env, 1) {
        Ok(t) => t,
        Err(e) => return Err(e),
    };
    assert(seqs(t@).len() == t@.len());
    assert(seqs(t@)[0] == t@[0]@);
    let data = t.pop().unwrap();
    if data.len() as u64 >= 0x2000_0000_0000_0000u64 {
        return Err(Error::HeapAllocFailed);
    }
    let h = digest(which, data.as_slice());
    let ghost m1 = env@;
    env.push(h);
    assert(m1.stack.push(h@) =~= m1.stack + seq![h@]);
    Ok(())
}

/// Runs a hash instruction; any other instruction is left unhandled.
pub fn handle(env: &mut Env, instruction: &[u8]) -> (r: PassResult)
    ensures
        answers(hash_module_step(old(env)@, instruction@), old(env)@, final(env)@, result_model(r)),
{
    let mut which: u8 = 0;
    while which < 6
        invariant
            which <= 6,
            env@ == old(env)@,
            hash_module_step(old(env)@, instruction@) == hash_from(old(env)@, instruction@, which as nat),
        decreases 6 - which,
    {
        let r = handle_hash(env, instruction, which);
        if !r.is_unhandled() {
            return r;
        }
        which = which + 1;
    }
    handle_hash(env, instruction, 6)
}

/// The hash steps from the algorithm numbered `which` on.
pub open spec fn hash_from(m: EnvModel, i: Seq<u8>, which: nat) -> Option<Outcome>
    decreases 6 - which,
{
    if which >= 6 {
        named(i, hash_name(6), hash_step(m, 6))
    } else {
        or_else(named(i, hash_name(which), hash_step(m, which)), hash_from(m, i, which + 1))
    }
}

} // verus!
