//! The native password scramble and the handshake response.

use vstd::prelude::*;
use crate::bytes::{le_bytes, write_le, append_slice};
use crate::consts::{CLIENT_PROTOCOL_41, CLIENT_SECURE_CONNECTION, CLIENT_LONG_PASSWORD};
use crate::consts::{CLIENT_TRANSACTIONS, CLIENT_LOCAL_FILES, CLIENT_LONG_FLAG};
use crate::consts::{CLIENT_CONNECT_WITH_DB, UTF8_GENERAL_CI};

verus! {

/// The SHA-1 digest of `data`.
pub uninterp spec fn sha1_of(data: Seq<u8>) -> Seq<u8>;

/// Relies on sha1_smol's `Sha1::from` and `Digest::bytes`: the SHA-1 digest of
/// the data, which is 20 bytes long.
#[verifier::external_body]
fn sha1(data: &[u8]) -> (r: Vec<u8>)
    ensures
        r@ == sha1_of(data@),
        r@.len() == 20,
{
    sha1_smol::Sha1::from(data).digest().bytes().to_vec()
}

/// The bytes of `a` each XOR-ed with the byte of `b` at the same place.
pub open spec fn xor_bytes(a: Seq<u8>, b: Seq<u8>) -> Seq<u8> {
    Seq::new(a.len(), |i: int| a[i] ^ b[i])
}

/// The native password scramble: `SHA1(pass) XOR SHA1(seed ++ SHA1(SHA1(pass)))`,
/// and nothing for an empty password.
pub open spec fn scramble_of(seed: Seq<u8>, pass: Seq<u8>) -> Seq<u8> {
    if pass.len() == 0 {
        Seq::empty()
    } else {
        xor_bytes(sha1_of(pass), sha1_of(seed + sha1_of(sha1_of(pass))))
    }
}

/// XORs the password's digest with the digest of the seed and the double
/// digest.
pub fn scramble_from_digests(pass_digest: &[u8], seed_digest: &[u8]) -> (r: Vec<u8>)
    requires
        pass_digest.len() <= seed_digest.len(),
    ensures
        r@ == xor_bytes(pass_digest@, seed_digest@),
{
    let mut r: Vec<u8> = Vec::new();
    let mut i: usize = 0;
    while i < pass_digest.len()
        invariant
            i <= pass_digest.len() <= seed_digest.len(),
            r@ =~= Seq::new(i as nat, |k: int| pass_digest@[k] ^ seed_digest@[k]),
        decreases pass_digest.len() - i,
    {
        r.push(pass_digest[i] ^ seed_digest[i]);
        i = i + 1;
    }
    r
}

/// The scramble of `pass` for the server's `seed`.
pub fn scramble(seed: &[u8], pass: &[u8]) -> (r: Vec<u8>)
    ensures
        r@ == scramble_of(seed@, pass@),
        pass@.len() > 0 ==> r@.len() == 20,
{
    if pass.len() == 0 {
        return Vec::new();
    }
    let stage1 = sha1(pass);
    let stage2 = sha1(stage1.as_slice());
    let mut seeded: Vec<u8> = Vec::new();
    append_slice(&mut seeded, seed);
    append_slice(&mut seeded, stage2.as_slice());
    let stage3 = sha1(seeded.as_slice());
    scramble_from_digests(stage1.as_slice(), stage3.as_slice())
}

/// The capability flags the client answers with, given the server's.
pub open spec fn client_flags(server_caps: u32, with_db: bool) -> u32 {
    CLIENT_PROTOCOL_41 | CLIENT_SECURE_CONNECTION | CLIENT_LONG_PASSWORD | CLIENT_TRANSACTIONS
        | CLIENT_LOCAL_FILES | (server_caps & CLIENT_LONG_FLAG) | (if with_db {
        CLIENT_CONNECT_WITH_DB
    } else {
        0u32
    })
}

/// The handshake response: flags, a zero packet size, the collation, 23 zero
/// bytes, the user name and a zero, the scramble after its length, and the
/// database name and a zero when there is one.
pub open spec fn handshake_response(flags: u32, user: Seq<u8>, scramble: Seq<u8>, db: Seq<u8>) -> Seq<u8> {
    le_bytes(flags as nat, 4) + le_bytes(0, 4) + seq![UTF8_GENERAL_CI] + Seq::new(23, |i: int| 0u8)
        + user + seq![0u8, scramble.len() as u8] + scramble + if db.len() > 0 {
        db + seq![0u8]
    } else {
        Seq::empty()
    }
}

/// Assembles the handshake response for a server that offered `server_caps`.
pub fn handshake_response_payload(server_caps: u32, user: &[u8], scramble: &[u8], db: &[u8]) -> (r: Vec<u8>)
    requires
        scramble.len() < 256,
    ensures
        r@ == handshake_response(client_flags(server_caps, db.len() > 0), user@, scramble@, db@),
{
    let with_db = db.len() > 0;
    let flags = CLIENT_PROTOCOL_41 | CLIENT_SECURE_CONNECTION | CLIENT_LONG_PASSWORD
        | CLIENT_TRANSACTIONS | CLIENT_LOCAL_FILES | (server_caps & CLIENT_LONG_FLAG) | (if with_db {
        CLIENT_CONNECT_WITH_DB
    } else {
        0u32
    });
    let mut out: Vec<u8> = Vec::new();
    write_le(&mut out, flags as u64, 4);
    write_le(&mut out, 0, 4);
    out.push(UTF8_GENERAL_CI);
    let ghost before = out@;
    let mut i: usize = 0;
    while i < 23
        invariant
            i <= 23,
            out@ =~= before + Seq::new(i as nat, |k: int| 0u8),
        decreases 23 - i,
    {
        out.push(0);
        i = i + 1;
    }
    append_slice(&mut out, user);
    out.push(0);
    out.push(scramble.len() as u8);
    append_slice(&mut out, scramble);
    if with_db {
        append_slice(&mut out, db);
        out.push(0);
    }
    assert(out@ =~= handshake_response(flags, user@, scramble@, db@));
    out
}

} // verus!
