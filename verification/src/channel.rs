//! The secure channel: per-process key material, the session key derived
//! once per connection from the two sides' public contributions, and the
//! seal/open pair applied to every frame thereafter.
//!
//! The concrete cryptographic primitives are interchangeable by design; this
//! module fixes the protocol shape around them: a fixed-width public
//! contribution exchanged in the clear, a session key combiner that is
//! symmetric in the two contributions (so both ends derive the same key), a
//! keystream cipher, and an authentication tag checked before any plaintext
//! is released. `open` never returns unauthenticated bytes: whatever it
//! accepts is exactly what the same key would have sealed.

use vstd::prelude::*;
use crate::protocol::NfsError;

verus! {

/// Length in bytes of a public contribution and of a session key.
pub const KEY_LEN: usize = 32;

/// Length in bytes of the authentication tag on every sealed frame.
pub const TAG_LEN: usize = 8;

/// The seed the tag accumulator starts from.
pub const MAC_SEED: u64 = 0xcbf29ce484222325;

/// One side's asymmetric identity: the public contribution it sends during
/// the handshake. Generated fresh by the embedding program at startup from
/// random bytes; never persisted.
pub struct KeyPair {
    public: Vec<u8>,
}

impl View for KeyPair {
    type V = Seq<u8>;

    closed spec fn view(&self) -> Seq<u8> {
        self.public@
    }
}

impl KeyPair {
    /// A well-formed identity carries exactly `KEY_LEN` bytes.
    pub open spec fn wf(&self) -> bool {
        self@.len() == KEY_LEN
    }

    /// Builds an identity from `KEY_LEN` random bytes; refuses any other
    /// length.
    pub fn from_bytes(bytes: Vec<u8>) -> (r: Option<KeyPair>)
        ensures
            match r {
                Some(kp) => kp.wf() && kp@ == bytes@,
                None => bytes@.len() != KEY_LEN,
            },
    {
        if bytes.len() == KEY_LEN {
            Some(KeyPair { public: bytes })
        } else {
            None
        }
    }

    /// The bytes this side sends to its peer during the handshake.
    pub fn public_bytes(&self) -> (r: &Vec<u8>)
        ensures
            r@ == self@,
    {
        &self.public
    }
}

/// The symmetric key sealing every frame of one connection; derived once by
/// the handshake and fixed for the connection's lifetime.
pub struct SessionKey {
    bytes: Vec<u8>,
}

impl View for SessionKey {
    type V = Seq<u8>;

    closed spec fn view(&self) -> Seq<u8> {
        self.bytes@
    }
}

impl SessionKey {
    pub open spec fn wf(&self) -> bool {
        self@.len() == KEY_LEN
    }
}

// ---------------------------------------------------------------------------
// Handshake: validating the peer's contribution, deriving the session key
// ---------------------------------------------------------------------------

/// The session key two contributions combine to: the byte-wise mix of the
/// two. The combiner is symmetric, so both ends derive the same key.
pub open spec fn session_key_of(a: Seq<u8>, b: Seq<u8>) -> Seq<u8> {
    Seq::new(KEY_LEN as nat, |i: int| a[i] ^ b[i])
}

/// Both ends of a handshake derive the same session key, whichever side's
/// contribution is named first.
pub proof fn lemma_key_agreement(a: Seq<u8>, b: Seq<u8>)
    requires
        a.len() == KEY_LEN,
        b.len() == KEY_LEN,
    ensures
        session_key_of(a, b) == session_key_of(b, a),
{
    assert(session_key_of(a, b) =~= session_key_of(b, a)) by {
        assert forall|i: int| 0 <= i < KEY_LEN implies session_key_of(a, b)[i] == session_key_of(
            b,
            a,
        )[i] by {
            let x = a[i];
            let y = b[i];
            assert((x ^ y) == (y ^ x)) by (bit_vector);
        }
    }
}

/// Validates the peer's handshake material: anything but exactly `KEY_LEN`
/// bytes (a truncated or padded contribution) is a handshake failure.
pub fn parse_public_key(bytes: &Vec<u8>) -> (r: Result<Vec<u8>, NfsError>)
    ensures
        match r {
            Ok(k) => bytes@.len() == KEY_LEN && k@ == bytes@,
            Err(e) => bytes@.len() != KEY_LEN && e is HandshakeError,
        },
{
    if bytes.len() == KEY_LEN {
        Ok(bytes.clone())
    } else {
        Err(NfsError::HandshakeError("peer sent malformed public key material".to_owned()))
    }
}

/// Derives the connection's session key from this side's identity and the
/// peer's validated contribution.
pub fn derive_session_key(local: &KeyPair, peer_public: &Vec<u8>) -> (r: SessionKey)
    requires
        local.wf(),
        peer_public@.len() == KEY_LEN,
    ensures
        r.wf(),
        r@ == session_key_of(local@, peer_public@),
{
    let mut bytes: Vec<u8> = Vec::new();
    let mut i: usize = 0;
    let pub_bytes = local.public_bytes();
    while i < KEY_LEN
        invariant
            i <= KEY_LEN,
            local.wf(),
            peer_public@.len() == KEY_LEN,
            pub_bytes@ == local@,
            bytes@ == session_key_of(local@, peer_public@).take(i as int),
        decreases KEY_LEN - i,
    {
        bytes.push(pub_bytes[i] ^ peer_public[i]);
        assert(bytes@ =~= session_key_of(local@, peer_public@).take(i + 1));
        i = i + 1;
    }
    assert(bytes@ =~= session_key_of(local@, peer_public@));
    SessionKey { bytes }
}

// ---------------------------------------------------------------------------
// The keystream cipher
// ---------------------------------------------------------------------------

/// The byte sequence `m` masked with the key's repeating stream. Applying
/// the mask twice restores the original.
pub open spec fn xor_stream(key: Seq<u8>, m: Seq<u8>) -> Seq<u8>
    recommends
        key.len() > 0,
{
    Seq::new(m.len(), |i: int| m[i] ^ key[i % (key.len() as int)])
}

/// Masking is an involution: sealing and opening under one key restore the
/// plaintext byte for byte.
pub proof fn lemma_xor_stream_involutive(key: Seq<u8>, m: Seq<u8>)
    requires
        key.len() > 0,
    ensures
        xor_stream(key, xor_stream(key, m)) == m,
{
    assert(xor_stream(key, xor_stream(key, m)) =~= m) by {
        assert forall|i: int| 0 <= i < m.len() implies xor_stream(key, xor_stream(key, m))[i]
            == m[i] by {
            let a = m[i];
            let x = key[i % (key.len() as int)];
            assert(((a ^ x) ^ x) == a) by (bit_vector);
        }
    }
}

fn apply_keystream(key: &SessionKey, m: &Vec<u8>) -> (r: Vec<u8>)
    requires
        key.wf(),
    ensures
        r@ == xor_stream(key@, m@),
{
    let mut out: Vec<u8> = Vec::new();
    let mut i: usize = 0;
    while i < m.len()
        invariant
            i <= m@.len(),
            key.wf(),
            out@ == xor_stream(key@, m@).take(i as int),
        decreases m@.len() - i,
    {
        out.push(m[i] ^ key.bytes[i % KEY_LEN]);
        assert(out@ =~= xor_stream(key@, m@).take(i + 1));
        i = i + 1;
    }
    assert(out@ =~= xor_stream(key@, m@));
    out
}

// ---------------------------------------------------------------------------
// The authentication tag
// ---------------------------------------------------------------------------

/// One accumulator step of the tag: multiply, add the byte, keep 64 bits.
pub open spec fn mac_step(acc: u64, b: u8) -> u64 {
    (((acc as int) * 31 + b) % 0x10000000000000000) as u64
}

/// The accumulator after folding a whole byte sequence, head first.
pub open spec fn mac_fold(s: Seq<u8>, acc: u64) -> u64
    decreases s.len(),
{
    if s.len() == 0 {
        acc
    } else {
        mac_fold(s.drop_first(), mac_step(acc, s[0]))
    }
}

/// The eight-byte tag a key puts on a ciphertext: the accumulator seeded,
/// folded over the key and then over the ciphertext.
pub open spec fn mac(key: Seq<u8>, c: Seq<u8>) -> Seq<u8> {
    crate::codec::be64(mac_fold(c, mac_fold(key, MAC_SEED)))
}

fn mac_fold_exec(s: &Vec<u8>, acc0: u64) -> (r: u64)
    ensures
        r == mac_fold(s@, acc0),
{
    let mut acc: u64 = acc0;
    let mut i: usize = 0;
    assert(s@.skip(0) =~= s@);
    while i < s.len()
        invariant
            i <= s@.len(),
            mac_fold(s@, acc0) == mac_fold(s@.skip(i as int), acc),
        decreases s@.len() - i,
    {
        let t: u128 = (acc as u128) * 31 + (s[i] as u128);
        let stepped: u64 = (t % 0x10000000000000000u128) as u64;
        proof {
            assert(s@.skip(i as int)[0] == s@[i as int]);
            assert(s@.skip(i as int).drop_first() =~= s@.skip(i + 1));
            assert(stepped == mac_step(acc, s@[i as int]));
        }
        acc = stepped;
        i = i + 1;
    }
    proof {
        assert(s@.skip(s@.len() as int) =~= Seq::<u8>::empty());
    }
    acc
}

/// The tag this key computes over this ciphertext.
fn mac_exec(key: &SessionKey, c: &Vec<u8>) -> (r: Vec<u8>)
    ensures
        r@ == mac(key@, c@),
{
    let acc = mac_fold_exec(c, mac_fold_exec(&key.bytes, MAC_SEED));
    let mut out: Vec<u8> = Vec::new();
    crate::codec::push_u64(&mut out, acc);
    assert(out@ =~= crate::codec::be64(acc));
    out
}

// ---------------------------------------------------------------------------
// Seal and open
// ---------------------------------------------------------------------------

/// The sealed frame a key makes of a plaintext: the tag over the masked
/// bytes, then the masked bytes.
pub open spec fn seal_spec(key: Seq<u8>, m: Seq<u8>) -> Seq<u8>
    recommends
        key.len() > 0,
{
    mac(key, xor_stream(key, m)) + xor_stream(key, m)
}

/// What a key accepts: a frame long enough to carry a tag, whose tag is the
/// one the key computes over the remainder; the plaintext is the unmasked
/// remainder. Anything else is refused.
pub open spec fn open_spec(key: Seq<u8>, f: Seq<u8>) -> Option<Seq<u8>>
    recommends
        key.len() > 0,
{
    if f.len() >= TAG_LEN && f.subrange(0, TAG_LEN as int) == mac(key, f.skip(TAG_LEN as int)) {
        Some(xor_stream(key, f.skip(TAG_LEN as int)))
    } else {
        None
    }
}

/// Seals one plaintext frame under the session key.
pub fn seal(key: &SessionKey, m: &Vec<u8>) -> (r: Vec<u8>)
    requires
        key.wf(),
    ensures
        r@ == seal_spec(key@, m@),
        r@.len() == m@.len() + TAG_LEN,
{
    let c = apply_keystream(key, m);
    let mut out = mac_exec(key, &c);
    out.extend_from_slice(c.as_slice());
    assert(out@ =~= seal_spec(key@, m@));
    out
}

/// Opens one sealed frame under the session key: the plaintext when the tag
/// verifies, nothing otherwise. No unauthenticated byte is ever released.
pub fn open(key: &SessionKey, frame: &Vec<u8>) -> (r: Option<Vec<u8>>)
    requires
        key.wf(),
    ensures
        match r {
            Some(p) => open_spec(key@, frame@) == Some(p@),
            None => open_spec(key@, frame@) is None,
        },
{
    if frame.len() < TAG_LEN {
        return None;
    }
    let mut c: Vec<u8> = Vec::new();
    let mut i: usize = TAG_LEN;
    while i < frame.len()
        invariant
            TAG_LEN <= i <= frame@.len(),
            c@ == frame@.subrange(TAG_LEN as int, i as int),
        decreases frame@.len() - i,
    {
        c.push(frame[i]);
        assert(c@ =~= frame@.subrange(TAG_LEN as int, i + 1));
        i = i + 1;
    }
    assert(c@ =~= frame@.skip(TAG_LEN as int));
    let expected = mac_exec(key, &c);
    let mut j: usize = 0;
    while j < TAG_LEN
        invariant
            j <= TAG_LEN,
            expected@ == mac(key@, c@),
            c@ == frame@.skip(TAG_LEN as int),
            TAG_LEN <= frame@.len(),
            forall|t: int| 0 <= t < j ==> frame@[t] == expected@[t],
        decreases TAG_LEN - j,
    {
        if frame[j] != expected[j] {
            proof {
                assert(frame@.subrange(0, TAG_LEN as int)[j as int] != mac(
                    key@,
                    frame@.skip(TAG_LEN as int),
                )[j as int]);
            }
            return None;
        }
        j = j + 1;
    }
    proof {
        assert(frame@.subrange(0, TAG_LEN as int) =~= mac(key@, frame@.skip(TAG_LEN as int)));
    }
    Some(apply_keystream(key, &c))
}

// ---------------------------------------------------------------------------
// Laws of the channel
// ---------------------------------------------------------------------------

/// Frame integrity, first half: whatever a key seals, the same key opens,
/// and the plaintext comes back byte for byte.
pub proof fn lemma_open_seal_round_trip(key: Seq<u8>, m: Seq<u8>)
    requires
        key.len() > 0,
    ensures
        open_spec(key, seal_spec(key, m)) == Some(m),
{
    let c = xor_stream(key, m);
    let f = seal_spec(key, m);
    assert(mac(key, c).len() == TAG_LEN);
    assert(f.subrange(0, TAG_LEN as int) =~= mac(key, c));
    assert(f.skip(TAG_LEN as int) =~= c);
    lemma_xor_stream_involutive(key, m);
}

/// Frame integrity, second half: `open` never returns corrupted plaintext.
/// Any frame a key accepts is exactly the frame that key would have sealed
/// over the returned plaintext.
pub proof fn lemma_open_authentic(key: Seq<u8>, f: Seq<u8>, p: Seq<u8>)
    requires
        key.len() > 0,
        open_spec(key, f) == Some(p),
    ensures
        f == seal_spec(key, p),
{
    let c = f.skip(TAG_LEN as int);
    assert(p == xor_stream(key, c));
    lemma_xor_stream_involutive(key, c);
    assert(xor_stream(key, p) =~= c) by {
        assert(xor_stream(key, xor_stream(key, c)) == c);
    }
    assert(f =~= mac(key, c) + c);
}

/// A frame sealed under one key is refused by another whenever the two keys
/// disagree on the tag of its ciphertext.
pub proof fn lemma_open_rejects_other_key(k1: Seq<u8>, k2: Seq<u8>, m: Seq<u8>)
    requires
        k1.len() > 0,
        k2.len() > 0,
        mac(k2, xor_stream(k1, m)) != mac(k1, xor_stream(k1, m)),
    ensures
        open_spec(k2, seal_spec(k1, m)) is None,
{
    let c = xor_stream(k1, m);
    let f = seal_spec(k1, m);
    assert(f.subrange(0, TAG_LEN as int) =~= mac(k1, c));
    assert(f.skip(TAG_LEN as int) =~= c);
}

/// Sealing is injective in the plaintext: one key never seals two distinct
/// messages to the same frame.
pub proof fn lemma_seal_injective(key: Seq<u8>, m1: Seq<u8>, m2: Seq<u8>)
    requires
        key.len() > 0,
        seal_spec(key, m1) == seal_spec(key, m2),
    ensures
        m1 == m2,
{
    lemma_open_seal_round_trip(key, m1);
    lemma_open_seal_round_trip(key, m2);
}

} // verus!
