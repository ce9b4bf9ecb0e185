//! Ed25519 keys and signatures, and hexadecimal text back to bytes.

use vstd::prelude::*;

verus! {

/// The public key of the secret key `seed`.
pub uninterp spec fn ed25519_public(seed: Seq<u8>) -> Seq<u8>;

/// The signature of `msg` under the secret key `seed`.
pub uninterp spec fn ed25519_signature(seed: Seq<u8>, msg: Seq<u8>) -> Seq<u8>;

/// Whether `sig` is accepted as a signature of `msg` under the public key
/// `key`.
pub uninterp spec fn ed25519_accepts(key: Seq<u8>, msg: Seq<u8>, sig: Seq<u8>) -> bool;

/// `ed25519_dalek::SigningKey::from_bytes` and its `verifying_key`: the public
/// key is determined by the secret one.
#[verifier::external_body]
fn derive_public(seed: &[u8; 32]) -> (r: [u8; 32])
    ensures
        r@ == ed25519_public(seed@),
{
    ed25519_dalek::SigningKey::from_bytes(seed).verifying_key().to_bytes()
}

/// `ed25519_dalek`'s `Signer::sign` for `SigningKey`: the signature is
/// determined by key and message, has 64 bytes, and is accepted under the
/// public key of the same secret key.
#[verifier::external_body]
fn sign_bytes(seed: &[u8; 32], msg: &[u8]) -> (r: Vec<u8>)
    ensures
        r@ == ed25519_signature(seed@, msg@),
        r@.len() == 64,
        ed25519_accepts(ed25519_public(seed@), msg@, r@),
{
    let key = ed25519_dalek::SigningKey::from_bytes(seed);
    ed25519_dalek::Signer::sign(&key, msg).to_bytes().to_vec()
}

/// `ed25519_dalek`'s `Verifier::verify` for `VerifyingKey`: whether it accepts
/// depends on key, message and signature alone. Bytes that are no key accept
/// nothing.
#[verifier::external_body]
fn accepts(key: &[u8; 32], msg: &[u8], sig: &[u8; 64]) -> (r: bool)
    ensures
        r == ed25519_accepts(key@, msg@, sig@),
{
    match ed25519_dalek::VerifyingKey::from_bytes(key) {
        Ok(k) => {
            let s = ed25519_dalek::Signature::from_bytes(sig);
            ed25519_dalek::Verifier::verify(&k, msg, &s).is_ok()
        }
        Err(_) => false,
    }
}

/// `ed25519_dalek::SigningKey::generate` with the operating system's source of
/// randomness. Nothing is claimed of the result.
#[verifier::external_body]
fn random_seed() -> (r: [u8; 32]) {
    ed25519_dalek::SigningKey::generate(&mut rand::rngs::OsRng).to_bytes()
}

/// `zeroize::Zeroize::zeroize` for an array of bytes: every byte becomes zero, by
/// stores that are not optimized away.
#[verifier::external_body]
fn zeroize_bytes(bytes: &mut [u8; 32])
    ensures
        final(bytes)@ == Seq::new(32, |i: int| 0u8),
    opens_invariants none
    no_unwind
{
    zeroize::Zeroize::zeroize(bytes);
}

/// The value of a hexadecimal digit of either case.
pub open spec fn hex_value(c: char) -> Option<int> {
    if '0' <= c && c <= '9' {
        Some(c as int - '0' as int)
    } else if 'a' <= c && c <= 'f' {
        Some(c as int - 'a' as int + 10)
    } else if 'A' <= c && c <= 'F' {
        Some(c as int - 'A' as int + 10)
    } else {
        None
    }
}

/// Text that stands for bytes: hexadecimal digits, two for each byte.
pub open spec fn is_hex(s: Seq<char>) -> bool {
    s.len() % 2 == 0 && forall|i: int| 0 <= i < s.len() ==> hex_value(#[trigger] s[i]) is Some
}

/// The bytes that hexadecimal text stands for.
pub open spec fn hex_bytes(s: Seq<char>) -> Seq<u8> {
    Seq::new(
        s.len() / 2,
        |i: int| (16 * hex_value(s[2 * i])->0 + hex_value(s[2 * i + 1])->0) as u8,
    )
}

/// `hex::decode`: succeeds on an even number of hexadecimal digits of either
/// case, and gives one byte for each two, the high half first.
#[verifier::external_body]
pub(crate) fn hex_decode(s: &str) -> (r: Option<Vec<u8>>)
    ensures
        match r {
            Some(b) => is_hex(s@) && b@ == hex_bytes(s@),
            None => !is_hex(s@),
        },
{
    hex::decode(s).ok()
}

/// A public key.
#[derive(Clone, Copy, Debug, PartialEq, Eq)]
pub struct VerifyingKey {
    pub bytes: [u8; 32],
}

impl View for VerifyingKey {
    type V = Seq<u8>;

    open spec fn view(&self) -> Seq<u8> {
        self.bytes@
    }
}

/// A secret key.
pub struct SigningKey {
    seed: [u8; 32],
}

impl View for SigningKey {
    type V = Seq<u8>;

    closed spec fn view(&self) -> Seq<u8> {
        self.seed@
    }
}

impl SigningKey {
    /// A fresh random key.
    pub fn generate() -> (r: SigningKey)
        ensures
            r@.len() == 32,
    {
        SigningKey { seed: random_seed() }
    }

    /// The key with the given secret bytes.
    pub fn from_bytes(seed: [u8; 32]) -> (r: SigningKey)
        ensures
            r@ == seed@,
    {
        SigningKey { seed }
    }

    /// The public key.
    pub fn verifying_key(&self) -> (r: VerifyingKey)
        ensures
            r@ == ed25519_public(self@),
    {
        VerifyingKey { bytes: derive_public(&self.seed) }
    }

    /// Overwrites the secret bytes with zeros.
    pub fn erase(&mut self)
        ensures
            final(self)@ == Seq::new(32, |i: int| 0u8),
        opens_invariants none
        no_unwind
    {
        zeroize_bytes(&mut self.seed);
    }

    /// The signature of a message.
    pub fn sign(&self, msg: &[u8]) -> (r: Vec<u8>)
        ensures
            r@ == ed25519_signature(self@, msg@),
            r@.len() == 64,
            ed25519_accepts(ed25519_public(self@), msg@, r@),
    {
        sign_bytes(&self.seed, msg)
    }
}

/// A secret key is erased when it is no longer held.
impl Drop for SigningKey {
    fn drop(&mut self)
        opens_invariants none
        no_unwind
    {
        self.erase();
    }
}

impl VerifyingKey {
    /// Whether `sig` is a signature of `msg` under this key.
    pub fn verify(&self, msg: &[u8], sig: &[u8]) -> (r: bool)
        ensures
            r == (sig@.len() == 64 && ed25519_accepts(self@, msg@, sig@)),
    {
        if sig.len() != 64 {
            return false;
        }
        let mut fixed: [u8; 64] = [0u8; 64];
        let mut i: usize = 0;
        while i < 64
            invariant
                i <= 64,
                sig@.len() == 64,
                forall|k: int| 0 <= k < i ==> #[trigger] fixed@[k] == sig@[k],
            decreases 64 - i,
        {
            fixed[i] = sig[i];
            i += 1;
        }
        proof {
            assert(fixed@ =~= sig@);
        }
        accepts(&self.bytes, msg, &fixed)
    }
}

/// Whether hexadecimal text is a signature of `msg` under `key`.
pub open spec fn signed_by(key: Seq<u8>, msg: Seq<u8>, sig: Seq<char>) -> bool {
    is_hex(sig) && hex_bytes(sig).len() == 64 && ed25519_accepts(key, msg, hex_bytes(sig))
}

/// Whether hexadecimal text is a signature of `msg` under `key`.
pub fn verify_hex(key: &VerifyingKey, msg: &[u8], sig: &str) -> (r: bool)
    ensures
        r == signed_by(key@, msg@, sig@),
{
    match hex_decode(sig) {
        Some(b) => key.verify(msg, b.as_slice()),
        None => false,
    }
}

/// The hexadecimal signature of a message.
pub open spec fn hex_signature(seed: Seq<u8>, msg: Seq<u8>) -> Seq<char> {
    crate::digest::hex_text(ed25519_signature(seed, msg))
}

/// Signs a message and gives the signature as hexadecimal text.
pub fn sign_hex(key: &SigningKey, msg: &[u8]) -> (r: String)
    ensures
        r@ == hex_signature(key@, msg@),
        signed_by(ed25519_public(key@), msg@, r@),
{
    let sig = key.sign(msg);
    proof {
        hex_round_trip(sig@);
    }
    crate::digest::hex_encode(sig.as_slice())
}

/// The hexadecimal text of bytes stands for those bytes.
pub proof fn hex_round_trip(b: Seq<u8>)
    ensures
        is_hex(crate::digest::hex_text(b)),
        hex_bytes(crate::digest::hex_text(b)) == b,
{
    let t = crate::digest::hex_text(b);
    assert forall|i: int| 0 <= i < t.len() implies hex_value(#[trigger] t[i]) is Some by {
        digit_value(((b[i / 2] / 16) as nat));
        digit_value(((b[i / 2] % 16) as nat));
    }
    assert(hex_bytes(t) =~= b) by {
        assert forall|i: int| 0 <= i < b.len() implies #[trigger] hex_bytes(t)[i] == b[i] by {
            digit_value((b[i] / 16) as nat);
            digit_value((b[i] % 16) as nat);
            assert((2 * i) / 2 == i && (2 * i + 1) / 2 == i);
            assert((2 * i) % 2 == 0 && (2 * i + 1) % 2 == 1);
            assert(t[2 * i] == crate::ids::hex_digit((b[i] / 16) as nat));
            assert(t[2 * i + 1] == crate::ids::hex_digit((b[i] % 16) as nat));
        }
    }
}

proof fn digit_value(n: nat)
    requires
        n < 16,
    ensures
        hex_value(crate::ids::hex_digit(n)) == Some(n as int),
{
}

} // verus!
