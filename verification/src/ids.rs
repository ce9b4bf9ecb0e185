//! 128-bit identifiers and their hyphenated text.

use vstd::prelude::*;

verus! {

/// The lower-case hexadecimal digit of `n`.
pub open spec fn hex_digit(n: nat) -> char {
    if n < 10 {
        (('0' as nat) + n) as char
    } else {
        (('a' as nat) + n - 10) as char
    }
}

/// The last `len` hexadecimal digits of `n`, most significant first.
pub open spec fn hex_fixed(n: nat, len: nat) -> Seq<char>
    decreases len,
{
    if len == 0 {
        Seq::empty()
    } else {
        hex_fixed(n / 16, (len - 1) as nat).push(hex_digit(n % 16))
    }
}

/// The 32 hexadecimal digits of `u` in groups of 8, 4, 4, 4 and 12.
pub open spec fn uuid_text(u: u128) -> Seq<char> {
    let h = hex_fixed(u as nat, 32);
    h.subrange(0, 8).push('-') + h.subrange(8, 12).push('-') + h.subrange(12, 16).push('-')
        + h.subrange(16, 20).push('-') + h.subrange(20, 32)
}

/// A random identifier from `uuid::Uuid::new_v4`. Only the version and variant
/// bits, which that function fixes, are the same in every outcome.
#[verifier::external_body]
pub(crate) fn random_uuid() -> (r: u128)
    ensures
        r & 0xF000_C000_0000_0000_0000 == 0x4000_8000_0000_0000_0000,
{
    uuid::Uuid::new_v4().as_u128()
}

/// The `Display` text of `uuid::Uuid::from_u128(u)`: hyphenated lower-case
/// hexadecimal.
#[verifier::external_body]
pub(crate) fn uuid_to_text(u: u128) -> (r: String)
    ensures
        r@ == uuid_text(u),
{
    uuid::Uuid::from_u128(u).to_string()
}

/// A prefix followed by the text of `u`.
pub fn prefixed_id(prefix: &str, u: u128) -> (r: String)
    ensures
        r@ == prefix@ + uuid_text(u),
{
    let mut out = prefix.to_owned();
    out.append(uuid_to_text(u).as_str());
    out
}

/// How many numbers `len` hexadecimal digits write.
spec fn hex_range(len: nat) -> nat
    decreases len,
{
    if len == 0 {
        1
    } else {
        16 * hex_range((len - 1) as nat)
    }
}

proof fn hex_fixed_is_injective(a: nat, b: nat, len: nat)
    requires
        a < hex_range(len),
        b < hex_range(len),
        hex_fixed(a, len) == hex_fixed(b, len),
    ensures
        a == b,
    decreases len,
{
    if len > 0 {
        let x = hex_fixed(a, len);
        let y = hex_fixed(b, len);
        assert(x.last() == hex_digit(a % 16));
        assert(y.last() == hex_digit(b % 16));
        assert(x.drop_last() =~= hex_fixed(a / 16, (len - 1) as nat));
        assert(y.drop_last() =~= hex_fixed(b / 16, (len - 1) as nat));
        hex_fixed_is_injective(a / 16, b / 16, (len - 1) as nat);
    }
}

proof fn hex_fixed_len(n: nat, len: nat)
    ensures
        hex_fixed(n, len).len() == len,
    decreases len,
{
    if len > 0 {
        hex_fixed_len(n / 16, (len - 1) as nat);
    }
}

/// The text of an identifier has 36 characters, and two identifiers with the
/// same text are the same.
pub proof fn uuid_text_is_injective(a: u128, b: u128)
    ensures
        uuid_text(a).len() == 36,
        uuid_text(b).len() == 36,
        uuid_text(a) == uuid_text(b) ==> a == b,
{
    let x = hex_fixed(a as nat, 32);
    let y = hex_fixed(b as nat, 32);
    hex_fixed_len(a as nat, 32);
    hex_fixed_len(b as nat, 32);
    let s = uuid_text(a);
    let t = uuid_text(b);
    if s == t {
        assert forall|i: int| 0 <= i < 32 implies x[i] == y[i] by {
            let at = if i < 8 {
                i
            } else if i < 12 {
                i + 1
            } else if i < 16 {
                i + 2
            } else if i < 20 {
                i + 3
            } else {
                i + 4
            };
            assert(s[at] == x[i]);
            assert(t[at] == y[i]);
        }
        assert(x =~= y);
        assert(hex_range(32) == 0x1_0000_0000_0000_0000_0000_0000_0000_0000) by {
            reveal_with_fuel(hex_range, 33);
        }
        hex_fixed_is_injective(a as nat, b as nat, 32);
    }
}

} // verus!
