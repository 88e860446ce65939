//! Secret keys beside a secret key.

use vstd::prelude::*;

use crate::nostr::{big_endian, group_order, is_secret_key};

verus! {

/// The last bytes of a number, in big-endian order.
pub open spec fn last_bytes(k: nat, n: nat) -> Seq<u8>
    decreases n,
{
    if n == 0 {
        Seq::empty()
    } else {
        last_bytes(k / 256, (n - 1) as nat).push((k % 256) as u8)
    }
}

/// The secret key that stands at a number beside a secret key: a one, some
/// bytes of the key, and the bytes of the number.
pub open spec fn beside(secret: Seq<u8>, k: nat) -> Seq<u8> {
    seq![1u8] + secret.subrange(1, 16) + last_bytes(k, 16)
}

spec fn power(n: nat) -> nat
    decreases n,
{
    if n == 0 {
        1
    } else {
        256 * power((n - 1) as nat)
    }
}

proof fn lemma_last_bytes(k: nat, n: nat)
    ensures
        last_bytes(k, n).len() == n,
    decreases n,
{
    if n > 0 {
        lemma_last_bytes(k / 256, (n - 1) as nat);
    }
}

proof fn lemma_last_bytes_injective(j: nat, k: nat, n: nat)
    requires
        j < power(n),
        k < power(n),
        last_bytes(j, n) == last_bytes(k, n),
    ensures
        j == k,
    decreases n,
{
    if n > 0 {
        let m = (n - 1) as nat;
        let (a, b) = (last_bytes(j / 256, m), last_bytes(k / 256, m));
        let (x, y) = ((j % 256) as u8, (k % 256) as u8);
        assert(a =~= a.push(x).drop_last());
        assert(b =~= b.push(y).drop_last());
        assert(a.push(x).last() == x && b.push(y).last() == y);
        lemma_last_bytes_injective(j / 256, k / 256, m);
    }
}

proof fn lemma_big_endian_bounds(bytes: Seq<u8>)
    requires
        bytes.len() > 0,
        bytes[0] == 1,
    ensures
        power((bytes.len() - 1) as nat) <= big_endian(bytes) < 2 * power((bytes.len() - 1) as nat),
    decreases bytes.len(),
{
    if bytes.len() > 1 {
        lemma_big_endian_bounds(bytes.drop_last());
    } else {
        assert(big_endian(bytes.drop_last()) == 0);
    }
}

/// Keys beside a secret key are secret keys. Those at different numbers differ,
/// and are not each other's negatives.
pub(crate) proof fn lemma_beside(secret: Seq<u8>, j: nat, k: nat)
    requires
        secret.len() == 32,
        j <= u128::MAX,
        k <= u128::MAX,
    ensures
        is_secret_key(beside(secret, k)),
        beside(secret, j) == beside(secret, k) ==> j == k,
        big_endian(beside(secret, j)) + big_endian(beside(secret, k)) < group_order(),
{
    let (a, b) = (beside(secret, j), beside(secret, k));
    lemma_last_bytes(j, 16);
    lemma_last_bytes(k, 16);
    lemma_big_endian_bounds(a);
    lemma_big_endian_bounds(b);
    reveal_with_fuel(power, 33);
    assert(power(31) == 0x100000000000000000000000000000000000000000000000000000000000000nat);
    assert(power(16) == 0x100000000000000000000000000000000nat);
    if a == b {
        assert(a.skip(16) =~= last_bytes(j, 16));
        assert(b.skip(16) =~= last_bytes(k, 16));
        lemma_last_bytes_injective(j, k, 16);
    }
}

/// The secret key at a number beside a secret key.
pub(crate) fn secret_beside(secret: &[u8; 32], k: u128) -> (key: [u8; 32])
    ensures
        key@ == beside(secret@, k as nat),
        is_secret_key(key@),
{
    let mut key: [u8; 32] = *secret;
    key[0] = 1;
    let mut rest: u128 = k;
    let mut i: usize = 32;
    proof {
        assert(key@.skip(32) =~= Seq::<u8>::empty());
        assert(key@.skip(32) + Seq::<u8>::empty() =~= Seq::<u8>::empty());
    }
    while i > 16
        invariant
            16 <= i <= 32,
            key@.len() == 32,
            key@[0] == 1,
            key@.subrange(1, 16) == secret@.subrange(1, 16),
            last_bytes(rest as nat, (i - 16) as nat) + key@.skip(i as int) == last_bytes(
                k as nat,
                16,
            ),
        decreases i,
    {
        let ghost before = key@;
        i = i - 1;
        key[i] = (rest % 256) as u8;
        proof {
            let n = (i - 15) as nat;
            let byte = (rest as nat % 256) as u8;
            assert(key@ =~= before.update(i as int, byte));
            assert(key@.subrange(1, 16) =~= before.subrange(1, 16));
            assert(last_bytes(rest as nat, n) == last_bytes((rest / 256) as nat, (n - 1) as nat).push(
                byte,
            ));
            assert(last_bytes(rest as nat, n) + before.skip(i + 1) =~= last_bytes(
                (rest / 256) as nat,
                (n - 1) as nat,
            ) + key@.skip(i as int));
        }
        rest = rest / 256;
    }
    proof {
        assert(last_bytes(rest as nat, 0) + key@.skip(16) =~= key@.skip(16));
        assert(key@ =~= beside(secret@, k as nat));
        lemma_beside(secret@, k as nat, k as nat);
    }
    key
}

}
