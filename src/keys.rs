//! Synthetic fixed-width keys derived from an entry index.
use vstd::prelude::*;

verus! {

/// Byte `j` of the little-endian encoding of `i`, where only the low four
/// bytes are copied and every later position is zero.
pub open spec fn key_byte(i: nat, j: int) -> u8 {
    if 0 <= j < 4 {
        ((i / pow256(j as nat)) % 256) as u8
    } else {
        0
    }
}

/// `256` raised to `e`.
pub open spec fn pow256(e: nat) -> nat
    decreases e,
{
    if e == 0 {
        1
    } else {
        256 * pow256((e - 1) as nat)
    }
}

/// The key of width `n` that stands for entry `i`.
pub open spec fn key_of(n: nat, i: nat) -> Seq<u8> {
    Seq::new(n, |j: int| key_byte(i, j))
}

/// Builds the `N`-byte key of entry `i`: the low `min(N, 4)` bytes of `i` in
/// little-endian order, the rest zero.
pub fn usize_to_bytes<const N: usize>(i: usize) -> (r: [u8; N])
    ensures
        r@ == key_of(N as nat, i as nat),
{
    let mut k: [u8; N] = [0u8; N];
    let mut rest: usize = i;
    let mut j: usize = 0;
    assert(pow256(0) == 1);
    while j < N
        invariant
            0 <= j <= N,
            k@.len() == N,
            j <= 4 ==> rest as nat == i as nat / pow256(j as nat),
            forall|t: int| 0 <= t < j ==> k@[t] == key_byte(i as nat, t),
            forall|t: int| j <= t < N ==> k@[t] == 0u8,
        decreases N - j,
    {
        if j < 4 {
            k[j] = (rest % 256) as u8;
            proof {
                lemma_next_power(i as nat, j as nat);
            }
            rest = rest / 256;
        }
        j = j + 1;
    }
    assert(k@ =~= key_of(N as nat, i as nat));
    k
}

/// Entries below `256` to the power `min(n, 4)` get distinct keys of width
/// `n`: within that range no two entries of a built container collide.
pub proof fn distinct_entries_get_distinct_keys(n: nat, i: nat, j: nat)
    requires
        i != j,
        i < pow256(if n < 4 { n } else { 4 }),
        j < pow256(if n < 4 { n } else { 4 }),
    ensures
        key_of(n, i) != key_of(n, j),
{
    let m: nat = if n < 4 { n } else { 4 };
    if key_of(n, i) == key_of(n, j) {
        assert forall|t: nat| t < m implies key_byte(i, t as int) == key_byte(j, t as int) by {
            assert(key_of(n, i)[t as int] == key_of(n, j)[t as int]);
        }
        lemma_low_bytes_fix_residue(i, j, m);
        vstd::arithmetic::div_mod::lemma_small_mod(i, pow256(m));
        vstd::arithmetic::div_mod::lemma_small_mod(j, pow256(m));
    }
}

/// Numbers whose first `m` bytes agree agree modulo `256` to the power `m`.
proof fn lemma_low_bytes_fix_residue(i: nat, j: nat, m: nat)
    requires
        m <= 4,
        forall|t: nat| t < m ==> key_byte(i, t as int) == key_byte(j, t as int),
    ensures
        i % pow256(m) == j % pow256(m),
    decreases m,
{
    if m > 0 {
        let p = (m - 1) as nat;
        lemma_low_bytes_fix_residue(i, j, p);
        lemma_pow256_positive(p);
        assert(key_byte(i, p as int) == key_byte(j, p as int));
        assert(pow256(m) == pow256(p) * 256) by {
            assert(pow256(m) == 256 * pow256(p));
        }
        vstd::arithmetic::div_mod::lemma_mod_breakdown(i as int, pow256(p) as int, 256);
        vstd::arithmetic::div_mod::lemma_mod_breakdown(j as int, pow256(p) as int, 256);
    }
}

/// How many entries get distinct keys of width `n`: `256` to the power
/// `min(n, 4)`.
pub open spec fn key_span(n: nat) -> nat {
    pow256(if n < 4 { n } else { 4 })
}

/// How many distinct keys the first `size` entries have, for keys of width `n`.
pub open spec fn distinct_entry_count(n: nat, size: nat) -> nat {
    if size < key_span(n) {
        size
    } else {
        key_span(n)
    }
}

/// Keys repeat with period `key_span(n)`: entry `i` has the key of entry
/// `i % key_span(n)`.
pub proof fn lemma_key_repeats(n: nat, i: nat)
    ensures
        key_span(n) > 0,
        key_of(n, i) == key_of(n, i % key_span(n)),
{
    let m: nat = if n < 4 { n } else { 4 };
    let big = key_span(n);
    lemma_pow256_positive(m);
    let j = i % big;
    assert forall|t: int| 0 <= t < n implies key_byte(i, t) == key_byte(j, t) by {
        if t < 4 {
            let tt = t as nat;
            lemma_pow256_positive(tt + 1);
            lemma_pow256_positive((m - tt - 1) as nat);
            lemma_pow256_add(tt + 1, (m - tt - 1) as nat);
            vstd::arithmetic::div_mod::lemma_mod_mod(
                i as int,
                pow256(tt + 1) as int,
                pow256((m - tt - 1) as nat) as int,
            );
            vstd::arithmetic::div_mod::lemma_mod_mod(
                j as int,
                pow256(tt + 1) as int,
                pow256((m - tt - 1) as nat) as int,
            );
            vstd::arithmetic::div_mod::lemma_mod_twice(i as int, big as int);
            lemma_byte_from_residue(i, j, tt);
        }
    }
    assert(key_of(n, i) =~= key_of(n, j));
}

/// Byte `t` of a number is fixed by its residue modulo `256` to the power
/// `t + 1`.
proof fn lemma_byte_from_residue(i: nat, j: nat, t: nat)
    requires
        i % pow256(t + 1) == j % pow256(t + 1),
    ensures
        (i / pow256(t)) % 256 == (j / pow256(t)) % 256,
{
    let p = pow256(t);
    lemma_pow256_positive(t);
    assert(pow256(t + 1) == p * 256);
    vstd::arithmetic::div_mod::lemma_mod_breakdown(i as int, p as int, 256);
    vstd::arithmetic::div_mod::lemma_mod_breakdown(j as int, p as int, 256);
    vstd::arithmetic::div_mod::lemma_mod_mod(i as int, p as int, 256);
    vstd::arithmetic::div_mod::lemma_mod_mod(j as int, p as int, 256);
    let x = (i / p) % 256;
    let y = (j / p) % 256;
    assert(p * x == p * y);
    assert(x == y) by (nonlinear_arith)
        requires
            p > 0,
            p * x == p * y,
    ;
}

proof fn lemma_pow256_add(a: nat, b: nat)
    ensures
        pow256(a + b) == pow256(a) * pow256(b),
    decreases a,
{
    if a > 0 {
        lemma_pow256_add((a - 1) as nat, b);
        assert(pow256(a + b) == 256 * pow256((a - 1 + b) as nat));
        assert(256 * (pow256((a - 1) as nat) * pow256(b)) == (256 * pow256((a - 1) as nat))
            * pow256(b)) by (nonlinear_arith);
    } else {
        assert(pow256(0) == 1);
    }
}

proof fn lemma_next_power(i: nat, j: nat)
    ensures
        i / pow256(j) / 256 == i / pow256(j + 1),
        pow256(j) > 0,
    decreases j,
{
    lemma_pow256_positive(j);
    assert(pow256(j + 1) == 256 * pow256(j));
    vstd::arithmetic::div_mod::lemma_div_denominator(i as int, pow256(j) as int, 256);
    assert(pow256(j) * 256 == 256 * pow256(j)) by (nonlinear_arith);
}

proof fn lemma_pow256_positive(j: nat)
    ensures
        pow256(j) > 0,
    decreases j,
{
    if j > 0 {
        lemma_pow256_positive((j - 1) as nat);
    }
}

} // verus!
