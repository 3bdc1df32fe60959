//! Index arithmetic modulo the size of a symbol set.
//!
//! Both directions of the cipher are one operation on three numbers: the
//! index of a symbol, the index of a key symbol and the size of the set.
use vstd::arithmetic::div_mod::{
    lemma_add_mod_noop, lemma_mod_add_multiples_vanish, lemma_mod_bound, lemma_small_mod,
    lemma_sub_mod_noop,
};
use vstd::prelude::*;

verus! {

/// The index that the symbol at index `m` is moved to by the key symbol at
/// index `k`, in a set of `n` symbols.
pub open spec fn shift_forward(m: int, k: int, n: int) -> int {
    (m + k) % n
}

/// The index that the symbol at index `c` is moved back to by the key
/// symbol at index `k`, in a set of `n` symbols. Adding `n` before taking
/// `k` away keeps the dividend from going below zero when both indices are
/// below `n`.
pub open spec fn shift_backward(c: int, k: int, n: int) -> int {
    (c + n - k) % n
}

/// Both shifts land inside the set.
pub proof fn lemma_shift_in_range(a: int, k: int, n: int)
    requires
        n >= 1,
    ensures
        0 <= shift_forward(a, k, n) < n,
        0 <= shift_backward(a, k, n) < n,
{
    lemma_mod_bound(a + k, n);
    lemma_mod_bound(a + n - k, n);
}

/// Shifting back undoes shifting forward, up to reduction modulo `n`.
pub proof fn lemma_backward_undoes_forward(m: int, k: int, n: int)
    requires
        n >= 1,
    ensures
        shift_backward(shift_forward(m, k, n), k, n) == m % n,
        0 <= m < n ==> shift_backward(shift_forward(m, k, n), k, n) == m,
{
    let f = (m + k) % n;
    // (f + n - k) % n == (f - k) % n == ((m + k) % n - k % n) % n == (m + k - k) % n
    lemma_mod_add_multiples_vanish(f - k, n);
    assert(f + n - k == n + (f - k));
    lemma_sub_mod_noop(f, k, n);
    lemma_mod_bound(m + k, n);
    lemma_small_mod(f as nat, n as nat);
    lemma_sub_mod_noop(m + k, k, n);
    if 0 <= m < n {
        lemma_small_mod(m as nat, n as nat);
    }
}

/// Shifting forward undoes shifting back, up to reduction modulo `n`.
pub proof fn lemma_forward_undoes_backward(c: int, k: int, n: int)
    requires
        n >= 1,
    ensures
        shift_forward(shift_backward(c, k, n), k, n) == c % n,
        0 <= c < n ==> shift_forward(shift_backward(c, k, n), k, n) == c,
{
    let b = (c + n - k) % n;
    lemma_mod_add_multiples_vanish(c - k, n);
    assert(c + n - k == n + (c - k));
    lemma_add_mod_noop(b, k, n);
    lemma_mod_bound(c + n - k, n);
    lemma_small_mod(b as nat, n as nat);
    lemma_add_mod_noop(c - k, k, n);
    if 0 <= c < n {
        lemma_small_mod(c as nat, n as nat);
    }
}

/// Computes [`shift_forward`] without leaving the range of `usize`,
/// whatever the two indices are.
pub fn forward_index(m: usize, k: usize, n: usize) -> (r: usize)
    requires
        n >= 1,
    ensures
        r == shift_forward(m as int, k as int, n as int),
        r < n,
{
    let a = m % n;
    let b = k % n;
    proof {
        lemma_add_mod_noop(m as int, k as int, n as int);
        if a + b >= n {
            lemma_mod_add_multiples_vanish(a + b - n, n as int);
            assert(a + b == n + (a + b - n));
            lemma_small_mod((a + b - n) as nat, n as nat);
        } else {
            lemma_small_mod((a + b) as nat, n as nat);
        }
    }
    if a >= n - b {
        a - (n - b)
    } else {
        a + b
    }
}

/// Computes [`shift_backward`] without leaving the range of `usize`,
/// whatever the two indices are.
pub fn backward_index(c: usize, k: usize, n: usize) -> (r: usize)
    requires
        n >= 1,
    ensures
        r == shift_backward(c as int, k as int, n as int),
        r < n,
{
    let a = c % n;
    let b = k % n;
    proof {
        lemma_mod_add_multiples_vanish(c - k, n as int);
        assert(c + n - k == n + (c - k));
        lemma_sub_mod_noop(c as int, k as int, n as int);
        if a >= b {
            lemma_small_mod((a - b) as nat, n as nat);
        } else {
            lemma_mod_add_multiples_vanish(a - b, n as int);
            lemma_small_mod((a + n - b) as nat, n as nat);
        }
    }
    if a >= b {
        a - b
    } else {
        a + (n - b)
    }
}

} // verus!
