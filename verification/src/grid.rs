use vstd::prelude::*;
use vstd::arithmetic::div_mod::{
    lemma_add_mod_noop, lemma_fundamental_div_mod_converse, lemma_mul_mod_noop_left, lemma_small_mod,
};

verus! {

/// Number of distinct `usize` values, `2^usize::BITS`.
pub open spec fn usize_modulus() -> int {
    usize::MAX as int + 1
}

/// The hash of an integer grid cell: `101 * x + 307 * y`, wrapped to `usize`.
pub open spec fn spec_hash_cell(x: int, y: int) -> int {
    (101 * x + 307 * y) % usize_modulus()
}

/// The two's-complement reading of `v` as a `usize` (sign extension, as
/// `v as usize` does for an `i32`).
fn sign_extend(v: i32) -> (r: usize)
    ensures
        r as int == (v as int) % usize_modulus(),
{
    if v >= 0 {
        proof {
            lemma_small_mod(v as nat, usize_modulus() as nat);
        }
        v as usize
    } else {
        let m: usize = (-(v + 1)) as usize;
        proof {
            lemma_fundamental_div_mod_converse(v as int, usize_modulus(), -1, usize_modulus() + v);
        }
        usize::MAX - m
    }
}

/// Hashes the integer cell `(x, y)`: both coordinates are read as `usize`
/// (sign-extended), multiplied by 101 and 307, and added, all wrapping.
pub fn hash_cell(x: i32, y: i32) -> (h: usize)
    ensures
        h as int == spec_hash_cell(x as int, y as int),
{
    let ux = sign_extend(x);
    let uy = sign_extend(y);
    let a = ux.wrapping_mul(101);
    let b = uy.wrapping_mul(307);
    let h = a.wrapping_add(b);
    proof {
        let m = usize_modulus();
        lemma_mul_mod_noop_left(x as int, 101, m);
        lemma_mul_mod_noop_left(y as int, 307, m);
        lemma_add_mod_noop(101 * x as int, 307 * y as int, m);
        assert(a as int == (101 * x as int) % m);
        assert(b as int == (307 * y as int) % m);
    }
    h
}

/// The cell key of a hash among `num_particles` buckets.
pub open spec fn spec_key_from_hash(hash: usize, num_particles: nat) -> usize {
    (hash as nat % num_particles) as usize
}

/// Reduces a cell hash to a key in `0..num_particles`.
pub fn key_from_hash(hash: usize, num_particles: usize) -> (key: usize)
    requires
        num_particles > 0,
    ensures
        key == spec_key_from_hash(hash, num_particles as nat),
        key as int == (hash as int) % (num_particles as int),
        key < num_particles,
{
    hash % num_particles
}

/// The cell key is the whole hash, all of its bits, reduced modulo the
/// number of particles, and lies below that number.
pub proof fn lemma_key_is_full_hash_modulo(hash: usize, num_particles: nat)
    requires
        0 < num_particles <= usize::MAX,
    ensures
        spec_key_from_hash(hash, num_particles) as int == (hash as int) % (num_particles as int),
        0 <= spec_key_from_hash(hash, num_particles) < num_particles,
{
}

} // verus!
