use vstd::prelude::*;

use vstd::arithmetic::div_mod::{lemma_add_mod_noop, lemma_mod_twice, lemma_small_mod};
use vstd::wrapping::i16_specs;

verus! {

/// The `i16` that wrapping arithmetic gives for the mathematical value `x`.
pub open spec fn crop16(x: int) -> int {
    let r = x % 65536;
    if r > 32767 {
        r - 65536
    } else {
        r
    }
}

proof fn lemma_mod_shift(x: int)
    ensures
        0 <= x < 65536 ==> x % 65536 == x,
        -65536 <= x < 0 ==> x % 65536 == x + 65536,
        65536 <= x < 131072 ==> x % 65536 == x - 65536,
{
    if 0 <= x < 65536 {
        lemma_small_mod(x as nat, 65536);
    }
    if -65536 <= x < 0 {
        lemma_small_mod((x + 65536) as nat, 65536);
        lemma_add_mod_noop(x, 65536, 65536);
        lemma_mod_twice(x + 65536, 65536);
    }
    if 65536 <= x < 131072 {
        lemma_small_mod((x - 65536) as nat, 65536);
        lemma_add_mod_noop(x - 65536, 65536, 65536);
        lemma_mod_twice(x - 65536, 65536);
    }
}

/// Wrapping addition and subtraction of `i16` agree with `crop16`.
pub proof fn lemma_wrapping(x: i16, y: i16)
    ensures
        i16_specs::wrapping_add(x, y) == crop16(x + y),
        i16_specs::wrapping_sub(x, y) == crop16(x - y),
{
    lemma_mod_shift(x + y);
    lemma_mod_shift(x - y);
}

/// A value in range is its own crop.
pub proof fn lemma_crop_id(x: int)
    requires
        i16::MIN <= x <= i16::MAX,
    ensures
        crop16(x) == x,
{
    lemma_mod_shift(x);
}

/// Cropping before adding changes nothing.
pub proof fn lemma_crop_add(u: int, v: int)
    ensures
        crop16(crop16(u) + v) == crop16(u + v),
        i16::MIN <= crop16(u) <= i16::MAX,
{
    let r = u % 65536;
    assert(0 <= r < 65536);
    let c = crop16(u);
    assert(c == r || c == r - 65536);
    lemma_add_mod_noop(u, v, 65536);
    lemma_add_mod_noop(c, v, 65536);
    lemma_mod_twice(u, 65536);
    if c == r - 65536 {
        lemma_add_mod_noop(r, -65536, 65536);
        lemma_mod_shift(-65536);
        lemma_mod_twice(r, 65536);
        assert(c % 65536 == r % 65536) by {
            lemma_add_mod_noop(r, -65536, 65536);
        }
    } else {
        lemma_mod_twice(u, 65536);
    }
    assert(c % 65536 == u % 65536);
    lemma_add_mod_noop(c, v, 65536);
    lemma_add_mod_noop(u, v, 65536);
}

} // verus!
