use vstd::prelude::*;

verus! {

/// Ones'-complement addition of two 16-bit words: adds, then folds the
/// end-around carry back into the low 16 bits.
pub open spec fn oc_add(a: int, b: int) -> int {
    if a + b >= 0x10000 {
        a + b - 0xFFFF
    } else {
        a + b
    }
}

/// Folds a byte span into a running ones'-complement accumulator as
/// big-endian 16-bit words. An odd trailing byte counts as the high byte of
/// a zero-padded word; every protocol using the engine gets this same rule.
pub open spec fn add_span(acc: int, s: Seq<u8>) -> int
    decreases s.len(),
{
    if s.len() == 0 {
        acc
    } else if s.len() == 1 {
        oc_add(acc, s[0] * 0x100)
    } else {
        add_span(oc_add(acc, s[0] * 0x100 + s[1]), s.skip(2))
    }
}

/// The accumulator never leaves the 16-bit word range.
pub proof fn lemma_add_span_range(acc: int, s: Seq<u8>)
    requires
        0 <= acc <= 0xFFFF,
    ensures
        0 <= add_span(acc, s) <= 0xFFFF,
    decreases s.len(),
{
    if s.len() >= 2 {
        lemma_add_span_range(oc_add(acc, s[0] * 0x100 + s[1]), s.skip(2));
    }
}

/// The plain (unreduced) sum of the big-endian 16-bit words of a span, with
/// the same zero-padding rule for an odd trailing byte.
pub open spec fn word_sum(s: Seq<u8>) -> int
    decreases s.len(),
{
    if s.len() == 0 {
        0
    } else if s.len() == 1 {
        s[0] * 0x100
    } else {
        s[0] * 0x100 + s[1] + word_sum(s.skip(2))
    }
}

/// Ones'-complement accumulation is reduction modulo 0xFFFF: folding the
/// end-around carry subtracts exactly 0xFFFF each time it happens.
pub proof fn lemma_add_span_congruent(acc: int, s: Seq<u8>)
    requires
        0 <= acc <= 0xFFFF,
    ensures
        (add_span(acc, s) - (acc + word_sum(s))) % 0xFFFF == 0,
    decreases s.len(),
{
    if s.len() == 0 {
    } else if s.len() == 1 {
        let d = add_span(acc, s) - (acc + word_sum(s));
        assert(d == 0 || d == -0xFFFF);
        if d == -0xFFFF {
            vstd::arithmetic::div_mod::lemma_mod_multiples_vanish(-1, 0, 0xFFFF);
        }
    } else {
        let w = s[0] * 0x100 + s[1];
        let acc2 = oc_add(acc, w);
        lemma_add_span_congruent(acc2, s.skip(2));
        let x = add_span(acc2, s.skip(2)) - (acc2 + word_sum(s.skip(2)));
        let y = acc2 - (acc + w);
        assert(y == 0 || y == -0xFFFF);
        if y == -0xFFFF {
            vstd::arithmetic::div_mod::lemma_mod_multiples_vanish(-1, 0, 0xFFFF);
        }
        assert(y % 0xFFFF == 0);
        vstd::arithmetic::div_mod::lemma_add_mod_noop(x, y, 0xFFFF);
        assert((x + y) % 0xFFFF == 0) by {
            vstd::arithmetic::div_mod::lemma_small_mod(0, 0xFFFF);
        }
        assert(add_span(acc, s) - (acc + word_sum(s)) == x + y);
    }
}

/// Replacing one byte of a span shifts its plain word sum by the byte's
/// weight — 0x100 at even offsets, 1 at odd — times the change.
pub proof fn lemma_word_sum_update(s: Seq<u8>, j: int, v: u8)
    requires
        0 <= j < s.len(),
    ensures
        word_sum(s.update(j, v)) - word_sum(s) == (if j % 2 == 0 {
            0x100int
        } else {
            1int
        }) * (v - s[j]),
    decreases s.len(),
{
    let t = s.update(j, v);
    if s.len() == 1 {
        assert(t[0] == v);
    } else if j == 0 {
        assert(t.skip(2) =~= s.skip(2));
        assert(t[0] == v && t[1] == s[1]);
    } else if j == 1 {
        assert(t.skip(2) =~= s.skip(2));
        assert(t[0] == s[0] && t[1] == v);
    } else {
        assert(t.skip(2) =~= s.skip(2).update(j - 2, v));
        assert(t[0] == s[0] && t[1] == s[1]);
        lemma_word_sum_update(s.skip(2), j - 2, v);
        assert((j - 2) % 2 == j % 2) by {
            vstd::arithmetic::div_mod::lemma_mod_multiples_vanish(-1, j, 2);
        }
        assert(s.skip(2)[j - 2] == s[j]);
    }
}

/// Two 16-bit words congruent modulo 0xFFFF up to a shift that is nonzero
/// and below the modulus in magnitude cannot be equal.
pub proof fn lemma_incongruent_distinct(a: int, b: int, d: int)
    requires
        0 <= a <= 0xFFFF,
        0 <= b <= 0xFFFF,
        (b - (a + d)) % 0xFFFF == 0,
        d != 0,
        -0xFFFF < d < 0xFFFF,
    ensures
        a != b,
{
    if a == b {
        let x = -d;
        assert(x % 0xFFFF == 0);
        if x > 0 {
            vstd::arithmetic::div_mod::lemma_small_mod(x as nat, 0xFFFF);
        } else {
            vstd::arithmetic::div_mod::lemma_mod_multiples_vanish(1, x, 0xFFFF);
            vstd::arithmetic::div_mod::lemma_small_mod((x + 0xFFFF) as nat, 0xFFFF);
        }
    }
}

/// Congruences to zero add.
pub proof fn lemma_zero_mod_add(x: int, y: int)
    requires
        x % 0xFFFF == 0,
        y % 0xFFFF == 0,
    ensures
        (x + y) % 0xFFFF == 0,
{
    vstd::arithmetic::div_mod::lemma_add_mod_noop(x, y, 0xFFFF);
    vstd::arithmetic::div_mod::lemma_small_mod(0, 0xFFFF);
}

/// The difference of two values, each congruent to its own word sum, is
/// congruent to the difference of the word sums.
pub proof fn lemma_congruence_difference(a1: int, s1: int, a2: int, s2: int, d: int)
    requires
        (a1 - s1) % 0xFFFF == 0,
        (a2 - s2) % 0xFFFF == 0,
        s2 == s1 + d,
    ensures
        (a2 - (a1 + d)) % 0xFFFF == 0,
{
    let x = a2 - s2;
    let y = a1 - s1;
    vstd::arithmetic::div_mod::lemma_sub_mod_noop(x, y, 0xFFFF);
    assert((x - y) % 0xFFFF == 0) by {
        vstd::arithmetic::div_mod::lemma_small_mod(0, 0xFFFF);
    }
    assert(a2 - (a1 + d) == x - y);
}

/// Incremental ones'-complement 16-bit Internet checksum engine. Spans may be
/// fed in any number of `write` calls; `finish` folds nothing further and
/// returns the complement of the accumulated sum.
pub struct Hasher {
    state: u16,
}

impl Hasher {
    /// The mathematical accumulator held so far.
    pub closed spec fn acc(&self) -> int {
        self.state as int
    }

    pub fn new() -> (h: Hasher)
        ensures
            h.acc() == 0,
    {
        Hasher { state: 0 }
    }

    /// Feeds one byte span into the accumulator. Odd-length spans are
    /// zero-padded on the right, independently per span.
    pub fn write(&mut self, s: &[u8])
        ensures
            final(self).acc() == add_span(old(self).acc(), s@),
    {
        let ghost orig: int = self.acc();
        let n: usize = s.len();
        let mut i: usize = 0;
        proof {
            assert(s@.skip(0) =~= s@);
        }
        while n - i >= 2
            invariant
                i <= n,
                n == s@.len(),
                add_span(orig, s@) == add_span(self.acc(), s@.skip(i as int)),
            decreases n - i,
        {
            let w: u32 = (s[i] as u32) * 0x100 + (s[i + 1] as u32);
            proof {
                assert(s@.skip(i as int).skip(2) =~= s@.skip(i as int + 2));
                assert(s@.skip(i as int)[0] == s@[i as int]);
                assert(s@.skip(i as int)[1] == s@[i as int + 1]);
            }
            self.state = Self::fold_add(self.state, w as u16);
            i = i + 2;
        }
        if i < n {
            let w: u32 = (s[i] as u32) * 0x100;
            proof {
                assert(s@.skip(i as int)[0] == s@[i as int]);
            }
            self.state = Self::fold_add(self.state, w as u16);
            proof {
                assert(s@.skip(i as int).len() == 1);
            }
        } else {
            proof {
                assert(s@.skip(i as int).len() == 0);
            }
        }
    }

    /// Idempotent finalization: the ones'-complement of the accumulator.
    pub fn finish(&self) -> (r: u16)
        ensures
            r == 0xFFFF - self.acc(),
    {
        0xFFFF - self.state
    }

    /// One ones'-complement addition step on the concrete 16-bit state.
    fn fold_add(a: u16, w: u16) -> (r: u16)
        ensures
            r == oc_add(a as int, w as int),
    {
        let sum: u32 = a as u32 + w as u32;
        if sum >= 0x10000 {
            (sum - 0xFFFF) as u16
        } else {
            sum as u16
        }
    }
}

} // verus!
