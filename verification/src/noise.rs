//! Pseudorandom generators of noise synthesis (K.4): SplitMix64
//! (Listing K.3) and the 8-lane XorShift128Plus generator (Listing K.2),
//! and the noise-strength codes of the frame's noise parameters.
use vstd::prelude::*;
use crate::bitreader::{BitReader, bits_le, total_bits};
use crate::error::JxlError;

verus! {

/// SplitMix64 (Listing K.3): two xor-shift-multiply rounds and a final
/// xor-shift, multiplications wrapping modulo 2^64.
pub open spec fn spec_split_mix_64(z: u64) -> u64 {
    let a = (z ^ (z >> 30u64)).wrapping_mul(0xBF58_476D_1CE4_E5B9u64);
    let b = (a ^ (a >> 27u64)).wrapping_mul(0x94D0_49BB_1331_11EBu64);
    b ^ (b >> 31u64)
}

/// Multiplying by `c` modulo `2^64` is undone by multiplying by its
/// inverse `ci`.
proof fn lemma_mul_undo(a: u64, c: u64, ci: u64)
    requires
        (c as nat * ci as nat) % 0x1_0000_0000_0000_0000nat == 1,
    ensures
        ((a.wrapping_mul(c) as nat * ci as nat) % 0x1_0000_0000_0000_0000nat) == a as nat,
{
    let m: int = 0x1_0000_0000_0000_0000;
    let ac: int = a as int * c as int;
    assert(a.wrapping_mul(c) as int == ac % m);
    vstd::arithmetic::div_mod::lemma_mul_mod_noop_left(ac, ci as int, m);
    assert((a as int * c as int) * ci as int == a as int * (c as int * ci as int)) by (nonlinear_arith);
    vstd::arithmetic::div_mod::lemma_mul_mod_noop_right(a as int, c as int * ci as int, m);
    vstd::arithmetic::div_mod::lemma_small_mod(a as nat, m as nat);
}

/// Multiplying by an invertible `c` modulo `2^64` is injective.
proof fn lemma_mul_inj(a: u64, b: u64, c: u64, ci: u64)
    requires
        (c as nat * ci as nat) % 0x1_0000_0000_0000_0000nat == 1,
        a.wrapping_mul(c) == b.wrapping_mul(c),
    ensures
        a == b,
{
    lemma_mul_undo(a, c, ci);
    lemma_mul_undo(b, c, ci);
}

/// SplitMix64 is a bijection of `u64` that fixes 0: distinct seeds give
/// distinct outputs, since each xor-shift and each multiplication by an
/// odd constant can be undone.
pub proof fn law_split_mix_64_injective(a: u64, b: u64)
    ensures
        spec_split_mix_64(0) == 0,
        a != b ==> spec_split_mix_64(a) != spec_split_mix_64(b),
{
    let c1: u64 = 0xBF58_476D_1CE4_E5B9;
    let c2: u64 = 0x94D0_49BB_1331_11EB;
    let i1: u64 = 0x96de_1b17_3f11_9089;
    let i2: u64 = 0x3196_42b2_d24d_8ec3;
    assert((c1 as nat * i1 as nat) % 0x1_0000_0000_0000_0000nat == 1);
    assert((c2 as nat * i2 as nat) % 0x1_0000_0000_0000_0000nat == 1);
    assert(0u64.wrapping_mul(c1) == 0);
    assert(0u64.wrapping_mul(c2) == 0);
    assert((0u64 ^ (0u64 >> 30u64)) == 0u64) by (bit_vector);
    assert((0u64 ^ (0u64 >> 27u64)) == 0u64) by (bit_vector);
    assert((0u64 ^ (0u64 >> 31u64)) == 0u64) by (bit_vector);
    if a != b && spec_split_mix_64(a) == spec_split_mix_64(b) {
        let xa = a ^ (a >> 30u64);
        let xb = b ^ (b >> 30u64);
        let ma = xa.wrapping_mul(c1);
        let mb = xb.wrapping_mul(c1);
        let ya = ma ^ (ma >> 27u64);
        let yb = mb ^ (mb >> 27u64);
        let na = ya.wrapping_mul(c2);
        let nb = yb.wrapping_mul(c2);
        assert(na ^ (na >> 31u64) == nb ^ (nb >> 31u64));
        assert(na == nb) by (bit_vector)
            requires na ^ (na >> 31u64) == nb ^ (nb >> 31u64);
        lemma_mul_inj(ya, yb, c2, i2);
        assert(ma == mb) by (bit_vector)
            requires ma ^ (ma >> 27u64) == mb ^ (mb >> 27u64);
        lemma_mul_inj(xa, xb, c1, i1);
        assert(a == b) by (bit_vector)
            requires a ^ (a >> 30u64) == b ^ (b >> 30u64);
    }
}

/// SplitMix64 (Listing K.3).
pub fn split_mix_64(z: u64) -> (r: u64)
    ensures
        r == spec_split_mix_64(z),
{
    let a = (z ^ (z >> 30u64)).wrapping_mul(0xBF58_476D_1CE4_E5B9u64);
    let b = (a ^ (a >> 27u64)).wrapping_mul(0x94D0_49BB_1331_11EBu64);
    b ^ (b >> 31u64)
}

/// One XorShift128Plus step of a lane with state `(a, b)`: the new state.
pub open spec fn lane_step(a: u64, b: u64) -> (u64, u64) {
    let t = a ^ (a << 23u64);
    (b, t ^ b ^ (t >> 18u64) ^ (b >> 5u64))
}

/// Eight XorShift128Plus lanes (Listing K.2).
pub struct XorShift128Plus {
    s0: [u64; 8],
    s1: [u64; 8],
}

/// First state word of each lane after seeding with `seed`
/// (Listing K.3): lane 0 from `seed + 0x9E3779B97F4A7C15`, each
/// following lane from the previous lane's second word.
pub open spec fn seeded_s0(seed: u64, i: nat) -> u64
    decreases i, 1nat,
{
    if i == 0 {
        spec_split_mix_64(seed.wrapping_add(0x9E37_79B9_7F4A_7C15u64))
    } else {
        spec_split_mix_64(seeded_s1(seed, (i - 1) as nat))
    }
}

/// Second state word of lane `i` after seeding: SplitMix64 of the first.
pub open spec fn seeded_s1(seed: u64, i: nat) -> u64
    decreases i, 2nat,
{
    spec_split_mix_64(seeded_s0(seed, i))
}

/// A batch from lanes `before`: output `i` is `s0 + s1` of lane `i`
/// (wrapping), and every lane steps to `after`.
pub open spec fn batch_step(before: (Seq<u64>, Seq<u64>), after: (Seq<u64>, Seq<u64>), out: Seq<u64>) -> bool {
    forall|i: int| 0 <= i < 8 ==> #[trigger] out[i] == before.1[i].wrapping_add(before.0[i])
        && (after.0[i], after.1[i]) == lane_step(before.0[i], before.1[i])
}

impl XorShift128Plus {
    /// State words `(s0, s1)` of the eight lanes.
    pub closed spec fn lanes(&self) -> (Seq<u64>, Seq<u64>) {
        (self.s0@, self.s1@)
    }

    /// Seed the eight lanes from `seed` (Listing K.3); for noise, `seed`
    /// is `(y0 << 32) + x0` of the group's top-left pixel.
    pub fn new(seed: u64) -> (r: Self)
        ensures
            r.lanes().0.len() == 8,
            r.lanes().1.len() == 8,
            forall|i: int| 0 <= i < 8 ==> r.lanes().0[i] == seeded_s0(seed, i as nat)
                && r.lanes().1[i] == seeded_s1(seed, i as nat),
    {
        let mut s0: [u64; 8] = [0u64; 8];
        let mut s1: [u64; 8] = [0u64; 8];
        s0[0] = split_mix_64(seed.wrapping_add(0x9E37_79B9_7F4A_7C15u64));
        s1[0] = split_mix_64(s0[0]);
        let mut i: usize = 1;
        while i < 8
            invariant
                1 <= i <= 8,
                s0@.len() == 8,
                s1@.len() == 8,
                forall|k: int| 0 <= k < i ==> s0@[k] == seeded_s0(seed, k as nat) && s1@[k] == seeded_s1(seed, k as nat),
            decreases 8 - i,
        {
            s0[i] = split_mix_64(s1[i - 1]);
            s1[i] = split_mix_64(s0[i]);
            i = i + 1;
        }
        XorShift128Plus { s0, s1 }
    }

    /// One batch of eight outputs (Listing K.2): lane `i` gives
    /// `s0 + s1` (wrapping) and steps its state.
    pub fn batch(&mut self) -> (out: [u64; 8])
        requires
            old(self).lanes().0.len() == 8,
            old(self).lanes().1.len() == 8,
        ensures
            final(self).lanes().0.len() == 8,
            final(self).lanes().1.len() == 8,
            batch_step(old(self).lanes(), final(self).lanes(), out@),
    {
        let ghost s0_old = self.s0@;
        let ghost s1_old = self.s1@;
        let mut out: [u64; 8] = [0u64; 8];
        let mut i: usize = 0;
        while i < 8
            invariant
                i <= 8,
                self.s0@.len() == 8,
                self.s1@.len() == 8,
                s0_old.len() == 8,
                s1_old.len() == 8,
                out@.len() == 8,
                forall|k: int| 0 <= k < i ==> #[trigger] out@[k] == s1_old[k].wrapping_add(s0_old[k])
                    && (self.s0@[k], self.s1@[k]) == lane_step(s0_old[k], s1_old[k]),
                forall|k: int| i <= k < 8 ==> self.s0@[k] == s0_old[k] && self.s1@[k] == s1_old[k],
            decreases 8 - i,
        {
            let a = self.s0[i];
            let b = self.s1[i];
            let ghost out0 = out@;
            let ghost a0 = self.s0@;
            let ghost b0 = self.s1@;
            out[i] = b.wrapping_add(a);
            let t = a ^ (a << 23u64);
            let nb = t ^ b ^ (t >> 18u64) ^ (b >> 5u64);
            self.s0[i] = b;
            self.s1[i] = nb;
            proof {
                assert(lane_step(a, b) == (b, nb));
                assert forall|k: int| 0 <= k < i + 1 implies #[trigger] out@[k] == s1_old[k].wrapping_add(s0_old[k])
                    && (self.s0@[k], self.s1@[k]) == lane_step(s0_old[k], s1_old[k]) by {
                    if k < i {
                        assert(out@[k] == out0[k]);
                        assert(self.s0@[k] == a0[k] && self.s1@[k] == b0[k]);
                    } else {
                        assert(a == s0_old[k] && b == s1_old[k]);
                    }
                }
            }
            i = i + 1;
        }
        proof {
            assert(s0_old == old(self).lanes().0 && s1_old == old(self).lanes().1);
            assert forall|k: int| 0 <= k < 8 implies #[trigger] out@[k] == old(self).lanes().1[k].wrapping_add(old(self).lanes().0[k])
                && (self.lanes().0[k], self.lanes().1[k]) == lane_step(old(self).lanes().0[k], old(self).lanes().1[k]) by {
                assert(out@[k] == s1_old[k].wrapping_add(s0_old[k]));
            }
            assert(batch_step(old(self).lanes(), self.lanes(), out@));
        }
        out
    }
}

/// The eight `u(10)` noise-strength codes at `pos` (C.4.7); strength `i`
/// is code `i` / 1024. `None` when fewer than 80 bits remain.
pub open spec fn spec_noise_codes(s: Seq<u8>, pos: int) -> Option<(Seq<u32>, int)> {
    if pos + 80 > total_bits(s) {
        None
    } else {
        Some((Seq::new(8, |i: int| bits_le(s, pos + 10 * i, 10) as u32), pos + 80))
    }
}

/// Read the eight noise-strength codes (see [`spec_noise_codes`]).
pub fn read_noise_codes(br: &mut BitReader<'_>) -> (r: Result<[u32; 8], JxlError>)
    requires
        old(br).wf(),
    ensures
        final(br).wf(),
        final(br).bytes() == old(br).bytes(),
        match spec_noise_codes(old(br).bytes(), old(br).pos()) {
            Some((v, p)) => r matches Ok(c) && c@ == v && final(br).pos() == p,
            None => r matches Err(e) && e is Eof,
        },
{
    let ghost s = br.bytes();
    let ghost p0 = br.pos();
    let mut codes: Vec<u32> = Vec::new();
    let mut i: u32 = 0;
    while i < 8
        invariant
            i <= 8,
            s == old(br).bytes(),
            p0 == old(br).pos(),
            br.bytes() == s,
            br.pos() == p0 + 10 * i,
            codes@.len() == i,
            forall|k: int| 0 <= k < i ==> #[trigger] codes@[k] == bits_le(s, p0 + 10 * k, 10) as u32,
        decreases 8 - i,
    {
        proof { use_type_invariant(&*br); }
        let c = br.read_bits(10)?;
        codes.push(c);
        i = i + 1;
    }
    let r = [codes[0], codes[1], codes[2], codes[3], codes[4], codes[5], codes[6], codes[7]];
    proof {
        use_type_invariant(&*br);
        br.lemma_pos_bound();
        vstd::arithmetic::power2::lemma2_to64();
        let v = Seq::new(8, |k: int| bits_le(s, p0 + 10 * k, 10) as u32);
        assert(r@ =~= v);
    }
    Ok(r)
}

} // verus!
