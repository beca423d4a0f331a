use vstd::prelude::*;
use vstd::arithmetic::power2::{lemma_pow2_pos, lemma_pow2_unfold, lemma_pow2_strictly_increases, pow2};
use vstd::bits::{lemma_u32_pow2_no_overflow, lemma_u32_shl_is_mul};

verus! {

/// One dispatch of the bitonic sorting network over the spatial lookup on
/// the GPU: the size of the groups compared, the span they reach, and the
/// step within its stage.
#[derive(Clone, Copy, Debug, PartialEq, Eq, Structural)]
pub struct SortPass {
    pub group_width: u32,
    pub group_height: u32,
    pub step_index: u32,
}

/// The number of stages of the bitonic network for `n` entries: the
/// exponent of the smallest power of two that is at least `n` (zero for
/// `n <= 1`).
pub open spec fn spec_stage_count(n: nat) -> nat
    decreases n,
{
    if n <= 1 {
        0
    } else {
        1 + spec_stage_count(((n + 1) / 2) as nat)
    }
}

/// The pass of stage `stage` at step `step`: groups of width
/// `2^(stage - step)` reaching `2 * width - 1` entries.
pub open spec fn spec_pass(stage: nat, step: nat) -> SortPass {
    SortPass {
        group_width: pow2((stage - step) as nat) as u32,
        group_height: (2 * pow2((stage - step) as nat) - 1) as u32,
        step_index: step as u32,
    }
}

/// All passes of a network with `stages` stages: stage after stage, and in
/// stage `s` the steps `0..=s`.
pub open spec fn spec_passes(stages: nat) -> Seq<SortPass>
    decreases stages,
{
    if stages == 0 {
        Seq::empty()
    } else {
        spec_passes((stages - 1) as nat) + Seq::new(
            stages,
            |step: int| spec_pass((stages - 1) as nat, step as nat),
        )
    }
}

/// `2^spec_stage_count(n)` is the smallest power of two not below `n`.
proof fn lemma_stage_count(n: nat)
    ensures
        pow2(spec_stage_count(n)) >= n,
        spec_stage_count(n) == 0 || pow2((spec_stage_count(n) - 1) as nat) < n,
    decreases n,
{
    if n <= 1 {
        vstd::arithmetic::power2::lemma2_to64();
    } else {
        let m = ((n + 1) / 2) as nat;
        lemma_stage_count(m);
        lemma_pow2_unfold(spec_stage_count(n));
        if spec_stage_count(m) > 0 {
            lemma_pow2_unfold(spec_stage_count(m));
        } else {
            vstd::arithmetic::power2::lemma2_to64();
        }
    }
}

/// The number of bitonic stages for `n` entries, as
/// `n.next_power_of_two().ilog2()` gives it.
pub fn sort_stage_count(n: u32) -> (s: u32)
    requires
        n <= 0x8000_0000,
    ensures
        s == spec_stage_count(n as nat),
        pow2(s as nat) >= n,
        s == 0 || pow2((s - 1) as nat) < n,
        s <= 31,
{
    let mut p: u32 = 1;
    let mut s: u32 = 0;
    proof {
        vstd::arithmetic::power2::lemma2_to64();
        lemma_stage_count(n as nat);
        if spec_stage_count(n as nat) > 31 {
            lemma_pow2_strictly_increases(31, (spec_stage_count(n as nat) - 1) as nat);
        }
    }
    while p < n
        invariant
            n <= 0x8000_0000,
            p as nat == pow2(s as nat),
            s <= spec_stage_count(n as nat),
            s == 0 || pow2((s - 1) as nat) < n,
            pow2(spec_stage_count(n as nat)) >= n,
            spec_stage_count(n as nat) <= 31,
            spec_stage_count(n as nat) == 0 || pow2((spec_stage_count(n as nat) - 1) as nat) < n,
        decreases spec_stage_count(n as nat) - s,
    {
        proof {
            lemma_pow2_unfold(s as nat + 1);
            if s == spec_stage_count(n as nat) {
                assert(false);
            }
            if s + 1 < spec_stage_count(n as nat) {
                lemma_pow2_strictly_increases(s as nat, (spec_stage_count(n as nat) - 1) as nat);
            }
        }
        p = p * 2;
        s = s + 1;
    }
    proof {
        if s < spec_stage_count(n as nat) {
            if s + 1 < spec_stage_count(n as nat) {
                lemma_pow2_strictly_increases(s as nat, (spec_stage_count(n as nat) - 1) as nat);
            }
            assert(false);
        }
        if s > 31 {
            lemma_pow2_strictly_increases(31, (s - 1) as nat);
            vstd::arithmetic::power2::lemma2_to64();
        }
    }
    s
}

/// The workgroups dispatched per sorting pass for `n` entries: one per 256
/// entries of the padded length `2^stages`, at least one.
pub fn sort_workgroups(n: u32) -> (w: u32)
    requires
        n <= 0x8000_0000,
    ensures
        w == (pow2(spec_stage_count(n as nat)) + 255) / 256,
{
    let s = sort_stage_count(n);
    proof {
        lemma_u32_pow2_no_overflow(s as nat);
        lemma_u32_shl_is_mul(1, s);
    }
    let padded: u32 = 1u32 << s;
    ((padded as u64 + 255) / 256) as u32
}

/// The passes of the bitonic network with `num_stages` stages, in dispatch
/// order.
pub fn bitonic_passes(num_stages: u32) -> (r: Vec<SortPass>)
    requires
        num_stages <= 31,
    ensures
        r@ == spec_passes(num_stages as nat),
{
    let mut out: Vec<SortPass> = Vec::new();
    let mut stage: u32 = 0;
    while stage < num_stages
        invariant
            stage <= num_stages <= 31,
            out@ == spec_passes(stage as nat),
        decreases num_stages - stage,
    {
        let ghost before = out@;
        let mut step: u32 = 0;
        while step < stage + 1
            invariant
                stage < num_stages <= 31,
                step <= stage + 1,
                out@ == before + Seq::new(step as nat, |j: int| spec_pass(stage as nat, j as nat)),
            decreases stage + 1 - step,
        {
            let shift = stage - step;
            proof {
                lemma_u32_pow2_no_overflow(shift as nat);
                lemma_u32_shl_is_mul(1, shift);
                if shift < 30 {
                    lemma_pow2_strictly_increases(shift as nat, 30);
                }
                vstd::arithmetic::power2::lemma2_to64();
            }
            let group_width: u32 = 1u32 << shift;
            let group_height: u32 = 2 * group_width - 1;
            out.push(SortPass { group_width, group_height, step_index: step });
            proof {
                assert(out@ =~= before + Seq::new(
                    (step + 1) as nat,
                    |j: int| spec_pass(stage as nat, j as nat),
                ));
            }
            step = step + 1;
        }
        proof {
            assert(spec_passes((stage + 1) as nat) == spec_passes(stage as nat) + Seq::new(
                (stage + 1) as nat,
                |j: int| spec_pass(stage as nat, j as nat),
            ));
        }
        stage = stage + 1;
    }
    out
}

/// A network of `stages` stages has `stages * (stages + 1) / 2` passes;
/// in each, the group width is a power of two `2^e` with `e < stages`, the
/// group height is one less than twice the width, and the step index is a
/// step of a stage (below `stages`).
pub proof fn lemma_passes_shape(stages: nat)
    requires
        stages <= 31,
    ensures
        spec_passes(stages).len() == stages * (stages + 1) / 2,
        forall|i: int|
            0 <= i < spec_passes(stages).len() ==> {
                let p = #[trigger] spec_passes(stages)[i];
                &&& exists|e: nat| e < stages && p.group_width == pow2(e)
                &&& p.group_height == 2 * p.group_width - 1
                &&& p.step_index < stages
            },
    decreases stages,
{
    if stages > 0 {
        let prev = (stages - 1) as nat;
        lemma_passes_shape(prev);
        let a = spec_passes(prev);
        let b = Seq::new(stages, |step: int| spec_pass(prev, step as nat));
        assert(spec_passes(stages) == a + b);
        assert(stages * (stages + 1) / 2 == prev * (prev + 1) / 2 + stages) by (nonlinear_arith)
            requires
                prev + 1 == stages,
        ;
        assert forall|i: int| 0 <= i < spec_passes(stages).len() implies {
            let p = #[trigger] spec_passes(stages)[i];
            &&& exists|e: nat| e < stages && p.group_width == pow2(e)
            &&& p.group_height == 2 * p.group_width - 1
            &&& p.step_index < stages
        } by {
            let p = spec_passes(stages)[i];
            if i < a.len() {
                assert(p == a[i]);
                let e = choose|e: nat| e < prev && a[i].group_width == pow2(e);
                assert(e < stages && p.group_width == pow2(e));
            } else {
                let step = i - a.len();
                assert(p == spec_pass(prev, step as nat));
                let e = (prev - step) as nat;
                lemma_u32_pow2_no_overflow(e);
                if e < 30 {
                    lemma_pow2_strictly_increases(e, 30);
                }
                vstd::arithmetic::power2::lemma2_to64();
                assert(e < stages && p.group_width == pow2(e));
            }
        }
    }
}

/// The passes are exactly the (stage, step) pairs in order: the pass of
/// stage `s` at step `t` (for `t <= s < stages`) stands at position
/// `s * (s + 1) / 2 + t`, its step index is `t`, its group width
/// `2^(s - t)` and its group height one less than twice that width.
pub proof fn lemma_pass_at_stage_step(stages: nat, s: nat, t: nat)
    requires
        stages <= 31,
        s < stages,
        t <= s,
    ensures
        s * (s + 1) / 2 + t < spec_passes(stages).len(),
        spec_passes(stages)[(s * (s + 1) / 2 + t) as int].step_index == t,
        spec_passes(stages)[(s * (s + 1) / 2 + t) as int].group_width == pow2((s - t) as nat),
        spec_passes(stages)[(s * (s + 1) / 2 + t) as int].group_height == 2 * pow2((s - t) as nat) - 1,
    decreases stages,
{
    let prev = (stages - 1) as nat;
    lemma_passes_shape(prev);
    lemma_passes_shape(stages);
    let a = spec_passes(prev);
    let b = Seq::new(stages, |step: int| spec_pass(prev, step as nat));
    assert(spec_passes(stages) == a + b);
    let idx: int = (s * (s + 1) / 2 + t) as int;
    lemma_u32_pow2_no_overflow((s - t) as nat);
    if (s - t) < 30 {
        lemma_pow2_strictly_increases((s - t) as nat, 30);
    }
    vstd::arithmetic::power2::lemma2_to64();
    if s < prev {
        assert(idx < prev * (prev + 1) / 2) by (nonlinear_arith)
            requires
                idx == (s * (s + 1) / 2 + t) as int,
                t <= s,
                s + 1 <= prev,
        {
            assert(s * (s + 1) / 2 + s + 1 == (s + 1) * (s + 2) / 2);
            assert((s + 1) * (s + 2) <= prev * (prev + 1));
        }
        lemma_pass_at_stage_step(prev, s, t);
        assert(spec_passes(stages)[idx] == a[idx]);
    } else {
        assert(s == prev);
        assert(idx - a.len() == t);
        assert(spec_passes(stages)[idx] == b[t as int]);
    }
}

/// The sorting passes dispatched for `n` entries.
pub fn sort_schedule(n: u32) -> (r: Vec<SortPass>)
    requires
        n <= 0x8000_0000,
    ensures
        r@ == spec_passes(spec_stage_count(n as nat)),
{
    let s = sort_stage_count(n);
    bitonic_passes(s)
}

} // verus!
