//! Dispatch sizing for compute passes.

use vstd::prelude::*;

verus! {

/// Largest number of workgroups one dispatch dimension may carry.
pub const MAX_PER_DIM: u32 = 65535;

/// `ceil(n / d)` over the integers.
pub open spec fn ceil_div(n: int, d: int) -> int {
    (n + d - 1) / d
}

proof fn lemma_ceil_div(n: int, d: int)
    requires
        n >= 0,
        d > 0,
    ensures
        n % d == 0 ==> ceil_div(n, d) == n / d,
        n % d != 0 ==> ceil_div(n, d) == n / d + 1,
        n % d != 0 ==> n / d < n,
{
    let q = n / d;
    let r = n % d;
    assert(n == q * d + r && 0 <= r < d) by (nonlinear_arith)
        requires q == n / d, r == n % d, d > 0;
    if r == 0 {
        assert((n + d - 1) / d == q) by (nonlinear_arith)
            requires n == q * d, d > 0;
    } else {
        assert((n + d - 1) / d == q + 1) by (nonlinear_arith)
            requires n == q * d + r, 0 < r < d;
        assert(q < n) by (nonlinear_arith)
            requires n == q * d + r, 0 < r < d, q >= 0;
    }
}

fn div_ceil_u32(n: u32, d: u32) -> (r: u32)
    requires
        d > 0,
    ensures
        r == ceil_div(n as int, d as int),
{
    proof {
        lemma_ceil_div(n as int, d as int);
    }
    let q = n / d;
    if n % d == 0 {
        q
    } else {
        q + 1
    }
}

/// Workgroups needed to cover a 2d texture of `size`, `workgroup` pixels on a
/// side. A workgroup size of zero is treated as one.
pub fn workgroup_count_2d(size: (u32, u32), workgroup: u32) -> (r: (u32, u32, u32))
    ensures
        ({
            let w: int = if workgroup == 0 { 1 } else { workgroup as int };
            &&& r.0 == ceil_div(size.0 as int, w)
            &&& r.1 == ceil_div(size.1 as int, w)
            &&& r.2 == 1
        }),
{
    let workgroup = if workgroup == 0 { 1 } else { workgroup };
    (div_ceil_u32(size.0, workgroup), div_ceil_u32(size.1, workgroup), 1)
}

/// Dispatch counts for a 1d workload of `count` items, folded into 2d so no
/// dimension exceeds [`MAX_PER_DIM`].
pub fn workgroup_count_1d(count: u32, workgroup: u32) -> (r: (u32, u32, u32))
    ensures
        ({
            let w: int = if workgroup == 0 { 1 } else { workgroup as int };
            let total = ceil_div(count as int, w);
            let x = if total < 1 { 1 } else if total > MAX_PER_DIM { MAX_PER_DIM as int } else { total };
            &&& r.0 == x
            &&& r.1 == ceil_div(total, x)
            &&& r.2 == 1
        }),
        r.0 >= 1,
        r.0 <= MAX_PER_DIM,
        r.0 * r.1 * (if workgroup == 0 { 1 } else { workgroup as int }) >= count,
{
    let workgroup = if workgroup == 0 { 1 } else { workgroup };
    let total = div_ceil_u32(count, workgroup);
    let x = if total < 1 { 1 } else if total > MAX_PER_DIM { MAX_PER_DIM } else { total };
    let y = div_ceil_u32(total, x);
    let ghost (gx, gy, gt, gw, gc) = (x as int, y as int, total as int, workgroup as int, count as int);
    assert(gx * gy >= gt) by (nonlinear_arith)
        requires gy == (gt + gx - 1) / gx, gx >= 1;
    assert(gt * gw >= gc) by (nonlinear_arith)
        requires gt == (gc + gw - 1) / gw, gw >= 1;
    assert(gx * gy * gw >= gc) by (nonlinear_arith)
        requires gx * gy >= gt, gt * gw >= gc, gw >= 1;
    (x, y, 1)
}

} // verus!

verus! {

/// A double-buffered pair of simulation textures, whose roles swap every
/// frame: one holds last frame's state and is read, the other is written.
#[derive(Debug)]
pub struct SimTextures<H> {
    pub a: H,
    pub b: H,
    pub size: (u32, u32),
    /// Flips each frame. `false` means `a` is the read target.
    pub swapped: bool,
}

impl<H> SimTextures<H> {
    /// A fresh pair, `a` read first.
    pub fn new(a: H, b: H, size: (u32, u32)) -> (t: SimTextures<H>)
        ensures
            t.a == a,
            t.b == b,
            t.size == size,
            !t.swapped,
    {
        SimTextures { a, b, size, swapped: false }
    }

    /// The texture holding last frame's state.
    pub fn read(&self) -> (r: &H)
        ensures
            *r == if self.swapped {
                self.b
            } else {
                self.a
            },
    {
        if self.swapped {
            &self.b
        } else {
            &self.a
        }
    }

    /// The texture this frame's pass writes into.
    pub fn write(&self) -> (r: &H)
        ensures
            *r == if self.swapped {
                self.a
            } else {
                self.b
            },
    {
        if self.swapped {
            &self.a
        } else {
            &self.b
        }
    }

    /// Index of the read texture, for picking between two prepared bind
    /// groups.
    pub fn read_index(&self) -> (r: usize)
        ensures
            r == if self.swapped {
                1usize
            } else {
                0usize
            },
    {
        if self.swapped {
            1
        } else {
            0
        }
    }

    /// Swap the read and write textures, once per frame.
    pub fn swap(&mut self)
        ensures
            final(self).swapped == !old(self).swapped,
            final(self).a == old(self).a,
            final(self).b == old(self).b,
            final(self).size == old(self).size,
    {
        self.swapped = !self.swapped;
    }
}

/// Each frame reads what the previous frame wrote, and the two textures never
/// trade places with each other's roles within a frame.
pub proof fn lemma_swap_reads_last_write<H>(t: SimTextures<H>)
    ensures
        ({
            let next = SimTextures { swapped: !t.swapped, ..t };
            &&& (if next.swapped {
                next.b
            } else {
                next.a
            }) == (if t.swapped {
                t.a
            } else {
                t.b
            })
            &&& (if next.swapped {
                next.a
            } else {
                next.b
            }) == (if t.swapped {
                t.b
            } else {
                t.a
            })
        }),
{
}

} // verus!
