use crate::fixed_point::{
    add_bits, mul_bits, sub_bits, FixedPoint, HALF_BITS, ONE_AND_HALF_BITS, ONE_BITS, QUARTER_BITS,
};
use crate::grid::{at, get_cell, is_grid, set_cell};
use crate::random::{cycle, draw_bits, Random};
use vstd::prelude::*;

verus! {

/// A side the noise generator takes: any positive side whose grid can be
/// indexed.
pub open spec fn noise_size(n: int) -> bool {
    1 <= n && n * n <= usize::MAX
}

/// A noise grid together with the state of the generator that fills it.
pub type NoiseState = (Seq<FixedPoint>, (u32, u32));

/// Bits of the displacement `(next() - 1/2) * scale` drawn from state `s`.
pub open spec fn disp(s: (u32, u32), scale: i32) -> i32 {
    mul_bits(sub_bits(draw_bits(s, ONE_BITS), HALF_BITS), scale)
}

/// Bits of `(a + b) * 1/2` plus a displacement drawn from `st`.
pub open spec fn mean2(st: NoiseState, a: i32, b: i32, scale: i32) -> i32 {
    add_bits(mul_bits(add_bits(a, b), HALF_BITS), disp(st.1, scale))
}

/// Bits of `sum * 1/4` plus a displacement drawn from `st`.
pub open spec fn mean4(st: NoiseState, sum: i32, scale: i32) -> i32 {
    add_bits(mul_bits(sum, QUARTER_BITS), disp(st.1, scale))
}

pub open spec fn cell(st: NoiseState, n: int, x: int, y: int) -> i32 {
    at(st.0, n, x, y).bits
}

/// Writes `v` at `(x, y)`; the draw that made `v` advances the generator.
pub open spec fn put(st: NoiseState, n: int, x: int, y: int, v: i32) -> NoiseState {
    (st.0.update(x * n + y, FixedPoint { bits: v }), cycle(st.1))
}

/// Edge midpoints of the cells in column `x` from row `y` on.
pub open spec fn edges_col(st: NoiseState, n: int, step: int, scale: i32, x: int, y: int) -> NoiseState
    decreases n - y,
{
    if step <= 0 || y >= n - step {
        st
    } else {
        let hs = step / 2;
        let st1 = put(st, n, x + hs, y, mean2(st, cell(st, n, x, y), cell(st, n, x + step, y), scale));
        let st2 = put(
            st1,
            n,
            x,
            y + hs,
            mean2(st1, cell(st1, n, x, y), cell(st1, n, x, y + step), scale),
        );
        edges_col(st2, n, step, scale, x, y + step)
    }
}

/// Edge midpoints of the last row's cell in column `x`, with 1/2 past the grid.
pub open spec fn edges_last_row(st: NoiseState, n: int, step: int, scale: i32, x: int) -> NoiseState {
    let hs = step / 2;
    let last = n - step;
    let st1 = put(
        st,
        n,
        x + hs,
        last,
        mean2(st, cell(st, n, x, last), cell(st, n, x + step, last), scale),
    );
    put(st1, n, x, n - hs, mean2(st1, cell(st1, n, x, last), HALF_BITS, scale))
}

/// Edge midpoints of every column from `x` on.
pub open spec fn edges(st: NoiseState, n: int, step: int, scale: i32, x: int) -> NoiseState
    decreases n - x,
{
    if step <= 0 || x >= n - step {
        st
    } else {
        edges(
            edges_last_row(edges_col(st, n, step, scale, x, 0), n, step, scale, x),
            n,
            step,
            scale,
            x + step,
        )
    }
}

/// Edge midpoints of the last column from row `y` on.
pub open spec fn edges_last_col(st: NoiseState, n: int, step: int, scale: i32, y: int) -> NoiseState
    decreases n - y,
{
    if step <= 0 || y >= n - step {
        st
    } else {
        let hs = step / 2;
        let last = n - step;
        let st1 = put(st, n, n - hs, y, mean2(st, cell(st, n, last, y), HALF_BITS, scale));
        let st2 = put(
            st1,
            n,
            last,
            y + hs,
            mean2(st1, cell(st1, n, last, y), cell(st1, n, last, y + step), scale),
        );
        edges_last_col(st2, n, step, scale, y + step)
    }
}

/// Edge midpoints of the last cell of all.
pub open spec fn edges_corner(st: NoiseState, n: int, step: int, scale: i32) -> NoiseState {
    let hs = step / 2;
    let last = n - step;
    let st1 = put(st, n, n - hs, last, mean2(st, cell(st, n, last, last), HALF_BITS, scale));
    put(st1, n, last, n - hs, mean2(st1, cell(st1, n, last, last), HALF_BITS, scale))
}

/// Centres of the cells in column `x` from row `y` on.
pub open spec fn centres_col(st: NoiseState, n: int, step: int, scale: i32, x: int, y: int) -> NoiseState
    decreases n - y,
{
    if step <= 0 || y >= n - step {
        st
    } else {
        let hs = step / 2;
        let sum = add_bits(
            add_bits(add_bits(cell(st, n, x, y), cell(st, n, x + step, y)), cell(st, n, x, y + step)),
            cell(st, n, x + step, y + step),
        );
        centres_col(put(st, n, x + hs, y + hs, mean4(st, sum, scale)), n, step, scale, x, y + step)
    }
}

/// Centre of the last row's cell in column `x`, with 1/2 past the grid.
pub open spec fn centres_last_row(st: NoiseState, n: int, step: int, scale: i32, x: int) -> NoiseState {
    let hs = step / 2;
    let last = n - step;
    let sum = add_bits(add_bits(cell(st, n, x, last), cell(st, n, x + step, last)), ONE_BITS);
    put(st, n, x + hs, n - hs, mean4(st, sum, scale))
}

/// Centres of every column from `x` on.
pub open spec fn centres(st: NoiseState, n: int, step: int, scale: i32, x: int) -> NoiseState
    decreases n - x,
{
    if step <= 0 || x >= n - step {
        st
    } else {
        centres(
            centres_last_row(centres_col(st, n, step, scale, x, 0), n, step, scale, x),
            n,
            step,
            scale,
            x + step,
        )
    }
}

/// Centres of the last column from row `y` on.
pub open spec fn centres_last_col(st: NoiseState, n: int, step: int, scale: i32, y: int) -> NoiseState
    decreases n - y,
{
    if step <= 0 || y >= n - step {
        st
    } else {
        let hs = step / 2;
        let last = n - step;
        let sum = add_bits(add_bits(cell(st, n, last, y), cell(st, n, last, y + step)), ONE_BITS);
        centres_last_col(put(st, n, n - hs, y + hs, mean4(st, sum, scale)), n, step, scale, y + step)
    }
}

/// Centre of the last cell of all.
pub open spec fn centres_corner(st: NoiseState, n: int, step: int, scale: i32) -> NoiseState {
    let hs = step / 2;
    let last = n - step;
    let sum = add_bits(cell(st, n, last, last), ONE_AND_HALF_BITS);
    put(st, n, n - hs, n - hs, mean4(st, sum, scale))
}

/// One refinement at `step`: edges, then centres.
pub open spec fn refine(st: NoiseState, n: int, step: int, scale: i32) -> NoiseState {
    let e = edges_corner(edges_last_col(edges(st, n, step, scale, 0), n, step, scale, 0), n, step, scale);
    centres_corner(centres_last_col(centres(e, n, step, scale, 0), n, step, scale, 0), n, step, scale)
}

/// Refinements from `step` down to 2, the step halving and the running scale
/// `rs` being multiplied by `mult` after each; at `features_step` the scale
/// is 1.
pub open spec fn refine_all(
    st: NoiseState,
    n: int,
    step: int,
    rs: i32,
    mult: i32,
    features_step: int,
) -> NoiseState
    decreases step,
{
    if step <= 1 {
        st
    } else {
        let scale = if step == features_step {
            ONE_BITS
        } else {
            rs
        };
        refine_all(refine(st, n, step, scale), n, step / 2, mul_bits(rs, mult), mult, features_step)
    }
}

/// The grid of side `n` with every cell 1/2.
pub open spec fn flat_grid(n: int) -> Seq<FixedPoint> {
    Seq::new((n * n) as nat, |k: int| FixedPoint { bits: HALF_BITS })
}

/// The noise grid and final state that generation from state `s` gives.
pub open spec fn noise_of(s: (u32, u32), n: int, start: i32, mult: i32, features_step: int) -> NoiseState {
    refine_all((flat_grid(n), s), n, n, start, mult, features_step)
}

/// A random displacement `(next() - 1/2) * scale`.
fn displacement(random: &mut Random, scale: FixedPoint) -> (r: FixedPoint)
    ensures
        final(random)@ == cycle(old(random)@),
        r.bits == disp(old(random)@, scale.bits),
{
    random.next().sub(FixedPoint::from_bits(HALF_BITS)).mul(scale)
}

/// The mean of two cells, `(a + b) * 1/2`, plus a displacement.
fn mid2(a: FixedPoint, b: FixedPoint, random: &mut Random, scale: FixedPoint) -> (r: FixedPoint)
    ensures
        final(random)@ == cycle(old(random)@),
        r.bits == add_bits(mul_bits(add_bits(a.bits, b.bits), HALF_BITS), disp(old(random)@, scale.bits)),
{
    let d = displacement(random, scale);
    a.add(b).mul(FixedPoint::from_bits(HALF_BITS)).add(d)
}

/// A quarter of a sum of cells, `sum * 1/4`, plus a displacement.
fn mid4(sum: FixedPoint, random: &mut Random, scale: FixedPoint) -> (r: FixedPoint)
    ensures
        final(random)@ == cycle(old(random)@),
        r.bits == add_bits(mul_bits(sum.bits, QUARTER_BITS), disp(old(random)@, scale.bits)),
{
    let d = displacement(random, scale);
    sum.mul(FixedPoint::from_bits(QUARTER_BITS)).add(d)
}

fn edge_pass(noise: &mut Vec<FixedPoint>, random: &mut Random, n: usize, step: usize, scale: FixedPoint)
    requires
        noise_size(n as int),
        2 <= step <= n,
        is_grid(old(noise)@, n as int),
    ensures
        is_grid(final(noise)@, n as int),
        (final(noise)@, final(random)@) == edges_corner(
            edges_last_col(
                edges((old(noise)@, old(random)@), n as int, step as int, scale.bits, 0),
                n as int,
                step as int,
                scale.bits,
                0,
            ),
            n as int,
            step as int,
            scale.bits,
        ),
{
    let ghost sb = scale.bits;
    let ghost goal = edges((noise@, random@), n as int, step as int, sb, 0);
    let hs = step / 2;
    let last = n - step;
    let half = FixedPoint::from_bits(HALF_BITS);
    let mut x: usize = 0;
    while x < last
        invariant
            noise_size(n as int),
            2 <= step <= n,
            hs == step / 2,
            last == n - step,
            half.bits == HALF_BITS,
            sb == scale.bits,
            x <= n,
            is_grid(noise@, n as int),
            goal == edges((noise@, random@), n as int, step as int, sb, x as int),
        decreases n - x,
    {
        let mut y: usize = 0;
        while y < last
            invariant
                noise_size(n as int),
                2 <= step <= n,
                hs == step / 2,
                last == n - step,
                sb == scale.bits,
                x < last,
                y <= n,
                is_grid(noise@, n as int),
                goal == edges(
                    edges_last_row(
                        edges_col((noise@, random@), n as int, step as int, sb, x as int, y as int),
                        n as int,
                        step as int,
                        sb,
                        x as int,
                    ),
                    n as int,
                    step as int,
                    sb,
                    x + step,
                ),
            decreases n - y,
        {
            let v = mid2(get_cell(noise, n, x, y), get_cell(noise, n, x + step, y), random, scale);
            set_cell(noise, n, x + hs, y, v);
            let v = mid2(get_cell(noise, n, x, y), get_cell(noise, n, x, y + step), random, scale);
            set_cell(noise, n, x, y + hs, v);
            y += step;
        }
        // last row: the cell below lies past the grid
        let v = mid2(get_cell(noise, n, x, last), get_cell(noise, n, x + step, last), random, scale);
        set_cell(noise, n, x + hs, last, v);
        let v = mid2(get_cell(noise, n, x, last), half, random, scale);
        set_cell(noise, n, x, n - hs, v);
        x += step;
    }
    let ghost goal2 = edges_last_col((noise@, random@), n as int, step as int, sb, 0);
    // last column: the cell to the right lies past the grid
    let mut y: usize = 0;
    while y < last
        invariant
            noise_size(n as int),
            2 <= step <= n,
            hs == step / 2,
            last == n - step,
            half.bits == HALF_BITS,
            sb == scale.bits,
            y <= n,
            is_grid(noise@, n as int),
            goal2 == edges_last_col((noise@, random@), n as int, step as int, sb, y as int),
        decreases n - y,
    {
        let v = mid2(get_cell(noise, n, last, y), half, random, scale);
        set_cell(noise, n, n - hs, y, v);
        let v = mid2(get_cell(noise, n, last, y), get_cell(noise, n, last, y + step), random, scale);
        set_cell(noise, n, last, y + hs, v);
        y += step;
    }
    // last cell of all
    let v = mid2(get_cell(noise, n, last, last), half, random, scale);
    set_cell(noise, n, n - hs, last, v);
    let v = mid2(get_cell(noise, n, last, last), half, random, scale);
    set_cell(noise, n, last, n - hs, v);
}

fn centre_pass(noise: &mut Vec<FixedPoint>, random: &mut Random, n: usize, step: usize, scale: FixedPoint)
    requires
        noise_size(n as int),
        2 <= step <= n,
        is_grid(old(noise)@, n as int),
    ensures
        is_grid(final(noise)@, n as int),
        (final(noise)@, final(random)@) == centres_corner(
            centres_last_col(
                centres((old(noise)@, old(random)@), n as int, step as int, scale.bits, 0),
                n as int,
                step as int,
                scale.bits,
                0,
            ),
            n as int,
            step as int,
            scale.bits,
        ),
{
    let ghost sb = scale.bits;
    let ghost goal = centres((noise@, random@), n as int, step as int, sb, 0);
    let hs = step / 2;
    let last = n - step;
    let one = FixedPoint::from_bits(ONE_BITS);
    let one_and_half = FixedPoint::from_bits(ONE_AND_HALF_BITS);
    let mut x: usize = 0;
    while x < last
        invariant
            noise_size(n as int),
            2 <= step <= n,
            hs == step / 2,
            last == n - step,
            one.bits == ONE_BITS,
            sb == scale.bits,
            x <= n,
            is_grid(noise@, n as int),
            goal == centres((noise@, random@), n as int, step as int, sb, x as int),
        decreases n - x,
    {
        let mut y: usize = 0;
        while y < last
            invariant
                noise_size(n as int),
                2 <= step <= n,
                hs == step / 2,
                last == n - step,
                sb == scale.bits,
                x < last,
                y <= n,
                is_grid(noise@, n as int),
                goal == centres(
                    centres_last_row(
                        centres_col((noise@, random@), n as int, step as int, sb, x as int, y as int),
                        n as int,
                        step as int,
                        sb,
                        x as int,
                    ),
                    n as int,
                    step as int,
                    sb,
                    x + step,
                ),
            decreases n - y,
        {
            let sum = get_cell(noise, n, x, y).add(get_cell(noise, n, x + step, y)).add(
                get_cell(noise, n, x, y + step),
            ).add(get_cell(noise, n, x + step, y + step));
            let v = mid4(sum, random, scale);
            set_cell(noise, n, x + hs, y + hs, v);
            y += step;
        }
        // last row: the cells below lie past the grid
        let sum = get_cell(noise, n, x, last).add(get_cell(noise, n, x + step, last)).add(one);
        let v = mid4(sum, random, scale);
        set_cell(noise, n, x + hs, n - hs, v);
        x += step;
    }
    let ghost goal2 = centres_last_col((noise@, random@), n as int, step as int, sb, 0);
    // last column: the cells to the right lie past the grid
    let mut y: usize = 0;
    while y < last
        invariant
            noise_size(n as int),
            2 <= step <= n,
            hs == step / 2,
            last == n - step,
            one.bits == ONE_BITS,
            sb == scale.bits,
            y <= n,
            is_grid(noise@, n as int),
            goal2 == centres_last_col((noise@, random@), n as int, step as int, sb, y as int),
        decreases n - y,
    {
        let sum = get_cell(noise, n, last, y).add(get_cell(noise, n, last, y + step)).add(one);
        let v = mid4(sum, random, scale);
        set_cell(noise, n, n - hs, y + hs, v);
        y += step;
    }
    // last cell of all
    let sum = get_cell(noise, n, last, last).add(one_and_half);
    let v = mid4(sum, random, scale);
    set_cell(noise, n, n - hs, n - hs, v);
}

/// Fractal midpoint displacement over a grid of side `n`: every cell starts
/// at 1/2; while the step exceeds 1, edge midpoints and then cell centres are
/// set to the mean of their corners plus a displacement scaled by the running
/// scale (by 1 at `features_step`), with 1/2 standing for corners past the
/// last row or column; then the step halves and the scale is multiplied by
/// `scale_multiplier`.
pub fn generate_noise(
    random: &mut Random,
    n: usize,
    starting_scale: FixedPoint,
    scale_multiplier: FixedPoint,
    features_step: usize,
) -> (r: Vec<FixedPoint>)
    requires
        noise_size(n as int),
    ensures
        is_grid(r@, n as int),
        (r@, final(random)@) == noise_of(
            old(random)@,
            n as int,
            starting_scale.bits,
            scale_multiplier.bits,
            features_step as int,
        ),
{
    let half = FixedPoint::from_bits(HALF_BITS);
    let one = FixedPoint::from_bits(ONE_BITS);
    let cells = n * n;
    let mut noise: Vec<FixedPoint> = Vec::new();
    while noise.len() < cells
        invariant
            noise@.len() <= cells,
            cells == n * n,
            half.bits == HALF_BITS,
            forall|k: int| 0 <= k < noise@.len() ==> #[trigger] noise@[k] == half,
        decreases cells - noise@.len(),
    {
        noise.push(half);
    }
    proof {
        assert(noise@ =~= flat_grid(n as int));
    }
    let ghost goal = noise_of(
        random@,
        n as int,
        starting_scale.bits,
        scale_multiplier.bits,
        features_step as int,
    );
    let mut step: usize = n;
    let mut random_scale = starting_scale;
    while step > 1
        invariant
            noise_size(n as int),
            1 <= step <= n,
            one.bits == ONE_BITS,
            is_grid(noise@, n as int),
            goal == refine_all(
                (noise@, random@),
                n as int,
                step as int,
                random_scale.bits,
                scale_multiplier.bits,
                features_step as int,
            ),
        decreases step,
    {
        let scale = if step == features_step {
            one
        } else {
            random_scale
        };
        edge_pass(&mut noise, random, n, step, scale);
        centre_pass(&mut noise, random, n, step, scale);
        step = step / 2;
        random_scale = random_scale.mul(scale_multiplier);
    }
    noise
}

} // verus!
