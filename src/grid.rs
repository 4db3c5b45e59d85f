use crate::tile::Tile;
use vstd::arithmetic::div_mod::{lemma_fundamental_div_mod, lemma_fundamental_div_mod_converse};
use vstd::prelude::*;

verus! {

/// The cell `(x, y)` of a square grid of side `n`, stored row by row in `x`.
pub open spec fn at<T>(g: Seq<T>, n: int, x: int, y: int) -> T {
    g[x * n + y]
}

/// A square grid of side `n`.
pub open spec fn is_grid<T>(g: Seq<T>, n: int) -> bool {
    g.len() == n * n
}

/// `(x, y)` lies in the 3x3 block centred on `(cx, cy)`.
pub open spec fn in_block(x: int, y: int, cx: int, cy: int) -> bool {
    cx - 1 <= x <= cx + 1 && cy - 1 <= y <= cy + 1
}

/// `new` is `old` with the 3x3 block round `(x, y)` set to `around` and
/// `(x, y)` itself set to `center`.
pub open spec fn surrounded(
    new: Seq<Tile>,
    old: Seq<Tile>,
    n: int,
    x: int,
    y: int,
    center: Tile,
    around: Tile,
) -> bool {
    &&& new.len() == old.len()
    &&& forall|a: int, b: int|
        0 <= a < n && 0 <= b < n ==> #[trigger] at(new, n, a, b) == if a == x && b == y {
            center
        } else if in_block(a, b, x, y) {
            around
        } else {
            at(old, n, a, b)
        }
}

/// `g` with the 3x3 block round `(x, y)` set to `around` and `(x, y)` itself
/// set to `center`.
pub open spec fn with_block(g: Seq<Tile>, n: int, x: int, y: int, center: Tile, around: Tile) -> Seq<
    Tile,
> {
    Seq::new(
        g.len(),
        |k: int|
            if k / n == x && k % n == y {
                center
            } else if in_block(k / n, k % n, x, y) {
                around
            } else {
                g[k]
            },
    )
}

pub(crate) proof fn lemma_index(n: int, a: int, b: int)
    requires
        0 <= a < n,
        0 <= b < n,
    ensures
        0 <= a * n + b < n * n,
        (a * n + b) / n == a,
        (a * n + b) % n == b,
{
    assert(0 <= a * n + b < n * n) by (nonlinear_arith)
        requires
            0 <= a < n,
            0 <= b < n,
    ;
    lemma_fundamental_div_mod_converse(a * n + b, n, a, b);
}

proof fn lemma_index_distinct(n: int, a: int, b: int, c: int, d: int)
    requires
        0 <= a < n,
        0 <= b < n,
        0 <= c < n,
        0 <= d < n,
        a != c || b != d,
    ensures
        a * n + b != c * n + d,
{
    lemma_index(n, a, b);
    lemma_index(n, c, d);
}

/// Sets one cell of a square grid.
pub fn set_cell<T>(g: &mut Vec<T>, n: usize, x: usize, y: usize, t: T)
    requires
        is_grid(old(g)@, n as int),
        x < n,
        y < n,
    ensures
        final(g)@ == old(g)@.update(x * n + y, t),
        is_grid(final(g)@, n as int),
        forall|a: int, b: int|
            0 <= a < n && 0 <= b < n ==> #[trigger] at(final(g)@, n as int, a, b) == if a == x
                && b == y {
                t
            } else {
                at(old(g)@, n as int, a, b)
            },
{
    let ghost g0 = g@;
    let len = g.len();
    proof {
        lemma_index(n as int, x as int, y as int);
        assert(x * n + y < len);
    }
    g.set(x * n + y, t);
    proof {
        assert forall|a: int, b: int| 0 <= a < n && 0 <= b < n implies #[trigger] at(
            g@,
            n as int,
            a,
            b,
        ) == if a == x && b == y {
            t
        } else {
            at(g0, n as int, a, b)
        } by {
            lemma_index(n as int, a, b);
            if a != x || b != y {
                lemma_index_distinct(n as int, a, b, x as int, y as int);
            }
        }
    }
}

/// Reads one cell of a square grid.
pub fn get_cell<T: Copy>(g: &Vec<T>, n: usize, x: usize, y: usize) -> (r: T)
    requires
        is_grid(g@, n as int),
        x < n,
        y < n,
    ensures
        r == at(g@, n as int, x as int, y as int),
{
    let len = g.len();
    proof {
        lemma_index(n as int, x as int, y as int);
        assert(x * n + y < len);
    }
    g[x * n + y]
}

/// Overwrites the 3x3 block round `(x, y)` with `around`, then `(x, y)` with
/// `center`.
pub fn place_surrounded_tile(
    g: &mut Vec<Tile>,
    n: usize,
    x: usize,
    y: usize,
    center: Tile,
    around: Tile,
)
    requires
        is_grid(old(g)@, n as int),
        1 <= x && x + 1 < n,
        1 <= y && y + 1 < n,
    ensures
        surrounded(final(g)@, old(g)@, n as int, x as int, y as int, center, around),
        final(g)@ == with_block(old(g)@, n as int, x as int, y as int, center, around),
{
    let ghost g0 = g@;
    let mut i: usize = x - 1;
    while i < x + 2
        invariant
            x - 1 <= i <= x + 2,
            1 <= x && x + 1 < n,
            1 <= y && y + 1 < n,
            is_grid(g@, n as int),
            g0.len() == g@.len(),
            forall|a: int, b: int|
                0 <= a < n && 0 <= b < n ==> #[trigger] at(g@, n as int, a, b) == if x - 1 <= a
                    < i && y - 1 <= b <= y + 1 {
                    around
                } else {
                    at(g0, n as int, a, b)
                },
        decreases x + 2 - i,
    {
        let mut j: usize = y - 1;
        while j < y + 2
            invariant
                x - 1 <= i < x + 2,
                y - 1 <= j <= y + 2,
                1 <= x && x + 1 < n,
                1 <= y && y + 1 < n,
                is_grid(g@, n as int),
                g0.len() == g@.len(),
                forall|a: int, b: int|
                    0 <= a < n && 0 <= b < n ==> #[trigger] at(g@, n as int, a, b) == if (x - 1
                        <= a < i && y - 1 <= b <= y + 1) || (a == i && y - 1 <= b < j) {
                        around
                    } else {
                        at(g0, n as int, a, b)
                    },
            decreases y + 2 - j,
        {
            set_cell(g, n, i, j, around);
            j += 1;
        }
        i += 1;
    }
    set_cell(g, n, x, y, center);
    proof {
        assert forall|k: int| 0 <= k < g@.len() implies g@[k] == with_block(
            g0,
            n as int,
            x as int,
            y as int,
            center,
            around,
        )[k] by {
            lemma_cell_of_index(n as int, k);
            assert(at(g@, n as int, k / n as int, k % n as int) == g@[k]);
        }
        assert(g@ =~= with_block(g0, n as int, x as int, y as int, center, around));
    }
}

pub(crate) proof fn lemma_index_before(n: int, a: int, b: int, i: int, j: int)
    requires
        0 <= a < i,
        0 <= b < n,
        0 <= j,
    ensures
        a * n + b < i * n + j,
{
    assert(a * n + b < i * n + j) by (nonlinear_arith)
        requires
            0 <= a < i,
            0 <= b < n,
            0 <= j,
    ;
}

/// Each index of a square grid is the cell `(k / n, k % n)`.
pub(crate) proof fn lemma_cell_of_index(n: int, k: int)
    requires
        0 < n,
        0 <= k < n * n,
    ensures
        0 <= k / n < n,
        0 <= k % n < n,
        k == (k / n) * n + k % n,
{
    lemma_fundamental_div_mod(k, n);
    let q = k / n;
    let r = k % n;
    assert(0 <= r < n);
    assert(0 <= q < n) by (nonlinear_arith)
        requires
            k == n * q + r,
            0 <= r < n,
            0 <= k < n * n,
    ;
    assert(k == q * n + r) by (nonlinear_arith)
        requires
            k == n * q + r,
    ;
}

} // verus!
