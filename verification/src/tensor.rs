//! Shape-indexed containers: vectors of a fixed length and grids of fixed
//! height and width, held as nested `Vec`s.

use vstd::prelude::*;

verus! {

/// Whether `g` has `rows` rows of `cols` entries each.
pub open spec fn has_shape<T>(g: Seq<Vec<T>>, rows: nat, cols: nat) -> bool {
    g.len() == rows && forall|i: int| 0 <= i < rows ==> (#[trigger] g[i]).len() == cols
}

/// Tells whether `g` has `rows` rows of `cols` entries each.
pub fn check_shape<T>(g: &Vec<Vec<T>>, rows: usize, cols: usize) -> (ok: bool)
    ensures
        ok == has_shape(g@, rows as nat, cols as nat),
{
    if g.len() != rows {
        return false;
    }
    let mut i: usize = 0;
    while i < rows
        invariant
            i <= rows,
            g.len() == rows,
            forall|k: int| 0 <= k < i ==> (#[trigger] g@[k]).len() == cols,
        decreases rows - i,
    {
        if g[i].len() != cols {
            return false;
        }
        i = i + 1;
    }
    true
}

/// Whether `s` holds `n` grids of `rows` rows of `cols` entries each.
pub open spec fn stack_shape<T>(s: Seq<Vec<Vec<T>>>, n: nat, rows: nat, cols: nat) -> bool {
    s.len() == n && forall|c: int| 0 <= c < n ==> has_shape((#[trigger] s[c])@, rows, cols)
}

/// Tells whether `s` holds `n` grids of `rows` rows of `cols` entries each.
pub fn check_stack<T>(s: &Vec<Vec<Vec<T>>>, n: usize, rows: usize, cols: usize) -> (ok: bool)
    ensures
        ok == stack_shape(s@, n as nat, rows as nat, cols as nat),
{
    if s.len() != n {
        return false;
    }
    let mut c: usize = 0;
    while c < n
        invariant
            c <= n,
            s.len() == n,
            forall|k: int| 0 <= k < c ==> has_shape((#[trigger] s@[k])@, rows as nat, cols as nat),
        decreases n - c,
    {
        if !check_shape(&s[c], rows, cols) {
            return false;
        }
        c = c + 1;
    }
    true
}

/// The vector of `f(0), .., f(N - 1)`.
pub fn map1<T, F: Fn(usize) -> T, const N: usize>(f: F) -> (r: Vec<T>)
    requires
        forall|i: usize| i < N ==> call_requires(f, (i,)),
    ensures
        r.len() == N,
        forall|i: usize| i < N ==> call_ensures(f, (i,), #[trigger] r@[i as int]),
{
    let mut out: Vec<T> = Vec::new();
    let mut i: usize = 0;
    while i < N
        invariant
            i <= N,
            out.len() == i,
            forall|k: usize| k < N ==> call_requires(f, (k,)),
            forall|k: usize| k < i ==> call_ensures(f, (k,), #[trigger] out@[k as int]),
        decreases N - i,
    {
        let x = f(i);
        out.push(x);
        i = i + 1;
    }
    out
}

/// The grid whose entry in row `i` and column `j` is `f(i, j)`.
pub fn map2<T, F: Fn(usize, usize) -> T, const ROWS: usize, const COLS: usize>(f: F) -> (r: Vec<
    Vec<T>,
>)
    requires
        forall|i: usize, j: usize| i < ROWS && j < COLS ==> call_requires(f, (i, j)),
    ensures
        has_shape(r@, ROWS as nat, COLS as nat),
        forall|i: usize, j: usize|
            i < ROWS && j < COLS ==> call_ensures(f, (i, j), #[trigger] r@[i as int]@[j as int]),
{
    let mut out: Vec<Vec<T>> = Vec::new();
    let mut i: usize = 0;
    while i < ROWS
        invariant
            i <= ROWS,
            out.len() == i,
            forall|a: usize, b: usize| a < ROWS && b < COLS ==> call_requires(f, (a, b)),
            forall|a: int| 0 <= a < i ==> (#[trigger] out@[a]).len() == COLS,
            forall|a: usize, b: usize|
                a < i && b < COLS ==> call_ensures(f, (a, b), #[trigger] out@[a as int]@[b as int]),
        decreases ROWS - i,
    {
        let mut row: Vec<T> = Vec::new();
        let mut j: usize = 0;
        while j < COLS
            invariant
                i < ROWS,
                j <= COLS,
                row.len() == j,
                forall|a: usize, b: usize| a < ROWS && b < COLS ==> call_requires(f, (a, b)),
                forall|b: usize| b < j ==> call_ensures(f, (i, b), #[trigger] row@[b as int]),
            decreases COLS - j,
        {
            let x = f(i, j);
            row.push(x);
            j = j + 1;
        }
        out.push(row);
        i = i + 1;
    }
    out
}

/// The entries of a grid, row after row.
pub open spec fn flat<T>(g: Seq<Vec<T>>, rows: nat) -> Seq<T>
    decreases rows,
{
    if rows == 0 {
        Seq::empty()
    } else {
        flat(g, (rows - 1) as nat) + g[rows - 1]@
    }
}

/// Lays the rows of a grid out one after another.
pub fn flatten<T: Copy>(g: &Vec<Vec<T>>) -> (r: Vec<T>)
    ensures
        r@ == flat(g@, g@.len()),
{
    let mut out: Vec<T> = Vec::new();
    let mut i: usize = 0;
    while i < g.len()
        invariant
            i <= g.len(),
            out@ == flat(g@, i as nat),
        decreases g.len() - i,
    {
        let row = &g[i];
        let ghost before = out@;
        let mut j: usize = 0;
        while j < row.len()
            invariant
                j <= row.len(),
                out@ == before + row@.subrange(0, j as int),
            decreases row.len() - j,
        {
            out.push(row[j]);
            j = j + 1;
        }
        assert(row@.subrange(0, row.len() as int) == row@);
        i = i + 1;
    }
    out
}

/// In a grid of `rows` rows of `cols` entries, the entry of row `i` and column
/// `j` lies at position `i * cols + j` of the flattened grid.
pub proof fn lemma_flat_index<T>(g: Seq<Vec<T>>, rows: nat, cols: nat, i: int, j: int)
    requires
        rows <= g.len(),
        forall|k: int| 0 <= k < rows ==> (#[trigger] g[k]).len() == cols,
        0 <= i < rows,
        0 <= j < cols,
    ensures
        flat(g, rows).len() == rows * cols,
        0 <= i * cols + j < rows * cols,
        flat(g, rows)[i * cols + j] == g[i]@[j],
    decreases rows,
{
    lemma_flat_len(g, rows, cols);
    assert(0 <= i * cols + j < rows * cols) by (nonlinear_arith)
        requires
            0 <= i < rows,
            0 <= j < cols,
    ;
    if i == rows - 1 {
        lemma_flat_len(g, (rows - 1) as nat, cols);
    } else {
        lemma_flat_index(g, (rows - 1) as nat, cols, i, j);
        assert(i * cols + j < (rows - 1) * cols) by (nonlinear_arith)
            requires
                0 <= i < rows - 1,
                0 <= j < cols,
        ;
    }
}

/// The flattened grid has `rows * cols` entries.
pub proof fn lemma_flat_len<T>(g: Seq<Vec<T>>, rows: nat, cols: nat)
    requires
        rows <= g.len(),
        forall|k: int| 0 <= k < rows ==> (#[trigger] g[k]).len() == cols,
    ensures
        flat(g, rows).len() == rows * cols,
    decreases rows,
{
    if rows > 0 {
        lemma_flat_len(g, (rows - 1) as nat, cols);
        assert((rows - 1) * cols + cols == rows * cols) by (nonlinear_arith);
    } else {
        assert(0 * cols == 0);
    }
}

} // verus!
