//! Small helpers on words (sequences of terminal symbols) and the partitions
//! that multiple Dyck languages are built from.

use vstd::prelude::*;

verus! {

/// True iff `p` is a prefix of `w`.
pub fn is_prefix_of(p: &Vec<u64>, w: &Vec<u64>) -> (r: bool)
    ensures
        r == p@.is_prefix_of(w@),
{
    if p.len() > w.len() {
        assert(!p@.is_prefix_of(w@));
        return false;
    }
    let mut i: usize = 0;
    while i < p.len()
        invariant
            i <= p.len(),
            p.len() <= w.len(),
            forall|j: int| 0 <= j < i ==> p@[j] == w@[j],
        decreases p.len() - i,
    {
        if p[i] != w[i] {
            assert(!p@.is_prefix_of(w@));
            return false;
        }
        i += 1;
    }
    assert(p@ =~= w@.subrange(0, p.len() as int));
    true
}

/// The word `w` with its first `n` symbols consumed.
pub fn skip_symbols(w: &Vec<u64>, n: usize) -> (r: Vec<u64>)
    requires
        n <= w@.len(),
    ensures
        r@ == w@.skip(n as int),
{
    let mut r: Vec<u64> = Vec::new();
    let mut i: usize = n;
    while i < w.len()
        invariant
            n <= i <= w.len(),
            r@ =~= w@.subrange(n as int, i as int),
        decreases w.len() - i,
    {
        r.push(w[i]);
        i += 1;
    }
    assert(w@.subrange(n as int, w@.len() as int) =~= w@.skip(n as int));
    r
}

/// A copy of a word.
pub fn dup_word(w: &Vec<u64>) -> (r: Vec<u64>)
    ensures
        r@ == w@,
{
    let mut r: Vec<u64> = Vec::new();
    let mut i: usize = 0;
    while i < w.len()
        invariant
            i <= w.len(),
            r@ =~= w@.subrange(0, i as int),
        decreases w.len() - i,
    {
        r.push(w[i]);
        i += 1;
    }
    assert(w@.subrange(0, w@.len() as int) =~= w@);
    r
}

/// A copy of a run given as indices into a transition list.
pub fn dup_indices(w: &Vec<usize>, extra: usize) -> (r: Vec<usize>)
    ensures
        r@ == w@.push(extra),
{
    let mut r: Vec<usize> = Vec::new();
    let mut i: usize = 0;
    while i < w.len()
        invariant
            i <= w.len(),
            r@ =~= w@.subrange(0, i as int),
        decreases w.len() - i,
    {
        r.push(w[i]);
        i += 1;
    }
    assert(w@.subrange(0, w@.len() as int) =~= w@);
    r.push(extra);
    r
}

/// Whether two words are equal.
pub fn words_eq(a: &Vec<u64>, b: &Vec<u64>) -> (r: bool)
    ensures
        r == (a@ == b@),
{
    if a.len() != b.len() {
        return false;
    }
    let mut i: usize = 0;
    while i < a.len()
        invariant
            a@.len() == b@.len(),
            i <= a@.len(),
            forall|j: int| 0 <= j < i ==> a@[j] == b@[j],
        decreases a@.len() - i,
    {
        if a[i] != b[i] {
            return false;
        }
        i += 1;
    }
    assert(a@ =~= b@);
    true
}

/// The view of a list of cells as a sequence of sequences of symbols.
pub open spec fn cells_view(cells: Seq<Vec<u64>>) -> Seq<Seq<u64>> {
    cells.map_values(|c: Vec<u64>| c@)
}

/// Symbols that may label brackets: bounded so that an open and a close
/// bracket over each symbol have distinct numeric codes.
pub open spec fn symbol_ok(s: u64) -> bool {
    s < 0x8000_0000_0000_0000u64
}

/// A well-formed partition: every cell is non-empty, holds each symbol once,
/// no two cells share a symbol, and every symbol can be bracket-coded.
pub open spec fn partition_wf(cells: Seq<Seq<u64>>) -> bool {
    &&& forall|i: int| 0 <= i < cells.len() ==> cells[i].len() > 0
    &&& forall|i: int, j: int, k: int|
        0 <= i < cells.len() && 0 <= j < cells[i].len() && 0 <= k < cells[i].len() && j != k
            ==> cells[i][j] != cells[i][k]
    &&& forall|i1: int, j1: int, i2: int, j2: int|
        0 <= i1 < cells.len() && 0 <= j1 < cells[i1].len() && 0 <= i2 < cells.len() && 0 <= j2
            < cells[i2].len() && i1 != i2 ==> cells[i1][j1] != cells[i2][j2]
    &&& forall|i: int, j: int| 0 <= i < cells.len() && 0 <= j < cells[i].len() ==> symbol_ok(
        #[trigger] cells[i][j],
    )
}

/// A partition Π = {π₁, …, πₙ} of an implicit alphabet Σ = π₁ ∪ … ∪ πₙ into
/// disjoint cells.
pub struct Partition {
    pub cells: Vec<Vec<u64>>,
}

impl Partition {
    /// The cells of the partition, as a mathematical value.
    pub open spec fn view_spec(&self) -> Seq<Seq<u64>> {
        cells_view(self.cells@)
    }

    /// Builds a partition from its cells; rejects cells that repeat or share
    /// a symbol, are empty, or hold a symbol too large to bracket-code.
    pub fn new(cells: Vec<Vec<u64>>) -> (r: Option<Partition>)
        ensures
            match r {
                Some(p) => p.view_spec() == cells_view(cells@) && partition_wf(p.view_spec()),
                None => !partition_wf(cells_view(cells@)),
            },
    {
        let ghost cv = cells_view(cells@);
        assert(forall|i: int| 0 <= i < cells@.len() ==> cv[i] == cells@[i]@);
        let mut i: usize = 0;
        while i < cells.len()
            invariant
                i <= cells.len(),
                cv == cells_view(cells@),
                forall|i0: int| 0 <= i0 < i ==> cv[i0].len() > 0,
                forall|i0: int, j: int, k: int|
                    0 <= i0 < i && 0 <= j < cv[i0].len() && 0 <= k < cv[i0].len() && j != k
                        ==> cv[i0][j] != cv[i0][k],
                forall|i1: int, j1: int, i2: int, j2: int|
                    0 <= i1 < i && 0 <= j1 < cv[i1].len() && 0 <= i2 < i && 0 <= j2 < cv[i2].len()
                        && i1 != i2 ==> cv[i1][j1] != cv[i2][j2],
                forall|i0: int, j: int| 0 <= i0 < i && 0 <= j < cv[i0].len() ==> symbol_ok(
                    #[trigger] cv[i0][j],
                ),
            decreases cells.len() - i,
        {
            let cell = &cells[i];
            if cell.len() == 0 {
                assert(cv[i as int].len() == 0);
                return None;
            }
            let mut j: usize = 0;
            while j < cell.len()
                invariant
                    i < cells.len(),
                    j <= cell.len(),
                    cell == &cells[i as int],
                    cv == cells_view(cells@),
                    forall|j0: int, k0: int|
                        0 <= j0 < j && 0 <= k0 < cell@.len() && j0 != k0 ==> cell@[j0]
                            != cell@[k0],
                    forall|i1: int, j1: int, j0: int|
                        0 <= i1 < i && 0 <= j1 < cv[i1].len() && 0 <= j0 < j ==> cv[i1][j1]
                            != cell@[j0],
                    forall|j0: int| 0 <= j0 < j ==> symbol_ok(#[trigger] cell@[j0]),
                decreases cell.len() - j,
            {
                let s = cell[j];
                if s >= 0x8000_0000_0000_0000u64 {
                    assert(!symbol_ok(cv[i as int][j as int]));
                    return None;
                }
                // the same symbol must not recur later in this cell
                let mut k: usize = j + 1;
                while k < cell.len()
                    invariant
                        i < cells.len(),
                        j < k <= cell.len(),
                        cell == &cells[i as int],
                        cv == cells_view(cells@),
                        s == cell@[j as int],
                        forall|k0: int| j < k0 < k ==> cell@[k0] != s,
                    decreases cell.len() - k,
                {
                    if cell[k] == s {
                        assert(cv[i as int][j as int] == cv[i as int][k as int]);
                        return None;
                    }
                    k += 1;
                }
                // nor occur in any earlier cell
                let mut i2: usize = 0;
                while i2 < i
                    invariant
                        i < cells.len(),
                        j < cell@.len(),
                        i2 <= i,
                        cell == &cells[i as int],
                        cv == cells_view(cells@),
                        s == cell@[j as int],
                        forall|i0: int, j0: int| 0 <= i0 < i2 && 0 <= j0 < cv[i0].len() ==> cv[i0][j0]
                            != s,
                    decreases i - i2,
                {
                    let other = &cells[i2];
                    let mut j2: usize = 0;
                    while j2 < other.len()
                        invariant
                            i < cells.len(),
                            j < cell@.len(),
                            i2 < i,
                            j2 <= other.len(),
                            cell == &cells[i as int],
                            other == &cells[i2 as int],
                            cv == cells_view(cells@),
                            s == cell@[j as int],
                            forall|j0: int| 0 <= j0 < j2 ==> other@[j0] != s,
                        decreases other.len() - j2,
                    {
                        if other[j2] == s {
                            assert(cv[i2 as int][j2 as int] == cv[i as int][j as int]);
                            return None;
                        }
                        j2 += 1;
                    }
                    i2 += 1;
                }
                j += 1;
            }
            i += 1;
        }
        Some(Partition { cells })
    }
}

} // verus!
