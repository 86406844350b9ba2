//! The copy-constraint tracker's check-time side.
//!
//! Copy constraints recorded during synthesis are unordered pairs of cells
//! asserted equal. Equality is transitive, so the checker must treat a chain
//! of pairwise constraints as one equivalence class and demand that all of a
//! class's assigned members share one value. A class holding two distinct
//! assigned values yields exactly one offense, reported with both offending
//! cells: the class's first assigned member and the first member that
//! disagrees with it.

use vstd::prelude::*;

use crate::assign::Assigner;
use crate::field::Fp;
use crate::layout::Cell;

verus! {

/// The value a copy constraint sees in a cell.
pub open spec fn cval(a: Assigner, c: Cell) -> Option<Fp> {
    a.cell(c.col as int, c.row as int)
}

/// Two cells are equal under the recorded pairs: the equivalence closure of
/// the pairs, built one recorded pair at a time. Adding pair `(p0, p1)`
/// merges the two classes it touches.
pub open spec fn connected(pairs: Seq<(Cell, Cell)>, x: Cell, y: Cell) -> bool
    decreases pairs.len(),
{
    if pairs.len() == 0 {
        x == y
    } else {
        let rest = pairs.drop_last();
        let p = pairs.last();
        connected(rest, x, y) || (connected(rest, x, p.0) && connected(rest, p.1, y)) || (connected(
            rest,
            x,
            p.1,
        ) && connected(rest, p.0, y))
    }
}

/// Connectivity is reflexive.
pub proof fn lemma_connected_refl(pairs: Seq<(Cell, Cell)>, x: Cell)
    ensures
        connected(pairs, x, x),
    decreases pairs.len(),
{
    if pairs.len() > 0 {
        lemma_connected_refl(pairs.drop_last(), x);
    }
}

/// Connectivity is symmetric.
pub proof fn lemma_connected_sym(pairs: Seq<(Cell, Cell)>, x: Cell, y: Cell)
    ensures
        connected(pairs, x, y) == connected(pairs, y, x),
    decreases pairs.len(),
{
    if pairs.len() > 0 {
        let rest = pairs.drop_last();
        let p = pairs.last();
        lemma_connected_sym(rest, x, y);
        lemma_connected_sym(rest, x, p.0);
        lemma_connected_sym(rest, x, p.1);
        lemma_connected_sym(rest, y, p.0);
        lemma_connected_sym(rest, y, p.1);
        lemma_connected_sym(rest, p.0, y);
        lemma_connected_sym(rest, p.1, y);
    }
}

/// Connectivity is transitive.
pub proof fn lemma_connected_trans(pairs: Seq<(Cell, Cell)>, x: Cell, y: Cell, z: Cell)
    requires
        connected(pairs, x, y),
        connected(pairs, y, z),
    ensures
        connected(pairs, x, z),
    decreases pairs.len(),
{
    if pairs.len() == 0 {
    } else {
        let rest = pairs.drop_last();
        let p = pairs.last();
        if connected(rest, x, y) {
            if connected(rest, y, z) {
                lemma_connected_trans(rest, x, y, z);
            } else if connected(rest, y, p.0) && connected(rest, p.1, z) {
                lemma_connected_trans(rest, x, y, p.0);
            } else {
                lemma_connected_trans(rest, x, y, p.1);
            }
        } else if connected(rest, x, p.0) && connected(rest, p.1, y) {
            if connected(rest, y, z) {
                lemma_connected_trans(rest, p.1, y, z);
            } else if connected(rest, y, p.0) && connected(rest, p.1, z) {
                // x ~ p.0 and p.1 ~ z stand already
            } else if connected(rest, y, p.1) && connected(rest, p.0, z) {
                lemma_connected_trans(rest, x, p.0, z);
            }
        } else if connected(rest, x, p.1) && connected(rest, p.0, y) {
            if connected(rest, y, z) {
                lemma_connected_trans(rest, p.0, y, z);
            } else if connected(rest, y, p.0) && connected(rest, p.1, z) {
                lemma_connected_trans(rest, x, p.1, z);
            } else if connected(rest, y, p.1) && connected(rest, p.0, z) {
                // x ~ p.1 and p.0 ~ z stand already
            }
        }
    }
}

/// If every recorded pair's two cells hold one value (or are both
/// unassigned), then every pair of connected cells does too.
pub proof fn lemma_connected_consistent(pairs: Seq<(Cell, Cell)>, a: Assigner)
    requires
        forall|k: int|
            0 <= k < pairs.len() ==> cval(a, (#[trigger] pairs[k]).0) == cval(a, pairs[k].1),
    ensures
        forall|x: Cell, y: Cell| #[trigger]
            connected(pairs, x, y) ==> cval(a, x) == cval(a, y),
    decreases pairs.len(),
{
    if pairs.len() == 0 {
    } else {
        let rest = pairs.drop_last();
        let p = pairs.last();
        assert(forall|k: int|
            0 <= k < rest.len() ==> cval(a, (#[trigger] rest[k]).0) == cval(a, rest[k].1));
        lemma_connected_consistent(rest, a);
        assert(p == pairs[pairs.len() - 1]);
        assert(cval(a, p.0) == cval(a, p.1));
        assert forall|x: Cell, y: Cell| #[trigger]
            connected(pairs, x, y) implies cval(a, x) == cval(a, y) by {
            assert(connected(rest, x, y) || (connected(rest, x, p.0) && connected(rest, p.1, y))
                || (connected(rest, x, p.1) && connected(rest, p.0, y)));
            if connected(rest, x, y) {
                assert(cval(a, x) == cval(a, y));
            } else if connected(rest, x, p.0) && connected(rest, p.1, y) {
                assert(cval(a, x) == cval(a, p.0));
                assert(cval(a, p.1) == cval(a, y));
            } else {
                assert(connected(rest, x, p.1) && connected(rest, p.0, y));
                assert(cval(a, x) == cval(a, p.1));
                assert(cval(a, p.0) == cval(a, y));
            }
        }
    }
}

/// Appends a cell to the list unless it is already present.
pub open spec fn push_new(s: Seq<Cell>, c: Cell) -> Seq<Cell> {
    if s.contains(c) {
        s
    } else {
        s.push(c)
    }
}

/// Every cell a recorded pair mentions, in order of first occurrence and
/// without duplicates.
pub open spec fn cell_list(pairs: Seq<(Cell, Cell)>) -> Seq<Cell>
    decreases pairs.len(),
{
    if pairs.len() == 0 {
        Seq::empty()
    } else {
        push_new(push_new(cell_list(pairs.drop_last()), pairs.last().0), pairs.last().1)
    }
}

/// The cell list holds exactly the cells the pairs mention, each once.
pub proof fn lemma_cell_list_props(pairs: Seq<(Cell, Cell)>)
    ensures
        forall|i: int, j: int|
            0 <= i < j < cell_list(pairs).len() ==> cell_list(pairs)[i] != cell_list(pairs)[j],
        forall|k: int|
            0 <= k < pairs.len() ==> cell_list(pairs).contains((#[trigger] pairs[k]).0)
                && cell_list(pairs).contains(pairs[k].1),
        forall|i: int|
            0 <= i < cell_list(pairs).len() ==> exists|k: int|
                0 <= k < pairs.len() && ((#[trigger] cell_list(pairs)[i]) == pairs[k].0
                    || cell_list(pairs)[i] == pairs[k].1),
    decreases pairs.len(),
{
    if pairs.len() == 0 {
    } else {
        let rest = pairs.drop_last();
        let p = pairs.last();
        lemma_cell_list_props(rest);
        let l0 = cell_list(rest);
        let l1 = push_new(l0, p.0);
        let l2 = push_new(l1, p.1);
        assert(p == pairs[pairs.len() - 1]);
        assert(forall|k: int| 0 <= k < rest.len() ==> rest[k] == pairs[k]);
        assert(l1.contains(p.0)) by {
            if !l0.contains(p.0) {
                assert(l1[l0.len() as int] == p.0);
            }
        }
        assert(l2.contains(p.0)) by {
            let w = choose|w: int| 0 <= w < l1.len() && l1[w] == p.0;
            assert(l2[w] == p.0);
        }
        assert(l2.contains(p.1)) by {
            if !l1.contains(p.1) {
                assert(l2[l1.len() as int] == p.1);
            }
        }
        assert forall|k: int|
            0 <= k < pairs.len() implies cell_list(pairs).contains((#[trigger] pairs[k]).0)
            && cell_list(pairs).contains(pairs[k].1) by {
            if k < rest.len() {
                assert(l0.contains(rest[k].0) && l0.contains(rest[k].1));
                let w0 = choose|w: int| 0 <= w < l0.len() && l0[w] == rest[k].0;
                assert(l2[w0] == pairs[k].0);
                let w1 = choose|w: int| 0 <= w < l0.len() && l0[w] == rest[k].1;
                assert(l2[w1] == pairs[k].1);
            }
        }
    }
}

/// Every listed cell lies within the table when every pair does.
pub proof fn lemma_cell_list_bounds(pairs: Seq<(Cell, Cell)>, ncols: int, nrows: int)
    requires
        forall|k: int|
            0 <= k < pairs.len() ==> crate::assign::pair_wf(#[trigger] pairs[k], ncols, nrows),
    ensures
        forall|i: int|
            0 <= i < cell_list(pairs).len() ==> (#[trigger] cell_list(pairs)[i]).col < ncols
                && cell_list(pairs)[i].row < nrows,
{
    lemma_cell_list_props(pairs);
}

/// The first cell of the class of `cells[i]` is its representative: no
/// earlier listed cell is connected to it.
pub open spec fn is_rep(pairs: Seq<(Cell, Cell)>, cells: Seq<Cell>, i: int) -> bool {
    forall|j: int| 0 <= j < i ==> !connected(pairs, #[trigger] cells[j], cells[i])
}

/// The first index at or after `from` whose cell is in the class of
/// `cells[i]` and is assigned, or the list length if there is none.
pub open spec fn first_assigned_from(
    pairs: Seq<(Cell, Cell)>,
    cells: Seq<Cell>,
    a: Assigner,
    i: int,
    from: int,
) -> int
    decreases cells.len() - from,
{
    if from < 0 || from >= cells.len() {
        cells.len() as int
    } else if connected(pairs, cells[i], cells[from]) && cval(a, cells[from]) is Some {
        from
    } else {
        first_assigned_from(pairs, cells, a, i, from + 1)
    }
}

/// The first index at or after `from` whose cell is in the class of
/// `cells[i]` and is assigned a value other than `v`, or the list length.
pub open spec fn first_mismatch_from(
    pairs: Seq<(Cell, Cell)>,
    cells: Seq<Cell>,
    a: Assigner,
    i: int,
    v: Fp,
    from: int,
) -> int
    decreases cells.len() - from,
{
    if from < 0 || from >= cells.len() {
        cells.len() as int
    } else if connected(pairs, cells[i], cells[from]) && cval(a, cells[from]) is Some && cval(
        a,
        cells[from],
    ) != Some(v) {
        from
    } else {
        first_mismatch_from(pairs, cells, a, i, v, from + 1)
    }
}

/// The offenses contributed by the classes whose representatives lie among
/// the first `n` listed cells, in representative order.
pub open spec fn offenses_upto(
    pairs: Seq<(Cell, Cell)>,
    cells: Seq<Cell>,
    a: Assigner,
    n: int,
) -> Seq<(Cell, Cell)>
    decreases n,
{
    if n <= 0 {
        Seq::empty()
    } else {
        let prev = offenses_upto(pairs, cells, a, n - 1);
        let i = n - 1;
        if is_rep(pairs, cells, i) {
            let j = first_assigned_from(pairs, cells, a, i, 0);
            if j < cells.len() {
                match cval(a, cells[j]) {
                    Some(v) => {
                        let k = first_mismatch_from(pairs, cells, a, i, v, j + 1);
                        if k < cells.len() {
                            prev.push((cells[j], cells[k]))
                        } else {
                            prev
                        }
                    },
                    None => prev,
                }
            } else {
                prev
            }
        } else {
            prev
        }
    }
}

/// One offending cell pair per copy-constraint class that holds two distinct
/// assigned values: the class's first assigned member and the first member
/// disagreeing with it.
pub open spec fn copy_offenses(a: Assigner) -> Seq<(Cell, Cell)> {
    offenses_upto(a.pairs@, cell_list(a.pairs@), a, cell_list(a.pairs@).len() as int)
}

/// What a search hit of `first_assigned_from` means.
pub proof fn lemma_first_assigned_props(
    pairs: Seq<(Cell, Cell)>,
    cells: Seq<Cell>,
    a: Assigner,
    i: int,
    from: int,
)
    requires
        0 <= from <= cells.len(),
    ensures
        from <= first_assigned_from(pairs, cells, a, i, from) <= cells.len(),
        first_assigned_from(pairs, cells, a, i, from) < cells.len() ==> {
            let j = first_assigned_from(pairs, cells, a, i, from);
            connected(pairs, cells[i], cells[j]) && cval(a, cells[j]) is Some
        },
    decreases cells.len() - from,
{
    if from < cells.len() {
        if !(connected(pairs, cells[i], cells[from]) && cval(a, cells[from]) is Some) {
            lemma_first_assigned_props(pairs, cells, a, i, from + 1);
        }
    }
}

/// A mismatch search over a class whose members all agree with `v` finds
/// nothing.
proof fn lemma_no_mismatch(
    pairs: Seq<(Cell, Cell)>,
    cells: Seq<Cell>,
    a: Assigner,
    i: int,
    v: Fp,
    from: int,
)
    requires
        0 <= from <= cells.len(),
        forall|t: int|
            0 <= t < cells.len() && connected(pairs, cells[i], #[trigger] cells[t]) ==> cval(
                a,
                cells[t],
            ) == Some(v),
    ensures
        first_mismatch_from(pairs, cells, a, i, v, from) == cells.len(),
    decreases cells.len() - from,
{
    if from < cells.len() {
        lemma_no_mismatch(pairs, cells, a, i, v, from + 1);
    }
}

/// When every recorded pair's cells agree, no class is inconsistent and the
/// copy check reports nothing.
pub proof fn lemma_offenses_empty(a: Assigner)
    requires
        forall|k: int|
            0 <= k < a.pairs@.len() ==> cval(a, (#[trigger] a.pairs@[k]).0) == cval(
                a,
                a.pairs@[k].1,
            ),
    ensures
        copy_offenses(a) == Seq::<(Cell, Cell)>::empty(),
{
    let pairs = a.pairs@;
    let cells = cell_list(pairs);
    lemma_connected_consistent(pairs, a);
    lemma_offenses_upto_empty(a, cells.len() as int);
    assert(copy_offenses(a) =~= Seq::<(Cell, Cell)>::empty());
}

/// Equality propagates along chains: when `x` is copy-constrained to `y` and
/// `y` to `z`, assigning `x` and `z` two different values surfaces exactly
/// one offense, naming the inconsistent class by its first assigned member
/// `x` and the first member disagreeing with it, `z` — even though `x` and
/// `z` were never directly linked.
pub proof fn lemma_equality_propagation(a: Assigner, x: Cell, y: Cell, z: Cell, u: Fp, w: Fp)
    requires
        a.pairs@ == seq![(x, y), (y, z)],
        x != y,
        y != z,
        x != z,
        cval(a, x) == Some(u),
        cval(a, z) == Some(w),
        cval(a, y) is None,
        u != w,
    ensures
        copy_offenses(a) == seq![(x, z)],
{
    reveal_with_fuel(connected, 4);
    reveal_with_fuel(cell_list, 3);
    reveal_with_fuel(first_assigned_from, 2);
    reveal_with_fuel(first_mismatch_from, 3);
    reveal_with_fuel(offenses_upto, 5);
    let e = Seq::<(Cell, Cell)>::empty();
    let s1 = seq![(x, y)];
    let s2 = a.pairs@;
    assert(s2.drop_last() =~= s1);
    assert(s2.last() == (y, z));
    assert(s1.drop_last() =~= e);
    assert(s1.last() == (x, y));

    // Connectivity over the two recorded pairs.
    assert(connected(s1, x, y));
    assert(connected(s1, y, y));
    assert(connected(s1, z, z));
    lemma_connected_refl(s2, x);
    assert(connected(s2, x, y));
    assert(connected(s2, x, z));

    // The listed cells, in first-occurrence order.
    assert(cell_list(s1) =~= seq![x, y]) by {
        assert(cell_list(e) =~= Seq::<Cell>::empty());
        assert(!Seq::<Cell>::empty().contains(x));
        assert(push_new(Seq::<Cell>::empty(), x) =~= seq![x]);
        assert(!seq![x].contains(y)) by {
            assert(forall|t: int| 0 <= t < 1 ==> seq![x][t] != y);
        }
        assert(push_new(seq![x], y) =~= seq![x, y]);
    }
    let cells = cell_list(s2);
    assert(cells =~= seq![x, y, z]) by {
        assert(seq![x, y][1] == y);
        assert(seq![x, y].contains(y));
        assert(push_new(seq![x, y], y) == seq![x, y]);
        assert(!seq![x, y].contains(z)) by {
            assert(forall|t: int| 0 <= t < 2 ==> seq![x, y][t] != z);
        }
        assert(push_new(seq![x, y], z) =~= seq![x, y, z]);
    }

    // The one class's representative is x; its first assigned member is x
    // and its first disagreeing member is z.
    assert(is_rep(s2, cells, 0));
    assert(!is_rep(s2, cells, 1)) by {
        assert(connected(s2, cells[0], cells[1]));
    }
    assert(!is_rep(s2, cells, 2)) by {
        assert(connected(s2, cells[0], cells[2]));
    }
    assert(first_assigned_from(s2, cells, a, 0, 0) == 0);
    assert(first_mismatch_from(s2, cells, a, 0, u, 2) == 2);
    assert(first_mismatch_from(s2, cells, a, 0, u, 1) == 2);
    assert(offenses_upto(s2, cells, a, 0) =~= Seq::<(Cell, Cell)>::empty());
    assert(offenses_upto(s2, cells, a, 1) =~= seq![(x, z)]);
    assert(offenses_upto(s2, cells, a, 2) =~= seq![(x, z)]);
    assert(offenses_upto(s2, cells, a, 3) =~= seq![(x, z)]);
    assert(copy_offenses(a) =~= seq![(x, z)]);
}

/// Decides membership in a cell list.
fn contains_cell(cells: &Vec<Cell>, c: Cell) -> (r: bool)
    ensures
        r == cells@.contains(c),
{
    let n = cells.len();
    let mut i: usize = 0;
    while i < n
        invariant
            i <= n,
            n == cells@.len(),
            forall|t: int| 0 <= t < i ==> cells@[t] != c,
        decreases n - i,
    {
        if cells[i] == c {
            proof {
                assert(cells@[i as int] == c);
            }
            return true;
        }
        i += 1;
    }
    false
}

/// Finds the position of a cell known to be listed.
fn find_cell(cells: &Vec<Cell>, c: Cell) -> (i: usize)
    requires
        cells@.contains(c),
    ensures
        i < cells@.len(),
        cells@[i as int] == c,
{
    let n = cells.len();
    let mut i: usize = 0;
    while i < n
        invariant
            i <= n,
            n == cells@.len(),
            cells@.contains(c),
            forall|t: int| 0 <= t < i ==> cells@[t] != c,
        decreases n - i,
    {
        if cells[i] == c {
            return i;
        }
        i += 1;
    }
    proof {
        let w = choose|w: int| 0 <= w < cells@.len() && cells@[w] == c;
        assert(false);
    }
    0
}

/// Lists every cell the recorded pairs mention, first occurrences in order.
fn collect_cells(pairs: &Vec<(Cell, Cell)>) -> (cells: Vec<Cell>)
    ensures
        cells@ == cell_list(pairs@),
{
    let m = pairs.len();
    let mut cells: Vec<Cell> = Vec::new();
    let mut k: usize = 0;
    proof {
        assert(pairs@.take(0) =~= Seq::<(Cell, Cell)>::empty());
    }
    while k < m
        invariant
            k <= m,
            m == pairs@.len(),
            cells@ == cell_list(pairs@.take(k as int)),
        decreases m - k,
    {
        let p = pairs[k];
        proof {
            assert(pairs@.take(k as int + 1).drop_last() =~= pairs@.take(k as int));
            assert(pairs@.take(k as int + 1).last() == pairs@[k as int]);
        }
        if !contains_cell(&cells, p.0) {
            cells.push(p.0);
        }
        if !contains_cell(&cells, p.1) {
            cells.push(p.1);
        }
        k += 1;
    }
    proof {
        assert(pairs@.take(m as int) =~= pairs@);
    }
    cells
}

/// Computes one label per listed cell so that two cells carry one label
/// exactly when the recorded pairs connect them: pairs are merged in one at a
/// time by relabeling the class that each new pair absorbs.
fn class_labels(pairs: &Vec<(Cell, Cell)>, cells: &Vec<Cell>) -> (labels: Vec<usize>)
    requires
        cells@ == cell_list(pairs@),
    ensures
        labels@.len() == cells@.len(),
        forall|i: int, j: int|
            0 <= i < cells@.len() && 0 <= j < cells@.len() ==> ((labels@[i] == labels@[j])
                <==> connected(pairs@, cells@[i], cells@[j])),
{
    let n = cells.len();
    let mut labels: Vec<usize> = Vec::new();
    let mut i: usize = 0;
    while i < n
        invariant
            i <= n,
            labels@.len() == i as int,
            forall|t: int| 0 <= t < i ==> labels@[t] == t,
        decreases n - i,
    {
        labels.push(i);
        i += 1;
    }
    proof {
        lemma_cell_list_props(pairs@);
        assert(pairs@.take(0) =~= Seq::<(Cell, Cell)>::empty());
    }
    let m = pairs.len();
    let mut k: usize = 0;
    while k < m
        invariant
            k <= m,
            m == pairs@.len(),
            n == cells@.len(),
            cells@ == cell_list(pairs@),
            labels@.len() == n as int,
            forall|i2: int, j2: int|
                0 <= i2 < n && 0 <= j2 < n ==> ((labels@[i2] == labels@[j2]) <==> connected(
                    pairs@.take(k as int),
                    cells@[i2],
                    cells@[j2],
                )),
        decreases m - k,
    {
        let p = pairs[k];
        proof {
            lemma_cell_list_props(pairs@);
            assert(pairs@[k as int] == p);
        }
        let ia = find_cell(cells, p.0);
        let ib = find_cell(cells, p.1);
        let la = labels[ia];
        let lb = labels[ib];
        let ghost labels0 = labels@;
        if la != lb {
            let mut j: usize = 0;
            while j < n
                invariant
                    j <= n,
                    n == cells@.len(),
                    labels@.len() == n as int,
                    labels0.len() == n as int,
                    forall|t: int|
                        0 <= t < n ==> labels@[t] == (if t < j && labels0[t] == lb {
                            la
                        } else {
                            labels0[t]
                        }),
                decreases n - j,
            {
                if labels[j] == lb {
                    labels[j] = la;
                }
                j += 1;
            }
        }
        proof {
            let prefix = pairs@.take(k as int);
            let full = pairs@.take(k as int + 1);
            assert(full.drop_last() =~= prefix);
            assert(full.last() == pairs@[k as int]);
            assert forall|i2: int, j2: int|
                0 <= i2 < n && 0 <= j2 < n implies ((labels@[i2] == labels@[j2]) <==> connected(
                full,
                cells@[i2],
                cells@[j2],
            )) by {
                let x = cells@[i2];
                let y = cells@[j2];
                assert(connected(full, x, y) == (connected(prefix, x, y) || (connected(
                    prefix,
                    x,
                    p.0,
                ) && connected(prefix, p.1, y)) || (connected(prefix, x, p.1) && connected(
                    prefix,
                    p.0,
                    y,
                ))));
                assert(connected(prefix, x, y) == (labels0[i2] == labels0[j2]));
                assert(connected(prefix, x, p.0) == (labels0[i2] == labels0[ia as int]));
                assert(connected(prefix, p.1, y) == (labels0[ib as int] == labels0[j2]));
                assert(connected(prefix, x, p.1) == (labels0[i2] == labels0[ib as int]));
                assert(connected(prefix, p.0, y) == (labels0[ia as int] == labels0[j2]));
                if la != lb {
                    assert(labels@[i2] == (if labels0[i2] == lb {
                        la
                    } else {
                        labels0[i2]
                    }));
                    assert(labels@[j2] == (if labels0[j2] == lb {
                        la
                    } else {
                        labels0[j2]
                    }));
                }
            }
        }
        k += 1;
    }
    proof {
        assert(pairs@.take(m as int) =~= pairs@);
    }
    labels
}

/// The bundle of facts the offense scans carry: the cells are exactly the
/// listed ones, they lie in the table, and labels mirror connectivity.
spec fn scan_ctx(a: Assigner, cells: Seq<Cell>, labels: Seq<usize>) -> bool {
    &&& a.wf()
    &&& cells == cell_list(a.pairs@)
    &&& labels.len() == cells.len()
    &&& forall|i: int|
        0 <= i < cells.len() ==> (#[trigger] cells[i]).col < a.kinds@.len() && cells[i].row
            < a.n_rows
    &&& forall|i: int, j: int|
        0 <= i < cells.len() && 0 <= j < cells.len() ==> ((labels[i] == labels[j]) <==> connected(
            a.pairs@,
            cells[i],
            cells[j],
        ))
}

/// Decides whether `cells[i]` opens a new class.
fn is_rep_exec(a: &Assigner, cells: &Vec<Cell>, labels: &Vec<usize>, i: usize) -> (r: bool)
    requires
        scan_ctx(*a, cells@, labels@),
        i < cells@.len(),
    ensures
        r == is_rep(a.pairs@, cells@, i as int),
{
    let li = labels[i];
    let mut j: usize = 0;
    let mut r = true;
    while j < i
        invariant
            j <= i,
            i < cells@.len(),
            scan_ctx(*a, cells@, labels@),
            li == labels@[i as int],
            r == (forall|t: int|
                0 <= t < j ==> !connected(a.pairs@, #[trigger] cells@[t], cells@[i as int])),
        decreases i - j,
    {
        if labels[j] == li {
            proof {
                assert(connected(a.pairs@, cells@[j as int], cells@[i as int]));
            }
            r = false;
        }
        j += 1;
    }
    r
}

/// Finds the first listed cell of the class of `cells[i]`, at or after
/// `from`, that holds a value.
fn scan_assigned(a: &Assigner, cells: &Vec<Cell>, labels: &Vec<usize>, i: usize, from: usize) -> (r:
    usize)
    requires
        scan_ctx(*a, cells@, labels@),
        i < cells@.len(),
        from <= cells@.len(),
    ensures
        r as int == first_assigned_from(a.pairs@, cells@, *a, i as int, from as int),
        r <= cells@.len(),
{
    let n = cells.len();
    let li = labels[i];
    let mut t: usize = from;
    while t < n
        invariant
            from <= t <= n,
            n == cells@.len(),
            i < n,
            scan_ctx(*a, cells@, labels@),
            li == labels@[i as int],
            first_assigned_from(a.pairs@, cells@, *a, i as int, from as int)
                == first_assigned_from(a.pairs@, cells@, *a, i as int, t as int),
        decreases n - t,
    {
        let c = cells[t];
        let hit = labels[t] == li && a.get(c).is_some();
        proof {
            assert((labels@[t as int] == labels@[i as int]) <==> connected(
                a.pairs@,
                cells@[t as int],
                cells@[i as int],
            ));
            lemma_connected_sym(a.pairs@, cells@[t as int], cells@[i as int]);
        }
        if hit {
            return t;
        }
        t += 1;
    }
    n
}

/// Finds the first listed cell of the class of `cells[i]`, at or after
/// `from`, assigned a value other than `v`.
fn scan_mismatch(
    a: &Assigner,
    cells: &Vec<Cell>,
    labels: &Vec<usize>,
    i: usize,
    v: Fp,
    from: usize,
) -> (r: usize)
    requires
        scan_ctx(*a, cells@, labels@),
        i < cells@.len(),
        from <= cells@.len(),
    ensures
        r as int == first_mismatch_from(a.pairs@, cells@, *a, i as int, v, from as int),
        r <= cells@.len(),
{
    let n = cells.len();
    let li = labels[i];
    let mut t: usize = from;
    while t < n
        invariant
            from <= t <= n,
            n == cells@.len(),
            i < n,
            scan_ctx(*a, cells@, labels@),
            li == labels@[i as int],
            first_mismatch_from(a.pairs@, cells@, *a, i as int, v, from as int)
                == first_mismatch_from(a.pairs@, cells@, *a, i as int, v, t as int),
        decreases n - t,
    {
        let c = cells[t];
        let hit = labels[t] == li && match a.get(c) {
            Some(w) => w != v,
            None => false,
        };
        proof {
            assert((labels@[t as int] == labels@[i as int]) <==> connected(
                a.pairs@,
                cells@[t as int],
                cells@[i as int],
            ));
            lemma_connected_sym(a.pairs@, cells@[t as int], cells@[i as int]);
        }
        if hit {
            return t;
        }
        t += 1;
    }
    n
}

/// Walks every copy-constraint class of the assignment and reports one
/// offending cell pair for each class whose assigned members disagree.
pub fn copy_scan(a: &Assigner) -> (r: Vec<(Cell, Cell)>)
    requires
        a.wf(),
    ensures
        r@ == copy_offenses(*a),
{
    let cells = collect_cells(&a.pairs);
    let labels = class_labels(&a.pairs, &cells);
    proof {
        lemma_cell_list_bounds(a.pairs@, a.kinds@.len() as int, a.n_rows as int);
    }
    let n = cells.len();
    let mut res: Vec<(Cell, Cell)> = Vec::new();
    let mut i: usize = 0;
    while i < n
        invariant
            i <= n,
            n == cells@.len(),
            scan_ctx(*a, cells@, labels@),
            res@ == offenses_upto(a.pairs@, cells@, *a, i as int),
        decreases n - i,
    {
        if is_rep_exec(a, &cells, &labels, i) {
            let j = scan_assigned(a, &cells, &labels, i, 0);
            if j < n {
                match a.get(cells[j]) {
                    Some(v) => {
                        let k = scan_mismatch(a, &cells, &labels, i, v, j + 1);
                        if k < n {
                            res.push((cells[j], cells[k]));
                        }
                    },
                    None => {},
                }
            }
        }
        i += 1;
    }
    res
}

/// Helper induction for [`lemma_offenses_empty`].
proof fn lemma_offenses_upto_empty(a: Assigner, n: int)
    requires
        n <= cell_list(a.pairs@).len(),
        forall|x: Cell, y: Cell| #[trigger]
            connected(a.pairs@, x, y) ==> cval(a, x) == cval(a, y),
    ensures
        offenses_upto(a.pairs@, cell_list(a.pairs@), a, n) == Seq::<(Cell, Cell)>::empty(),
    decreases n,
{
    let pairs = a.pairs@;
    let cells = cell_list(pairs);
    if n <= 0 {
        assert(offenses_upto(pairs, cells, a, n) =~= Seq::<(Cell, Cell)>::empty());
    } else {
        lemma_offenses_upto_empty(a, n - 1);
        let i = n - 1;
        if is_rep(pairs, cells, i) {
            lemma_first_assigned_props(pairs, cells, a, i, 0);
            let j = first_assigned_from(pairs, cells, a, i, 0);
            if j < cells.len() {
                match cval(a, cells[j]) {
                    Some(v) => {
                        assert forall|t: int|
                            0 <= t < cells.len() && connected(pairs, cells[i], #[trigger] cells[t])
                                implies cval(a, cells[t]) == Some(v) by {
                            lemma_connected_sym(pairs, cells[i], cells[t]);
                            lemma_connected_trans(pairs, cells[t], cells[i], cells[j]);
                            assert(cval(a, cells[t]) == cval(a, cells[j]));
                        }
                        lemma_no_mismatch(pairs, cells, a, i, v, j + 1);
                    },
                    None => {},
                }
            }
        }
    }
}

} // verus!
