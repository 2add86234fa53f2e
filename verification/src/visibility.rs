//! Which entries of a tree have a row: exactly those reached from the root
//! through walked directories only.
//!
//! An entry is addressed by the positions of the subdirectories to follow
//! from the root; a file, in addition, by its position in the directory so
//! reached.

use crate::tree::{dir_row, file_row, file_rows, next_depth, Dir, Row};
use vstd::prelude::*;

verus! {

/// `path` leads from `d` to a directory, and every directory passed on the
/// way (the target itself excepted) is walked.
pub open spec fn dir_shown(d: Dir, path: Seq<int>, all: bool) -> bool
    decreases path.len(),
{
    &&& path.len() > 0
    &&& 0 <= path[0] < d.sub_dirs.len()
    &&& path.len() > 1 ==> Dir::descends(d.sub_dirs[path[0]], all) && dir_shown(
        d.sub_dirs[path[0]],
        path.drop_first(),
        all,
    )
}

/// `path` leads from `d` to a directory that holds a file `j`, and every
/// directory passed on the way (the target included) is walked.
pub open spec fn file_shown(d: Dir, path: Seq<int>, j: int, all: bool) -> bool
    decreases path.len(),
{
    if path.len() == 0 {
        0 <= j < d.sub_files.len()
    } else {
        &&& 0 <= path[0] < d.sub_dirs.len()
        &&& Dir::descends(d.sub_dirs[path[0]], all)
        &&& file_shown(d.sub_dirs[path[0]], path.drop_first(), j, all)
    }
}

/// The row of the directory that `path` leads to, where the children of `d`
/// have the depth `depth`.
pub open spec fn dir_row_at(d: Dir, path: Seq<int>, depth: usize) -> Row
    decreases path.len(),
{
    if path.len() <= 1 {
        dir_row(d.sub_dirs[path[0]], depth)
    } else {
        dir_row_at(d.sub_dirs[path[0]], path.drop_first(), next_depth(depth))
    }
}

/// The row of file `j` of the directory that `path` leads to.
pub open spec fn file_row_at(d: Dir, path: Seq<int>, j: int, depth: usize) -> Row
    decreases path.len(),
{
    if path.len() == 0 {
        file_row(d.sub_files[j], depth)
    } else {
        file_row_at(d.sub_dirs[path[0]], path.drop_first(), j, next_depth(depth))
    }
}

/// `r` is the row of an entry of `d` that is reached through walked
/// directories only.
pub open spec fn row_of_shown(d: Dir, r: Row, depth: usize, all: bool) -> bool {
    ||| exists|path: Seq<int>| #[trigger] dir_shown(d, path, all) && r == dir_row_at(d, path, depth)
    ||| exists|path: Seq<int>, j: int| #[trigger]
        file_shown(d, path, j, all) && r == file_row_at(d, path, j, depth)
}

/// An entry shown below the subdirectory `k` of `d`, which is walked, is
/// shown below `d`, by the address that starts with `k`.
proof fn lemma_lift(d: Dir, k: int, r: Row, depth: usize, all: bool)
    requires
        0 <= k < d.sub_dirs.len(),
        Dir::descends(d.sub_dirs[k], all),
        row_of_shown(d.sub_dirs[k], r, next_depth(depth), all),
    ensures
        row_of_shown(d, r, depth, all),
{
    let c = d.sub_dirs[k];
    if exists|path: Seq<int>| #[trigger] dir_shown(c, path, all) && r == dir_row_at(c, path, next_depth(depth)) {
        let p = choose|path: Seq<int>| #[trigger]
            dir_shown(c, path, all) && r == dir_row_at(c, path, next_depth(depth));
        let q = seq![k] + p;
        assert(q.drop_first() =~= p);
        assert(dir_shown(d, q, all));
        assert(r == dir_row_at(d, q, depth));
    } else {
        let (p, j) = choose|path: Seq<int>, j: int| #[trigger]
            file_shown(c, path, j, all) && r == file_row_at(c, path, j, next_depth(depth));
        let q = seq![k] + p;
        assert(q.drop_first() =~= p);
        assert(file_shown(d, q, j, all));
        assert(r == file_row_at(d, q, j, depth));
    }
}

proof fn lemma_rows_shown_before(d: Dir, k: nat, depth: usize, all: bool)
    requires
        k <= d.sub_dirs.len(),
    ensures
        forall|i: int|
            0 <= i < d.rows_before(k, depth, all).len() ==> row_of_shown(
                d,
                #[trigger] d.rows_before(k, depth, all)[i],
                depth,
                all,
            ),
    decreases d, k,
{
    if k > 0 {
        let c = d.sub_dirs[k - 1];
        let prev = d.rows_before((k - 1) as nat, depth, all);
        let cur = d.rows_before(k, depth, all);
        lemma_rows_shown_before(d, (k - 1) as nat, depth, all);
        if Dir::descends(c, all) {
            lemma_rows_shown(c, next_depth(depth), all);
        }
        assert forall|i: int| 0 <= i < cur.len() implies row_of_shown(d, #[trigger] cur[i], depth, all) by {
            if i < prev.len() {
                assert(cur[i] == prev[i]);
            } else if i == prev.len() {
                let q = seq![k - 1];
                assert(dir_shown(d, q, all));
                assert(cur[i] == dir_row_at(d, q, depth));
            } else {
                let below = c.rows(next_depth(depth), all);
                assert(cur[i] == below[i - prev.len() - 1]);
                lemma_lift(d, k - 1, cur[i], depth, all);
            }
        }
    }
}

/// Every row of the flattening belongs to an entry that is reached through
/// walked directories only: with `all` unset, nothing below a collapsed
/// directory has a row.
pub proof fn lemma_rows_shown(d: Dir, depth: usize, all: bool)
    ensures
        forall|i: int|
            0 <= i < d.rows(depth, all).len() ==> row_of_shown(d, #[trigger] d.rows(depth, all)[i], depth, all),
    decreases d, d.sub_dirs.len() + 1,
{
    let before = d.rows_before(d.sub_dirs.len() as nat, depth, all);
    let rows = d.rows(depth, all);
    lemma_rows_shown_before(d, d.sub_dirs.len() as nat, depth, all);
    assert forall|i: int| 0 <= i < rows.len() implies row_of_shown(d, #[trigger] rows[i], depth, all) by {
        if i < before.len() {
            assert(rows[i] == before[i]);
        } else {
            let j = i - before.len();
            let q = Seq::<int>::empty();
            assert(file_shown(d, q, j, all));
            assert(rows[i] == file_row_at(d, q, j, depth));
        }
    }
}

/// The rows of the first `m` subdirectories hold the row of subdirectory `k`
/// and, if it is walked, every row of its subtree.
proof fn lemma_child_within(d: Dir, k: int, m: nat, depth: usize, all: bool)
    requires
        0 <= k < m <= d.sub_dirs.len(),
    ensures
        d.rows_before(m, depth, all).contains(dir_row(d.sub_dirs[k], depth)),
        Dir::descends(d.sub_dirs[k], all) ==> forall|r: Row|
            d.sub_dirs[k].rows(next_depth(depth), all).contains(r) ==> #[trigger] d.rows_before(
                m,
                depth,
                all,
            ).contains(r),
    decreases m,
{
    let prev = d.rows_before((m - 1) as nat, depth, all);
    let cur = d.rows_before(m, depth, all);
    if k + 1 < m {
        lemma_child_within(d, k, (m - 1) as nat, depth, all);
        assert forall|r: Row| prev.contains(r) implies cur.contains(r) by {
            let i = choose|i: int| 0 <= i < prev.len() && prev[i] == r;
            assert(cur[i] == r);
        }
    } else {
        let c = d.sub_dirs[k];
        assert(cur[prev.len() as int] == dir_row(c, depth));
        if Dir::descends(c, all) {
            let below = c.rows(next_depth(depth), all);
            assert forall|r: Row| below.contains(r) implies cur.contains(r) by {
                let i = choose|i: int| 0 <= i < below.len() && below[i] == r;
                assert(cur[prev.len() + 1 + i] == r);
            }
        }
    }
}

/// Every row of subdirectories is a row of the directory.
proof fn lemma_before_within(d: Dir, depth: usize, all: bool)
    ensures
        forall|r: Row|
            d.rows_before(d.sub_dirs.len() as nat, depth, all).contains(r) ==> #[trigger] d.rows(
                depth,
                all,
            ).contains(r),
{
    let before = d.rows_before(d.sub_dirs.len() as nat, depth, all);
    assert forall|r: Row| before.contains(r) implies #[trigger] d.rows(depth, all).contains(r) by {
        let i = choose|i: int| 0 <= i < before.len() && before[i] == r;
        assert(d.rows(depth, all)[i] == r);
    }
}

/// Every directory that is reached through walked directories only has its
/// row in the flattening.
pub proof fn lemma_shown_dir_has_row(d: Dir, path: Seq<int>, depth: usize, all: bool)
    requires
        dir_shown(d, path, all),
    ensures
        d.rows(depth, all).contains(dir_row_at(d, path, depth)),
    decreases path.len(),
{
    let k = path[0];
    lemma_child_within(d, k, d.sub_dirs.len() as nat, depth, all);
    lemma_before_within(d, depth, all);
    if path.len() > 1 {
        lemma_shown_dir_has_row(d.sub_dirs[k], path.drop_first(), next_depth(depth), all);
    }
}

/// Every file that is reached through walked directories only has its row in
/// the flattening.
pub proof fn lemma_shown_file_has_row(d: Dir, path: Seq<int>, j: int, depth: usize, all: bool)
    requires
        file_shown(d, path, j, all),
    ensures
        d.rows(depth, all).contains(file_row_at(d, path, j, depth)),
    decreases path.len(),
{
    if path.len() == 0 {
        let before = d.rows_before(d.sub_dirs.len() as nat, depth, all);
        assert(file_rows(d.sub_files@, depth)[j] == file_row(d.sub_files[j], depth));
        assert(d.rows(depth, all)[before.len() + j] == file_row(d.sub_files[j], depth));
    } else {
        let k = path[0];
        lemma_child_within(d, k, d.sub_dirs.len() as nat, depth, all);
        lemma_before_within(d, depth, all);
        lemma_shown_file_has_row(d.sub_dirs[k], path.drop_first(), j, next_depth(depth), all);
    }
}

} // verus!
