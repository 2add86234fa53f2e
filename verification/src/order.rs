//! Where the entries of one directory stand in its rows: subdirectories in
//! stored order, then files in stored order.

use crate::tree::{dir_row, file_row, file_rows, Dir};
use vstd::prelude::*;

verus! {

/// Position, in the rows of `d`, of the row of its `k`-th subdirectory.
pub open spec fn dir_position(d: Dir, k: nat, depth: usize, all: bool) -> nat {
    d.rows_before(k, depth, all).len()
}

/// Position, in the rows of `d`, of the row of its `j`-th file.
pub open spec fn file_position(d: Dir, j: nat, depth: usize, all: bool) -> nat {
    d.rows_before(d.sub_dirs.len() as nat, depth, all).len() + j
}

/// The rows of the first `k` subdirectories open those of the first `m`,
/// and the row of subdirectory `k` follows them directly.
proof fn lemma_before_prefix(d: Dir, k: nat, m: nat, depth: usize, all: bool)
    requires
        k < m <= d.sub_dirs.len(),
    ensures
        d.rows_before(k, depth, all).len() < d.rows_before(m, depth, all).len(),
        d.rows_before(m, depth, all).take(d.rows_before(k, depth, all).len() as int)
            == d.rows_before(k, depth, all),
        d.rows_before(m, depth, all)[d.rows_before(k, depth, all).len() as int] == dir_row(
            d.sub_dirs[k as int],
            depth,
        ),
    decreases m,
{
    let prev = d.rows_before((m - 1) as nat, depth, all);
    let cur = d.rows_before(m, depth, all);
    let here = d.rows_before(k, depth, all);
    assert(cur.take(prev.len() as int) =~= prev);
    assert(cur[prev.len() as int] == dir_row(d.sub_dirs[m - 1], depth));
    if k + 1 < m {
        lemma_before_prefix(d, k, (m - 1) as nat, depth, all);
        assert(cur.take(here.len() as int) =~= prev.take(here.len() as int));
    }
}

/// In the rows of a directory, the rows of its subdirectories stand in stored
/// order, all of them before any of its files, and the rows of its files
/// close the list, in stored order.
pub proof fn lemma_dirs_before_files(d: Dir, depth: usize, all: bool)
    ensures
        forall|k: nat|
            k < d.sub_dirs.len() ==> dir_position(d, k, depth, all) < file_position(d, 0, depth, all)
                && d.rows(depth, all)[#[trigger] dir_position(d, k, depth, all) as int] == dir_row(
                d.sub_dirs[k as int],
                depth,
            ),
        forall|k1: nat, k2: nat|
            k1 < k2 < d.sub_dirs.len() ==> #[trigger] dir_position(d, k1, depth, all)
                < #[trigger] dir_position(d, k2, depth, all),
        d.rows(depth, all).len() == file_position(d, 0, depth, all) + d.sub_files.len(),
        forall|j: nat|
            j < d.sub_files.len() ==> d.rows(depth, all)[#[trigger] file_position(d, j, depth, all) as int]
                == file_row(d.sub_files[j as int], depth),
{
    let n = d.sub_dirs.len() as nat;
    assert forall|k: nat| k < d.sub_dirs.len() implies dir_position(d, k, depth, all) < file_position(
        d,
        0,
        depth,
        all,
    ) && d.rows(depth, all)[#[trigger] dir_position(d, k, depth, all) as int] == dir_row(
        d.sub_dirs[k as int],
        depth,
    ) by {
        lemma_before_prefix(d, k, n, depth, all);
    }
    assert forall|k1: nat, k2: nat| k1 < k2 < d.sub_dirs.len() implies #[trigger] dir_position(
        d,
        k1,
        depth,
        all,
    ) < #[trigger] dir_position(d, k2, depth, all) by {
        lemma_before_prefix(d, k1, k2, depth, all);
    }
    assert forall|j: nat| j < d.sub_files.len() implies d.rows(depth, all)[#[trigger] file_position(
        d,
        j,
        depth,
        all,
    ) as int] == file_row(d.sub_files[j as int], depth) by {
        assert(file_rows(d.sub_files@, depth)[j as int] == file_row(d.sub_files[j as int], depth));
    }
}

} // verus!
