//! The directory tree and its flattening into rows.

use vstd::prelude::*;

verus! {

/// One directory of the indexed subtree, owning its children.
#[derive(Debug)]
pub struct Dir {
    pub id: String,
    pub full_path: String,
    pub name: String,
    pub sub_dirs: Vec<Dir>,
    /// `(id, name)` of each file directly inside this directory.
    pub sub_files: Vec<(String, String)>,
    pub expanded: bool,
}

#[derive(Clone, Copy, Debug, PartialEq, Eq, Structural)]
pub enum EntryKind {
    Directory,
    File,
}

/// One line of the flattened view.
#[derive(Debug)]
pub struct Row {
    pub id: String,
    pub kind: EntryKind,
    pub name: String,
    /// Full path of a directory; the bare name of a file.
    pub path: String,
    /// Number of ancestor directories below the root.
    pub depth: usize,
}

/// The part of a row that does not depend on identifiers.
pub struct RowShape {
    pub kind: EntryKind,
    pub name: Seq<char>,
    pub depth: nat,
}

impl Row {
    /// Kind, name and depth of the row.
    pub open spec fn shape(self) -> RowShape {
        RowShape { kind: self.kind, name: self.name@, depth: self.depth as nat }
    }
}

/// Depth of the children of a directory at `depth`. It stops growing at the
/// largest `usize`: no tree held in memory is that deep.
pub open spec fn next_depth(depth: usize) -> usize {
    if depth < usize::MAX {
        (depth + 1) as usize
    } else {
        depth
    }
}

/// The row of the directory `d` at depth `depth`.
pub open spec fn dir_row(d: Dir, depth: usize) -> Row {
    Row { id: d.id, kind: EntryKind::Directory, name: d.name, path: d.full_path, depth }
}

/// The row of the file `f`, given as `(id, name)`, at depth `depth`.
pub open spec fn file_row(f: (String, String), depth: usize) -> Row {
    Row { id: f.0, kind: EntryKind::File, name: f.1, path: f.1, depth }
}

/// The rows of the files `fs`, in order.
pub open spec fn file_rows(fs: Seq<(String, String)>, depth: usize) -> Seq<Row> {
    Seq::new(fs.len(), |j: int| file_row(fs[j], depth))
}

impl Dir {
    /// Whether the subtree of child `c` is walked: always when `all` is set,
    /// else only when the child is expanded.
    pub open spec fn descends(c: Dir, all: bool) -> bool {
        all || c.expanded
    }

    /// The rows that the first `k` subdirectories contribute, each directory's
    /// own row directly followed by the rows of its subtree if it is walked.
    pub open spec fn rows_before(self, k: nat, depth: usize, all: bool) -> Seq<Row>
        decreases self, k,
    {
        if k == 0 || k > self.sub_dirs.len() {
            Seq::empty()
        } else {
            let c = self.sub_dirs[k - 1];
            self.rows_before((k - 1) as nat, depth, all) + seq![dir_row(c, depth)] + (if Self::descends(
                c,
                all,
            ) {
                c.rows(next_depth(depth), all)
            } else {
                Seq::empty()
            })
        }
    }

    /// The rows below this directory in depth-first pre-order: all
    /// subdirectories (with their walked subtrees) first, then the files. The
    /// directory itself is no row. With `all` unset, collapsed directories hide
    /// their contents; with `all` set, every entry of the tree is listed.
    pub open spec fn rows(self, depth: usize, all: bool) -> Seq<Row>
        decreases self, self.sub_dirs.len() + 1,
    {
        self.rows_before(self.sub_dirs.len() as nat, depth, all) + file_rows(self.sub_files@, depth)
    }
}

fn step_depth(depth: usize) -> (r: usize)
    ensures
        r == next_depth(depth),
{
    if depth < usize::MAX {
        depth + 1
    } else {
        depth
    }
}

fn flatten_into(d: &Dir, depth: usize, all: bool, out: &mut Vec<Row>)
    ensures
        final(out)@ == old(out)@ + d.rows(depth, all),
    decreases d,
{
    let ghost start = out@;
    let mut k: usize = 0;
    while k < d.sub_dirs.len()
        invariant
            k <= d.sub_dirs.len(),
            out@ == start + d.rows_before(k as nat, depth, all),
        decreases d.sub_dirs.len() - k,
    {
        let c = &d.sub_dirs[k];
        let ghost before = out@;
        out.push(
            Row {
                id: c.id.clone(),
                kind: EntryKind::Directory,
                name: c.name.clone(),
                path: c.full_path.clone(),
                depth,
            },
        );
        if all || c.expanded {
            flatten_into(c, step_depth(depth), all, out);
        }
        proof {
            assert(out@ =~= before + seq![dir_row(*c, depth)] + (if Dir::descends(*c, all) {
                c.rows(next_depth(depth), all)
            } else {
                Seq::empty()
            }));
            assert(out@ =~= start + d.rows_before((k + 1) as nat, depth, all));
        }
        k += 1;
    }
    let ghost mid = out@;
    let mut j: usize = 0;
    while j < d.sub_files.len()
        invariant
            j <= d.sub_files.len(),
            out@ == mid + file_rows(d.sub_files@, depth).take(j as int),
        decreases d.sub_files.len() - j,
    {
        let f = &d.sub_files[j];
        out.push(
            Row { id: f.0.clone(), kind: EntryKind::File, name: f.1.clone(), path: f.1.clone(), depth },
        );
        proof {
            assert(out@ =~= mid + file_rows(d.sub_files@, depth).take(j + 1));
        }
        j += 1;
    }
    proof {
        assert(file_rows(d.sub_files@, depth).take(j as int) =~= file_rows(d.sub_files@, depth));
        assert(out@ =~= start + d.rows(depth, all));
    }
}

/// Flattens the tree below `root` into the rows that are visible: every
/// entry all of whose ancestors below the root are expanded.
pub fn flatten(root: &Dir) -> (rows: Vec<Row>)
    ensures
        rows@ == root.rows(0, false),
{
    let mut out: Vec<Row> = Vec::new();
    flatten_into(root, 0, false, &mut out);
    out
}

/// The visible rows below `d`, where the children of `d` have the depth
/// `depth`.
pub fn flatten_from(d: &Dir, depth: usize) -> (rows: Vec<Row>)
    ensures
        rows@ == d.rows(depth, false),
{
    let mut out: Vec<Row> = Vec::new();
    flatten_into(d, depth, false, &mut out);
    out
}

/// Lists every entry of the tree below `root`, whatever is expanded.
pub fn flatten_all(root: &Dir) -> (rows: Vec<Row>)
    ensures
        rows@ == root.rows(0, true),
{
    let mut out: Vec<Row> = Vec::new();
    flatten_into(root, 0, true, &mut out);
    out
}

/// `new` is `old` with every directory whose identifier is `id` expanded, and
/// nothing else changed.
pub open spec fn expanded_from(new: Dir, old: Dir, id: Seq<char>) -> bool
    decreases new,
{
    &&& new.id == old.id
    &&& new.full_path == old.full_path
    &&& new.name == old.name
    &&& new.sub_files@ == old.sub_files@
    &&& new.expanded == (old.expanded || old.id@ == id)
    &&& new.sub_dirs.len() == old.sub_dirs.len()
    &&& forall|i: int|
        0 <= i < new.sub_dirs.len() ==> expanded_from(#[trigger] new.sub_dirs[i], old.sub_dirs[i], id)
}

/// A copy of the tree `d` in which every directory with the identifier `id`
/// is expanded. There is no way to collapse a directory again.
pub fn expand(d: &Dir, id: &String) -> (new: Dir)
    ensures
        expanded_from(new, *d, id@),
    decreases d,
{
    let mut sub_dirs: Vec<Dir> = Vec::new();
    let mut k: usize = 0;
    while k < d.sub_dirs.len()
        invariant
            k <= d.sub_dirs.len(),
            sub_dirs.len() == k,
            forall|i: int|
                0 <= i < k ==> expanded_from(#[trigger] sub_dirs[i], d.sub_dirs[i], id@),
        decreases d.sub_dirs.len() - k,
    {
        let c = expand(&d.sub_dirs[k], id);
        sub_dirs.push(c);
        k += 1;
    }
    let mut sub_files: Vec<(String, String)> = Vec::new();
    let mut j: usize = 0;
    while j < d.sub_files.len()
        invariant
            j <= d.sub_files.len(),
            sub_files@ == d.sub_files@.take(j as int),
        decreases d.sub_files.len() - j,
    {
        let f = &d.sub_files[j];
        sub_files.push((f.0.clone(), f.1.clone()));
        proof {
            assert(sub_files@ =~= d.sub_files@.take(j + 1));
        }
        j += 1;
    }
    proof {
        assert(d.sub_files@.take(j as int) =~= d.sub_files@);
    }
    Dir {
        id: d.id.clone(),
        full_path: d.full_path.clone(),
        name: d.name.clone(),
        sub_dirs,
        sub_files,
        expanded: d.expanded || d.id == *id,
    }
}

/// Every element of `a` occurs in `b`.
pub open spec fn all_within(a: Seq<Row>, b: Seq<Row>) -> bool {
    forall|i: int| 0 <= i < a.len() ==> b.contains(#[trigger] a[i])
}

proof fn lemma_within_concat(a1: Seq<Row>, b1: Seq<Row>, a2: Seq<Row>, b2: Seq<Row>)
    requires
        all_within(a1, b1),
        all_within(a2, b2),
    ensures
        all_within(a1 + a2, b1 + b2),
{
    assert forall|i: int| 0 <= i < (a1 + a2).len() implies (b1 + b2).contains(
        #[trigger] (a1 + a2)[i],
    ) by {
        if i < a1.len() {
            let j = choose|j: int| 0 <= j < b1.len() && b1[j] == a1[i];
            assert((b1 + b2)[j] == a1[i]);
        } else {
            let j = choose|j: int| 0 <= j < b2.len() && b2[j] == a2[i - a1.len()];
            assert((b1 + b2)[b1.len() + j] == a2[i - a1.len()]);
        }
    }
}

proof fn lemma_within_self(a: Seq<Row>)
    ensures
        all_within(a, a),
{
    assert forall|i: int| 0 <= i < a.len() implies a.contains(#[trigger] a[i]) by {
        assert(a[i] == a[i]);
    }
}

proof fn lemma_expand_before(new: Dir, old: Dir, id: Seq<char>, k: nat, depth: usize)
    requires
        expanded_from(new, old, id),
        k <= new.sub_dirs.len(),
    ensures
        new.rows_before(k, depth, true) == old.rows_before(k, depth, true),
        new.rows_before(k, depth, false).len() >= old.rows_before(k, depth, false).len(),
        all_within(old.rows_before(k, depth, false), new.rows_before(k, depth, false)),
    decreases new, k,
{
    if k > 0 {
        let c = new.sub_dirs[k - 1];
        let b = old.sub_dirs[k - 1];
        assert(expanded_from(c, b, id));
        lemma_expand_before(new, old, id, (k - 1) as nat, depth);
        lemma_expand_rows(c, b, id, next_depth(depth));
        assert(dir_row(c, depth) == dir_row(b, depth));
        let one = seq![dir_row(c, depth)];
        lemma_within_self(one);
        lemma_within_concat(
            old.rows_before((k - 1) as nat, depth, false),
            new.rows_before((k - 1) as nat, depth, false),
            one,
            one,
        );
        let was: Seq<Row> = if b.expanded {
            b.rows(next_depth(depth), false)
        } else {
            Seq::empty()
        };
        let is: Seq<Row> = if c.expanded {
            c.rows(next_depth(depth), false)
        } else {
            Seq::empty()
        };
        lemma_within_concat(
            old.rows_before((k - 1) as nat, depth, false) + one,
            new.rows_before((k - 1) as nat, depth, false) + one,
            was,
            is,
        );
    }
}

/// Expanding directories leaves the full listing of the tree as it was, and
/// takes no row away from the visible ones: every row that was visible
/// still is.
pub proof fn lemma_expand_rows(new: Dir, old: Dir, id: Seq<char>, depth: usize)
    requires
        expanded_from(new, old, id),
    ensures
        new.rows(depth, true) == old.rows(depth, true),
        new.rows(depth, false).len() >= old.rows(depth, false).len(),
        all_within(old.rows(depth, false), new.rows(depth, false)),
    decreases new, new.sub_dirs.len() + 1,
{
    lemma_expand_before(new, old, id, new.sub_dirs.len() as nat, depth);
    let files = file_rows(new.sub_files@, depth);
    lemma_within_self(files);
    lemma_within_concat(
        old.rows_before(new.sub_dirs.len() as nat, depth, false),
        new.rows_before(new.sub_dirs.len() as nat, depth, false),
        files,
        files,
    );
}

proof fn lemma_expand_again_before(
    twice: Dir,
    once: Dir,
    old: Dir,
    id: Seq<char>,
    k: nat,
    depth: usize,
    all: bool,
)
    requires
        expanded_from(once, old, id),
        expanded_from(twice, once, id),
        k <= twice.sub_dirs.len(),
    ensures
        twice.rows_before(k, depth, all) == once.rows_before(k, depth, all),
    decreases twice, k,
{
    if k > 0 {
        let c = twice.sub_dirs[k - 1];
        let b = once.sub_dirs[k - 1];
        let a = old.sub_dirs[k - 1];
        assert(expanded_from(c, b, id));
        assert(expanded_from(b, a, id));
        lemma_expand_again_before(twice, once, old, id, (k - 1) as nat, depth, all);
        lemma_expand_again(c, b, a, id, next_depth(depth), all);
        assert(dir_row(c, depth) == dir_row(b, depth));
    }
}

/// Expanding the same directory a second time changes no row.
pub proof fn lemma_expand_again(
    twice: Dir,
    once: Dir,
    old: Dir,
    id: Seq<char>,
    depth: usize,
    all: bool,
)
    requires
        expanded_from(once, old, id),
        expanded_from(twice, once, id),
    ensures
        twice.rows(depth, all) == once.rows(depth, all),
    decreases twice, twice.sub_dirs.len() + 1,
{
    lemma_expand_again_before(twice, once, old, id, twice.sub_dirs.len() as nat, depth, all);
}

proof fn lemma_visible_before(d: Dir, k: nat, depth: usize)
    requires
        k <= d.sub_dirs.len(),
    ensures
        all_within(d.rows_before(k, depth, false), d.rows_before(k, depth, true)),
    decreases d, k,
{
    if k > 0 {
        let c = d.sub_dirs[k - 1];
        lemma_visible_before(d, (k - 1) as nat, depth);
        let one = seq![dir_row(c, depth)];
        lemma_within_self(one);
        lemma_within_concat(
            d.rows_before((k - 1) as nat, depth, false),
            d.rows_before((k - 1) as nat, depth, true),
            one,
            one,
        );
        let below = c.rows(next_depth(depth), true);
        let shown = if c.expanded {
            c.rows(next_depth(depth), false)
        } else {
            Seq::empty()
        };
        if c.expanded {
            lemma_visible_listed(c, next_depth(depth));
        }
        lemma_within_concat(
            d.rows_before((k - 1) as nat, depth, false) + one,
            d.rows_before((k - 1) as nat, depth, true) + one,
            shown,
            below,
        );
    }
}

/// Every visible row is also a row of the full listing of the tree.
pub proof fn lemma_visible_listed(d: Dir, depth: usize)
    ensures
        all_within(d.rows(depth, false), d.rows(depth, true)),
    decreases d, d.sub_dirs.len() + 1,
{
    lemma_visible_before(d, d.sub_dirs.len() as nat, depth);
    let files = file_rows(d.sub_files@, depth);
    lemma_within_self(files);
    lemma_within_concat(
        d.rows_before(d.sub_dirs.len() as nat, depth, false),
        d.rows_before(d.sub_dirs.len() as nat, depth, true),
        files,
        files,
    );
}

} // verus!
