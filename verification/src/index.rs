//! Building a directory tree from a recursive directory listing.

use crate::tree::{dir_row, file_rows, next_depth, Dir, EntryKind, Row, RowShape};
use vstd::prelude::*;
use vstd::string::*;

verus! {

/// What the filesystem reported for one entry: its path and base name,
/// whether it is a directory, and, for a directory, what it contains, in
/// enumeration order.
#[derive(Debug)]
pub struct Listing {
    pub path: String,
    pub name: String,
    pub is_dir: bool,
    pub entries: Vec<Listing>,
}

/// A name is hidden when it starts with a dot.
pub open spec fn hidden(name: Seq<char>) -> bool {
    name.len() > 0 && name[0] == '.'
}

/// Whether `name` is one of the first `n` names of `excluded`.
pub open spec fn listed_among(name: Seq<char>, excluded: Seq<String>, n: int) -> bool {
    exists|i: int| 0 <= i < n && i < excluded.len() && (#[trigger] excluded[i])@ == name
}

/// Whether `name` occurs in `excluded`.
pub open spec fn listed(name: Seq<char>, excluded: Seq<String>) -> bool {
    listed_among(name, excluded, excluded.len() as int)
}

/// Whether the entry `e` becomes part of the tree: hidden entries never do,
/// and a directory does not if its name is excluded.
pub open spec fn kept(e: Listing, excluded: Seq<String>) -> bool {
    !hidden(e.name@) && (e.is_dir ==> !listed(e.name@, excluded))
}

/// The kept directories among the first `k` entries of `l`, in order.
pub open spec fn kept_dirs(l: Listing, k: nat, excluded: Seq<String>) -> Seq<Listing>
    decreases k,
{
    if k == 0 || k > l.entries.len() {
        Seq::empty()
    } else {
        let e = l.entries[k - 1];
        let before = kept_dirs(l, (k - 1) as nat, excluded);
        if e.is_dir && kept(e, excluded) {
            before.push(e)
        } else {
            before
        }
    }
}

/// The kept files among the first `k` entries of `l`, in order.
pub open spec fn kept_files(l: Listing, k: nat, excluded: Seq<String>) -> Seq<Listing>
    decreases k,
{
    if k == 0 || k > l.entries.len() {
        Seq::empty()
    } else {
        let e = l.entries[k - 1];
        let before = kept_files(l, (k - 1) as nat, excluded);
        if !e.is_dir && kept(e, excluded) {
            before.push(e)
        } else {
            before
        }
    }
}

/// `d` is the tree of the listing `l`: same path and name, the kept
/// directories as subtrees in enumeration order, the kept files by name in
/// enumeration order. `d` itself has the expansion state `expanded`, every
/// directory below it is collapsed. Identifiers are left open.
pub open spec fn mirrors(d: Dir, l: Listing, excluded: Seq<String>, expanded: bool) -> bool
    decreases d,
{
    let dirs = kept_dirs(l, l.entries.len() as nat, excluded);
    let files = kept_files(l, l.entries.len() as nat, excluded);
    &&& d.full_path@ == l.path@
    &&& d.name@ == l.name@
    &&& d.expanded == expanded
    &&& d.sub_dirs.len() == dirs.len()
    &&& forall|i: int|
        0 <= i < d.sub_dirs.len() ==> mirrors(#[trigger] d.sub_dirs[i], dirs[i], excluded, false)
    &&& d.sub_files.len() == files.len()
    &&& forall|j: int|
        0 <= j < d.sub_files.len() ==> (#[trigger] d.sub_files[j]).1@ == files[j].name@
}

/// Whether `name` is hidden.
pub fn is_hidden(name: &str) -> (b: bool)
    ensures
        b == hidden(name@),
{
    !name.is_empty() && name.get_char(0) == '.'
}

/// Whether `name` is one of the excluded names.
pub fn is_excluded(name: &String, excluded: &Vec<String>) -> (b: bool)
    ensures
        b == listed(name@, excluded@),
{
    let mut i: usize = 0;
    while i < excluded.len()
        invariant
            i <= excluded.len(),
            !listed_among(name@, excluded@, i as int),
        decreases excluded.len() - i,
    {
        if excluded[i] == *name {
            return true;
        }
        i += 1;
    }
    false
}

/// Whether a walk of the filesystem descends into the directory `name`.
pub fn descends_into(name: &String, excluded: &Vec<String>) -> (b: bool)
    ensures
        b == (!hidden(name@) && !listed(name@, excluded@)),
{
    !is_hidden(name.as_str()) && !is_excluded(name, excluded)
}

/// A fresh identifier: the text that `to_string` gives for
/// `uuid::Uuid::new_v4()`. It is drawn at random, so nothing is stated of it,
/// not even that it differs from the identifiers drawn before. The call
/// panics if the operating system hands out no random bytes.
#[verifier::external_body]
pub(crate) fn fresh_id() -> (id: String) {
    uuid::Uuid::new_v4().to_string()
}

/// Builds the tree of `l` with fresh identifiers. The result has the
/// expansion state `expanded`; all directories below it start collapsed.
pub fn build(l: &Listing, excluded: &Vec<String>, expanded: bool) -> (d: Dir)
    ensures
        mirrors(d, *l, excluded@, expanded),
    decreases l,
{
    let mut sub_dirs: Vec<Dir> = Vec::new();
    let mut sub_files: Vec<(String, String)> = Vec::new();
    let mut k: usize = 0;
    while k < l.entries.len()
        invariant
            k <= l.entries.len(),
            sub_dirs.len() == kept_dirs(*l, k as nat, excluded@).len(),
            forall|i: int|
                0 <= i < sub_dirs.len() ==> mirrors(
                    #[trigger] sub_dirs[i],
                    kept_dirs(*l, k as nat, excluded@)[i],
                    excluded@,
                    false,
                ),
            sub_files.len() == kept_files(*l, k as nat, excluded@).len(),
            forall|j: int|
                0 <= j < sub_files.len() ==> (#[trigger] sub_files[j]).1@ == kept_files(
                    *l,
                    k as nat,
                    excluded@,
                )[j].name@,
        decreases l.entries.len() - k,
    {
        let e = &l.entries[k];
        if !is_hidden(e.name.as_str()) {
            if e.is_dir {
                if !is_excluded(&e.name, excluded) {
                    let c = build(e, excluded, false);
                    sub_dirs.push(c);
                }
            } else {
                sub_files.push((fresh_id(), e.name.clone()));
            }
        }
        k += 1;
    }
    Dir {
        id: fresh_id(),
        full_path: l.path.clone(),
        name: l.name.clone(),
        sub_dirs,
        sub_files,
        expanded,
    }
}

/// Indexes the listing of a root directory: the root is expanded, so that its
/// immediate children are visible, and everything below starts collapsed.
pub fn index(root: &Listing, excluded: &Vec<String>) -> (d: Dir)
    ensures
        mirrors(d, *root, excluded@, true),
{
    build(root, excluded, true)
}

/// What is kept of a listing is what the policy admits, and nothing else:
/// each kept directory (file) is a directory (file) of the listing that is
/// not hidden and, for a directory, not excluded; and each such entry among
/// the first `k` is kept.
pub proof fn lemma_kept_entries(l: Listing, k: nat, excluded: Seq<String>)
    requires
        k <= l.entries.len(),
    ensures
        forall|i: int|
            0 <= i < kept_dirs(l, k, excluded).len() ==> {
                let e = #[trigger] kept_dirs(l, k, excluded)[i];
                e.is_dir && kept(e, excluded) && l.entries@.take(k as int).contains(e)
            },
        forall|i: int|
            0 <= i < kept_files(l, k, excluded).len() ==> {
                let e = #[trigger] kept_files(l, k, excluded)[i];
                !e.is_dir && kept(e, excluded) && l.entries@.take(k as int).contains(e)
            },
        forall|m: int|
            0 <= m < k && kept(#[trigger] l.entries[m], excluded) ==> if l.entries[m].is_dir {
                kept_dirs(l, k, excluded).contains(l.entries[m])
            } else {
                kept_files(l, k, excluded).contains(l.entries[m])
            },
    decreases k,
{
    if k > 0 {
        let p = (k - 1) as nat;
        let e = l.entries[k - 1];
        lemma_kept_entries(l, p, excluded);
        let dirs = kept_dirs(l, k, excluded);
        let files = kept_files(l, k, excluded);
        let here = l.entries@.take(k as int);
        let prev = l.entries@.take(p as int);
        assert(here[k - 1] == e);
        assert forall|x: Listing| prev.contains(x) implies here.contains(x) by {
            let i = choose|i: int| 0 <= i < prev.len() && prev[i] == x;
            assert(here[i] == x);
        }
        assert forall|i: int| 0 <= i < dirs.len() implies ({
            let x = #[trigger] dirs[i];
            x.is_dir && kept(x, excluded) && here.contains(x)
        }) by {
            if i < kept_dirs(l, p, excluded).len() {
                assert(dirs[i] == kept_dirs(l, p, excluded)[i]);
            }
        }
        assert forall|i: int| 0 <= i < files.len() implies ({
            let x = #[trigger] files[i];
            !x.is_dir && kept(x, excluded) && here.contains(x)
        }) by {
            if i < kept_files(l, p, excluded).len() {
                assert(files[i] == kept_files(l, p, excluded)[i]);
            }
        }
        assert forall|m: int| 0 <= m < k && kept(#[trigger] l.entries[m], excluded) implies if l.entries[m].is_dir {
            dirs.contains(l.entries[m])
        } else {
            files.contains(l.entries[m])
        } by {
            let x = l.entries[m];
            if m < p {
                if x.is_dir {
                    let i = choose|i: int|
                        0 <= i < kept_dirs(l, p, excluded).len() && kept_dirs(l, p, excluded)[i] == x;
                    assert(dirs[i] == x);
                } else {
                    let i = choose|i: int|
                        0 <= i < kept_files(l, p, excluded).len() && kept_files(l, p, excluded)[i] == x;
                    assert(files[i] == x);
                }
            } else {
                if x.is_dir {
                    assert(dirs[dirs.len() - 1] == x);
                } else {
                    assert(files[files.len() - 1] == x);
                }
            }
        }
    }
}

proof fn lemma_collapsed_before(d: Dir, k: nat, depth: usize)
    requires
        k <= d.sub_dirs.len(),
        forall|i: int| 0 <= i < d.sub_dirs.len() ==> !(#[trigger] d.sub_dirs[i]).expanded,
    ensures
        d.rows_before(k, depth, false).len() == k,
        forall|i: int|
            0 <= i < k ==> #[trigger] d.rows_before(k, depth, false)[i] == dir_row(d.sub_dirs[i], depth),
    decreases k,
{
    if k > 0 {
        lemma_collapsed_before(d, (k - 1) as nat, depth);
    }
}

/// The visible rows of a freshly built tree are the kept entries of the
/// listing's top level: its kept directories in order, then its kept files
/// in order, all at the same depth. Nothing hidden or excluded has a row.
pub proof fn lemma_fresh_rows(d: Dir, l: Listing, excluded: Seq<String>, expanded: bool, depth: usize)
    requires
        mirrors(d, l, excluded, expanded),
    ensures
        ({
            let dirs = kept_dirs(l, l.entries.len() as nat, excluded);
            let files = kept_files(l, l.entries.len() as nat, excluded);
            let rows = d.rows(depth, false);
            &&& rows.len() == dirs.len() + files.len()
            &&& forall|i: int|
                0 <= i < dirs.len() ==> (#[trigger] rows[i]).shape() == (RowShape {
                    kind: EntryKind::Directory,
                    name: dirs[i].name@,
                    depth: depth as nat,
                }) && rows[i].path@ == dirs[i].path@
            &&& forall|j: int|
                0 <= j < files.len() ==> (#[trigger] rows[dirs.len() + j]).shape() == (RowShape {
                    kind: EntryKind::File,
                    name: files[j].name@,
                    depth: depth as nat,
                })
        }),
{
    let dirs = kept_dirs(l, l.entries.len() as nat, excluded);
    let files = kept_files(l, l.entries.len() as nat, excluded);
    let rows = d.rows(depth, false);
    assert forall|i: int| 0 <= i < d.sub_dirs.len() implies !(#[trigger] d.sub_dirs[i]).expanded by {
        assert(mirrors(d.sub_dirs[i], dirs[i], excluded, false));
    }
    lemma_collapsed_before(d, d.sub_dirs.len() as nat, depth);
    assert forall|i: int| 0 <= i < dirs.len() implies (#[trigger] rows[i]).shape() == (RowShape {
        kind: EntryKind::Directory,
        name: dirs[i].name@,
        depth: depth as nat,
    }) && rows[i].path@ == dirs[i].path@ by {
        assert(mirrors(d.sub_dirs[i], dirs[i], excluded, false));
        assert(rows[i] == d.rows_before(d.sub_dirs.len() as nat, depth, false)[i]);
    }
    assert forall|j: int| 0 <= j < files.len() implies (#[trigger] rows[dirs.len() + j]).shape() == (
    RowShape { kind: EntryKind::File, name: files[j].name@, depth: depth as nat }) by {
        assert(rows[dirs.len() + j] == file_rows(d.sub_files@, depth)[j]);
        assert(d.sub_files[j].1@ == files[j].name@);
    }
}

/// Two row lists agree in everything but identifiers and paths: they have
/// the same length, and at each position the same kind, name and depth.
pub open spec fn same_shape(a: Seq<Row>, b: Seq<Row>) -> bool {
    &&& a.len() == b.len()
    &&& forall|i: int| 0 <= i < a.len() ==> (#[trigger] a[i]).shape() == b[i].shape()
}

proof fn lemma_shape_concat(a1: Seq<Row>, b1: Seq<Row>, a2: Seq<Row>, b2: Seq<Row>)
    requires
        same_shape(a1, b1),
        same_shape(a2, b2),
    ensures
        same_shape(a1 + a2, b1 + b2),
{
    assert forall|i: int| 0 <= i < (a1 + a2).len() implies (#[trigger] (a1 + a2)[i]).shape() == (b1
        + b2)[i].shape() by {
        if i < a1.len() {
            assert(a1[i].shape() == b1[i].shape());
        } else {
            assert(a2[i - a1.len()].shape() == b2[i - a1.len()].shape());
        }
    }
}

proof fn lemma_mirror_shape_before(
    d1: Dir,
    d2: Dir,
    dirs: Seq<Listing>,
    excluded: Seq<String>,
    k: nat,
    depth: usize,
    all: bool,
)
    requires
        k <= dirs.len(),
        d1.sub_dirs.len() == dirs.len(),
        d2.sub_dirs.len() == dirs.len(),
        forall|i: int|
            0 <= i < dirs.len() ==> mirrors(#[trigger] d1.sub_dirs[i], dirs[i], excluded, false),
        forall|i: int|
            0 <= i < dirs.len() ==> mirrors(#[trigger] d2.sub_dirs[i], dirs[i], excluded, false),
    ensures
        same_shape(d1.rows_before(k, depth, all), d2.rows_before(k, depth, all)),
    decreases d1, k,
{
    if k > 0 {
        let c1 = d1.sub_dirs[k - 1];
        let c2 = d2.sub_dirs[k - 1];
        lemma_mirror_shape_before(d1, d2, dirs, excluded, (k - 1) as nat, depth, all);
        assert(mirrors(c1, dirs[k - 1], excluded, false));
        assert(mirrors(c2, dirs[k - 1], excluded, false));
        let one1 = seq![dir_row(c1, depth)];
        let one2 = seq![dir_row(c2, depth)];
        assert(same_shape(one1, one2));
        lemma_shape_concat(
            d1.rows_before((k - 1) as nat, depth, all),
            d2.rows_before((k - 1) as nat, depth, all),
            one1,
            one2,
        );
        let below1 = if Dir::descends(c1, all) {
            c1.rows(next_depth(depth), all)
        } else {
            Seq::empty()
        };
        let below2 = if Dir::descends(c2, all) {
            c2.rows(next_depth(depth), all)
        } else {
            Seq::empty()
        };
        if all {
            lemma_mirror_shape(c1, c2, dirs[k - 1], excluded, false, next_depth(depth), all);
        }
        lemma_shape_concat(
            d1.rows_before((k - 1) as nat, depth, all) + one1,
            d2.rows_before((k - 1) as nat, depth, all) + one2,
            below1,
            below2,
        );
    }
}

/// Indexing is repeatable up to identifiers: two trees of the same listing
/// flatten to rows of the same kinds, names and depths, in the same order.
pub proof fn lemma_mirror_shape(
    d1: Dir,
    d2: Dir,
    l: Listing,
    excluded: Seq<String>,
    expanded: bool,
    depth: usize,
    all: bool,
)
    requires
        mirrors(d1, l, excluded, expanded),
        mirrors(d2, l, excluded, expanded),
    ensures
        same_shape(d1.rows(depth, all), d2.rows(depth, all)),
    decreases d1, d1.sub_dirs.len() + 1,
{
    let dirs = kept_dirs(l, l.entries.len() as nat, excluded);
    lemma_mirror_shape_before(d1, d2, dirs, excluded, dirs.len(), depth, all);
    let f1 = file_rows(d1.sub_files@, depth);
    let f2 = file_rows(d2.sub_files@, depth);
    assert(same_shape(f1, f2));
    lemma_shape_concat(
        d1.rows_before(dirs.len(), depth, all),
        d2.rows_before(dirs.len(), depth, all),
        f1,
        f2,
    );
}

} // verus!
