//! The navigation state: the indexed tree, its row list, and the selection
//! and scroll positions bound to that list.

use crate::index::{fresh_id, index, lemma_mirror_shape, mirrors, same_shape, Listing};
use crate::tree::{
    expand, expanded_from, flatten, flatten_all, lemma_expand_rows, lemma_visible_listed, Dir,
    EntryKind, Row,
};
use vstd::prelude::*;
use vstd::string::*;

verus! {

/// Why a directory could not be listed.
#[derive(Clone, Copy, Debug, PartialEq, Eq, Structural)]
pub enum IoError {
    NotFound,
    PermissionDenied,
    Other,
}

/// Why a navigation request was refused.
#[derive(Clone, Copy, Debug, PartialEq, Eq, Structural)]
pub enum NavError {
    /// A selection outside the row list was asked for.
    InvalidSelection,
    /// An identifier that the current registry does not hold.
    StaleIdentifier,
}

/// The logical actions of a user.
#[derive(Clone, Copy, Debug, PartialEq, Eq, Structural)]
pub enum Action {
    Quit,
    ScrollRight,
    ScrollLeft,
    SelectNext,
    SelectPrevious,
    ToggleExpandSelected,
    OpenSelected,
}

/// The navigation state over one indexed tree.
#[derive(Debug)]
pub struct App {
    pub should_quit: bool,
    pub main_dir: Dir,
    /// Index of the first row shown.
    pub scroll: usize,
    /// The rows currently visible, recomputed whenever the tree changes.
    pub selectable_items: Vec<Row>,
    pub selected_index: usize,
    /// Every entry of the tree, for lookup by identifier.
    pub registry: Vec<Row>,
    /// Directory names that indexing leaves out.
    pub excluded: Vec<String>,
}

/// The registry row `r` is the entry of kind `kind` with identifier `id`.
pub open spec fn matches_entry(r: Row, id: Seq<char>, kind: EntryKind) -> bool {
    r.kind == kind && r.id@ == id
}

/// `i` is the first position of `reg` that holds the entry `(id, kind)`.
pub open spec fn first_match(reg: Seq<Row>, id: Seq<char>, kind: EntryKind, i: int) -> bool {
    &&& 0 <= i < reg.len()
    &&& matches_entry(reg[i], id, kind)
    &&& forall|j: int| 0 <= j < i ==> !matches_entry(#[trigger] reg[j], id, kind)
}

/// `reg` holds no entry `(id, kind)`.
pub open spec fn no_match(reg: Seq<Row>, id: Seq<char>, kind: EntryKind) -> bool {
    forall|j: int| 0 <= j < reg.len() ==> !matches_entry(#[trigger] reg[j], id, kind)
}

/// No two rows of `rows` carry the same identifier.
pub open spec fn distinct_ids(rows: Seq<Row>) -> bool {
    forall|i: int, j: int|
        0 <= i < j < rows.len() ==> (#[trigger] rows[i]).id@ != (#[trigger] rows[j]).id@
}

/// The scroll offset after the selection moved to `index`, for a viewport of
/// `viewport` rows: one row up when the selection left the window at the top,
/// one row down when it reached the row `scroll + h - 2`, else unchanged.
/// Without a viewport the offset stays.
pub open spec fn scroll_after(scroll: usize, index: usize, viewport: Option<u32>) -> usize {
    match viewport {
        None => scroll,
        Some(h) => if index < scroll {
            (scroll - 1) as usize
        } else if index == scroll + h - 2 {
            (scroll + 1) as usize
        } else {
            scroll
        },
    }
}

fn adjust_scroll(scroll: usize, index: usize, viewport: Option<u32>) -> (r: usize)
    requires
        index < usize::MAX,
    ensures
        r == scroll_after(scroll, index, viewport),
{
    match viewport {
        None => scroll,
        Some(h) => if index < scroll {
            scroll - 1
        } else if h >= 2 && index - scroll == (h - 2) as usize {
            scroll + 1
        } else {
            scroll
        },
    }
}

impl App {
    /// Number of rows.
    pub open spec fn len(self) -> nat {
        self.selectable_items@.len()
    }

    /// The largest index that selection and scroll may take.
    pub open spec fn last(self) -> usize {
        if self.selectable_items.len() == 0 {
            0
        } else {
            (self.selectable_items.len() - 1) as usize
        }
    }

    /// The row list and the registry are those of the tree, and the selection
    /// lies inside the row list (at 0 when the list is empty).
    pub open spec fn wf(self) -> bool {
        &&& self.selectable_items@ == self.main_dir.rows(0, false)
        &&& self.registry@ == self.main_dir.rows(0, true)
        &&& self.selected_index <= self.last()
    }

    /// The selected row lies in the content area of a viewport of `h` rows,
    /// which shows the rows `scroll ..= scroll + h - 3`.
    pub open spec fn visible(self, h: u32) -> bool {
        self.scroll <= self.selected_index <= self.scroll + h - 3
    }

    /// The state after the selection jumped to `index`.
    pub open spec fn moved(self, index: usize, viewport: Option<u32>) -> App {
        App {
            selected_index: index,
            scroll: scroll_after(self.scroll, index, viewport),
            ..self
        }
    }

    /// The state after a move to the next row: a no-op on the last row.
    pub open spec fn next(self, viewport: Option<u32>) -> App {
        if self.selected_index < self.last() {
            self.moved((self.selected_index + 1) as usize, viewport)
        } else {
            self
        }
    }

    /// The state after a move to the previous row: a no-op on the first row.
    pub open spec fn previous(self, viewport: Option<u32>) -> App {
        if self.selected_index > 0 {
            self.moved((self.selected_index - 1) as usize, viewport)
        } else {
            self
        }
    }

    /// The scroll offset moved by `delta` rows, up if `neg`, and clamped to
    /// the row list.
    pub open spec fn scroll_target(self, delta: usize, neg: bool) -> usize {
        let to: int = if neg {
            self.scroll - delta
        } else {
            self.scroll + delta
        };
        if to < 0 {
            0
        } else if to > self.last() {
            self.last()
        } else {
            to as usize
        }
    }

    /// The state after scrolling: the offset moves to its target, and a
    /// selection left outside the window moves one row towards it: down if
    /// it lies above the offset; up if it lies on the row `scroll + h - 2`
    /// or below, which takes a viewport of at least two rows.
    pub open spec fn scrolled(self, delta: usize, neg: bool, viewport: Option<u32>) -> App {
        let to = self.scroll_target(delta, neg);
        let sel: usize = if self.selected_index < to {
            (self.selected_index + 1) as usize
        } else if self.selected_index > 0 && viewport.is_some() && viewport.unwrap() >= 2
            && self.selected_index >= to + viewport.unwrap() - 2 {
            (self.selected_index - 1) as usize
        } else {
            self.selected_index
        };
        App { scroll: to, selected_index: sel, ..self }
    }

    /// An empty state: no rows, nothing selected, `target` excluded from
    /// indexing.
    pub fn new() -> (app: App)
        ensures
            app.wf(),
            app.len() == 0,
            app.registry@.len() == 0,
            app.selected_index == 0,
            app.scroll == 0,
            !app.should_quit,
            !app.main_dir.expanded,
            app.main_dir.sub_dirs@.len() == 0,
            app.main_dir.sub_files@.len() == 0,
            app.main_dir.name@.len() == 0,
            app.main_dir.full_path@.len() == 0,
            app.excluded@.len() == 1,
            app.excluded@[0]@ == "target"@,
    {
        let mut excluded: Vec<String> = Vec::new();
        excluded.push("target".to_owned());
        let app = App {
            should_quit: false,
            main_dir: Dir {
                id: fresh_id(),
                full_path: String::new(),
                name: String::new(),
                sub_dirs: Vec::new(),
                sub_files: Vec::new(),
                expanded: false,
            },
            scroll: 0,
            selectable_items: Vec::new(),
            selected_index: 0,
            registry: Vec::new(),
            excluded,
        };
        proof {
            assert(app.main_dir.rows(0, false) =~= Seq::empty());
            assert(app.main_dir.rows(0, true) =~= Seq::empty());
        }
        app
    }

    /// Moves the selection to `index` and adjusts the scroll offset. An index
    /// outside the row list is refused and changes nothing; index 0 is
    /// accepted on an empty list.
    pub fn select(&mut self, index: usize, viewport: Option<u32>) -> (r: Result<(), NavError>)
        requires
            old(self).wf(),
        ensures
            index <= old(self).last() ==> r == Ok::<(), NavError>(()) && *final(self) == old(self).moved(
                index,
                viewport,
            ),
            index > old(self).last() ==> r == Err::<(), NavError>(NavError::InvalidSelection)
                && *final(self) == *old(self),
            final(self).wf(),
            viewport.is_some() && viewport.unwrap() >= 3 && old(self).visible(viewport.unwrap())
                && old(self).selected_index - 1 <= index <= old(self).selected_index + 1
                ==> final(self).visible(viewport.unwrap()),
    {
        let n = self.selectable_items.len();
        if (n == 0 && index > 0) || (n > 0 && index >= n) {
            return Err(NavError::InvalidSelection);
        }
        self.scroll = adjust_scroll(self.scroll, index, viewport);
        self.selected_index = index;
        Ok(())
    }

    /// Moves the selection one row down. On the last row, and on an empty
    /// list, nothing changes.
    pub fn select_next(&mut self, viewport: Option<u32>)
        requires
            old(self).wf(),
        ensures
            *final(self) == old(self).next(viewport),
            final(self).wf(),
            old(self).selected_index == old(self).last() ==> *final(self) == *old(self),
            viewport.is_some() && viewport.unwrap() >= 3 && old(self).visible(viewport.unwrap())
                ==> final(self).visible(viewport.unwrap()) && final(self).selected_index
                <= final(self).scroll + viewport.unwrap() - 2,
    {
        let n = self.selectable_items.len();
        if n == 0 || self.selected_index >= n - 1 {
            return ;
        }
        let _ = self.select(self.selected_index + 1, viewport);
    }

    /// Moves the selection one row up. On the first row nothing changes.
    pub fn select_previous(&mut self, viewport: Option<u32>)
        requires
            old(self).wf(),
        ensures
            *final(self) == old(self).previous(viewport),
            final(self).wf(),
            old(self).selected_index == 0 ==> *final(self) == *old(self),
            viewport.is_some() && viewport.unwrap() >= 3 && old(self).visible(viewport.unwrap())
                ==> final(self).visible(viewport.unwrap()) && final(self).selected_index
                <= final(self).scroll + viewport.unwrap() - 2,
    {
        if self.selected_index == 0 {
            return ;
        }
        let _ = self.select(self.selected_index - 1, viewport);
    }

    /// Scrolls by `delta` rows, up if `neg`, within the row list. The
    /// selection follows by at most one row, so after a scroll of several rows
    /// it may lie outside the window.
    pub fn scroll(&mut self, delta: usize, neg: bool, viewport: Option<u32>)
        requires
            old(self).wf(),
        ensures
            *final(self) == old(self).scrolled(delta, neg, viewport),
            final(self).wf(),
            final(self).scroll <= final(self).last(),
            delta == 1 && viewport.is_some() && viewport.unwrap() >= 3 && old(self).visible(
                viewport.unwrap(),
            ) ==> final(self).visible(viewport.unwrap()) && final(self).selected_index
                <= final(self).scroll + viewport.unwrap() - 2,
    {
        let n = self.selectable_items.len();
        let last: usize = if n == 0 {
            0
        } else {
            n - 1
        };
        let to: usize = if neg {
            let up: usize = if self.scroll >= delta {
                self.scroll - delta
            } else {
                0
            };
            if up > last {
                last
            } else {
                up
            }
        } else if delta <= last && self.scroll <= last - delta {
            self.scroll + delta
        } else {
            last
        };
        self.scroll = to;
        if self.selected_index < to {
            self.selected_index = self.selected_index + 1;
        } else if self.selected_index > 0 {
            match viewport {
                Some(h) => {
                    if h >= 2 && self.selected_index - to >= (h - 2) as usize {
                        self.selected_index = self.selected_index - 1;
                    }
                },
                None => {},
            }
        }
    }

    /// Looks up the entry `(id, kind)` in the registry and returns the
    /// position of its first occurrence. An identifier from before the last
    /// reindexing is simply not found.
    pub fn find(&self, id: &String, kind: EntryKind) -> (r: Result<usize, NavError>)
        ensures
            match r {
                Ok(i) => first_match(self.registry@, id@, kind, i as int),
                Err(e) => e == NavError::StaleIdentifier && no_match(self.registry@, id@, kind),
            },
    {
        let mut i: usize = 0;
        while i < self.registry.len()
            invariant
                i <= self.registry.len(),
                forall|j: int| 0 <= j < i ==> !matches_entry(#[trigger] self.registry@[j], id@, kind),
            decreases self.registry.len() - i,
        {
            if self.registry[i].kind == kind && self.registry[i].id == *id {
                return Ok(i);
            }
            i += 1;
        }
        Err(NavError::StaleIdentifier)
    }

    /// The registry position of the directory `id`.
    pub fn find_dir(&self, id: &String) -> (r: Result<usize, NavError>)
        ensures
            match r {
                Ok(i) => first_match(self.registry@, id@, EntryKind::Directory, i as int),
                Err(e) => e == NavError::StaleIdentifier && no_match(
                    self.registry@,
                    id@,
                    EntryKind::Directory,
                ),
            },
    {
        self.find(id, EntryKind::Directory)
    }

    /// The registry position of the file `id`.
    pub fn find_file(&self, id: &String) -> (r: Result<usize, NavError>)
        ensures
            match r {
                Ok(i) => first_match(self.registry@, id@, EntryKind::File, i as int),
                Err(e) => e == NavError::StaleIdentifier && no_match(self.registry@, id@, EntryKind::File),
            },
    {
        self.find(id, EntryKind::File)
    }

    /// `e` is what the selection resolves to: nothing on an empty row list,
    /// else the first registry entry with the selected row's identifier and
    /// kind.
    pub open spec fn resolves_to(self, e: Option<Row>) -> bool {
        match e {
            None => self.len() == 0,
            Some(row) => self.len() > 0 && exists|i: int|
                #![trigger self.registry@[i]]
                first_match(
                    self.registry@,
                    self.selectable_items@[self.selected_index as int].id@,
                    self.selectable_items@[self.selected_index as int].kind,
                    i,
                ) && row == self.registry@[i],
        }
    }

    /// Whether every entry of the registry has an identifier of its own.
    /// Identifiers are drawn at random, so this is overwhelmingly likely but
    /// not certain.
    pub fn has_distinct_ids(&self) -> (b: bool)
        ensures
            b == distinct_ids(self.registry@),
    {
        let n = self.registry.len();
        let mut i: usize = 0;
        while i < n
            invariant
                i <= n,
                n == self.registry.len(),
                forall|a: int, b: int|
                    0 <= a < b < n && a < i ==> (#[trigger] self.registry@[a]).id@
                        != (#[trigger] self.registry@[b]).id@,
            decreases n - i,
        {
            let mut j: usize = i + 1;
            while j < n
                invariant
                    i < j <= n,
                    n == self.registry.len(),
                    forall|b: int|
                        i < b < j ==> self.registry@[i as int].id@ != (#[trigger] self.registry@[b]).id@,
                decreases n - j,
            {
                if self.registry[i].id == self.registry[j].id {
                    assert(self.registry@[i as int].id@ == self.registry@[j as int].id@);
                    return false;
                }
                j += 1;
            }
            i += 1;
        }
        true
    }

    /// The selected entity, resolved through the registry: a directory or a
    /// file. It is `None` only when there are no rows. Where the identifiers
    /// of the registry are distinct, it is the entry of the selected row
    /// itself.
    pub fn selected_entity(&self) -> (e: Option<&Row>)
        requires
            self.wf(),
        ensures
            self.resolves_to(
                match e {
                    Some(row) => Some(*row),
                    None => None,
                },
            ),
            distinct_ids(self.registry@) && self.len() > 0 ==> e.is_some() && *e.unwrap()
                == self.selectable_items@[self.selected_index as int],
    {
        if self.selectable_items.len() == 0 {
            return None;
        }
        let row = &self.selectable_items[self.selected_index];
        proof {
            lemma_visible_listed(self.main_dir, 0);
            let j = choose|j: int| 0 <= j < self.registry@.len() && self.registry@[j] == *row;
            assert(matches_entry(self.registry@[j], row.id@, row.kind));
            assert(distinct_ids(self.registry@) ==> forall|i: int|
                first_match(self.registry@, row.id@, row.kind, i) ==> i == j);
        }
        match self.find(&row.id, row.kind) {
            Ok(i) => Some(&self.registry[i]),
            Err(_) => None,
        }
    }

    /// `p` is the path to open for the current selection: that of the selected
    /// entity if it is a directory, nothing otherwise.
    pub open spec fn opens(self, p: Option<String>) -> bool {
        match p {
            None => self.len() == 0 || self.selectable_items@[self.selected_index as int].kind
                != EntryKind::Directory,
            Some(path) => self.len() > 0 && self.selectable_items@[self.selected_index as int].kind
                == EntryKind::Directory && exists|i: int|
                #![trigger self.registry@[i]]
                first_match(
                    self.registry@,
                    self.selectable_items@[self.selected_index as int].id@,
                    EntryKind::Directory,
                    i,
                ) && path == self.registry@[i].path,
        }
    }

    /// The path of the selected directory, which the caller lists and hands
    /// to `open`. A selected file opens nothing.
    pub fn open_selected(&self) -> (p: Option<String>)
        requires
            self.wf(),
        ensures
            self.opens(p),
    {
        match self.selected_entity() {
            Some(row) => {
                if row.kind == EntryKind::Directory {
                    Some(row.path.clone())
                } else {
                    None
                }
            },
            None => None,
        }
    }

    /// `after` is this state with the selected directory expanded: the tree
    /// has every directory with the selected row's identifier expanded, the
    /// row list is that of the new tree, and registry, selection and scroll
    /// offset are as before. With a file selected, or nothing, `after` is
    /// this state.
    pub open spec fn toggled(self, after: App) -> bool {
        if self.len() > 0 && self.selectable_items@[self.selected_index as int].kind
            == EntryKind::Directory {
            &&& expanded_from(
                after.main_dir,
                self.main_dir,
                self.selectable_items@[self.selected_index as int].id@,
            )
            &&& after.wf()
            &&& after.len() >= self.len()
            &&& after.registry == self.registry
            &&& after.selected_index == self.selected_index
            &&& after.scroll == self.scroll
            &&& after.should_quit == self.should_quit
            &&& after.excluded == self.excluded
        } else {
            after == self
        }
    }

    /// Expands the selected directory and recomputes the row list.
    pub fn toggle_expand(&mut self)
        requires
            old(self).wf(),
        ensures
            old(self).toggled(*final(self)),
            final(self).wf(),
            forall|h: u32| old(self).visible(h) ==> final(self).visible(h),
    {
        if self.selectable_items.len() == 0 {
            return ;
        }
        if self.selectable_items[self.selected_index].kind != EntryKind::Directory {
            return ;
        }
        let tree = expand(&self.main_dir, &self.selectable_items[self.selected_index].id);
        proof {
            lemma_expand_rows(
                tree,
                self.main_dir,
                self.selectable_items@[self.selected_index as int].id@,
                0,
            );
        }
        self.selectable_items = flatten(&tree);
        self.main_dir = tree;
        // The list only grows, so clamping never moves the selection.
        let n = self.selectable_items.len();
        if self.selected_index >= n {
            self.selected_index = n - 1;
        }
    }

    /// Builds the tree of `listing` with this state's exclusions.
    pub fn read_dir(&self, listing: &Listing, is_root_dir: bool) -> (d: Dir)
        ensures
            mirrors(d, *listing, self.excluded@, is_root_dir),
    {
        crate::index::build(listing, &self.excluded, is_root_dir)
    }

    /// `after` is this state rebound to the tree of `l`: first row selected,
    /// scrolled to the top.
    pub open spec fn rebound(self, l: Listing, viewport: Option<u32>, after: App) -> bool {
        &&& mirrors(after.main_dir, l, self.excluded@, true)
        &&& after.wf()
        &&& after.selected_index == 0
        &&& after.scroll == scroll_after(0, 0, viewport)
        &&& after.should_quit == self.should_quit
        &&& after.excluded == self.excluded
    }

    /// Replaces the tree by that of a new root directory. `listing` is what
    /// listing that directory gave. If it failed, the error is handed back
    /// and the state is left as it was.
    pub fn nav(&mut self, listing: Result<Listing, IoError>, viewport: Option<u32>) -> (r: Result<
        (),
        IoError,
    >)
        requires
            old(self).wf(),
        ensures
            match listing {
                Ok(l) => r == Ok::<(), IoError>(()) && old(self).rebound(l, viewport, *final(self)),
                Err(e) => r == Err::<(), IoError>(e) && *final(self) == *old(self),
            },
            final(self).wf(),
            listing.is_ok() && viewport.is_some() && viewport.unwrap() >= 3 ==> final(self).visible(
                viewport.unwrap(),
            ),
    {
        match listing {
            Err(e) => Err(e),
            Ok(l) => {
                let tree = index(&l, &self.excluded);
                self.selectable_items = flatten(&tree);
                self.registry = flatten_all(&tree);
                self.main_dir = tree;
                self.scroll = 0;
                self.selected_index = 0;
                let _ = self.select(0, viewport);
                Ok(())
            },
        }
    }

    /// Opens a directory: the same as `nav`, with a failure dropped.
    pub fn open(&mut self, listing: Result<Listing, IoError>, viewport: Option<u32>)
        requires
            old(self).wf(),
        ensures
            match listing {
                Ok(l) => old(self).rebound(l, viewport, *final(self)),
                Err(e) => *final(self) == *old(self),
            },
            final(self).wf(),
    {
        let _ = self.nav(listing, viewport);
    }

    /// Applies one action. For `OpenSelected` the state stays and the result
    /// is the path of the directory to list and hand to `open`; every other
    /// action returns nothing.
    pub fn handle_events(&mut self, action: Action, viewport: Option<u32>) -> (request: Option<String>)
        requires
            old(self).wf(),
        ensures
            final(self).wf(),
            match action {
                Action::Quit => *final(self) == (App { should_quit: true, ..*old(self) }),
                Action::ScrollRight => *final(self) == old(self).scrolled(1, false, viewport),
                Action::ScrollLeft => *final(self) == old(self).scrolled(1, true, viewport),
                Action::SelectNext => *final(self) == old(self).next(viewport),
                Action::SelectPrevious => *final(self) == old(self).previous(viewport),
                Action::ToggleExpandSelected => old(self).toggled(*final(self)),
                Action::OpenSelected => *final(self) == *old(self),
            },
            match action {
                Action::OpenSelected => old(self).opens(request),
                _ => request.is_none(),
            },
    {
        match action {
            Action::Quit => {
                self.should_quit = true;
                None
            },
            Action::ScrollRight => {
                self.scroll(1, false, viewport);
                None
            },
            Action::ScrollLeft => {
                self.scroll(1, true, viewport);
                None
            },
            Action::SelectNext => {
                self.select_next(viewport);
                None
            },
            Action::SelectPrevious => {
                self.select_previous(viewport);
                None
            },
            Action::ToggleExpandSelected => {
                self.toggle_expand();
                None
            },
            Action::OpenSelected => self.open_selected(),
        }
    }
}

impl App {
    /// The state after one action that moves the selection or the window.
    /// The other actions leave selection and scroll offset alone and are
    /// passed over here.
    pub open spec fn stepped(self, action: Action, viewport: Option<u32>) -> App {
        match action {
            Action::SelectNext => self.next(viewport),
            Action::SelectPrevious => self.previous(viewport),
            Action::ScrollRight => self.scrolled(1, false, viewport),
            Action::ScrollLeft => self.scrolled(1, true, viewport),
            _ => self,
        }
    }

    /// The state after the actions `actions`, applied in order.
    pub open spec fn after_actions(self, actions: Seq<Action>, viewport: Option<u32>) -> App
        decreases actions.len(),
    {
        if actions.len() == 0 {
            self
        } else {
            self.after_actions(actions.drop_last(), viewport).stepped(actions.last(), viewport)
        }
    }
}

/// Whatever sequence of moves and one-row scrolls is applied, the row list
/// stays the same and the selection stays inside it; and if the selection
/// was inside the content area of a viewport of at least three rows, it
/// still is.
pub proof fn lemma_actions_keep_selection(app: App, actions: Seq<Action>, viewport: Option<u32>)
    requires
        app.wf(),
    ensures
        app.after_actions(actions, viewport).wf(),
        app.after_actions(actions, viewport).selectable_items == app.selectable_items,
        app.after_actions(actions, viewport).selected_index <= app.last(),
        viewport.is_some() && viewport.unwrap() >= 3 && app.visible(viewport.unwrap())
            ==> app.after_actions(actions, viewport).visible(viewport.unwrap())
            && app.after_actions(actions, viewport).selected_index <= app.after_actions(
            actions,
            viewport,
        ).scroll + viewport.unwrap() - 2,
    decreases actions.len(),
{
    if actions.len() > 0 {
        lemma_actions_keep_selection(app, actions.drop_last(), viewport);
    }
}

/// Reindexing is repeatable: rebinding twice to the same listing gives row
/// lists of equal length with the same kinds, names and depths, whatever
/// identifiers were drawn.
pub proof fn lemma_reindex_repeatable(
    start: App,
    first: App,
    second: App,
    l: Listing,
    viewport: Option<u32>,
)
    requires
        start.rebound(l, viewport, first),
        first.rebound(l, viewport, second),
    ensures
        same_shape(first.selectable_items@, second.selectable_items@),
        first.selected_index == second.selected_index,
        first.scroll == second.scroll,
{
    lemma_mirror_shape(first.main_dir, second.main_dir, l, start.excluded@, true, 0, false);
}

/// The action bound to a key.
pub fn action_for_key(key: char) -> (a: Option<Action>)
    ensures
        a == match key {
            'q' => Some(Action::Quit),
            'l' => Some(Action::ScrollRight),
            'h' => Some(Action::ScrollLeft),
            'j' => Some(Action::SelectNext),
            'k' => Some(Action::SelectPrevious),
            's' => Some(Action::ToggleExpandSelected),
            'o' => Some(Action::OpenSelected),
            _ => None,
        },
{
    match key {
        'q' => Some(Action::Quit),
        'l' => Some(Action::ScrollRight),
        'h' => Some(Action::ScrollLeft),
        'j' => Some(Action::SelectNext),
        'k' => Some(Action::SelectPrevious),
        's' => Some(Action::ToggleExpandSelected),
        'o' => Some(Action::OpenSelected),
        _ => None,
    }
}

} // verus!
