//! Finding the shadows under a shadow root.
//!
//! Directories are visited depth first, in the order in which they are read. A directory that
//! records itself as a shadow is found, and nothing inside it is looked at.
use crate::path::{lemma_starts_with_transitive, starts_with, FsPath};
use crate::shadow::{MetaView, ShadowMeta};
use vstd::prelude::*;

verus! {

/// What is in a directory, one entry of it.
#[derive(Debug)]
pub struct Entry {
    pub place: FsPath,
    pub is_dir: bool,
}

/// What was found at a directory.
#[derive(Debug)]
pub enum Visit {
    /// It is a shadow.
    Shadow(ShadowMeta),
    /// It has the file that marks a shadow, which cannot be read.
    Broken,
    /// It cannot be read.
    Unreadable,
    /// It is no shadow, and this is in it.
    Entries(Vec<Entry>),
}

/// The contents of a [`Visit`]; an entry is its path, and whether it is a directory.
pub enum VisitView {
    Shadow(MetaView),
    Broken,
    Unreadable,
    Entries(Seq<(Seq<u8>, bool)>),
}

impl DeepView for Entry {
    type V = (Seq<u8>, bool);

    open spec fn deep_view(&self) -> (Seq<u8>, bool) {
        (self.place@, self.is_dir)
    }
}

impl View for Visit {
    type V = VisitView;

    open spec fn view(&self) -> VisitView {
        match self {
            Visit::Shadow(meta) => VisitView::Shadow(meta@),
            Visit::Broken => VisitView::Broken,
            Visit::Unreadable => VisitView::Unreadable,
            Visit::Entries(entries) => VisitView::Entries(entries.deep_view()),
        }
    }
}

/// A shadow and what it records.
#[derive(Debug)]
pub struct Found {
    pub place: FsPath,
    pub meta: ShadowMeta,
}

impl DeepView for Found {
    type V = (Seq<u8>, MetaView);

    open spec fn deep_view(&self) -> (Seq<u8>, MetaView) {
        (self.place@, self.meta@)
    }
}

/// A search: the directories still to visit, the next one last, and the shadows found.
#[derive(Debug)]
pub struct Walk {
    pub pending: Vec<FsPath>,
    pub found: Vec<Found>,
}

/// The contents of a [`Walk`].
#[verifier::ext_equal]
pub struct WalkView {
    pub pending: Seq<Seq<u8>>,
    pub found: Seq<(Seq<u8>, MetaView)>,
}

impl View for Walk {
    type V = WalkView;

    open spec fn view(&self) -> WalkView {
        WalkView { pending: self.pending.deep_view(), found: self.found.deep_view() }
    }
}

/// The paths of the directories among the entries, the last one first.
pub open spec fn dirs_reversed(entries: Seq<(Seq<u8>, bool)>) -> Seq<Seq<u8>>
    decreases entries.len(),
{
    if entries.len() == 0 {
        seq![]
    } else {
        let rest = dirs_reversed(entries.drop_first());
        if entries[0].1 {
            rest.push(entries[0].0)
        } else {
            rest
        }
    }
}

/// The search for shadows under `root`.
pub open spec fn started(root: Seq<u8>, exists_there: bool) -> WalkView {
    WalkView {
        pending: if exists_there {
            seq![root]
        } else {
            seq![]
        },
        found: seq![],
    }
}

/// The search after its next directory was visited.
pub open spec fn visited(walk: WalkView, visit: VisitView) -> WalkView {
    if walk.pending.len() == 0 {
        walk
    } else {
        let rest = walk.pending.drop_last();
        match visit {
            VisitView::Shadow(meta) => WalkView {
                pending: rest,
                found: walk.found.push((walk.pending.last(), meta)),
            },
            VisitView::Broken | VisitView::Unreadable => WalkView {
                pending: rest,
                found: walk.found,
            },
            VisitView::Entries(entries) => WalkView {
                pending: rest + dirs_reversed(entries),
                found: walk.found,
            },
        }
    }
}

/// Enumerate all shadows under a shadow root: the search, before anything was visited. A root that
/// does not exist holds none.
pub fn enumerate_shadows(shadow_root: &FsPath, exists_there: bool) -> (res: Walk)
    ensures
        res@ == started(shadow_root@, exists_there),
{
    let mut pending: Vec<FsPath> = Vec::new();
    if exists_there {
        pending.push(shadow_root.clone());
    }
    let res = Walk { pending, found: Vec::new() };
    assert(res@ =~= started(shadow_root@, exists_there));
    res
}

impl Walk {
    /// The directory to visit next, unless the search is over.
    pub fn next(&self) -> (res: Option<FsPath>)
        ensures
            match res {
                Some(dir) => self@.pending.len() > 0 && dir@ == self@.pending.last(),
                None => self@.pending.len() == 0,
            },
    {
        assert(self.pending.deep_view().len() == self.pending@.len());
        if self.pending.len() == 0 {
            None
        } else {
            Some(self.pending[self.pending.len() - 1].clone())
        }
    }

    /// Go on from what was found at the directory that was to be visited next.
    pub fn visit(&mut self, visit: Visit)
        ensures
            final(self)@ == visited(old(self)@, visit@),
    {
        let ghost before = self@;
        assert(self.pending.deep_view().len() == self.pending@.len());
        match self.pending.pop() {
            None => {},
            Some(dir) => {
                assert(self.pending.deep_view() =~= before.pending.drop_last());
                assert(dir@ == before.pending.last());
                match visit {
                    Visit::Shadow(meta) => {
                        self.found.push(Found { place: dir, meta });
                        assert(self@ =~= visited(before, visit@));
                    },
                    Visit::Broken => {},
                    Visit::Unreadable => {},
                    Visit::Entries(entries) => {
                        self.push_dirs(entries);
                    },
                }
            },
        }
    }

    fn push_dirs(&mut self, entries: Vec<Entry>)
        ensures
            final(self)@.pending == old(self)@.pending + dirs_reversed(entries.deep_view()),
            final(self)@.found == old(self)@.found,
    {
        let ghost all = entries.deep_view();
        let ghost before = self@;
        let mut i: usize = entries.len();
        assert(all.len() == entries@.len());
        assert(all.skip(i as int) =~= seq![]);
        assert(before.pending + dirs_reversed(all.skip(i as int)) =~= before.pending);
        while i > 0
            invariant
                all == entries.deep_view(),
                all.len() == entries@.len(),
                i <= entries@.len(),
                self@.pending == before.pending + dirs_reversed(all.skip(i as int)),
                self@.found == before.found,
            decreases i,
        {
            i = i - 1;
            let ghost rest = dirs_reversed(all.skip(i + 1));
            let ghost sofar = self@.pending;
            proof {
                assert(all.skip(i as int).drop_first() =~= all.skip(i + 1));
                assert(all.skip(i as int)[0] == entries@[i as int].deep_view());
            }
            if entries[i].is_dir {
                let dir = entries[i].place.clone();
                self.pending.push(dir);
                assert(self.pending.deep_view() =~= sofar.push(entries@[i as int].place@));
                assert(self@.pending =~= before.pending + rest.push(entries@[i as int].place@));
            }
        }
        assert(all.skip(0) =~= all);
    }
}

// ---------------------------------------------------------------------------------------------
// What a search finds
// ---------------------------------------------------------------------------------------------

/// What lies at a path on disk.
pub enum Tree {
    File,
    Shadow(MetaView),
    Broken,
    Unreadable,
    Dir(Seq<(Seq<u8>, Tree)>),
}

/// Whether the search goes into what lies there.
pub open spec fn is_dir(tree: Tree) -> bool {
    !(tree is File)
}

/// The entries of a directory with these children.
pub open spec fn entries_of(children: Seq<(Seq<u8>, Tree)>) -> Seq<(Seq<u8>, bool)> {
    children.map_values(|child: (Seq<u8>, Tree)| (child.0, is_dir(child.1)))
}

/// What a visit finds there.
pub open spec fn shows(tree: Tree) -> VisitView {
    match tree {
        Tree::File => VisitView::Unreadable,
        Tree::Shadow(meta) => VisitView::Shadow(meta),
        Tree::Broken => VisitView::Broken,
        Tree::Unreadable => VisitView::Unreadable,
        Tree::Dir(children) => VisitView::Entries(entries_of(children)),
    }
}

/// The shadows at and below `place`, in order, with none inside another.
pub open spec fn shadows_at(place: Seq<u8>, tree: Tree) -> Seq<(Seq<u8>, MetaView)>
    decreases tree,
{
    match tree {
        Tree::Shadow(meta) => seq![(place, meta)],
        Tree::Dir(children) => shadows_in(children),
        _ => seq![],
    }
}

/// The shadows at and below each of the children, in order.
pub open spec fn shadows_in(children: Seq<(Seq<u8>, Tree)>) -> Seq<(Seq<u8>, MetaView)>
    decreases children,
{
    if children.len() == 0 {
        seq![]
    } else {
        shadows_at(children[0].0, children[0].1) + shadows_in(children.drop_first())
    }
}

/// The shadows at and below the directories still to visit.
pub open spec fn shadows_left(pending: Seq<Seq<u8>>, forest: Seq<Tree>) -> Seq<(Seq<u8>, MetaView)>
    decreases pending.len(),
{
    if pending.len() == 0 || forest.len() == 0 {
        seq![]
    } else {
        shadows_at(pending.last(), forest.last()) + shadows_left(
            pending.drop_last(),
            forest.drop_last(),
        )
    }
}

/// The trees of the directories among the children, the last one first.
pub open spec fn trees_reversed(children: Seq<(Seq<u8>, Tree)>) -> Seq<Tree>
    decreases children.len(),
{
    if children.len() == 0 {
        seq![]
    } else {
        let rest = trees_reversed(children.drop_first());
        if is_dir(children[0].1) {
            rest.push(children[0].1)
        } else {
            rest
        }
    }
}

/// The trees still to visit after the next one was visited.
pub open spec fn forest_after(forest: Seq<Tree>) -> Seq<Tree> {
    match forest.last() {
        Tree::Dir(children) => forest.drop_last() + trees_reversed(children),
        _ => forest.drop_last(),
    }
}

proof fn lemma_children(
    pending: Seq<Seq<u8>>,
    forest: Seq<Tree>,
    children: Seq<(Seq<u8>, Tree)>,
)
    requires
        pending.len() == forest.len(),
    ensures
        dirs_reversed(entries_of(children)).len() == trees_reversed(children).len(),
        shadows_left(
            pending + dirs_reversed(entries_of(children)),
            forest + trees_reversed(children),
        ) == shadows_in(children) + shadows_left(pending, forest),
    decreases children.len(),
{
    let dirs = dirs_reversed(entries_of(children));
    let trees = trees_reversed(children);
    if children.len() == 0 {
        assert(pending + dirs =~= pending);
        assert(forest + trees =~= forest);
        assert(shadows_in(children) + shadows_left(pending, forest) =~= shadows_left(
            pending,
            forest,
        ));
    } else {
        let rest = children.drop_first();
        lemma_children(pending, forest, rest);
        assert(entries_of(children).drop_first() =~= entries_of(rest));
        let rest_dirs = dirs_reversed(entries_of(rest));
        let rest_trees = trees_reversed(rest);
        if is_dir(children[0].1) {
            assert((pending + dirs).drop_last() =~= pending + rest_dirs);
            assert((forest + trees).drop_last() =~= forest + rest_trees);
            assert((pending + dirs).last() == children[0].0);
            assert((forest + trees).last() == children[0].1);
        } else {
            assert(shadows_at(children[0].0, children[0].1) =~= seq![]);
        }
        assert(shadows_left(pending + dirs, forest + trees) =~= shadows_in(children)
            + shadows_left(pending, forest));
    }
}

/// What has been found and what is still to be found make the same whole after every visit.
pub proof fn visit_loses_nothing(walk: WalkView, forest: Seq<Tree>)
    requires
        walk.pending.len() > 0,
        walk.pending.len() == forest.len(),
    ensures
        ({
            let next = visited(walk, shows(forest.last()));
            &&& next.pending.len() == forest_after(forest).len()
            &&& next.found + shadows_left(next.pending, forest_after(forest)) == walk.found
                + shadows_left(walk.pending, forest)
        }),
{
    let next = visited(walk, shows(forest.last()));
    let left = shadows_left(walk.pending.drop_last(), forest.drop_last());
    match forest.last() {
        Tree::Dir(children) => {
            lemma_children(walk.pending.drop_last(), forest.drop_last(), children);
        },
        Tree::Shadow(meta) => {
            assert(next.found + left =~= walk.found + shadows_left(walk.pending, forest));
        },
        _ => {
            assert(seq![] + left =~= left);
        },
    }
}

/// A search that has come to its end has found every shadow of the tree under its root, in order,
/// and has not looked inside any of them.
pub proof fn search_finds_all(
    root: Seq<u8>,
    tree: Tree,
    walks: Seq<WalkView>,
    forests: Seq<Seq<Tree>>,
)
    requires
        walks.len() > 0,
        walks.len() == forests.len(),
        walks[0] == started(root, true),
        forests[0] == seq![tree],
        forall|i: int|
            0 <= i < walks.len() - 1 ==> (#[trigger] walks[i]).pending.len() > 0 && walks[i + 1]
                == visited(walks[i], shows(forests[i].last())) && forests[i + 1] == forest_after(
                forests[i],
            ),
        walks.last().pending.len() == 0,
    ensures
        walks.last().found == shadows_at(root, tree),
{
    let n = walks.len() - 1;
    lemma_search_keeps(root, tree, walks, forests, n);
    let last = walks[n];
    assert(shadows_left(last.pending, forests[n]) =~= seq![]);
    assert(last.found + shadows_left(last.pending, forests[n]) =~= last.found);
}

proof fn lemma_search_keeps(
    root: Seq<u8>,
    tree: Tree,
    walks: Seq<WalkView>,
    forests: Seq<Seq<Tree>>,
    n: int,
)
    requires
        walks.len() == forests.len(),
        0 <= n < walks.len(),
        walks[0] == started(root, true),
        forests[0] == seq![tree],
        forall|i: int|
            0 <= i < walks.len() - 1 ==> (#[trigger] walks[i]).pending.len() > 0 && walks[i + 1]
                == visited(walks[i], shows(forests[i].last())) && forests[i + 1] == forest_after(
                forests[i],
            ),
    ensures
        walks[n].pending.len() == forests[n].len(),
        walks[n].found + shadows_left(walks[n].pending, forests[n]) == shadows_at(root, tree),
    decreases n,
{
    if n == 0 {
        let none = Seq::<(Seq<u8>, MetaView)>::empty();
        assert(seq![root].drop_last() =~= seq![]);
        assert(seq![tree].drop_last() =~= seq![]);
        assert(shadows_left(seq![root].drop_last(), seq![tree].drop_last()) =~= none);
        assert(shadows_left(seq![root], seq![tree]) =~= shadows_at(root, tree) + none);
        assert(none + (shadows_at(root, tree) + none) =~= shadows_at(root, tree));
    } else {
        lemma_search_keeps(root, tree, walks, forests, n - 1);
        assert(walks[n - 1].pending.len() > 0);
        visit_loses_nothing(walks[n - 1], forests[n - 1]);
    }
}

/// A search whose directories hold only what lies under them stays under its root.
pub proof fn search_stays_under_root(root: Seq<u8>, walk: WalkView, visit: VisitView)
    requires
        walk.pending.len() > 0,
        forall|i: int| 0 <= i < walk.pending.len() ==> starts_with(#[trigger] walk.pending[i], root),
        forall|i: int| 0 <= i < walk.found.len() ==> starts_with((#[trigger] walk.found[i]).0, root),
        visit matches VisitView::Entries(entries) ==> forall|i: int|
            0 <= i < entries.len() ==> starts_with((#[trigger] entries[i]).0, walk.pending.last()),
    ensures
        ({
            let next = visited(walk, visit);
            &&& forall|i: int|
                0 <= i < next.pending.len() ==> starts_with(#[trigger] next.pending[i], root)
            &&& forall|i: int|
                0 <= i < next.found.len() ==> starts_with((#[trigger] next.found[i]).0, root)
        }),
{
    let next = visited(walk, visit);
    let top = walk.pending.last();
    assert(starts_with(walk.pending[walk.pending.len() - 1], root));
    match visit {
        VisitView::Entries(entries) => {
            lemma_dirs_reversed(entries, root, top);
            let old_len = walk.pending.len() - 1;
            assert forall|i: int| 0 <= i < next.pending.len() implies starts_with(
                #[trigger] next.pending[i],
                root,
            ) by {
                if i < old_len {
                    assert(next.pending[i] == walk.pending[i]);
                } else {
                    assert(next.pending[i] == dirs_reversed(entries)[i - old_len]);
                }
            }
        },
        VisitView::Shadow(meta) => {
            assert forall|i: int| 0 <= i < next.found.len() implies starts_with(
                (#[trigger] next.found[i]).0,
                root,
            ) by {
                if i < walk.found.len() {
                    assert(next.found[i] == walk.found[i]);
                }
            }
        },
        _ => {},
    }
}

proof fn lemma_dirs_reversed(entries: Seq<(Seq<u8>, bool)>, root: Seq<u8>, top: Seq<u8>)
    requires
        starts_with(top, root),
        forall|i: int| 0 <= i < entries.len() ==> starts_with((#[trigger] entries[i]).0, top),
    ensures
        forall|i: int|
            0 <= i < dirs_reversed(entries).len() ==> starts_with(
                #[trigger] dirs_reversed(entries)[i],
                root,
            ),
    decreases entries.len(),
{
    if entries.len() > 0 {
        let rest = entries.drop_first();
        assert forall|i: int| 0 <= i < rest.len() implies starts_with((#[trigger] rest[i]).0, top) by {
            assert(rest[i] == entries[i + 1]);
        }
        lemma_dirs_reversed(rest, root, top);
        lemma_starts_with_transitive(entries[0].0, top, root);
        assert forall|i: int| 0 <= i < dirs_reversed(entries).len() implies starts_with(
            #[trigger] dirs_reversed(entries)[i],
            root,
        ) by {
            if i < dirs_reversed(rest).len() {
                assert(dirs_reversed(entries)[i] == dirs_reversed(rest)[i]);
            }
        }
    }
}

proof fn lemma_dirs_in_order(entries: Seq<(Seq<u8>, bool)>)
    ensures
        dirs_reversed(entries) == entries.filter(|e: (Seq<u8>, bool)| e.1).map_values(
            |e: (Seq<u8>, bool)| e.0,
        ).reverse(),
    decreases entries.len(),
{
    reveal_with_fuel(Seq::filter, 2);
    let keep = |e: (Seq<u8>, bool)| e.1;
    let place = |e: (Seq<u8>, bool)| e.0;
    if entries.len() > 0 {
        let first = seq![entries[0]];
        let rest = entries.drop_first();
        lemma_dirs_in_order(rest);
        assert(first + rest =~= entries);
        Seq::filter_distributes_over_add(first, rest, keep);
        assert(first.drop_last() =~= seq![]);
        if entries[0].1 {
            assert(first.filter(keep) =~= first);
        } else {
            assert(first.filter(keep) =~= seq![]);
        }
        assert(dirs_reversed(entries) =~= entries.filter(keep).map_values(place).reverse());
    } else {
        assert(entries.filter(keep).map_values(place).reverse() =~= seq![]);
    }
}

/// A visit takes the directory that was next off the search. A shadow is found there with what it
/// records, and not gone into; what cannot be read finds nothing; and of the entries of any other
/// directory exactly the directories are visited next, in their order, before what was left.
pub proof fn visit_goes_into_directories(
    walk: WalkView,
    meta: MetaView,
    entries: Seq<(Seq<u8>, bool)>,
    root: Seq<u8>,
)
    requires
        walk.pending.len() > 0,
    ensures
        started(root, true).pending == seq![root],
        started(root, false).pending.len() == 0,
        started(root, true).found.len() == 0,
        started(root, false).found.len() == 0,
        visited(walk, VisitView::Shadow(meta)).pending == walk.pending.drop_last(),
        visited(walk, VisitView::Shadow(meta)).found == walk.found.push((walk.pending.last(), meta)),
        visited(walk, VisitView::Broken).pending == walk.pending.drop_last(),
        visited(walk, VisitView::Broken).found == walk.found,
        visited(walk, VisitView::Unreadable).pending == walk.pending.drop_last(),
        visited(walk, VisitView::Unreadable).found == walk.found,
        visited(walk, VisitView::Entries(entries)).pending == walk.pending.drop_last()
            + entries.filter(|e: (Seq<u8>, bool)| e.1).map_values(
            |e: (Seq<u8>, bool)| e.0,
        ).reverse(),
        visited(walk, VisitView::Entries(entries)).found == walk.found,
{
    lemma_dirs_in_order(entries);
}

/// A search goes on as long as a directory is left, with the one that was put on last.
pub proof fn search_goes_on_while_any_is_left(walk: Walk, next: Option<FsPath>)
    requires
        call_ensures(Walk::next, (&walk,), next),
    ensures
        next is None <==> walk.pending.deep_view().len() == 0,
        next matches Some(dir) ==> dir@ == walk.pending.deep_view().last(),
{
}

proof fn lemma_shadows_in(children: Seq<(Seq<u8>, Tree)>, child: (Seq<u8>, Tree))
    ensures
        shadows_in(children.push(child)) == shadows_in(children) + shadows_at(child.0, child.1),
    decreases children.len(),
{
    reveal_with_fuel(shadows_in, 2);
    let more = children.push(child);
    if children.len() > 0 {
        lemma_shadows_in(children.drop_first(), child);
        assert(more.drop_first() =~= children.drop_first().push(child));
        assert(shadows_in(more) =~= shadows_in(children) + shadows_at(child.0, child.1));
    } else {
        assert(more.drop_first() =~= seq![]);
        assert(shadows_in(more) =~= shadows_in(children) + shadows_at(child.0, child.1));
    }
}

/// The shadows of a directory that is none itself are those of its children, one child after the
/// other; a shadow holds but itself, and nothing else holds any.
pub proof fn tree_holds_the_shadows_of_its_parts(
    place: Seq<u8>,
    meta: MetaView,
    children: Seq<(Seq<u8>, Tree)>,
    child: (Seq<u8>, Tree),
)
    ensures
        shadows_at(place, Tree::Shadow(meta)) == seq![(place, meta)],
        shadows_at(place, Tree::Dir(seq![])) == Seq::<(Seq<u8>, MetaView)>::empty(),
        shadows_at(place, Tree::Dir(children.push(child))) == shadows_at(place, Tree::Dir(children))
            + shadows_at(child.0, child.1),
        shadows_at(place, Tree::File) == Seq::<(Seq<u8>, MetaView)>::empty(),
        shadows_at(place, Tree::Broken) == Seq::<(Seq<u8>, MetaView)>::empty(),
        shadows_at(place, Tree::Unreadable) == Seq::<(Seq<u8>, MetaView)>::empty(),
{
    reveal_with_fuel(shadows_in, 2);
    lemma_shadows_in(children, child);
}

} // verus!
