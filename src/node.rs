//! The document tree: containers, images and text, with style inheritance
//! and resource hydration.

use vstd::prelude::*;
use std::sync::Arc;
use crate::canvas::Canvas;
use crate::store::{key_index, lookup, lru_touch};
use crate::render::{forest_size, lemma_forest_prefix_le, lemma_forest_push, tree_size};
use crate::style::{inherited_style, Style};

verus! {

broadcast use vstd::std_specs::vec::axiom_vec_decreases_to_view;

/// What resolving one image resource came to.
pub enum ImageState {
    /// Not resolved yet.
    NotFetched,
    /// Fetched and decoded.
    Fetched(Canvas),
    /// Fetched, but the bytes could not be decoded.
    DecodeError(String),
    /// The bytes could not be fetched.
    NetworkError(String),
}

impl ImageState {
    /// A state that will not change again.
    pub open spec fn is_terminal(&self) -> bool {
        !(self is NotFetched)
    }
}

/// A node that groups children and draws nothing of its own.
pub struct ContainerNode {
    pub style: Style,
    pub children: Option<Vec<Node>>,
}

/// A node that shows an image resource.
pub struct ImageNode {
    pub style: Style,
    pub src: String,
    pub image: Arc<ImageState>,
}

/// A node that shows a run of text.
pub struct TextNode {
    pub style: Style,
    pub text: String,
}

/// One node of a document.
pub enum Node {
    Container(ContainerNode),
    Image(ImageNode),
    Text(TextNode),
}

/// Whether some node of `s`, or a node below one, holds an image that is
/// not resolved.
pub open spec fn any_needs_hydration(s: Seq<Node>) -> bool
    decreases s,
{
    if s.len() == 0 {
        false
    } else {
        needs_hydration(s.last()) || any_needs_hydration(s.drop_last())
    }
}

/// Whether the node or any node below it holds an image that is not resolved.
pub open spec fn needs_hydration(n: Node) -> bool
    decreases n,
{
    match n {
        Node::Container(c) => match c.children {
            Some(v) => any_needs_hydration(v@),
            None => false,
        },
        Node::Image(im) => !(*im.image).is_terminal(),
        Node::Text(_) => false,
    }
}

/// The style of a node.
pub open spec fn style_of(n: Node) -> Style {
    match n {
        Node::Container(c) => c.style,
        Node::Image(im) => im.style,
        Node::Text(t) => t.style,
    }
}

/// The node with its style replaced by `s`.
pub open spec fn with_style(n: Node, s: Style) -> Node {
    match n {
        Node::Container(c) => Node::Container(ContainerNode { style: s, ..c }),
        Node::Image(im) => Node::Image(ImageNode { style: s, ..im }),
        Node::Text(t) => Node::Text(TextNode { style: s, ..t }),
    }
}

/// `new` is `old` with resources resolved: the same shape, styles and
/// sources, every resolved image kept as it was, and only unresolved image
/// slots changed.
pub open spec fn hydrated_from(old: Node, new: Node) -> bool
    decreases old,
{
    match (old, new) {
        (Node::Container(a), Node::Container(b)) => {
            &&& a.style == b.style
            &&& match (a.children, b.children) {
                (Some(va), Some(vb)) => all_hydrated_from(va@, vb@),
                (None, None) => true,
                _ => false,
            }
        },
        (Node::Image(a), Node::Image(b)) => {
            &&& a.style == b.style
            &&& a.src@ == b.src@
            &&& (*a.image).is_terminal() ==> b.image == a.image
        },
        (Node::Text(a), Node::Text(b)) => a == b,
        _ => false,
    }
}

/// `hydrated_from` holds of the two sequences position by position.
pub open spec fn all_hydrated_from(old: Seq<Node>, new: Seq<Node>) -> bool
    decreases old,
{
    if old.len() == 0 {
        new.len() == 0
    } else {
        &&& new.len() == old.len()
        &&& hydrated_from(old.last(), new.last())
        &&& all_hydrated_from(old.drop_last(), new.drop_last())
    }
}

/// `all_hydrated_from` is `hydrated_from` at every position.
pub proof fn lemma_all_hydrated_from(old: Seq<Node>, new: Seq<Node>)
    ensures
        all_hydrated_from(old, new) <==> (old.len() == new.len() && forall|i: int|
            0 <= i < old.len() ==> #[trigger] hydrated_from(old[i], new[i])),
    decreases old.len(),
{
    if old.len() > 0 && new.len() == old.len() {
        lemma_all_hydrated_from(old.drop_last(), new.drop_last());
        if forall|i: int| 0 <= i < old.len() ==> #[trigger] hydrated_from(old[i], new[i]) {
            assert(hydrated_from(old[old.len() - 1], new[new.len() - 1]));
            assert forall|i: int| 0 <= i < old.drop_last().len() implies #[trigger] hydrated_from(
                old.drop_last()[i],
                new.drop_last()[i],
            ) by {
                assert(hydrated_from(old[i], new[i]));
            }
        }
        if all_hydrated_from(old, new) {
            assert forall|i: int| 0 <= i < old.len() implies #[trigger] hydrated_from(old[i], new[i]) by {
                if i < old.len() - 1 {
                    assert(hydrated_from(old.drop_last()[i], new.drop_last()[i]));
                }
            }
        }
    }
}

/// Every node is hydrated from itself.
pub proof fn lemma_hydrated_from_self(n: Node)
    ensures
        hydrated_from(n, n),
    decreases n,
{
    match n {
        Node::Container(c) => {
            match c.children {
                Some(v) => {
                    assert(decreases_to!(v => v@));
                    lemma_all_hydrated_from_self(v@);
                },
                None => {},
            }
        },
        _ => {},
    }
}

/// Every sequence of nodes is hydrated from itself.
pub proof fn lemma_all_hydrated_from_self(s: Seq<Node>)
    ensures
        all_hydrated_from(s, s),
    decreases s,
{
    if s.len() > 0 {
        assert(decreases_to!(s => s[s.len() - 1]));
        lemma_hydrated_from_self(s.last());
        assert(decreases_to!(s => s.subrange(0, s.len() - 1)));
        lemma_all_hydrated_from_self(s.drop_last());
    }
}

/// A sequence needs hydration exactly when one of its nodes does.
pub proof fn lemma_any_needs_hydration(s: Seq<Node>)
    ensures
        any_needs_hydration(s) <==> exists|i: int| 0 <= i < s.len() && #[trigger] needs_hydration(s[i]),
    decreases s.len(),
{
    if s.len() > 0 {
        lemma_any_needs_hydration(s.drop_last());
        if needs_hydration(s.last()) {
            assert(needs_hydration(s[s.len() - 1]));
        }
        if any_needs_hydration(s.drop_last()) {
            let i = choose|i: int| 0 <= i < s.drop_last().len() && #[trigger] needs_hydration(s.drop_last()[i]);
            assert(needs_hydration(s[i]));
        }
        if exists|i: int| 0 <= i < s.len() && #[trigger] needs_hydration(s[i]) {
            let i = choose|i: int| 0 <= i < s.len() && #[trigger] needs_hydration(s[i]);
            if i < s.len() - 1 {
                assert(needs_hydration(s.drop_last()[i]));
            }
        }
    }
}

/// `new` is `old` after style is passed down the whole tree from a parent
/// whose resolved style is `parent`: the node first inherits from `parent`,
/// then its children inherit from the node's resolved style, and so on down.
/// Nothing but styles changes.
pub open spec fn passed_down(old: Node, parent: Style, new: Node) -> bool
    decreases old,
{
    let s = inherited_style(style_of(old), parent);
    match (old, new) {
        (Node::Container(a), Node::Container(b)) => {
            &&& b.style == s
            &&& match (a.children, b.children) {
                (Some(va), Some(vb)) => all_passed_down(va@, s, vb@),
                (None, None) => true,
                _ => false,
            }
        },
        (Node::Image(_), Node::Image(_)) => new == with_style(old, s),
        (Node::Text(_), Node::Text(_)) => new == with_style(old, s),
        _ => false,
    }
}

/// `passed_down` from the same parent style, position by position.
pub open spec fn all_passed_down(old: Seq<Node>, parent: Style, new: Seq<Node>) -> bool
    decreases old,
{
    if old.len() == 0 {
        new.len() == 0
    } else {
        &&& new.len() == old.len()
        &&& passed_down(old.last(), parent, new.last())
        &&& all_passed_down(old.drop_last(), parent, new.drop_last())
    }
}

/// `all_passed_down` holds exactly when `passed_down` holds at every position.
pub proof fn lemma_all_passed_down(old: Seq<Node>, parent: Style, new: Seq<Node>)
    ensures
        all_passed_down(old, parent, new) <==> (old.len() == new.len() && forall|i: int|
            0 <= i < old.len() ==> #[trigger] passed_down(old[i], parent, new[i])),
    decreases old.len(),
{
    if old.len() > 0 && new.len() == old.len() {
        lemma_all_passed_down(old.drop_last(), parent, new.drop_last());
        if forall|i: int| 0 <= i < old.len() ==> #[trigger] passed_down(old[i], parent, new[i]) {
            assert(passed_down(old[old.len() - 1], parent, new[new.len() - 1]));
            assert forall|i: int| 0 <= i < old.drop_last().len() implies #[trigger] passed_down(
                old.drop_last()[i],
                parent,
                new.drop_last()[i],
            ) by {
                assert(passed_down(old[i], parent, new[i]));
            }
        }
        if all_passed_down(old, parent, new) {
            assert forall|i: int| 0 <= i < old.len() implies #[trigger] passed_down(old[i], parent, new[i]) by {
                if i < old.len() - 1 {
                    assert(passed_down(old.drop_last()[i], parent, new.drop_last()[i]));
                }
            }
        }
    }
}

/// Passing style down keeps the number of nodes.
pub proof fn lemma_passed_down_keeps_size(old: Node, parent: Style, new: Node)
    requires
        passed_down(old, parent, new),
    ensures
        tree_size(old) == tree_size(new),
    decreases old,
{
    match (old, new) {
        (Node::Container(a), Node::Container(b)) => {
            match (a.children, b.children) {
                (Some(va), Some(vb)) => {
                    assert(decreases_to!(va => va@));
                    lemma_all_passed_down_keeps_size(va@, inherited_style(style_of(old), parent), vb@);
                },
                _ => {},
            }
        },
        _ => {},
    }
}

/// Passing style down keeps the number of nodes of a sequence of trees.
pub proof fn lemma_all_passed_down_keeps_size(old: Seq<Node>, parent: Style, new: Seq<Node>)
    requires
        all_passed_down(old, parent, new),
    ensures
        forest_size(old) == forest_size(new),
    decreases old,
{
    if old.len() > 0 {
        assert(decreases_to!(old => old[old.len() - 1]));
        lemma_passed_down_keeps_size(old.last(), parent, new.last());
        assert(decreases_to!(old => old.subrange(0, old.len() - 1)));
        lemma_all_passed_down_keeps_size(old.drop_last(), parent, new.drop_last());
    }
}

/// Where image resources are looked up, kept and fetched. A store is seen
/// as a sequence of entries, least recently used first.
pub trait ImageStore {
    /// The entries the store holds, least recently used first.
    spec fn store_entries(&self) -> Seq<(Seq<char>, Arc<ImageState>)>;

    /// The entries after `key` is stored with `value` into entries `s`.
    spec fn store_inserted(
        &self,
        s: Seq<(Seq<char>, Arc<ImageState>)>,
        key: Seq<char>,
        value: Arc<ImageState>,
    ) -> Seq<(Seq<char>, Arc<ImageState>)>;

    /// The store's own invariant.
    spec fn store_wf(&self) -> bool;

    /// What a fetch of `key` may come to.
    spec fn fetch_gives(key: Seq<char>, state: ImageState) -> bool;

    /// The cached state for `key`, if there is one; a hit becomes the most
    /// recently used entry.
    fn get(&mut self, key: &str) -> (r: Option<Arc<ImageState>>)
        ensures
            r == lookup(old(self).store_entries(), key@),
            final(self).store_entries() == lru_touch(old(self).store_entries(), key@),
            forall|e: (Seq<char>, Arc<ImageState>)| #[trigger] final(self).store_entries().contains(e)
                ==> old(self).store_entries().contains(e),
            final(self).store_wf(),
            forall|s: Seq<(Seq<char>, Arc<ImageState>)>, k: Seq<char>, v: Arc<ImageState>|
                #[trigger] final(self).store_inserted(s, k, v) == old(self).store_inserted(s, k, v),
    ;

    /// Stores `value` under `key`, replacing any earlier value.
    fn insert(&mut self, key: String, value: Arc<ImageState>)
        ensures
            final(self).store_entries() == old(self).store_inserted(old(self).store_entries(), key@, value),
            forall|e: (Seq<char>, Arc<ImageState>)| #[trigger] final(self).store_entries().contains(e)
                ==> old(self).store_entries().contains(e) || e == (key@, value),
            final(self).store_wf(),
            forall|s: Seq<(Seq<char>, Arc<ImageState>)>, k: Seq<char>, v: Arc<ImageState>|
                #[trigger] final(self).store_inserted(s, k, v) == old(self).store_inserted(s, k, v),
    ;

    /// Fetches and decodes the resource `key`, which is not assumed to be
    /// cached; what comes back is always a terminal state.
    fn fetch_async(&self, key: &str) -> (r: Arc<ImageState>)
        ensures
            (*r).is_terminal(),
            Self::fetch_gives(key@, *r),
    ;
}

/// Whether a state is terminal.
pub fn is_terminal(s: &ImageState) -> (r: bool)
    ensures
        r == s.is_terminal(),
{
    match s {
        ImageState::NotFetched => false,
        _ => true,
    }
}

/// The resolution protocol: a terminal cached state is reused and the hit
/// becomes the most recent entry; otherwise what the fetch gave is stored
/// after the lookup.
pub open spec fn resolved_by<S: ImageStore>(before: S, after: S, key: Seq<char>, r: Arc<ImageState>) -> bool {
    let hit = lookup(before.store_entries(), key);
    let touched = lru_touch(before.store_entries(), key);
    if hit is Some && (*hit->0).is_terminal() {
        r == hit->0 && after.store_entries() == touched
    } else {
        S::fetch_gives(key, *r) && after.store_entries() == before.store_inserted(touched, key, r)
    }
}

/// `v` is a state for `key` that the store held at the start, or one that a
/// fetch of `key` gives.
pub open spec fn sourced<S: ImageStore>(start: Seq<(Seq<char>, Arc<ImageState>)>, key: Seq<char>, v: Arc<ImageState>) -> bool {
    start.contains((key, v)) || S::fetch_gives(key, *v)
}

/// Every entry of `now` was held at the start or was fetched.
pub open spec fn store_sourced<S: ImageStore>(
    start: Seq<(Seq<char>, Arc<ImageState>)>,
    now: Seq<(Seq<char>, Arc<ImageState>)>,
) -> bool {
    forall|e: (Seq<char>, Arc<ImageState>)| #[trigger] now.contains(e) ==> sourced::<S>(start, e.0, e.1)
}

/// Every image that `old` left unresolved holds, in `new`, a state that the
/// store held at the start or that a fetch of its source gives.
pub open spec fn images_sourced<S: ImageStore>(old: Node, new: Node, start: Seq<(Seq<char>, Arc<ImageState>)>) -> bool
    decreases old,
{
    match (old, new) {
        (Node::Container(a), Node::Container(b)) => match (a.children, b.children) {
            (Some(va), Some(vb)) => all_images_sourced::<S>(va@, vb@, start),
            _ => true,
        },
        (Node::Image(a), Node::Image(b)) => !(*a.image).is_terminal() ==> sourced::<S>(start, a.src@, b.image),
        _ => true,
    }
}

/// `images_sourced` position by position.
pub open spec fn all_images_sourced<S: ImageStore>(
    old: Seq<Node>,
    new: Seq<Node>,
    start: Seq<(Seq<char>, Arc<ImageState>)>,
) -> bool
    decreases old,
{
    if old.len() == 0 || new.len() != old.len() {
        true
    } else {
        &&& images_sourced::<S>(old.last(), new.last(), start)
        &&& all_images_sourced::<S>(old.drop_last(), new.drop_last(), start)
    }
}

/// What was sourced from a later store is sourced from an earlier one whose
/// entries the later one came from.
pub proof fn lemma_images_sourced_earlier<S: ImageStore>(
    old: Node,
    new: Node,
    e0: Seq<(Seq<char>, Arc<ImageState>)>,
    e1: Seq<(Seq<char>, Arc<ImageState>)>,
)
    requires
        images_sourced::<S>(old, new, e1),
        store_sourced::<S>(e0, e1),
    ensures
        images_sourced::<S>(old, new, e0),
    decreases old,
{
    match (old, new) {
        (Node::Container(a), Node::Container(b)) => {
            match (a.children, b.children) {
                (Some(va), Some(vb)) => {
                    assert(decreases_to!(va => va@));
                    lemma_all_images_sourced_earlier::<S>(va@, vb@, e0, e1);
                },
                _ => {},
            }
        },
        (Node::Image(a), Node::Image(b)) => {
            if !(*a.image).is_terminal() && e1.contains((a.src@, b.image)) {
                let e = (a.src@, b.image);
                assert(sourced::<S>(e0, e.0, e.1));
            }
        },
        _ => {},
    }
}

/// `lemma_images_sourced_earlier` for a sequence of trees.
pub proof fn lemma_all_images_sourced_earlier<S: ImageStore>(
    old: Seq<Node>,
    new: Seq<Node>,
    e0: Seq<(Seq<char>, Arc<ImageState>)>,
    e1: Seq<(Seq<char>, Arc<ImageState>)>,
)
    requires
        all_images_sourced::<S>(old, new, e1),
        store_sourced::<S>(e0, e1),
    ensures
        all_images_sourced::<S>(old, new, e0),
    decreases old,
{
    if old.len() > 0 && new.len() == old.len() {
        assert(decreases_to!(old => old[old.len() - 1]));
        lemma_images_sourced_earlier::<S>(old.last(), new.last(), e0, e1);
        assert(decreases_to!(old => old.subrange(0, old.len() - 1)));
        lemma_all_images_sourced_earlier::<S>(old.drop_last(), new.drop_last(), e0, e1);
    }
}

/// `all_images_sourced` holds exactly when `images_sourced` holds at every
/// position of two sequences of one length.
pub proof fn lemma_all_images_sourced<S: ImageStore>(
    old: Seq<Node>,
    new: Seq<Node>,
    start: Seq<(Seq<char>, Arc<ImageState>)>,
)
    requires
        old.len() == new.len(),
    ensures
        all_images_sourced::<S>(old, new, start) <==> forall|i: int|
            0 <= i < old.len() ==> #[trigger] images_sourced::<S>(old[i], new[i], start),
    decreases old.len(),
{
    if old.len() > 0 {
        lemma_all_images_sourced::<S>(old.drop_last(), new.drop_last(), start);
        if forall|i: int| 0 <= i < old.len() ==> #[trigger] images_sourced::<S>(old[i], new[i], start) {
            assert(images_sourced::<S>(old[old.len() - 1], new[new.len() - 1], start));
            assert forall|i: int| 0 <= i < old.drop_last().len() implies #[trigger] images_sourced::<S>(
                old.drop_last()[i],
                new.drop_last()[i],
                start,
            ) by {
                assert(images_sourced::<S>(old[i], new[i], start));
            }
        }
        if all_images_sourced::<S>(old, new, start) {
            assert forall|i: int| 0 <= i < old.len() implies #[trigger] images_sourced::<S>(old[i], new[i], start) by {
                if i < old.len() - 1 {
                    assert(images_sourced::<S>(old.drop_last()[i], new.drop_last()[i], start));
                }
            }
        }
    }
}

/// A tree with nothing to resolve has all its images sourced.
pub proof fn lemma_images_sourced_self<S: ImageStore>(n: Node, start: Seq<(Seq<char>, Arc<ImageState>)>)
    requires
        !needs_hydration(n),
    ensures
        images_sourced::<S>(n, n, start),
    decreases n,
{
    match n {
        Node::Container(c) => {
            match c.children {
                Some(v) => {
                    assert(decreases_to!(v => v@));
                    lemma_all_images_sourced_self::<S>(v@, start);
                },
                None => {},
            }
        },
        _ => {},
    }
}

/// `lemma_images_sourced_self` for a sequence of trees.
pub proof fn lemma_all_images_sourced_self<S: ImageStore>(s: Seq<Node>, start: Seq<(Seq<char>, Arc<ImageState>)>)
    requires
        !any_needs_hydration(s),
    ensures
        all_images_sourced::<S>(s, s, start),
    decreases s,
{
    if s.len() > 0 {
        assert(decreases_to!(s => s[s.len() - 1]));
        lemma_images_sourced_self::<S>(s.last(), start);
        assert(decreases_to!(s => s.subrange(0, s.len() - 1)));
        lemma_all_images_sourced_self::<S>(s.drop_last(), start);
    }
}

/// Sourcing carries over a chain of stores.
pub proof fn lemma_store_sourced_trans<S: ImageStore>(
    e0: Seq<(Seq<char>, Arc<ImageState>)>,
    e1: Seq<(Seq<char>, Arc<ImageState>)>,
    e2: Seq<(Seq<char>, Arc<ImageState>)>,
)
    requires
        store_sourced::<S>(e0, e1),
        store_sourced::<S>(e1, e2),
    ensures
        store_sourced::<S>(e0, e2),
{
    assert forall|e: (Seq<char>, Arc<ImageState>)| #[trigger] e2.contains(e) implies sourced::<S>(e0, e.0, e.1) by {
        if e1.contains((e.0, e.1)) {
            assert(e1.contains((e.0, e.1)));
        }
    }
}

/// Resolves one resource key: a terminal cached state is reused; otherwise
/// the resource is fetched and the result is stored before it is returned.
pub fn resolve_image<S: ImageStore>(store: &mut S, key: &str) -> (r: Arc<ImageState>)
    ensures
        (*r).is_terminal(),
        resolved_by(*old(store), *final(store), key@, r),
        sourced::<S>(old(store).store_entries(), key@, r),
        store_sourced::<S>(old(store).store_entries(), final(store).store_entries()),
{
    let ghost e0 = store.store_entries();
    match store.get(key) {
        Some(s) => {
            if is_terminal(&*s) {
                proof {
                    let i = key_index(e0, key@)->0;
                    assert(e0[i] == (key@, s));
                    assert(e0.contains((key@, s)));
                }
                return s;
            }
        },
        None => {},
    }
    let s = store.fetch_async(key);
    let k = key.to_string();
    store.insert(k, s.clone());
    s
}

impl ImageNode {
    /// Resolves this node's image if it is not resolved yet.
    pub fn hydrate<S: ImageStore>(&mut self, store: &mut S)
        ensures
            (*final(self).image).is_terminal(),
            final(self).style == old(self).style,
            final(self).src@ == old(self).src@,
            (*old(self).image).is_terminal() ==> final(self).image == old(self).image,
            (*old(self).image).is_terminal() ==> *final(store) == *old(store),
            !(*old(self).image).is_terminal() ==> resolved_by(*old(store), *final(store), old(self).src@, final(self).image),
            !(*old(self).image).is_terminal() ==> sourced::<S>(old(store).store_entries(), old(self).src@, final(self).image),
            store_sourced::<S>(old(store).store_entries(), final(store).store_entries()),
    {
        if !is_terminal(&*self.image) {
            self.image = resolve_image(store, self.src.as_str());
        }
    }
}

impl ContainerNode {
    /// The container's own style.
    pub fn get_style(&self) -> (r: &Style)
        ensures
            *r == self.style,
    {
        &self.style
    }

    /// The container's children, if it has a list of them.
    pub fn get_children(&self) -> (r: Option<&Vec<Node>>)
        ensures
            r == match self.children {
                Some(v) => Some(&v),
                None => None::<&Vec<Node>>,
            },
    {
        match &self.children {
            Some(v) => Some(v),
            None => None,
        }
    }

    /// Whether a child, or a node below one, refers to an unresolved image.
    pub fn should_hydrate(&self) -> (r: bool)
        ensures
            r == needs_hydration(Node::Container(*self)),
        decreases *self,
    {
        match &self.children {
            Some(v) => {
                let mut i: usize = 0;
                while i < v.len()
                    invariant
                        i <= v@.len(),
                        self.children == Some(*v),
                        forall|j: int| 0 <= j < i ==> !needs_hydration(#[trigger] v@[j]),
                    decreases v@.len() - i,
                {
                    proof {
                        let cv = self.children->0;
                        assert(decreases_to!(cv => cv@));
                        assert(decreases_to!(cv@ => cv@[i as int]));
                        assert(decreases_to!(*self => cv@[i as int]));
                    }
                    if v[i].should_hydrate() {
                        proof {
                            lemma_any_needs_hydration(v@);
                        }
                        return true;
                    }
                    i = i + 1;
                }
                proof {
                    lemma_any_needs_hydration(v@);
                }
                false
            },
            None => false,
        }
    }

    /// Passes this container's style down through every child's tree, in
    /// order; the container's own style stays.
    pub fn pass_style_to_descendants(&mut self)
        ensures
            final(self).style == old(self).style,
            match (old(self).children, final(self).children) {
                (Some(va), Some(vb)) => all_passed_down(va@, old(self).style, vb@),
                (None, None) => true,
                _ => false,
            },
        decreases tree_size(Node::Container(*old(self))), 0nat,
    {
        let style = self.style;
        let ghost c0 = *self;
        match self.children.take() {
            None => {},
            Some(mut v) => {
                let ghost v0 = v@;
                let n = v.len();
                let mut i: usize = 0;
                while i < n
                    invariant
                        c0 == *old(self),
                        c0.children is Some,
                        c0.children->0@ == v0,
                        style == c0.style,
                        v@.len() == n == v0.len(),
                        i <= n,
                        forall|j: int| 0 <= j < i ==> #[trigger] passed_down(v0[j], style, v@[j]),
                        forall|j: int| i <= j < n ==> #[trigger] v@[j] == v0[j],
                    decreases n - i,
                {
                    proof {
                        lemma_forest_push(v0, i as int);
                        lemma_forest_prefix_le(v0, i as int + 1);
                        assert(tree_size(Node::Container(c0)) == 1 + forest_size(v0));
                    }
                    let mut child = v.remove(i);
                    child.pass_style_down(&style);
                    v.insert(i, child);
                    i = i + 1;
                }
                proof {
                    lemma_all_passed_down(v0, style, v@);
                }
                self.children = Some(v);
            },
        }
    }

    /// Gives each direct child the inheritable fields of this container's
    /// style that the child does not set itself.
    pub fn inherit_style_for_children(&mut self)
        ensures
            final(self).style == old(self).style,
            final(self).children is Some <==> old(self).children is Some,
            old(self).children is Some ==> final(self).children->0@.len()
                == old(self).children->0@.len(),
            old(self).children is Some ==> forall|i: int|
                0 <= i < old(self).children->0@.len() ==> #[trigger] final(self).children->0@[i]
                    == with_style(
                    old(self).children->0@[i],
                    inherited_style(style_of(old(self).children->0@[i]), old(self).style),
                ),
    {
        let style = self.style;
        match self.children.take() {
            None => {},
            Some(mut v) => {
                let ghost v0 = v@;
                let n = v.len();
                let mut i: usize = 0;
                while i < n
                    invariant
                        v@.len() == n == v0.len(),
                        i <= n,
                        forall|j: int| 0 <= j < i ==> #[trigger] v@[j] == with_style(
                            v0[j],
                            inherited_style(style_of(v0[j]), style),
                        ),
                        forall|j: int| i <= j < n ==> #[trigger] v@[j] == v0[j],
                    decreases n - i,
                {
                    let mut child = v.remove(i);
                    child.inherit_style(&style);
                    v.insert(i, child);
                    i = i + 1;
                }
                self.children = Some(v);
            },
        }
    }

    /// Hydrates, in order, each child that needs it; the others are not
    /// touched.
    pub fn hydrate<S: ImageStore>(&mut self, store: &mut S)
        ensures
            hydrated_from(Node::Container(*old(self)), Node::Container(*final(self))),
            !needs_hydration(Node::Container(*final(self))),
            !needs_hydration(Node::Container(*old(self))) ==> *final(self) == *old(self) && *final(store) == *old(store),
            old(self).children is Some ==> final(self).children is Some && forall|i: int|
                0 <= i < old(self).children->0@.len() && !needs_hydration(#[trigger] old(self).children->0@[i])
                    ==> final(self).children->0@[i] == old(self).children->0@[i],
            images_sourced::<S>(Node::Container(*old(self)), Node::Container(*final(self)), old(store).store_entries()),
            store_sourced::<S>(old(store).store_entries(), final(store).store_entries()),
        decreases *old(self),
    {
        let ghost e0 = store.store_entries();
        if !self.should_hydrate() {
            proof {
                lemma_hydrated_from_self(Node::Container(*self));
                lemma_images_sourced_self::<S>(Node::Container(*self), e0);
            }
            return;
        }
        let ghost c0 = *self;
        match self.children.take() {
            None => {},
            Some(mut v) => {
                let ghost v0 = v@;
                let n = v.len();
                let mut i: usize = 0;
                while i < n
                    invariant
                        c0 == *old(self),
                        c0.children is Some,
                        c0.children->0@ == v0,
                        v@.len() == n == v0.len(),
                        i <= n,
                        forall|j: int| 0 <= j < i ==> #[trigger] hydrated_from(v0[j], v@[j]),
                        forall|j: int| 0 <= j < i ==> !needs_hydration(#[trigger] v@[j]),
                        forall|j: int| i <= j < n ==> #[trigger] v@[j] == v0[j],
                        forall|j: int| 0 <= j < i && !needs_hydration(#[trigger] v0[j]) ==> v@[j] == v0[j],
                        e0 == old(store).store_entries(),
                        store_sourced::<S>(e0, store.store_entries()),
                        forall|j: int| 0 <= j < i ==> #[trigger] images_sourced::<S>(v0[j], v@[j], e0),
                    decreases n - i,
                {
                    if v[i].should_hydrate() {
                        proof {
                            let cv = c0.children->0;
                            assert(decreases_to!(cv => cv@));
                            assert(decreases_to!(cv@ => cv@[i as int]));
                            assert(decreases_to!(c0 => cv@[i as int]));
                        }
                        assert(needs_hydration(v0[i as int]));
                        let mut child = v.remove(i);
                        assert(decreases_to!(c0 => child));
                        let ghost e1 = store.store_entries();
                        let ghost before = child;
                        child.hydrate(store);
                        proof {
                            lemma_images_sourced_earlier::<S>(before, child, e0, e1);
                            lemma_store_sourced_trans::<S>(e0, e1, store.store_entries());
                        }
                        v.insert(i, child);
                        assert(v@[i as int] == child);
                    } else {
                        proof {
                            lemma_hydrated_from_self(v@[i as int]);
                            lemma_images_sourced_self::<S>(v@[i as int], e0);
                        }
                    }
                    i = i + 1;
                }
                proof {
                    lemma_all_hydrated_from(v0, v@);
                    lemma_any_needs_hydration(v@);
                    lemma_all_images_sourced::<S>(v0, v@, e0);
                }
                self.children = Some(v);
            },
        }
    }
}

impl Node {
    /// The node's style.
    pub fn get_style(&self) -> (r: &Style)
        ensures
            *r == style_of(*self),
    {
        match self {
            Node::Container(c) => &c.style,
            Node::Image(im) => &im.style,
            Node::Text(t) => &t.style,
        }
    }

    /// Merges the inheritable fields of `parent` into this node's style
    /// wherever the node does not set them itself.
    pub fn inherit_style(&mut self, parent: &Style)
        ensures
            *final(self) == with_style(*old(self), inherited_style(style_of(*old(self)), *parent)),
    {
        match self {
            Node::Container(c) => c.style.inherit(parent),
            Node::Image(im) => im.style.inherit(parent),
            Node::Text(t) => t.style.inherit(parent),
        }
    }

    /// Passes style down the whole tree below this node, top-down: the node
    /// inherits from `parent`, then each child, in order, from the node.
    pub fn pass_style_down(&mut self, parent: &Style)
        ensures
            passed_down(*old(self), *parent, *final(self)),
        decreases tree_size(*old(self)), 1nat,
    {
        self.inherit_style(parent);
        match self {
            Node::Container(c) => c.pass_style_to_descendants(),
            _ => {},
        }
    }

    /// Resolves the styles of the whole tree in one top-down pass: the root
    /// keeps its own style and every node below inherits from its parent's
    /// resolved style.
    pub fn resolve_styles(&mut self)
        ensures
            passed_down(*old(self), style_of(*old(self)), *final(self)),
            style_of(*final(self)) == style_of(*old(self)),
    {
        let own = *self.get_style();
        self.pass_style_down(&own);
    }

    /// Passes inheritable style down one level: to the children of a
    /// container; leaves have none.
    pub fn inherit_style_for_children(&mut self)
        ensures
            style_of(*final(self)) == style_of(*old(self)),
            *old(self) is Container <==> *final(self) is Container,
            !(*old(self) is Container) ==> *final(self) == *old(self),
            *old(self) is Container && (*old(self))->Container_0.children is Some ==> {
                let a = (*old(self))->Container_0.children->0@;
                let b = (*final(self))->Container_0.children->0@;
                &&& (*final(self))->Container_0.children is Some
                &&& b.len() == a.len()
                &&& forall|i: int| 0 <= i < a.len() ==> #[trigger] b[i] == with_style(
                    a[i],
                    inherited_style(style_of(a[i]), style_of(*old(self))),
                )
            },
    {
        match self {
            Node::Container(c) => c.inherit_style_for_children(),
            _ => {},
        }
    }

    /// Resolves every unresolved image in the tree below this node. A tree
    /// with nothing to resolve is left as it is and the store is not used.
    pub fn hydrate<S: ImageStore>(&mut self, store: &mut S)
        ensures
            hydrated_from(*old(self), *final(self)),
            !needs_hydration(*final(self)),
            !needs_hydration(*old(self)) ==> *final(self) == *old(self),
            !needs_hydration(*old(self)) ==> *final(store) == *old(store),
            match (*old(self), *final(self)) {
                (Node::Image(a), Node::Image(b)) => !(*a.image).is_terminal() ==> resolved_by(
                    *old(store),
                    *final(store),
                    a.src@,
                    b.image,
                ),
                _ => true,
            },
            images_sourced::<S>(*old(self), *final(self), old(store).store_entries()),
            store_sourced::<S>(old(store).store_entries(), final(store).store_entries()),
        decreases *old(self),
    {
        if !self.should_hydrate() {
            proof {
                lemma_hydrated_from_self(*self);
                lemma_images_sourced_self::<S>(*self, store.store_entries());
            }
            return;
        }
        match self {
            Node::Container(c) => c.hydrate(store),
            Node::Image(im) => im.hydrate(store),
            Node::Text(_) => {},
        }
    }

    /// Whether the node or a node below it refers to an unresolved image.
    pub fn should_hydrate(&self) -> (r: bool)
        ensures
            r == needs_hydration(*self),
        decreases *self,
    {
        match self {
            Node::Container(c) => c.should_hydrate(),
            Node::Image(im) => !is_terminal(&*im.image),
            Node::Text(_) => false,
        }
    }
}

} // verus!

