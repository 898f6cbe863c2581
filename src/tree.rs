use vstd::prelude::*;

verus! {

/// The identifier of the root element.
pub const ROOT_IDENTIFIER: u64 = 0;

/// What a live element is.
#[derive(Clone, Copy, PartialEq, Eq, Structural, Debug)]
pub enum ElementKind {
    Root,
    Widget,
    Window,
    Dynamic,
}

/// One node of the live tree. `parent` and `children` hold indices into the
/// tree's arena; a node's children always have larger indices than the node.
pub struct ElementNode<W> {
    pub(crate) kind: ElementKind,
    pub(crate) widget: Option<W>,
    pub(crate) identifier: u64,
    pub(crate) parent: Option<usize>,
    pub(crate) children: Vec<usize>,
}

/// A handle to a node of an `ElementTree`.
#[derive(Clone, Copy, PartialEq, Eq, Structural, Debug)]
pub struct Element {
    pub index: usize,
}

/// The index that an identifier was made from: its upper 32 bits.
pub open spec fn identifier_index(id: u64) -> u64 {
    id >> 32u64
}

/// Relies on fastrand::u32: a random number, of which nothing is promised.
#[verifier::external_body]
fn random_low() -> (r: u32) {
    fastrand::u32(..)
}

/// An identifier whose upper half is `index` and whose lower half is random,
/// so that identifiers of distinct nodes always differ.
fn make_identifier(index: usize) -> (r: u64)
    requires
        index < 0x1_0000_0000,
    ensures
        identifier_index(r) == index,
{
    let low = random_low();
    let i = index as u64;
    let l = low as u64;
    let r = (i << 32u64) | l;
    assert(((i << 32u64) | l) >> 32u64 == i) by (bit_vector)
        requires
            i < 0x1_0000_0000u64,
            l < 0x1_0000_0000u64,
    ;
    r
}

/// The index that builder node `j` gets when a description is built under
/// node `parent` of a tree whose nodes before the new ones number `off + 1`.
pub open spec fn placed(j: usize, off: int, parent: usize) -> usize {
    if j == 0 {
        parent
    } else {
        (j + off) as usize
    }
}

/// The indices of a list of element handles.
pub open spec fn element_indices(es: Seq<Element>) -> Seq<usize> {
    es.map_values(|e: Element| e.index)
}

/// Every index of `s` moved up by `off`.
pub open spec fn shift(s: Seq<usize>, off: int) -> Seq<usize> {
    s.map_values(|c: usize| (c + off) as usize)
}

fn shift_vec(v: &Vec<usize>, off: usize, bound: usize) -> (r: Vec<usize>)
    requires
        forall|i: int| 0 <= i < v@.len() ==> #[trigger] v@[i] < bound,
        off + bound <= usize::MAX,
    ensures
        r@ == shift(v@, off as int),
{
    let mut r: Vec<usize> = Vec::new();
    let mut i: usize = 0;
    while i < v.len()
        invariant
            i <= v@.len(),
            forall|i: int| 0 <= i < v@.len() ==> #[trigger] v@[i] < bound,
            off + bound <= usize::MAX,
            r@ == shift(v@.take(i as int), off as int),
        decreases v@.len() - i,
    {
        r.push(v[i] + off);
        proof {
            assert(v@.take(i + 1) =~= v@.take(i as int).push(v@[i as int]));
            assert(shift(v@.take(i + 1), off as int) =~= shift(v@.take(i as int), off as int).push((v@[i as int] + off) as usize));
        }
        i = i + 1;
    }
    proof {
        assert(v@.take(i as int) =~= v@);
    }
    r
}

/// The live element tree, an arena of nodes. Node 0 is the root, with the
/// fixed identifier `ROOT_IDENTIFIER`. Every other identifier carries the
/// index of its node in its upper half, so no two nodes share one and none is
/// ever reused.
pub struct ElementTree<W> {
    pub(crate) nodes: Vec<ElementNode<W>>,
}

impl<W: Copy> ElementTree<W> {
    pub closed spec fn len(&self) -> nat {
        self.nodes@.len()
    }

    pub closed spec fn kind(&self, i: int) -> ElementKind {
        self.nodes@[i].kind
    }

    pub closed spec fn widget(&self, i: int) -> Option<W> {
        self.nodes@[i].widget
    }

    pub closed spec fn identifier(&self, i: int) -> u64 {
        self.nodes@[i].identifier
    }

    pub closed spec fn parent(&self, i: int) -> Option<usize> {
        self.nodes@[i].parent
    }

    pub closed spec fn children(&self, i: int) -> Seq<usize> {
        self.nodes@[i].children@
    }

    pub open spec fn node_wf(&self, i: int) -> bool {
        &&& identifier_index(self.identifier(i)) == i
        &&& (i == 0 <==> self.kind(i) == ElementKind::Root)
        &&& (i == 0 ==> self.parent(i) is None && self.identifier(i) == ROOT_IDENTIFIER)
        &&& (i > 0 ==> (self.parent(i) matches Some(p) && p < i))
        &&& self.children(i).no_duplicates()
        &&& forall|j: int|
            0 <= j < self.children(i).len() ==> {
                let c = #[trigger] self.children(i)[j];
                &&& i < c < self.len()
                &&& self.parent(c as int) == Some(i as usize)
            }
    }

    /// Well-formedness: the root is node 0, every other node has an earlier
    /// parent, every listed child is a later node whose parent is the lister,
    /// and each identifier carries its node's index.
    pub open spec fn wf(&self) -> bool {
        &&& 0 < self.len() <= 0x1_0000_0000
        &&& forall|i: int| 0 <= i < self.len() ==> #[trigger] self.node_wf(i)
    }

    /// The nodes of `old` are still here, with their kind, payload,
    /// identifier and parent.
    pub open spec fn keeps_nodes_of(&self, old: &Self) -> bool {
        &&& self.len() >= old.len()
        &&& forall|i: int|
            #![trigger self.kind(i)]
            #![trigger self.widget(i)]
            #![trigger self.identifier(i)]
            #![trigger self.parent(i)]
            0 <= i < old.len() ==> {
                &&& self.kind(i) == old.kind(i)
                &&& self.widget(i) == old.widget(i)
                &&& self.identifier(i) == old.identifier(i)
                &&& self.parent(i) == old.parent(i)
            }
    }

    /// A tree that holds the root alone.
    pub fn new() -> (r: Self)
        ensures
            r.wf(),
            r.len() == 1,
            r.kind(0) == ElementKind::Root,
            r.children(0).len() == 0,
    {
        let root = ElementNode {
            kind: ElementKind::Root,
            widget: None,
            identifier: ROOT_IDENTIFIER,
            parent: None,
            children: Vec::new(),
        };
        let mut nodes: Vec<ElementNode<W>> = Vec::new();
        nodes.push(root);
        let r = ElementTree { nodes };
        proof {
            assert(identifier_index(0u64) == 0) by (bit_vector);
            assert(r.node_wf(0));
        }
        r
    }

    /// The number of nodes, the root and unlinked ones included.
    pub fn count(&self) -> (r: usize)
        ensures
            r == self.len(),
    {
        self.nodes.len()
    }

    /// The root element.
    pub fn root(&self) -> (r: Element)
        ensures
            r.index == 0,
    {
        Element { index: 0 }
    }

    /// The identifier of `e`.
    pub fn identifier_of(&self, e: Element) -> (r: u64)
        requires
            e.index < self.len(),
        ensures
            r == self.identifier(e.index as int),
    {
        self.nodes[e.index].identifier
    }

    /// The kind of `e`.
    pub fn kind_of(&self, e: Element) -> (r: ElementKind)
        requires
            e.index < self.len(),
        ensures
            r == self.kind(e.index as int),
    {
        self.nodes[e.index].kind
    }

    /// The payload of `e`.
    pub fn widget_of(&self, e: Element) -> (r: Option<W>)
        requires
            e.index < self.len(),
        ensures
            r == self.widget(e.index as int),
    {
        self.nodes[e.index].widget
    }

    /// The parent of `e`, if it has one.
    pub fn parent_of(&self, e: Element) -> (r: Option<Element>)
        requires
            e.index < self.len(),
        ensures
            r matches Some(p) ==> self.parent(e.index as int) == Some(p.index),
            r is None ==> self.parent(e.index as int) is None,
    {
        match self.nodes[e.index].parent {
            Some(p) => Some(Element { index: p }),
            None => None,
        }
    }

    /// The children of `e`, in order.
    pub fn children_of(&self, e: Element) -> (r: Vec<Element>)
        requires
            e.index < self.len(),
        ensures
            r@.len() == self.children(e.index as int).len(),
            forall|j: int| 0 <= j < r@.len() ==> #[trigger] r@[j].index == self.children(e.index as int)[j],
    {
        let ch = &self.nodes[e.index].children;
        let mut r: Vec<Element> = Vec::new();
        let mut i: usize = 0;
        while i < ch.len()
            invariant
                i <= ch@.len(),
                r@.len() == i,
                forall|j: int| 0 <= j < i ==> #[trigger] r@[j].index == ch@[j],
            decreases ch@.len() - i,
        {
            r.push(Element { index: ch[i] });
            i = i + 1;
        }
        r
    }
    /// The nearest window at or above node `i`.
    pub open spec fn window_of(&self, i: int) -> Option<usize>
        decreases i,
    {
        if i < 0 {
            None
        } else if self.kind(i) == ElementKind::Window {
            Some(i as usize)
        } else {
            match self.parent(i) {
                Some(p) => if p < i {
                    self.window_of(p as int)
                } else {
                    None
                },
                None => None,
            }
        }
    }

    /// What node `i` draws, in order: a widget draws itself and then its
    /// children, a dynamic element draws its children, and the root and
    /// windows draw nothing here (a window draws its own children itself).
    pub open spec fn render_of(&self, i: int) -> Seq<usize>
        decreases self.len() - i, self.children(i).len() + 1,
    {
        if !(0 <= i < self.len()) {
            Seq::empty()
        } else {
            match self.kind(i) {
                ElementKind::Widget => seq![i as usize] + self.render_children(
                    i,
                    self.children(i).len() as int,
                ),
                ElementKind::Dynamic => self.render_children(i, self.children(i).len() as int),
                _ => Seq::empty(),
            }
        }
    }

    /// What the first `k` children of node `i` draw, in order.
    pub open spec fn render_children(&self, i: int, k: int) -> Seq<usize>
        decreases self.len() - i, k,
    {
        if !(0 <= i < self.len()) || k <= 0 || k > self.children(i).len() {
            Seq::empty()
        } else {
            let c = self.children(i)[k - 1] as int;
            self.render_children(i, k - 1) + if i < c < self.len() {
                self.render_of(c)
            } else {
                Seq::empty()
            }
        }
    }

    /// The windows in the subtree of node `i`, `i` included, in preorder.
    pub open spec fn windows_under(&self, i: int) -> Seq<usize>
        decreases self.len() - i, self.children(i).len() + 1,
    {
        if !(0 <= i < self.len()) {
            Seq::empty()
        } else {
            (if self.kind(i) == ElementKind::Window {
                seq![i as usize]
            } else {
                Seq::empty()
            }) + self.windows_in_children(i, self.children(i).len() as int)
        }
    }

    /// The windows in the subtrees of the first `k` children of node `i`.
    pub open spec fn windows_in_children(&self, i: int, k: int) -> Seq<usize>
        decreases self.len() - i, k,
    {
        if !(0 <= i < self.len()) || k <= 0 || k > self.children(i).len() {
            Seq::empty()
        } else {
            let c = self.children(i)[k - 1] as int;
            self.windows_in_children(i, k - 1) + if i < c < self.len() {
                self.windows_under(c)
            } else {
                Seq::empty()
            }
        }
    }

    /// Two nodes with the same identifier are the same node.
    pub proof fn lemma_identifiers_unique(&self, i: int, j: int)
        requires
            self.wf(),
            0 <= i < self.len(),
            0 <= j < self.len(),
            self.identifier(i) == self.identifier(j),
        ensures
            i == j,
    {
        assert(self.node_wf(i));
        assert(self.node_wf(j));
    }

    /// Adds a node of kind `kind` with payload `widget` as the last child of `parent`.
    fn push_child(&mut self, parent: usize, kind: ElementKind, widget: Option<W>) -> (r: usize)
        requires
            old(self).wf(),
            parent < old(self).len(),
            old(self).len() < 0x1_0000_0000,
            kind != ElementKind::Root,
        ensures
            final(self).wf(),
            r == old(self).len(),
            final(self).len() == old(self).len() + 1,
            final(self).keeps_nodes_of(old(self)),
            final(self).kind(r as int) == kind,
            final(self).widget(r as int) == widget,
            final(self).parent(r as int) == Some(parent),
            final(self).children(r as int).len() == 0,
            final(self).children(parent as int) == old(self).children(parent as int).push(r),
            forall|i: int|
                0 <= i < old(self).len() && i != parent ==> #[trigger] final(self).children(i)
                    == old(self).children(i),
    {
        let index = self.nodes.len();
        let identifier = make_identifier(index);
        let ghost g0 = *self;
        self.nodes.push(ElementNode { kind, widget, identifier, parent: Some(parent), children: Vec::new() });
        let ghost g1 = *self;
        self.nodes[parent].children.push(index);
        proof {
            assert forall|i: int| 0 <= i < g0.len() implies {
                &&& #[trigger] self.kind(i) == g0.kind(i)
                &&& self.widget(i) == g0.widget(i)
                &&& self.identifier(i) == g0.identifier(i)
                &&& self.parent(i) == g0.parent(i)
                &&& (i != parent ==> self.children(i) == g0.children(i))
            } by {
                assert(g1.nodes@[i] == g0.nodes@[i]);
            }
            assert(self.children(parent as int) == g0.children(parent as int).push(index));
            assert forall|i: int| 0 <= i < self.len() implies #[trigger] self.node_wf(i) by {
                if i < index {
                    assert(g0.node_wf(i));
                    assert forall|j: int| 0 <= j < self.children(i).len() implies {
                        let c = #[trigger] self.children(i)[j];
                        &&& i < c < self.len()
                        &&& self.parent(c as int) == Some(i as usize)
                    } by {
                        if i != parent || j < g0.children(i).len() {
                            assert(self.children(i)[j] == g0.children(i)[j]);
                        }
                    }
                    if i == parent {
                        assert forall|a: int, b: int|
                            0 <= a < self.children(i).len() && 0 <= b < self.children(i).len()
                                && a != b implies self.children(i)[a] != self.children(i)[b] by {
                            if a < g0.children(i).len() {
                                assert(self.children(i)[a] == g0.children(i)[a]);
                            }
                            if b < g0.children(i).len() {
                                assert(self.children(i)[b] == g0.children(i)[b]);
                            }
                        }
                    }
                } else {
                    assert(self.identifier(i) == identifier);
                }
            }
        }
        index
    }

    /// Adds a widget element with payload `widget` as the last child of `parent`.
    pub fn child(&mut self, parent: Element, widget: W) -> (r: Element)
        requires
            old(self).wf(),
            parent.index < old(self).len(),
            old(self).len() < 0x1_0000_0000,
        ensures
            final(self).wf(),
            r.index == old(self).len(),
            final(self).len() == old(self).len() + 1,
            final(self).keeps_nodes_of(old(self)),
            final(self).kind(r.index as int) == ElementKind::Widget,
            final(self).widget(r.index as int) == Some(widget),
            final(self).parent(r.index as int) == Some(parent.index),
            final(self).children(r.index as int).len() == 0,
            final(self).children(parent.index as int) == old(self).children(parent.index as int).push(
                r.index,
            ),
            forall|i: int|
                0 <= i < old(self).len() && i != parent.index ==> #[trigger] final(self).children(i)
                    == old(self).children(i),
    {
        let index = self.push_child(parent.index, ElementKind::Widget, Some(widget));
        Element { index }
    }

    /// Adds a dynamic element, with no children yet, as the last child of `parent`.
    pub fn dynamic_child(&mut self, parent: Element) -> (r: Element)
        requires
            old(self).wf(),
            parent.index < old(self).len(),
            old(self).len() < 0x1_0000_0000,
        ensures
            final(self).wf(),
            r.index == old(self).len(),
            final(self).len() == old(self).len() + 1,
            final(self).keeps_nodes_of(old(self)),
            final(self).kind(r.index as int) == ElementKind::Dynamic,
            final(self).widget(r.index as int) == None::<W>,
            final(self).parent(r.index as int) == Some(parent.index),
            final(self).children(r.index as int).len() == 0,
            final(self).children(parent.index as int) == old(self).children(parent.index as int).push(
                r.index,
            ),
            forall|i: int|
                0 <= i < old(self).len() && i != parent.index ==> #[trigger] final(self).children(i)
                    == old(self).children(i),
    {
        let index = self.push_child(parent.index, ElementKind::Dynamic, None);
        Element { index }
    }

    /// Unlinks `e` from its parent: the first child of the parent whose
    /// identifier is that of `e` is taken out of the parent's children, the
    /// others keep their order. The root is never removed, and an element that
    /// its parent no longer lists is left as it is.
    pub fn remove(&mut self, e: Element)
        requires
            old(self).wf(),
            e.index < old(self).len(),
        ensures
            final(self).wf(),
            final(self).len() == old(self).len(),
            final(self).keeps_nodes_of(old(self)),
            e.index == 0 ==> *final(self) == *old(self),
            e.index > 0 ==> ({
                let p = old(self).parent(e.index as int)->0 as int;
                &&& forall|i: int|
                    0 <= i < old(self).len() && i != p ==> #[trigger] final(self).children(i)
                        == old(self).children(i)
                &&& !old(self).children(p).contains(e.index) ==> final(self).children(p)
                    == old(self).children(p)
                &&& old(self).children(p).contains(e.index) ==> exists|k: int|
                    0 <= k < old(self).children(p).len() && old(self).children(p)[k] == e.index
                        && final(self).children(p) == old(self).children(p).remove(k)
                &&& !final(self).children(p).contains(e.index)
            }),
    {
        if e.index == 0 {
            return;
        }
        proof {
            assert(self.node_wf(e.index as int));
        }
        let p = match self.nodes[e.index].parent {
            Some(p) => p,
            None => {
                return;
            },
        };
        let id = self.nodes[e.index].identifier;
        let n = self.nodes[p].children.len();
        let mut k: usize = 0;
        let mut found = false;
        while k < n && !found
            invariant
                n == self.children(p as int).len(),
                k <= n,
                p < self.len(),
                self.wf(),
                id == self.identifier(e.index as int),
                e.index < self.len(),
                found ==> k < n && self.children(p as int)[k as int] == e.index,
                forall|j: int| 0 <= j < k ==> #[trigger] self.children(p as int)[j] != e.index,
            decreases n - k + if found { 0int } else { 1int },
        {
            let c = self.nodes[p].children[k];
            proof {
                assert(self.node_wf(p as int));
                assert(self.children(p as int)[k as int] == c);
            }
            if self.nodes[c].identifier == id {
                proof {
                    self.lemma_identifiers_unique(c as int, e.index as int);
                }
                found = true;
            } else {
                k = k + 1;
            }
        }
        if !found {
            proof {
                assert(!self.children(p as int).contains(e.index));
            }
            return;
        }
        let ghost g0 = *self;
        self.nodes[p].children.remove(k);
        proof {
            assert(self.node_wf(p as int) == self.node_wf(p as int));
            assert(g0.node_wf(p as int));
            assert(g0.children(p as int)[k as int] == e.index);
            assert forall|i: int| 0 <= i < g0.len() implies {
                &&& #[trigger] self.kind(i) == g0.kind(i)
                &&& self.widget(i) == g0.widget(i)
                &&& self.identifier(i) == g0.identifier(i)
                &&& self.parent(i) == g0.parent(i)
                &&& (i != p ==> self.children(i) == g0.children(i))
            } by {}
            assert(self.children(p as int) == g0.children(p as int).remove(k as int));
            assert forall|i: int| 0 <= i < self.len() implies #[trigger] self.node_wf(i) by {
                assert(g0.node_wf(i));
                if i == p {
                    assert forall|j: int| 0 <= j < self.children(i).len() implies {
                        let c = #[trigger] self.children(i)[j];
                        &&& i < c < self.len()
                        &&& self.parent(c as int) == Some(i as usize)
                    } by {
                        if j < k {
                            assert(self.children(i)[j] == g0.children(i)[j]);
                        } else {
                            assert(self.children(i)[j] == g0.children(i)[j + 1]);
                        }
                    }
                    assert forall|a: int, b: int|
                        0 <= a < self.children(i).len() && 0 <= b < self.children(i).len() && a
                            != b implies self.children(i)[a] != self.children(i)[b] by {
                        let a2 = if a < k { a } else { a + 1 };
                        let b2 = if b < k { b } else { b + 1 };
                        assert(self.children(i)[a] == g0.children(i)[a2]);
                        assert(self.children(i)[b] == g0.children(i)[b2]);
                    }
                }
            }
            assert(!self.children(p as int).contains(e.index)) by {
                if self.children(p as int).contains(e.index) {
                    let j = choose|j: int| 0 <= j < self.children(p as int).len() && self.children(p as int)[j] == e.index;
                    let j2 = if j < k { j } else { j + 1 };
                    assert(g0.children(p as int)[j2] == e.index);
                }
            }
        }
    }

    /// The element that node `r` of a description became, when the
    /// description was built while the tree had `before` nodes.
    pub fn built_element(before: usize, r: BuilderRef) -> (e: Element)
        requires
            0 < before,
            0 < r.index,
            before + r.index <= usize::MAX,
        ensures
            e.index == before - 1 + r.index,
    {
        Element { index: before - 1 + r.index }
    }

    /// Builds the description `builder` under `parent`: each node of the
    /// description but its root becomes a new element, in the description's
    /// order, with a fresh identifier; the children of the description's root
    /// are appended to the children of `parent` and returned.
    pub fn build_children(&mut self, parent: Element, builder: ElementBuilder<W>) -> (r: Vec<Element>)
        requires
            old(self).wf(),
            builder.wf(),
            parent.index < old(self).len(),
            old(self).len() + builder.len() - 1 < 0x1_0000_0000,
        ensures
            final(self).wf(),
            final(self).len() == old(self).len() + builder.len() - 1,
            final(self).keeps_nodes_of(old(self)),
            forall|i: int|
                0 <= i < old(self).len() && i != parent.index ==> #[trigger] final(self).children(i)
                    == old(self).children(i),
            final(self).children(parent.index as int) == old(self).children(parent.index as int)
                + shift(builder.children(0), old(self).len() - 1),
            forall|j: int|
                1 <= j < builder.len() ==> {
                    let t = old(self).len() - 1 + j;
                    &&& final(self).kind(t) == #[trigger] builder.kind(j)
                    &&& final(self).widget(t) == builder.widget(j)
                    &&& final(self).parent(t) == Some(
                        placed(builder.parent(j), old(self).len() - 1, parent.index),
                    )
                    &&& final(self).children(t) == shift(builder.children(j), old(self).len() - 1)
                },
            r@.len() == builder.children(0).len(),
            forall|k: int|
                0 <= k < r@.len() ==> #[trigger] r@[k].index == builder.children(0)[k] + old(self).len()
                    - 1,
    {
        let off = self.nodes.len() - 1;
        let n = builder.nodes.len();
        let ghost g0 = *self;
        let mut j: usize = 1;
        while j < n
            invariant
                n == builder.len(),
                builder.wf(),
                off == g0.len() - 1,
                g0.wf(),
                1 <= j <= n,
                parent.index < g0.len(),
                g0.len() + n - 1 < 0x1_0000_0000,
                self.len() == g0.len() + j - 1,
                forall|i: int|
                    0 <= i < g0.len() ==> {
                        &&& #[trigger] self.kind(i) == g0.kind(i)
                        &&& self.widget(i) == g0.widget(i)
                        &&& self.identifier(i) == g0.identifier(i)
                        &&& self.parent(i) == g0.parent(i)
                        &&& self.children(i) == g0.children(i)
                    },
                forall|b: int|
                    1 <= b < j ==> {
                        let t = off + b;
                        &&& self.kind(t) == #[trigger] builder.kind(b)
                        &&& self.widget(t) == builder.widget(b)
                        &&& identifier_index(self.identifier(t)) == t
                        &&& self.parent(t) == Some(placed(builder.parent(b), off as int, parent.index))
                        &&& self.children(t) == shift(builder.children(b), off as int)
                    },
            decreases n - j,
        {
            proof {
                assert(builder.node_wf(j as int));
            }
            let kind = builder.nodes[j].kind;
            let widget = builder.nodes[j].widget;
            let bp = builder.nodes[j].parent;
            let tp = if bp == 0 {
                parent.index
            } else {
                bp + off
            };
            let ch = shift_vec(&builder.nodes[j].children, off, n);
            let index = self.nodes.len();
            let identifier = make_identifier(index);
            let ghost g1 = *self;
            self.nodes.push(ElementNode { kind, widget, identifier, parent: Some(tp), children: ch });
            proof {
                assert forall|i: int| 0 <= i < g1.len() implies self.nodes@[i] == g1.nodes@[i] by {}
                assert forall|i: int| 0 <= i < g0.len() implies {
                    &&& #[trigger] self.kind(i) == g0.kind(i)
                    &&& self.widget(i) == g0.widget(i)
                    &&& self.identifier(i) == g0.identifier(i)
                    &&& self.parent(i) == g0.parent(i)
                    &&& self.children(i) == g0.children(i)
                } by {
                    assert(self.nodes@[i] == g1.nodes@[i]);
                    assert(g1.kind(i) == g0.kind(i));
                }
                assert forall|b: int| 1 <= b < j + 1 implies {
                    let t = off + b;
                    &&& self.kind(t) == #[trigger] builder.kind(b)
                    &&& self.widget(t) == builder.widget(b)
                    &&& identifier_index(self.identifier(t)) == t
                    &&& self.parent(t) == Some(placed(builder.parent(b), off as int, parent.index))
                    &&& self.children(t) == shift(builder.children(b), off as int)
                } by {
                    if b < j {
                        assert(self.nodes@[off + b] == g1.nodes@[off + b]);
                        assert(g1.kind(off + b) == builder.kind(b));
                    }
                }
            }
            j = j + 1;
        }
        proof {
            assert(builder.node_wf(0));
        }
        let tops = shift_vec(&builder.nodes[0].children, off, n);
        let ghost g2 = *self;
        let mut r: Vec<Element> = Vec::new();
        let mut k: usize = 0;
        while k < tops.len()
            invariant
                k <= tops@.len(),
                tops@ == shift(builder.children(0), off as int),
                parent.index < g2.len(),
                self.len() == g2.len(),
                forall|i: int|
                    0 <= i < g2.len() ==> {
                        &&& #[trigger] self.kind(i) == g2.kind(i)
                        &&& self.widget(i) == g2.widget(i)
                        &&& self.identifier(i) == g2.identifier(i)
                        &&& self.parent(i) == g2.parent(i)
                        &&& (i != parent.index ==> self.children(i) == g2.children(i))
                    },
                self.children(parent.index as int) == g2.children(parent.index as int) + tops@.take(
                    k as int,
                ),
                r@.len() == k,
                forall|q: int| 0 <= q < k ==> #[trigger] r@[q].index == tops@[q],
            decreases tops@.len() - k,
        {
            let c = tops[k];
            let ghost g3 = *self;
            self.nodes[parent.index].children.push(c);
            r.push(Element { index: c });
            proof {
                assert forall|i: int| 0 <= i < g2.len() implies {
                    &&& #[trigger] self.kind(i) == g2.kind(i)
                    &&& self.widget(i) == g2.widget(i)
                    &&& self.identifier(i) == g2.identifier(i)
                    &&& self.parent(i) == g2.parent(i)
                    &&& (i != parent.index ==> self.children(i) == g2.children(i))
                } by {
                    assert(g3.kind(i) == g2.kind(i));
                }
                assert(tops@.take(k + 1) =~= tops@.take(k as int).push(c));
                assert(self.children(parent.index as int) =~= g2.children(parent.index as int)
                    + tops@.take(k + 1));
            }
            k = k + 1;
        }
        proof {
            assert(tops@.take(k as int) =~= tops@);
            assert(g2.kind(parent.index as int) == g0.kind(parent.index as int));
            assert forall|i: int| 0 <= i < g0.len() implies {
                &&& #[trigger] self.kind(i) == g0.kind(i)
                &&& self.widget(i) == g0.widget(i)
                &&& self.identifier(i) == g0.identifier(i)
                &&& self.parent(i) == g0.parent(i)
                &&& (i != parent.index ==> self.children(i) == g0.children(i))
            } by {
                assert(g2.kind(i) == g0.kind(i));
                assert(self.kind(i) == g2.kind(i));
            }
            assert forall|b: int| 1 <= b < builder.len() implies {
                let t = g0.len() - 1 + b;
                &&& self.kind(t) == #[trigger] builder.kind(b)
                &&& self.widget(t) == builder.widget(b)
                &&& identifier_index(self.identifier(t)) == t
                &&& self.parent(t) == Some(placed(builder.parent(b), g0.len() - 1, parent.index))
                &&& self.children(t) == shift(builder.children(b), g0.len() - 1)
            } by {
                let t = g0.len() - 1 + b;
                assert(g2.kind(t) == builder.kind(b));
                assert(self.kind(t) == g2.kind(t));
            }
            self.lemma_build_wf(&g0, &builder, parent.index);
            assert forall|i: int| 0 <= i < g0.len() && i != parent.index implies #[trigger] self.children(i)
                == g0.children(i) by {
                assert(self.kind(i) == g0.kind(i));
            }
        }
        r
    }

    proof fn lemma_build_wf(&self, g0: &Self, builder: &ElementBuilder<W>, parent: usize)
        requires
            g0.wf(),
            builder.wf(),
            parent < g0.len(),
            self.len() == g0.len() + builder.len() - 1,
            self.len() <= 0x1_0000_0000,
            forall|i: int|
                0 <= i < g0.len() ==> {
                    &&& #[trigger] self.kind(i) == g0.kind(i)
                    &&& self.widget(i) == g0.widget(i)
                    &&& self.identifier(i) == g0.identifier(i)
                    &&& self.parent(i) == g0.parent(i)
                    &&& (i != parent ==> self.children(i) == g0.children(i))
                },
            self.children(parent as int) == g0.children(parent as int) + shift(
                builder.children(0),
                g0.len() - 1,
            ),
            forall|b: int|
                1 <= b < builder.len() ==> {
                    let t = g0.len() - 1 + b;
                    &&& self.kind(t) == #[trigger] builder.kind(b)
                    &&& self.widget(t) == builder.widget(b)
                    &&& identifier_index(self.identifier(t)) == t
                    &&& self.parent(t) == Some(placed(builder.parent(b), g0.len() - 1, parent))
                    &&& self.children(t) == shift(builder.children(b), g0.len() - 1)
                },
        ensures
            self.wf(),
    {
        let off = g0.len() - 1;
        assert forall|i: int| 0 <= i < self.len() implies #[trigger] self.node_wf(i) by {
            if i < g0.len() {
                assert(g0.node_wf(i));
                assert(self.kind(i) == g0.kind(i));
                if i != parent {
                    assert forall|j: int| 0 <= j < self.children(i).len() implies {
                        let c = #[trigger] self.children(i)[j];
                        &&& i < c < self.len()
                        &&& self.parent(c as int) == Some(i as usize)
                    } by {
                        let c = g0.children(i)[j];
                        assert(self.kind(c as int) == g0.kind(c as int));
                    }
                } else {
                    let old_ch = g0.children(i);
                    let tops = shift(builder.children(0), off);
                    assert(builder.node_wf(0));
                    assert forall|j: int| 0 <= j < self.children(i).len() implies {
                        let c = #[trigger] self.children(i)[j];
                        &&& i < c < self.len()
                        &&& self.parent(c as int) == Some(i as usize)
                    } by {
                        if j < old_ch.len() {
                            let c = old_ch[j];
                            assert(self.children(i)[j] == c);
                            assert(self.kind(c as int) == g0.kind(c as int));
                        } else {
                            let b = builder.children(0)[j - old_ch.len()];
                            assert(self.children(i)[j] == tops[j - old_ch.len()]);
                            assert(builder.parent(b as int) == 0);
                            assert(self.kind(off + b) == builder.kind(b as int));
                        }
                    }
                    assert forall|a: int, b: int|
                        0 <= a < self.children(i).len() && 0 <= b < self.children(i).len() && a
                            != b implies self.children(i)[a] != self.children(i)[b] by {
                        if a >= old_ch.len() {
                            assert(self.children(i)[a] == tops[a - old_ch.len()]);
                        }
                        if b >= old_ch.len() {
                            assert(self.children(i)[b] == tops[b - old_ch.len()]);
                        }
                        if a < old_ch.len() {
                            assert(self.children(i)[a] == old_ch[a]);
                        }
                        if b < old_ch.len() {
                            assert(self.children(i)[b] == old_ch[b]);
                        }
                    }
                }
            } else {
                let b = i - off;
                assert(builder.node_wf(b));
                assert(self.kind(off + b) == builder.kind(b));
                let bch = builder.children(b);
                assert forall|j: int| 0 <= j < self.children(i).len() implies {
                    let c = #[trigger] self.children(i)[j];
                    &&& i < c < self.len()
                    &&& self.parent(c as int) == Some(i as usize)
                } by {
                    let c = bch[j];
                    assert(self.children(i)[j] == c + off);
                    assert(self.kind(off + c) == builder.kind(c as int));
                }
                assert forall|x: int, y: int|
                    0 <= x < self.children(i).len() && 0 <= y < self.children(i).len() && x
                        != y implies self.children(i)[x] != self.children(i)[y] by {
                    assert(bch[x] != bch[y]);
                }
            }
        }
    }

    /// Replaces the whole subtree of dynamic element `d` with a fresh build of
    /// `builder`: the old children are unlinked and returned, for the owner to
    /// tear down, and the new ones get new identifiers. `d` keeps its own
    /// identifier, kind and parent, so its place under its parent is unchanged.
    pub fn rebuild_dynamic(&mut self, d: Element, builder: ElementBuilder<W>) -> (r: Vec<Element>)
        requires
            old(self).wf(),
            builder.wf(),
            d.index < old(self).len(),
            old(self).kind(d.index as int) == ElementKind::Dynamic,
            old(self).len() + builder.len() - 1 < 0x1_0000_0000,
        ensures
            final(self).wf(),
            final(self).len() == old(self).len() + builder.len() - 1,
            final(self).keeps_nodes_of(old(self)),
            forall|i: int|
                0 <= i < old(self).len() && i != d.index ==> #[trigger] final(self).children(i)
                    == old(self).children(i),
            final(self).children(d.index as int) == shift(builder.children(0), old(self).len() - 1),
            forall|k: int|
                0 <= k < final(self).children(d.index as int).len() ==> old(self).len()
                    <= #[trigger] final(self).children(d.index as int)[k],
            forall|j: int|
                1 <= j < builder.len() ==> {
                    let t = old(self).len() - 1 + j;
                    &&& final(self).kind(t) == #[trigger] builder.kind(j)
                    &&& final(self).widget(t) == builder.widget(j)
                    &&& final(self).parent(t) == Some(
                        placed(builder.parent(j), old(self).len() - 1, d.index),
                    )
                    &&& final(self).children(t) == shift(builder.children(j), old(self).len() - 1)
                },
            r@.len() == old(self).children(d.index as int).len(),
            forall|k: int|
                0 <= k < r@.len() ==> #[trigger] r@[k].index == old(self).children(d.index as int)[k],
    {
        let r = self.children_of(d);
        let ghost g0 = *self;
        self.nodes[d.index].children.clear();
        proof {
            assert forall|i: int| 0 <= i < self.len() implies {
                &&& #[trigger] self.kind(i) == g0.kind(i)
                &&& self.widget(i) == g0.widget(i)
                &&& self.identifier(i) == g0.identifier(i)
                &&& self.parent(i) == g0.parent(i)
                &&& (i != d.index ==> self.children(i) == g0.children(i))
            } by {}
            assert(self.children(d.index as int) =~= Seq::<usize>::empty());
            assert forall|i: int| 0 <= i < self.len() implies #[trigger] self.node_wf(i) by {
                assert(g0.node_wf(i));
                if i != d.index {
                    assert forall|j: int| 0 <= j < self.children(i).len() implies {
                        let c = #[trigger] self.children(i)[j];
                        &&& i < c < self.len()
                        &&& self.parent(c as int) == Some(i as usize)
                    } by {
                        let c = g0.children(i)[j];
                        assert(self.kind(c as int) == g0.kind(c as int));
                    }
                }
            }
        }
        let ghost g1 = *self;
        let _tops = self.build_children(d, builder);
        proof {
            assert(builder.node_wf(0));
            assert(g1.children(d.index as int) =~= Seq::<usize>::empty());
            assert(self.children(d.index as int) =~= shift(builder.children(0), g0.len() - 1));
            assert forall|i: int| 0 <= i < g0.len() && i != d.index implies #[trigger] self.children(i)
                == g0.children(i) by {
                assert(g1.kind(i) == g0.kind(i));
                assert(g1.children(i) == g0.children(i));
            }
            assert forall|i: int| 0 <= i < g0.len() implies #[trigger] self.kind(i) == g0.kind(i)
                && self.widget(i) == g0.widget(i) && self.identifier(i) == g0.identifier(i)
                && self.parent(i) == g0.parent(i) by {
                assert(g1.kind(i) == g0.kind(i));
            }
        }
        r
    }

    /// Appends to `out` what `e` draws (see `render_of`).
    pub fn render_into(&self, e: Element, out: &mut Vec<Element>)
        requires
            self.wf(),
            e.index < self.len(),
        ensures
            element_indices(final(out)@) == element_indices(old(out)@) + self.render_of(e.index as int),
        decreases self.len() - e.index,
    {
        proof {
            assert(self.node_wf(e.index as int));
        }
        let draws = match self.nodes[e.index].kind {
            ElementKind::Widget => {
                let ghost before = out@;
                out.push(e);
                proof {
                    assert(element_indices(out@) =~= element_indices(before).push(e.index));
                }
                true
            },
            ElementKind::Dynamic => true,
            _ => false,
        };
        if !draws {
            proof {
                assert(element_indices(out@) =~= element_indices(old(out)@) + self.render_of(e.index as int));
            }
            return;
        }
        let ghost start = element_indices(out@);
        let n = self.nodes[e.index].children.len();
        let mut k: usize = 0;
        while k < n
            invariant
                self.wf(),
                e.index < self.len(),
                n == self.children(e.index as int).len(),
                k <= n,
                element_indices(out@) == start + self.render_children(e.index as int, k as int),
            decreases n - k,
        {
            let c = self.nodes[e.index].children[k];
            proof {
                assert(self.node_wf(e.index as int));
                assert(self.children(e.index as int)[k as int] == c);
            }
            self.render_into(Element { index: c }, out);
            proof {
                assert(self.render_children(e.index as int, k + 1) == self.render_children(e.index as int, k as int) + self.render_of(c as int));
                assert(element_indices(out@) =~= start + self.render_children(e.index as int, k + 1));
            }
            k = k + 1;
        }
        proof {
            if self.kind(e.index as int) == ElementKind::Widget {
                assert(element_indices(out@) =~= element_indices(old(out)@) + self.render_of(e.index as int));
            } else {
                assert(element_indices(out@) =~= element_indices(old(out)@) + self.render_of(e.index as int));
            }
        }
    }

    /// Appends to `out` the windows in the subtree of `e`, `e` included, in
    /// preorder: the windows that tearing the subtree down closes.
    pub fn windows_in(&self, e: Element, out: &mut Vec<Element>)
        requires
            self.wf(),
            e.index < self.len(),
        ensures
            element_indices(final(out)@) == element_indices(old(out)@) + self.windows_under(e.index as int),
        decreases self.len() - e.index,
    {
        proof {
            assert(self.node_wf(e.index as int));
        }
        if let ElementKind::Window = self.nodes[e.index].kind {
            let ghost before = out@;
            out.push(e);
            proof {
                assert(element_indices(out@) =~= element_indices(before).push(e.index));
            }
        }
        let ghost start = element_indices(out@);
        proof {
            assert(start =~= element_indices(old(out)@) + (if self.kind(e.index as int) == ElementKind::Window {
                seq![e.index]
            } else {
                Seq::empty()
            }));
        }
        let n = self.nodes[e.index].children.len();
        let mut k: usize = 0;
        while k < n
            invariant
                self.wf(),
                e.index < self.len(),
                n == self.children(e.index as int).len(),
                k <= n,
                element_indices(out@) == start + self.windows_in_children(e.index as int, k as int),
            decreases n - k,
        {
            let c = self.nodes[e.index].children[k];
            proof {
                assert(self.node_wf(e.index as int));
                assert(self.children(e.index as int)[k as int] == c);
            }
            self.windows_in(Element { index: c }, out);
            proof {
                assert(self.windows_in_children(e.index as int, k + 1) == self.windows_in_children(e.index as int, k as int) + self.windows_under(c as int));
                assert(element_indices(out@) =~= start + self.windows_in_children(e.index as int, k + 1));
            }
            k = k + 1;
        }
        proof {
            assert(element_indices(out@) =~= element_indices(old(out)@) + self.windows_under(e.index as int));
        }
    }

    /// The nearest window at or above `e`, if there is one.
    pub fn get_window(&self, e: Element) -> (r: Option<Element>)
        requires
            self.wf(),
            e.index < self.len(),
        ensures
            r matches Some(w) ==> self.window_of(e.index as int) == Some(w.index),
            r is None ==> self.window_of(e.index as int) is None,
    {
        let mut cur = e.index;
        loop
            invariant
                cur < self.len(),
                self.wf(),
                self.window_of(e.index as int) == self.window_of(cur as int),
            decreases cur,
        {
            proof {
                assert(self.node_wf(cur as int));
            }
            if let ElementKind::Window = self.nodes[cur].kind {
                return Some(Element { index: cur });
            }
            match self.nodes[cur].parent {
                Some(p) => {
                    cur = p;
                },
                None => {
                    return None;
                },
            }
        }
    }
}

/// One node of a declarative description. Node 0 of a builder is its root,
/// which stands for the element that the description is built under.
pub struct BuilderNode<W> {
    pub(crate) kind: ElementKind,
    pub(crate) widget: Option<W>,
    pub(crate) parent: usize,
    pub(crate) children: Vec<usize>,
}

/// A handle to a node of an `ElementBuilder`.
#[derive(Clone, Copy, PartialEq, Eq, Structural, Debug)]
pub struct BuilderRef {
    pub index: usize,
}

/// A declarative description of a tree of elements, consumed once by
/// `ElementTree::build_children`.
pub struct ElementBuilder<W> {
    pub(crate) nodes: Vec<BuilderNode<W>>,
}

impl<W: Copy> ElementBuilder<W> {
    pub closed spec fn len(&self) -> nat {
        self.nodes@.len()
    }

    pub closed spec fn kind(&self, i: int) -> ElementKind {
        self.nodes@[i].kind
    }

    pub closed spec fn widget(&self, i: int) -> Option<W> {
        self.nodes@[i].widget
    }

    pub closed spec fn parent(&self, i: int) -> usize {
        self.nodes@[i].parent
    }

    pub closed spec fn children(&self, i: int) -> Seq<usize> {
        self.nodes@[i].children@
    }

    pub open spec fn node_wf(&self, i: int) -> bool {
        &&& (i == 0 <==> self.kind(i) == ElementKind::Root)
        &&& (i > 0 ==> self.parent(i) < i)
        &&& self.children(i).no_duplicates()
        &&& forall|j: int|
            0 <= j < self.children(i).len() ==> {
                let c = #[trigger] self.children(i)[j];
                &&& i < c < self.len()
                &&& self.parent(c as int) == i
            }
    }

    /// Well-formedness: node 0 is the root, every other node has an earlier
    /// parent, and every listed child is a later node whose parent is the lister.
    pub open spec fn wf(&self) -> bool {
        &&& 0 < self.len() < 0x1_0000_0000
        &&& forall|i: int| 0 <= i < self.len() ==> #[trigger] self.node_wf(i)
    }

    /// The nodes of `old` are still here, with their kind, payload and parent.
    pub open spec fn keeps_nodes_of(&self, old: &Self) -> bool {
        &&& self.len() >= old.len()
        &&& forall|i: int|
            #![trigger self.kind(i)]
            #![trigger self.widget(i)]
            #![trigger self.parent(i)]
            0 <= i < old.len() ==> {
                &&& self.kind(i) == old.kind(i)
                &&& self.widget(i) == old.widget(i)
                &&& self.parent(i) == old.parent(i)
            }
    }

    /// A description with nothing under its root.
    pub fn root() -> (r: Self)
        ensures
            r.wf(),
            r.len() == 1,
            r.children(0).len() == 0,
    {
        let mut nodes: Vec<BuilderNode<W>> = Vec::new();
        nodes.push(BuilderNode { kind: ElementKind::Root, widget: None, parent: 0, children: Vec::new() });
        let r = ElementBuilder { nodes };
        proof {
            assert(r.node_wf(0));
        }
        r
    }

    /// The root of the description.
    pub fn root_ref(&self) -> (r: BuilderRef)
        ensures
            r.index == 0,
    {
        BuilderRef { index: 0 }
    }

    fn push(&mut self, parent: usize, kind: ElementKind, widget: Option<W>) -> (r: BuilderRef)
        requires
            old(self).wf(),
            parent < old(self).len(),
            old(self).len() + 1 < 0x1_0000_0000,
            kind != ElementKind::Root,
        ensures
            final(self).wf(),
            r.index == old(self).len(),
            final(self).len() == old(self).len() + 1,
            final(self).kind(r.index as int) == kind,
            final(self).widget(r.index as int) == widget,
            final(self).parent(r.index as int) == parent,
            final(self).children(r.index as int).len() == 0,
            final(self).children(parent as int) == old(self).children(parent as int).push(r.index),
            forall|i: int|
                0 <= i < old(self).len() ==> {
                    &&& #[trigger] final(self).kind(i) == old(self).kind(i)
                    &&& final(self).widget(i) == old(self).widget(i)
                    &&& final(self).parent(i) == old(self).parent(i)
                    &&& (i != parent ==> final(self).children(i) == old(self).children(i))
                },
    {
        let index = self.nodes.len();
        let ghost g0 = *self;
        self.nodes.push(BuilderNode { kind, widget, parent, children: Vec::new() });
        let ghost g1 = *self;
        self.nodes[parent].children.push(index);
        proof {
            assert forall|i: int| 0 <= i < g0.len() implies {
                &&& #[trigger] self.kind(i) == g0.kind(i)
                &&& self.widget(i) == g0.widget(i)
                &&& self.parent(i) == g0.parent(i)
                &&& (i != parent ==> self.children(i) == g0.children(i))
            } by {
                assert(g1.nodes@[i] == g0.nodes@[i]);
            }
            assert forall|i: int| 0 <= i < self.len() implies #[trigger] self.node_wf(i) by {
                if i < index {
                    assert(g0.node_wf(i));
                    assert forall|j: int| 0 <= j < self.children(i).len() implies {
                        let c = #[trigger] self.children(i)[j];
                        &&& i < c < self.len()
                        &&& self.parent(c as int) == i
                    } by {
                        if i != parent || j < g0.children(i).len() {
                            assert(self.children(i)[j] == g0.children(i)[j]);
                        }
                    }
                    if i == parent {
                        assert forall|a: int, b: int|
                            0 <= a < self.children(i).len() && 0 <= b < self.children(i).len()
                                && a != b implies self.children(i)[a] != self.children(i)[b] by {
                            if a < g0.children(i).len() {
                                assert(self.children(i)[a] == g0.children(i)[a]);
                            }
                            if b < g0.children(i).len() {
                                assert(self.children(i)[b] == g0.children(i)[b]);
                            }
                        }
                    }
                }
            }
        }
        BuilderRef { index }
    }

    /// Adds a widget with payload `widget` as the last child of `parent`.
    pub fn child_widget(&mut self, parent: BuilderRef, widget: W) -> (r: BuilderRef)
        requires
            old(self).wf(),
            parent.index < old(self).len(),
            old(self).len() + 1 < 0x1_0000_0000,
        ensures
            final(self).wf(),
            r.index == old(self).len(),
            final(self).len() == old(self).len() + 1,
            final(self).kind(r.index as int) == ElementKind::Widget,
            final(self).widget(r.index as int) == Some(widget),
            final(self).parent(r.index as int) == parent.index,
            final(self).children(r.index as int).len() == 0,
            final(self).children(parent.index as int) == old(self).children(parent.index as int).push(
                r.index,
            ),
            forall|i: int|
                0 <= i < old(self).len() ==> {
                    &&& #[trigger] final(self).kind(i) == old(self).kind(i)
                    &&& final(self).widget(i) == old(self).widget(i)
                    &&& final(self).parent(i) == old(self).parent(i)
                    &&& (i != parent.index ==> final(self).children(i) == old(self).children(i))
                },
    {
        self.push(parent.index, ElementKind::Widget, Some(widget))
    }

    /// Adds a window with payload `widget` as the last child of `parent`; the
    /// window itself is opened by the owner when the description is built.
    pub fn child_window(&mut self, parent: BuilderRef, widget: W) -> (r: BuilderRef)
        requires
            old(self).wf(),
            parent.index < old(self).len(),
            old(self).len() + 1 < 0x1_0000_0000,
        ensures
            final(self).wf(),
            r.index == old(self).len(),
            final(self).len() == old(self).len() + 1,
            final(self).kind(r.index as int) == ElementKind::Window,
            final(self).widget(r.index as int) == Some(widget),
            final(self).parent(r.index as int) == parent.index,
            final(self).children(r.index as int).len() == 0,
            final(self).children(parent.index as int) == old(self).children(parent.index as int).push(
                r.index,
            ),
            forall|i: int|
                0 <= i < old(self).len() ==> {
                    &&& #[trigger] final(self).kind(i) == old(self).kind(i)
                    &&& final(self).widget(i) == old(self).widget(i)
                    &&& final(self).parent(i) == old(self).parent(i)
                    &&& (i != parent.index ==> final(self).children(i) == old(self).children(i))
                },
    {
        self.push(parent.index, ElementKind::Window, Some(widget))
    }

    /// Adds a dynamic element, without payload, as the last child of
    /// `parent`. Once built, the owner ties it to its driver signal and fills
    /// it with `ElementTree::rebuild_dynamic`.
    pub fn child_dynamic(&mut self, parent: BuilderRef) -> (r: BuilderRef)
        requires
            old(self).wf(),
            parent.index < old(self).len(),
            old(self).len() + 1 < 0x1_0000_0000,
        ensures
            final(self).wf(),
            r.index == old(self).len(),
            final(self).len() == old(self).len() + 1,
            final(self).kind(r.index as int) == ElementKind::Dynamic,
            final(self).widget(r.index as int) == None::<W>,
            final(self).parent(r.index as int) == parent.index,
            final(self).children(r.index as int).len() == 0,
            final(self).children(parent.index as int) == old(self).children(parent.index as int).push(
                r.index,
            ),
            forall|i: int|
                0 <= i < old(self).len() ==> {
                    &&& #[trigger] final(self).kind(i) == old(self).kind(i)
                    &&& final(self).widget(i) == old(self).widget(i)
                    &&& final(self).parent(i) == old(self).parent(i)
                    &&& (i != parent.index ==> final(self).children(i) == old(self).children(i))
                },
    {
        self.push(parent.index, ElementKind::Dynamic, None)
    }

    /// Attaches the description `builder` under `parent`: each node of
    /// `builder` but its root is added, in `builder`'s order, and the children
    /// of `builder`'s root are appended to the children of `parent` and returned.
    pub fn child(&mut self, parent: BuilderRef, builder: ElementBuilder<W>) -> (r: Vec<BuilderRef>)
        requires
            old(self).wf(),
            builder.wf(),
            parent.index < old(self).len(),
            old(self).len() + builder.len() - 1 < 0x1_0000_0000,
        ensures
            final(self).wf(),
            final(self).len() == old(self).len() + builder.len() - 1,
            final(self).keeps_nodes_of(old(self)),
            forall|i: int|
                0 <= i < old(self).len() && i != parent.index ==> #[trigger] final(self).children(i)
                    == old(self).children(i),
            final(self).children(parent.index as int) == old(self).children(parent.index as int)
                + shift(builder.children(0), old(self).len() - 1),
            forall|j: int|
                1 <= j < builder.len() ==> {
                    let t = old(self).len() - 1 + j;
                    &&& final(self).kind(t) == #[trigger] builder.kind(j)
                    &&& final(self).widget(t) == builder.widget(j)
                    &&& final(self).parent(t) == placed(builder.parent(j), old(self).len() - 1, parent.index)
                    &&& final(self).children(t) == shift(builder.children(j), old(self).len() - 1)
                },
            r@.len() == builder.children(0).len(),
            forall|k: int|
                0 <= k < r@.len() ==> #[trigger] r@[k].index == builder.children(0)[k] + old(self).len()
                    - 1,
    {
        let off = self.nodes.len() - 1;
        let n = builder.nodes.len();
        let ghost g0 = *self;
        let mut j: usize = 1;
        while j < n
            invariant
                n == builder.len(),
                builder.wf(),
                off == g0.len() - 1,
                g0.wf(),
                1 <= j <= n,
                parent.index < g0.len(),
                g0.len() + n - 1 < 0x1_0000_0000,
                self.len() == g0.len() + j - 1,
                forall|i: int|
                    0 <= i < g0.len() ==> {
                        &&& #[trigger] self.kind(i) == g0.kind(i)
                        &&& self.widget(i) == g0.widget(i)
                        &&& self.parent(i) == g0.parent(i)
                        &&& self.children(i) == g0.children(i)
                    },
                forall|b: int|
                    1 <= b < j ==> {
                        let t = off + b;
                        &&& self.kind(t) == #[trigger] builder.kind(b)
                        &&& self.widget(t) == builder.widget(b)
                        &&& self.parent(t) == placed(builder.parent(b), off as int, parent.index)
                        &&& self.children(t) == shift(builder.children(b), off as int)
                    },
            decreases n - j,
        {
            proof {
                assert(builder.node_wf(j as int));
            }
            let kind = builder.nodes[j].kind;
            let widget = builder.nodes[j].widget;
            let bp = builder.nodes[j].parent;
            let tp = if bp == 0 {
                parent.index
            } else {
                bp + off
            };
            let ch = shift_vec(&builder.nodes[j].children, off, n);
            let ghost g1 = *self;
            self.nodes.push(BuilderNode { kind, widget, parent: tp, children: ch });
            proof {
                assert forall|i: int| 0 <= i < g1.len() implies self.nodes@[i] == g1.nodes@[i] by {}
                assert forall|i: int| 0 <= i < g0.len() implies {
                    &&& #[trigger] self.kind(i) == g0.kind(i)
                    &&& self.widget(i) == g0.widget(i)
                    &&& self.parent(i) == g0.parent(i)
                    &&& self.children(i) == g0.children(i)
                } by {
                    assert(self.nodes@[i] == g1.nodes@[i]);
                    assert(g1.kind(i) == g0.kind(i));
                }
                assert forall|b: int| 1 <= b < j + 1 implies {
                    let t = off + b;
                    &&& self.kind(t) == #[trigger] builder.kind(b)
                    &&& self.widget(t) == builder.widget(b)
                    &&& self.parent(t) == placed(builder.parent(b), off as int, parent.index)
                    &&& self.children(t) == shift(builder.children(b), off as int)
                } by {
                    if b < j {
                        assert(self.nodes@[off + b] == g1.nodes@[off + b]);
                        assert(g1.kind(off + b) == builder.kind(b));
                    }
                }
            }
            j = j + 1;
        }
        proof {
            assert(builder.node_wf(0));
        }
        let tops = shift_vec(&builder.nodes[0].children, off, n);
        let ghost g2 = *self;
        let mut r: Vec<BuilderRef> = Vec::new();
        let mut k: usize = 0;
        while k < tops.len()
            invariant
                k <= tops@.len(),
                tops@ == shift(builder.children(0), off as int),
                parent.index < g2.len(),
                self.len() == g2.len(),
                forall|i: int|
                    0 <= i < g2.len() ==> {
                        &&& #[trigger] self.kind(i) == g2.kind(i)
                        &&& self.widget(i) == g2.widget(i)
                        &&& self.parent(i) == g2.parent(i)
                        &&& (i != parent.index ==> self.children(i) == g2.children(i))
                    },
                self.children(parent.index as int) == g2.children(parent.index as int) + tops@.take(
                    k as int,
                ),
                r@.len() == k,
                forall|q: int| 0 <= q < k ==> #[trigger] r@[q].index == tops@[q],
            decreases tops@.len() - k,
        {
            let c = tops[k];
            let ghost g3 = *self;
            self.nodes[parent.index].children.push(c);
            r.push(BuilderRef { index: c });
            proof {
                assert forall|i: int| 0 <= i < g2.len() implies {
                    &&& #[trigger] self.kind(i) == g2.kind(i)
                    &&& self.widget(i) == g2.widget(i)
                    &&& self.parent(i) == g2.parent(i)
                    &&& (i != parent.index ==> self.children(i) == g2.children(i))
                } by {
                    assert(g3.kind(i) == g2.kind(i));
                }
                assert(tops@.take(k + 1) =~= tops@.take(k as int).push(c));
                assert(self.children(parent.index as int) =~= g2.children(parent.index as int)
                    + tops@.take(k + 1));
            }
            k = k + 1;
        }
        proof {
            assert(tops@.take(k as int) =~= tops@);
            assert(g2.kind(parent.index as int) == g0.kind(parent.index as int));
            assert forall|i: int| 0 <= i < g0.len() implies {
                &&& #[trigger] self.kind(i) == g0.kind(i)
                &&& self.widget(i) == g0.widget(i)
                &&& self.parent(i) == g0.parent(i)
                &&& (i != parent.index ==> self.children(i) == g0.children(i))
            } by {
                assert(g2.kind(i) == g0.kind(i));
                assert(self.kind(i) == g2.kind(i));
            }
            assert forall|b: int| 1 <= b < builder.len() implies {
                let t = g0.len() - 1 + b;
                &&& self.kind(t) == #[trigger] builder.kind(b)
                &&& self.widget(t) == builder.widget(b)
                &&& self.parent(t) == placed(builder.parent(b), g0.len() - 1, parent.index)
                &&& self.children(t) == shift(builder.children(b), g0.len() - 1)
            } by {
                let t = g0.len() - 1 + b;
                assert(g2.kind(t) == builder.kind(b));
                assert(self.kind(t) == g2.kind(t));
            }
            self.lemma_attach_wf(&g0, &builder, parent.index);
            assert forall|i: int| 0 <= i < g0.len() && i != parent.index implies #[trigger] self.children(i)
                == g0.children(i) by {
                assert(self.kind(i) == g0.kind(i));
            }
        }
        r
    }

    proof fn lemma_attach_wf(&self, g0: &Self, builder: &ElementBuilder<W>, parent: usize)
        requires
            g0.wf(),
            builder.wf(),
            parent < g0.len(),
            self.len() == g0.len() + builder.len() - 1,
            self.len() < 0x1_0000_0000,
            forall|i: int|
                0 <= i < g0.len() ==> {
                    &&& #[trigger] self.kind(i) == g0.kind(i)
                    &&& self.widget(i) == g0.widget(i)
                    &&& self.parent(i) == g0.parent(i)
                    &&& (i != parent ==> self.children(i) == g0.children(i))
                },
            self.children(parent as int) == g0.children(parent as int) + shift(
                builder.children(0),
                g0.len() - 1,
            ),
            forall|b: int|
                1 <= b < builder.len() ==> {
                    let t = g0.len() - 1 + b;
                    &&& self.kind(t) == #[trigger] builder.kind(b)
                    &&& self.widget(t) == builder.widget(b)
                    &&& self.parent(t) == placed(builder.parent(b), g0.len() - 1, parent)
                    &&& self.children(t) == shift(builder.children(b), g0.len() - 1)
                },
        ensures
            self.wf(),
    {
        let off = g0.len() - 1;
        assert forall|i: int| 0 <= i < self.len() implies #[trigger] self.node_wf(i) by {
            if i < g0.len() {
                assert(g0.node_wf(i));
                assert(self.kind(i) == g0.kind(i));
                if i != parent {
                    assert forall|j: int| 0 <= j < self.children(i).len() implies {
                        let c = #[trigger] self.children(i)[j];
                        &&& i < c < self.len()
                        &&& self.parent(c as int) == i
                    } by {
                        let c = g0.children(i)[j];
                        assert(self.kind(c as int) == g0.kind(c as int));
                    }
                } else {
                    let old_ch = g0.children(i);
                    let tops = shift(builder.children(0), off);
                    assert(builder.node_wf(0));
                    assert forall|j: int| 0 <= j < self.children(i).len() implies {
                        let c = #[trigger] self.children(i)[j];
                        &&& i < c < self.len()
                        &&& self.parent(c as int) == i
                    } by {
                        if j < old_ch.len() {
                            let c = old_ch[j];
                            assert(self.children(i)[j] == c);
                            assert(self.kind(c as int) == g0.kind(c as int));
                        } else {
                            let b = builder.children(0)[j - old_ch.len()];
                            assert(self.children(i)[j] == tops[j - old_ch.len()]);
                            assert(builder.parent(b as int) == 0);
                            assert(self.kind(off + b) == builder.kind(b as int));
                        }
                    }
                    assert forall|a: int, b: int|
                        0 <= a < self.children(i).len() && 0 <= b < self.children(i).len() && a
                            != b implies self.children(i)[a] != self.children(i)[b] by {
                        if a >= old_ch.len() {
                            assert(self.children(i)[a] == tops[a - old_ch.len()]);
                        }
                        if b >= old_ch.len() {
                            assert(self.children(i)[b] == tops[b - old_ch.len()]);
                        }
                        if a < old_ch.len() {
                            assert(self.children(i)[a] == old_ch[a]);
                        }
                        if b < old_ch.len() {
                            assert(self.children(i)[b] == old_ch[b]);
                        }
                    }
                }
            } else {
                let b = i - off;
                assert(builder.node_wf(b));
                assert(self.kind(off + b) == builder.kind(b));
                let bch = builder.children(b);
                assert forall|j: int| 0 <= j < self.children(i).len() implies {
                    let c = #[trigger] self.children(i)[j];
                    &&& i < c < self.len()
                    &&& self.parent(c as int) == i
                } by {
                    let c = bch[j];
                    assert(self.children(i)[j] == c + off);
                    assert(self.kind(off + c) == builder.kind(c as int));
                }
                assert forall|x: int, y: int|
                    0 <= x < self.children(i).len() && 0 <= y < self.children(i).len() && x
                        != y implies self.children(i)[x] != self.children(i)[y] by {
                    assert(bch[x] != bch[y]);
                }
            }
        }
    }

    /// The number of nodes, the root included.
    pub fn count(&self) -> (r: usize)
        ensures
            r == self.len(),
    {
        self.nodes.len()
    }
}

/// An element created after a tree was observed has an identifier that no
/// element of that earlier tree had: identifiers are never reused.
pub proof fn lemma_new_identifier_is_fresh<W: Copy>(
    before: &ElementTree<W>,
    after: &ElementTree<W>,
    c: int,
    i: int,
)
    requires
        after.wf(),
        after.keeps_nodes_of(before),
        before.len() <= c < after.len(),
        0 <= i < before.len(),
    ensures
        after.identifier(c) != before.identifier(i),
{
    assert(after.kind(i) == before.kind(i));
    assert(after.identifier(i) == before.identifier(i));
    if after.identifier(c) == after.identifier(i) {
        after.lemma_identifiers_unique(c, i);
    }
}

/// After a dynamic element is rebuilt, its children are exactly the tops of
/// the new description, each with an identifier that no element had before,
/// while the dynamic element keeps its own identifier.
pub proof fn lemma_rebuild_replaces_wholesale<W: Copy>(
    before: &ElementTree<W>,
    after: &ElementTree<W>,
    d: int,
    builder: &ElementBuilder<W>,
)
    requires
        before.wf(),
        after.wf(),
        0 <= d < before.len(),
        after.keeps_nodes_of(before),
        after.children(d) == shift(builder.children(0), before.len() - 1),
        forall|k: int|
            0 <= k < after.children(d).len() ==> before.len() <= #[trigger] after.children(d)[k],
    ensures
        after.identifier(d) == before.identifier(d),
        after.children(d).len() == builder.children(0).len(),
        forall|k: int, i: int|
            0 <= k < after.children(d).len() && 0 <= i < before.len() ==> #[trigger] after.identifier(
                after.children(d)[k] as int,
            ) != #[trigger] before.identifier(i),
{
    assert(after.kind(d) == before.kind(d));
    assert forall|k: int, i: int|
        0 <= k < after.children(d).len() && 0 <= i < before.len() implies #[trigger] after.identifier(
            after.children(d)[k] as int,
        ) != #[trigger] before.identifier(i) by {
        assert(after.node_wf(d));
        lemma_new_identifier_is_fresh(before, after, after.children(d)[k] as int, i);
    }
}

} // verus!
