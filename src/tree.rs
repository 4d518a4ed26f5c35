//! A path tree over file names, in one arena of nodes addressed by index,
//! that carries interned metadata per node: insertion, bottom-up promotion
//! of shared metadata, and emission of the covering nodes.

use vstd::prelude::*;
use vstd::std_specs::cmp::PartialEqSpec;
use crate::atom_table::{distinct, index_of, AtomTable};
use crate::control_file::{MultilineField, SingleLineOrMultilineEmptyFirstLineField};
use crate::dep5::FilesParagraph;
use crate::copyright::{parse_copyright, Copyright, CopyrightView};
use crate::cleanup::{cleaned_lines, cleanup_copyright_text};
use crate::license::{license_field, license_field_text};
use crate::raw_year::YearRangeNormalization;
use crate::render::copyright_text;
use crate::summary::resummarized;
use crate::text::{
    chars_of, join_texts, join_with, push_all, same_text, slice_of, sort_texts, sorted_texts,
    split_chars, split_on, strings_of, string_of, strip_dot_slash, views_of_texts,
    without_dot_slash,
};

verus! {

/// Copyright text and licenses of a file: the unit that files share.
#[derive(Debug)]
pub struct Metadata {
    pub copyright_text: String,
    pub license: Vec<String>,
}

pub struct MetadataView {
    pub copyright_text: Seq<char>,
    pub license: Seq<Seq<char>>,
}

pub open spec fn texts_of(v: Seq<String>) -> Seq<Seq<char>> {
    v.map_values(|s: String| s@)
}

impl View for Metadata {
    type V = MetadataView;

    open spec fn view(&self) -> MetadataView {
        MetadataView { copyright_text: self.copyright_text@, license: texts_of(self.license@) }
    }
}

/// Do the two lists hold the same texts, in the same order?
pub fn same_texts(a: &Vec<String>, b: &Vec<String>) -> (r: bool)
    ensures
        r == (texts_of(a@) == texts_of(b@)),
{
    if a.len() != b.len() {
        assert(texts_of(a@).len() != texts_of(b@).len());
        return false;
    }
    let mut i: usize = 0;
    while i < a.len()
        invariant
            a@.len() == b@.len(),
            i <= a@.len(),
            forall|k: int| 0 <= k < i ==> (#[trigger] a@[k])@ == b@[k]@,
        decreases a@.len() - i,
    {
        if !same_text(a[i].as_str(), b[i].as_str()) {
            assert(texts_of(a@)[i as int] != texts_of(b@)[i as int]);
            return false;
        }
        i += 1;
    }
    assert(texts_of(a@) =~= texts_of(b@));
    true
}

impl PartialEq for Metadata {
    fn eq(&self, other: &Metadata) -> (r: bool) {
        same_text(self.copyright_text.as_str(), other.copyright_text.as_str()) && same_texts(
            &self.license,
            &other.license,
        )
    }
}

impl vstd::std_specs::cmp::PartialEqSpecImpl for Metadata {
    open spec fn obeys_eq_spec() -> bool {
        true
    }

    open spec fn eq_spec(&self, other: &Metadata) -> bool {
        self@ == other@
    }
}

/// A part of a path, which may carry the identity of its metadata.
struct Element {
    path_segment: String,
    metadata: Option<usize>,
    children: Vec<usize>,
}

/// What a node holds.
pub struct NodeView {
    pub segment: Seq<char>,
    pub metadata: Option<usize>,
    pub children: Seq<usize>,
}

impl View for Element {
    type V = NodeView;

    closed spec fn view(&self) -> NodeView {
        NodeView {
            segment: self.path_segment@,
            metadata: self.metadata,
            children: self.children@,
        }
    }
}

/// The nodes form a tree rooted at index 0: each child comes later in the
/// arena than its parent, and no two children of a node share a segment.
pub open spec fn tree_wf(ns: Seq<NodeView>) -> bool {
    &&& ns.len() >= 1
    &&& forall|i: int, k: int|
        0 <= i < ns.len() && 0 <= k < ns[i].children.len() ==> i < #[trigger] ns[i].children[k]
            < ns.len()
    &&& forall|i: int, k: int, m: int|
        0 <= i < ns.len() && 0 <= k < m < ns[i].children.len() ==> ns[#[trigger] ns[i].children[k] as int].segment
            != ns[#[trigger] ns[i].children[m] as int].segment
}

/// The first node among `cs` whose segment is `seg`.
pub open spec fn child_with(ns: Seq<NodeView>, cs: Seq<usize>, seg: Seq<char>) -> Option<int>
    decreases cs.len(),
{
    if cs.len() == 0 {
        None
    } else {
        match child_with(ns, cs.drop_last(), seg) {
            Some(c) => Some(c),
            None => if ns[cs.last() as int].segment == seg {
                Some(cs.last() as int)
            } else {
                None
            },
        }
    }
}

/// The node reached from the root by following `segs`, if every step exists.
pub open spec fn lookup(ns: Seq<NodeView>, segs: Seq<Seq<char>>) -> Option<int>
    decreases segs.len(),
{
    if segs.len() == 0 {
        Some(0)
    } else {
        match lookup(ns, segs.drop_last()) {
            Some(p) => if 0 <= p < ns.len() {
                child_with(ns, ns[p].children, segs.last())
            } else {
                None
            },
            None => None,
        }
    }
}

proof fn lemma_child_with_member(ns: Seq<NodeView>, cs: Seq<usize>, seg: Seq<char>)
    ensures
        child_with(ns, cs, seg) matches Some(c) ==> exists|k: int|
            0 <= k < cs.len() && #[trigger] cs[k] == c,
        child_with(ns, cs, seg) is None ==> forall|k: int|
            0 <= k < cs.len() ==> ns[#[trigger] cs[k] as int].segment != seg,
    decreases cs.len(),
{
    if cs.len() > 0 {
        lemma_child_with_member(ns, cs.drop_last(), seg);
        if child_with(ns, cs.drop_last(), seg) is Some {
            let c = child_with(ns, cs.drop_last(), seg)->0;
            let k = choose|k: int| 0 <= k < cs.drop_last().len() && cs.drop_last()[k] == c;
            assert(cs[k] == c);
        } else if child_with(ns, cs, seg) is Some {
            assert(cs[cs.len() - 1] == cs.last());
        } else {
            assert forall|k: int| 0 <= k < cs.len() implies ns[#[trigger] cs[k] as int].segment != seg by {
                if k < cs.len() - 1 {
                    assert(cs[k] == cs.drop_last()[k]);
                }
            }
        }
    }
}

proof fn lemma_child_with_frame(
    ns: Seq<NodeView>,
    ns2: Seq<NodeView>,
    cs: Seq<usize>,
    seg: Seq<char>,
)
    requires
        forall|k: int|
            0 <= k < cs.len() ==> (#[trigger] cs[k]) < ns.len() && ns2[cs[k] as int].segment
                == ns[cs[k] as int].segment,
    ensures
        child_with(ns2, cs, seg) == child_with(ns, cs, seg),
    decreases cs.len(),
{
    if cs.len() > 0 {
        assert(cs[cs.len() - 1] == cs.last());
        lemma_child_with_frame(ns, ns2, cs.drop_last(), seg);
    }
}

/// A lookup that reaches `x` still does after a change to the children of
/// node `m >= x`, to no segment, and after new nodes are appended.
proof fn lemma_lookup_frame(ns: Seq<NodeView>, ns2: Seq<NodeView>, segs: Seq<Seq<char>>, x: int, m: int)
    requires
        tree_wf(ns),
        lookup(ns, segs) == Some(x),
        x <= m,
        ns2.len() >= ns.len(),
        forall|j: int| 0 <= j < ns.len() ==> (#[trigger] ns2[j]).segment == ns[j].segment,
        forall|j: int| 0 <= j < ns.len() && j != m ==> (#[trigger] ns2[j]).children == ns[j].children,
    ensures
        lookup(ns2, segs) == Some(x),
        0 <= x < ns.len(),
    decreases segs.len(),
{
    if segs.len() > 0 {
        let p = lookup(ns, segs.drop_last())->0;
        lemma_child_with_member(ns, ns[p].children, segs.last());
        let k = choose|k: int| 0 <= k < ns[p].children.len() && #[trigger] ns[p].children[k] == x;
        assert(p < ns[p].children[k]);
        lemma_lookup_frame(ns, ns2, segs.drop_last(), p, m);
        assert(ns2[p].children == ns[p].children);
        lemma_child_with_frame(ns, ns2, ns[p].children, segs.last());
    } else {
    }
}

/// A path tree with interned metadata of type `T`.
pub struct CopyrightDataTree<T> {
    nodes: Vec<Element>,
    metadata: AtomTable<T>,
}

impl<T> CopyrightDataTree<T> {
    /// The nodes; the root is node 0.
    pub closed spec fn nodes(&self) -> Seq<NodeView> {
        self.nodes@.map_values(|e: Element| e@)
    }

    /// The metadata values by identity.
    pub closed spec fn table(&self) -> Seq<T> {
        self.metadata@
    }

    pub open spec fn wf(&self) -> bool {
        &&& tree_wf(self.nodes())
        &&& forall|i: int|
            0 <= i < self.nodes().len() && (#[trigger] self.nodes()[i]).metadata is Some ==> self.nodes()[i].metadata->0
                < self.table().len()
    }
}

impl<T: PartialEq> CopyrightDataTree<T> {
    /// A tree with the root "." alone, and no metadata.
    pub fn new() -> (r: CopyrightDataTree<T>)
        ensures
            r.wf(),
            r.nodes().len() == 1,
            r.nodes()[0].segment == seq!['.'],
            r.nodes()[0].metadata is None,
            r.nodes()[0].children.len() == 0,
            r.table().len() == 0,
    {
        let root = Element {
            path_segment: string_of(vec!['.'].as_slice()),
            metadata: None,
            children: Vec::new(),
        };
        let mut nodes: Vec<Element> = Vec::new();
        nodes.push(root);
        let r = CopyrightDataTree { nodes, metadata: AtomTable::new() };
        assert(r.nodes()[0] == nodes@[0]@);
        r
    }

    /// The identity of `metadata`, interned on first sight.
    pub fn find_or_insert_metadata(&mut self, metadata: T) -> (r: usize)
        requires
            old(self).wf(),
            T::obeys_eq_spec(),
            old(self).table().len() < usize::MAX,
        ensures
            final(self).wf(),
            final(self).nodes() == old(self).nodes(),
            r < final(self).table().len(),
            final(self).table()[r as int] == metadata || final(self).table()[r as int].eq_spec(&metadata),
            match index_of(old(self).table(), metadata) {
                Some(i) => r == i && final(self).table() == old(self).table(),
                None => r == old(self).table().len() && final(self).table() == old(self).table().push(
                    metadata,
                ),
            },
    {
        self.metadata.get_or_create_id_for_owned_value(metadata)
    }

    /// The child of `parent` with the segment `seg`, if any.
    fn find_child(&self, parent: usize, seg: &String) -> (r: Option<usize>)
        requires
            self.wf(),
            parent < self.nodes().len(),
        ensures
            match r {
                Some(c) => child_with(self.nodes(), self.nodes()[parent as int].children, seg@)
                    == Some(c as int),
                None => child_with(self.nodes(), self.nodes()[parent as int].children, seg@) is None,
            },
    {
        let ghost ns = self.nodes();
        let ghost cs = ns[parent as int].children;
        assert(self.nodes@[parent as int].children@ == cs);
        let n = self.nodes[parent].children.len();
        let mut k: usize = 0;
        while k < n
            invariant
                n == cs.len(),
                k <= n,
                ns == self.nodes(),
                cs == self.nodes@[parent as int].children@,
                tree_wf(ns),
                parent < ns.len(),
                child_with(ns, cs.take(k as int), seg@) is None,
            decreases n - k,
        {
            let c = self.nodes[parent].children[k];
            assert(cs[k as int] == c);
            assert(c < ns.len());
            assert(cs.take(k + 1).drop_last() =~= cs.take(k as int));
            assert(ns[c as int].segment == self.nodes@[c as int].path_segment@);
            if same_text(self.nodes[c].path_segment.as_str(), seg.as_str()) {
                assert(child_with(ns, cs.take(k + 1), seg@) == Some(c as int));
                proof {
                    lemma_child_with_prefix(ns, cs, seg@, k + 1);
                }
                return Some(c);
            }
            k += 1;
        }
        assert(cs.take(n as int) =~= cs);
        None
    }
}


impl<T: PartialEq> CopyrightDataTree<T> {
    /// The node at the path `segs` from the root, created where missing.
    fn find_or_create_node(&mut self, segs: &Vec<String>) -> (r: usize)
        requires
            old(self).wf(),
        ensures
            final(self).wf(),
            final(self).table() == old(self).table(),
            lookup(final(self).nodes(), texts_of(segs@)) == Some(r as int),
            r < final(self).nodes().len(),
            final(self).nodes().len() >= old(self).nodes().len(),
            forall|j: int|
                0 <= j < old(self).nodes().len() ==> (#[trigger] final(self).nodes()[j]).segment
                    == old(self).nodes()[j].segment && final(self).nodes()[j].metadata == old(self).nodes()[j].metadata,
            forall|j: int|
                old(self).nodes().len() <= j < final(self).nodes().len() ==> (#[trigger] final(self).nodes()[j]).metadata is None,
    {
        let ghost old_ns = self.nodes();
        let mut cur: usize = 0;
        let mut k: usize = 0;
        assert(texts_of(segs@).take(0) =~= Seq::<Seq<char>>::empty());
        while k < segs.len()
            invariant
                self.wf(),
                self.table() == old(self).table(),
                old_ns == old(self).nodes(),
                k <= segs@.len(),
                cur < self.nodes().len(),
                self.nodes().len() >= old_ns.len(),
                lookup(self.nodes(), texts_of(segs@).take(k as int)) == Some(cur as int),
                forall|j: int|
                    0 <= j < old_ns.len() ==> (#[trigger] self.nodes()[j]).segment == old_ns[j].segment
                        && self.nodes()[j].metadata == old_ns[j].metadata,
                forall|j: int|
                    old_ns.len() <= j < self.nodes().len() ==> (#[trigger] self.nodes()[j]).metadata is None,
            decreases segs@.len() - k,
        {
            let ghost ns = self.nodes();
            let ghost path = texts_of(segs@).take(k + 1);
            assert(path.drop_last() =~= texts_of(segs@).take(k as int));
            assert(path.last() == segs@[k as int]@);
            match self.find_child(cur, &segs[k]) {
                Some(c) => {
                    proof {
                        lemma_child_with_member(ns, ns[cur as int].children, segs@[k as int]@);
                    }
                    cur = c;
                },
                None => {
                    let new_id = self.nodes.len();
                    let element = Element {
                        path_segment: segs[k].clone(),
                        metadata: None,
                        children: Vec::new(),
                    };
                    self.nodes.push(element);
                    self.nodes[cur].children.push(new_id);
                    proof {
                        let ns2 = self.nodes();
                        assert(ns2.len() == ns.len() + 1);
                        assert forall|j: int| 0 <= j < ns.len() && j != cur implies #[trigger] ns2[j]
                            == ns[j] by {
                            assert(ns2[j] == self.nodes@[j]@);
                        }
                        assert(ns2[cur as int].children == ns[cur as int].children.push(new_id));
                        assert(ns2[cur as int].segment == ns[cur as int].segment);
                        assert(ns2[cur as int].metadata == ns[cur as int].metadata);
                        assert(ns2[new_id as int].segment == segs@[k as int]@);
                        assert(ns2[new_id as int].metadata is None);
                        assert(ns2[new_id as int].children.len() == 0);
                        lemma_child_with_member(ns, ns[cur as int].children, segs@[k as int]@);
                        lemma_lookup_frame(ns, ns2, texts_of(segs@).take(k as int), cur as int, cur as int);
                        lemma_child_with_frame(ns, ns2, ns[cur as int].children, segs@[k as int]@);
                        assert(ns2[cur as int].children.drop_last() =~= ns[cur as int].children);
                        assert(child_with(ns2, ns2[cur as int].children, path.last()) == Some(
                            new_id as int,
                        ));
                        assert(tree_wf(ns2)) by {
                            assert forall|i: int, kk: int|
                                0 <= i < ns2.len() && 0 <= kk < ns2[i].children.len() implies i
                                < #[trigger] ns2[i].children[kk] < ns2.len() by {
                                if i == cur && kk == ns2[i].children.len() - 1 {
                                } else if i == cur {
                                    assert(ns2[i].children[kk] == ns[i].children[kk]);
                                } else if i < ns.len() {
                                    assert(ns2[i] == ns[i]);
                                }
                            }
                            assert forall|i: int, a: int, b: int|
                                0 <= i < ns2.len() && 0 <= a < b < ns2[i].children.len() implies ns2[
                                #[trigger] ns2[i].children[a] as int].segment != ns2[#[trigger] ns2[i].children[b] as int].segment by {
                                if i == cur && b == ns2[i].children.len() - 1 {
                                    assert(ns2[i].children[a] == ns[i].children[a]);
                                    assert(ns[ns[i].children[a] as int].segment != segs@[k as int]@);
                                } else if i == cur {
                                    assert(ns2[i].children[a] == ns[i].children[a]);
                                    assert(ns2[i].children[b] == ns[i].children[b]);
                                } else if i < ns.len() {
                                    assert(ns2[i] == ns[i]);
                                }
                            }
                        }
                    }
                    cur = new_id;
                },
            }
            k += 1;
        }
        assert(texts_of(segs@).take(segs@.len() as int) =~= texts_of(segs@));
        cur
    }

    /// Attach the metadata identity `id` to node `node`.
    fn set_metadata_id_for_node(&mut self, node: usize, id: usize)
        requires
            old(self).wf(),
            node < old(self).nodes().len(),
            id < old(self).table().len(),
        ensures
            final(self).wf(),
            final(self).table() == old(self).table(),
            final(self).nodes() == old(self).nodes().update(
                node as int,
                NodeView { metadata: Some(id), ..old(self).nodes()[node as int] },
            ),
    {
        self.nodes[node].metadata = Some(id);
        proof {
            assert(self.nodes() =~= old(self).nodes().update(
                node as int,
                NodeView { metadata: Some(id), ..old(self).nodes()[node as int] },
            ));
        }
    }

    /// The identity of the metadata of node `node`, if it has one.
    pub fn get_metadata_id(&self, node: usize) -> (r: Option<usize>)
        ensures
            r == (if node < self.nodes().len() {
                self.nodes()[node as int].metadata
            } else {
                None
            }),
    {
        if node < self.nodes.len() {
            self.nodes[node].metadata
        } else {
            None
        }
    }

    /// How many distinct metadata values the tree holds.
    pub fn metadata_count(&self) -> (r: usize)
        ensures
            r == self.table().len(),
    {
        self.metadata.len()
    }

    /// Does node `node` have children?
    pub fn is_directory(&self, node: usize) -> (r: bool)
        requires
            node < self.nodes().len(),
        ensures
            r == (self.nodes()[node as int].children.len() > 0),
    {
        self.nodes[node].children.len() > 0
    }

    /// The metadata identity that all children of `node` carry, if they all
    /// carry the same one and there is at least one child.
    fn get_common_child_metadata_id_if_any(&self, node: usize) -> (r: Option<usize>)
        requires
            self.wf(),
            node < self.nodes().len(),
        ensures
            r == common_child_metadata(self.nodes(), node as int),
    {
        let ghost ns = self.nodes();
        let ghost cs = ns[node as int].children;
        assert(self.nodes@[node as int].children@ == cs);
        let n = self.nodes[node].children.len();
        if n == 0 {
            return None;
        }
        let first = self.nodes[node].children[0];
        assert(ns[first as int].metadata == self.nodes@[first as int].metadata);
        let id = match self.nodes[first].metadata {
            None => {
                return None;
            },
            Some(id) => id,
        };
        let mut k: usize = 1;
        while k < n
            invariant
                n == cs.len(),
                1 <= k <= n,
                ns == self.nodes(),
                cs == self.nodes@[node as int].children@,
                tree_wf(ns),
                node < ns.len(),
                first == cs[0],
                ns[first as int].metadata == Some(id),
                forall|m: int| 0 <= m < k ==> ns[#[trigger] cs[m] as int].metadata == Some(id),
            decreases n - k,
        {
            let c = self.nodes[node].children[k];
            assert(cs[k as int] == c);
            assert(ns[c as int].metadata == self.nodes@[c as int].metadata);
            match self.nodes[c].metadata {
                Some(other) if other == id => {},
                _ => {
                    return None;
                },
            }
            k += 1;
        }
        Some(id)
    }

    /// Promote metadata upward: bottom-up, every node whose children all
    /// carry the same metadata identity takes it on, so that it stands for
    /// its whole subtree.
    pub fn propagate_metadata(&mut self)
        requires
            old(self).wf(),
        ensures
            final(self).wf(),
            final(self).table() == old(self).table(),
            final(self).nodes().len() == old(self).nodes().len(),
            forall|i: int|
                0 <= i < final(self).nodes().len() ==> (#[trigger] final(self).nodes()[i]).segment
                    == old(self).nodes()[i].segment && final(self).nodes()[i].children == old(self).nodes()[i].children,
            forall|i: int|
                0 <= i < final(self).nodes().len() ==> (#[trigger] final(self).nodes()[i]).metadata
                    == match common_child_metadata(final(self).nodes(), i) {
                    Some(m) => Some(m),
                    None => old(self).nodes()[i].metadata,
                },
            promoted(old(self).nodes(), final(self).nodes()),
    {
        let ghost old_ns = self.nodes();
        let n = self.nodes.len();
        let mut i: usize = n;
        while i > 0
            invariant
                self.wf(),
                self.table() == old(self).table(),
                old_ns == old(self).nodes(),
                n == old_ns.len(),
                self.nodes().len() == n,
                i <= n,
                forall|j: int|
                    0 <= j < n ==> (#[trigger] self.nodes()[j]).segment == old_ns[j].segment
                        && self.nodes()[j].children == old_ns[j].children,
                forall|j: int| 0 <= j < i ==> (#[trigger] self.nodes()[j]).metadata == old_ns[j].metadata,
                forall|j: int|
                    i <= j < n ==> (#[trigger] self.nodes()[j]).metadata == match common_child_metadata(
                        self.nodes(),
                        j,
                    ) {
                        Some(m) => Some(m),
                        None => old_ns[j].metadata,
                    },
            decreases i,
        {
            let p = i - 1;
            let ghost ns = self.nodes();
            match self.get_common_child_metadata_id_if_any(p) {
                Some(id) => {
                    proof {
                        lemma_common_in_table(ns, p as int, self.table().len() as int);
                    }
                    self.set_metadata_id_for_node(p, id);
                },
                None => {},
            }
            proof {
                let ns2 = self.nodes();
                assert forall|j: int| p <= j < n implies #[trigger] common_child_metadata(ns2, j)
                    == common_child_metadata(ns, j) by {
                    lemma_common_frame(ns, ns2, j, p as int);
                }
            }
            i = p;
        }
    }
}

/// The path of a file as segments: leading "./" pieces dropped, cut at '/'.
pub open spec fn path_segments(path: Seq<char>) -> Seq<Seq<char>> {
    split_on(strip_dot_slash(path), '/')
}

impl<T: PartialEq> CopyrightDataTree<T> {
    /// Record that the file at `path` carries `metadata`: the node of the
    /// path (created where missing) takes the identity of the metadata
    /// (interned on first sight). Returns the node and the identity.
    pub fn insert(&mut self, path: &str, metadata: T) -> (r: (usize, usize))
        requires
            old(self).wf(),
            T::obeys_eq_spec(),
            old(self).table().len() < usize::MAX,
        ensures
            final(self).wf(),
            lookup(final(self).nodes(), path_segments(path@)) == Some(r.0 as int),
            r.0 < final(self).nodes().len(),
            final(self).nodes()[r.0 as int].metadata == Some(r.1),
            r.1 < final(self).table().len(),
            final(self).table()[r.1 as int] == metadata || final(self).table()[r.1 as int].eq_spec(&metadata),
            match index_of(old(self).table(), metadata) {
                Some(i) => r.1 == i && final(self).table() == old(self).table(),
                None => r.1 == old(self).table().len() && final(self).table() == old(self).table().push(
                    metadata,
                ),
            },
            final(self).nodes().len() >= old(self).nodes().len(),
            forall|j: int|
                0 <= j < final(self).nodes().len() && j != r.0 ==> (#[trigger] final(self).nodes()[j]).metadata
                    == if j < old(self).nodes().len() {
                    old(self).nodes()[j].metadata
                } else {
                    None
                },
    {
        let chars = chars_of(path);
        let rest = without_dot_slash(&chars);
        let pieces = split_chars(&rest, '/');
        let segs = strings_of(&pieces);
        assert(texts_of(segs@) == path_segments(path@));
        let node = self.find_or_create_node(&segs);
        let ghost ns = self.nodes();
        let id = self.find_or_insert_metadata(metadata);
        self.set_metadata_id_for_node(node, id);
        proof {
            lemma_lookup_frame(ns, self.nodes(), texts_of(segs@), node as int, node as int);
        }
        (node, id)
    }
}

/// The path of a child of a node whose path is `path`.
pub open spec fn child_path(path: Seq<char>, segment: Seq<char>) -> Seq<char> {
    path + seq!['/'] + segment
}

/// The covering nodes at and below node `i`, whose path is `path`, in
/// pre-order, each with its path: a node that carries metadata covers its
/// whole subtree, so nothing below it is listed.
pub open spec fn covering(ns: Seq<NodeView>, i: int, path: Seq<char>) -> Seq<(int, Seq<char>)>
    decreases ns.len() - i, ns[i].children.len() + 1,
{
    if 0 <= i < ns.len() {
        if ns[i].metadata is Some {
            seq![(i, path)]
        } else {
            covering_children(ns, i, path, ns[i].children.len() as int)
        }
    } else {
        seq![]
    }
}

/// The covering nodes below the first `k` children of node `i`.
pub open spec fn covering_children(ns: Seq<NodeView>, i: int, path: Seq<char>, k: int) -> Seq<
    (int, Seq<char>),
>
    decreases ns.len() - i, k,
{
    if 0 <= i < ns.len() && 0 < k <= ns[i].children.len() {
        let c = ns[i].children[k - 1] as int;
        covering_children(ns, i, path, k - 1) + if i < c < ns.len() {
            covering(ns, c, child_path(path, ns[c].segment))
        } else {
            seq![]
        }
    } else {
        seq![]
    }
}

pub open spec fn entries_view(es: Seq<(usize, Vec<char>)>) -> Seq<(int, Seq<char>)> {
    es.map_values(|e: (usize, Vec<char>)| (e.0 as int, e.1@))
}

/// Covering nodes that follow one another with the same metadata identity,
/// grouped, in order.
pub open spec fn group_by_metadata(ns: Seq<NodeView>, es: Seq<(int, Seq<char>)>) -> Seq<
    (usize, Seq<(int, Seq<char>)>),
>
    decreases es.len(),
{
    if es.len() == 0 {
        seq![]
    } else {
        let prev = group_by_metadata(ns, es.drop_last());
        let e = es.last();
        let id = ns[e.0].metadata->0;
        if prev.len() > 0 && prev.last().0 == id {
            prev.update(prev.len() - 1, (id, prev.last().1.push(e)))
        } else {
            prev.push((id, seq![e]))
        }
    }
}

/// The file pattern of a covering node: its path, with "/*" where it is a
/// directory.
pub open spec fn pattern_of(ns: Seq<NodeView>, e: (int, Seq<char>)) -> Seq<char> {
    if ns[e.0].children.len() > 0 {
        e.1 + seq!['/', '*']
    } else {
        e.1
    }
}

/// A pattern as written in a files field: without leading "./", and with
/// '?' for each space (a space separates patterns there).
pub open spec fn written_pattern(p: Seq<char>) -> Seq<char> {
    strip_dot_slash(p).map_values(|c: char| if c == ' ' { '?' } else { c })
}

/// The files field of a group: its patterns sorted, written, one per line.
pub open spec fn files_field(ns: Seq<NodeView>, group: Seq<(int, Seq<char>)>) -> Seq<char> {
    join_with(
        sorted_texts(group.map_values(|e: (int, Seq<char>)| pattern_of(ns, e))).map_values(
            |p: Seq<char>| written_pattern(p),
        ),
        seq!['\n'],
    )
}

/// A pattern as written in a files field.
pub fn process_file_pattern(path: &Vec<char>) -> (r: Vec<char>)
    ensures
        r@ == written_pattern(path@),
{
    let rest = without_dot_slash(path);
    let mut out: Vec<char> = Vec::new();
    let mut i: usize = 0;
    while i < rest.len()
        invariant
            i <= rest@.len(),
            out@ == rest@.take(i as int).map_values(|c: char| if c == ' ' { '?' } else { c }),
        decreases rest@.len() - i,
    {
        let c = rest[i];
        out.push(if c == ' ' { '?' } else { c });
        i += 1;
        assert(out@ =~= rest@.take(i as int).map_values(|c: char| if c == ' ' { '?' } else { c }));
    }
    assert(rest@.take(rest@.len() as int) =~= rest@);
    out
}

impl<T: PartialEq> CopyrightDataTree<T> {
    /// Append to `out` the covering nodes at and below node `i`, whose path
    /// is `path`.
    fn collect_covering(&self, i: usize, path: Vec<char>, out: &mut Vec<(usize, Vec<char>)>)
        requires
            self.wf(),
            i < self.nodes().len(),
        ensures
            entries_view(final(out)@) == entries_view(old(out)@) + covering(self.nodes(), i as int, path@),
        decreases self.nodes().len() - i,
    {
        let ghost ns = self.nodes();
        assert(ns[i as int] == self.nodes@[i as int]@);
        if self.nodes[i].metadata.is_some() {
            let ghost before = out@;
            out.push((i, path));
            assert(entries_view(out@) =~= entries_view(before) + seq![(i as int, path@)]);
            return;
        }
        let n = self.nodes[i].children.len();
        let mut k: usize = 0;
        while k < n
            invariant
                ns == self.nodes(),
                self.wf(),
                i < ns.len(),
                ns[i as int].metadata is None,
                n == ns[i as int].children.len(),
                ns[i as int].children == self.nodes@[i as int].children@,
                k <= n,
                entries_view(out@) == entries_view(old(out)@) + covering_children(ns, i as int, path@, k as int),
            decreases n - k,
        {
            let c = self.nodes[i].children[k];
            assert(ns[i as int].children[k as int] == c);
            assert(i < c < ns.len());
            let seg = chars_of(self.nodes[c].path_segment.as_str());
            assert(seg@ == ns[c as int].segment);
            let mut child = slice_of(&path, 0, path.len());
            assert(child@ =~= path@);
            child.push('/');
            push_all(&mut child, &seg);
            assert(child@ =~= child_path(path@, ns[c as int].segment));
            let ghost before = out@;
            self.collect_covering(c, child, out);
            proof {
                assert(covering_children(ns, i as int, path@, k + 1) == covering_children(ns, i as int, path@, k as int) + covering(ns, c as int, child_path(path@, ns[c as int].segment)));
                assert(entries_view(out@) =~= entries_view(old(out)@) + covering_children(ns, i as int, path@, k + 1));
            }
            k += 1;
        }
    }

    /// The covering nodes of the whole tree, in pre-order, each with its path.
    pub fn covering_nodes(&self) -> (r: Vec<(usize, Vec<char>)>)
        requires
            self.wf(),
        ensures
            entries_view(r@) == covering(self.nodes(), 0, self.nodes()[0].segment),
    {
        let mut out: Vec<(usize, Vec<char>)> = Vec::new();
        let root = chars_of(self.nodes[0].path_segment.as_str());
        assert(root@ == self.nodes()[0].segment) by {
            assert(self.nodes()[0] == self.nodes@[0]@);
        }
        assert(entries_view(out@) =~= Seq::<(int, Seq<char>)>::empty());
        self.collect_covering(0, root, &mut out);
        assert(entries_view(out@) =~= covering(self.nodes(), 0, self.nodes()[0].segment));
        out
    }
}

proof fn lemma_covering_props(ns: Seq<NodeView>, i: int, path: Seq<char>)
    requires
        tree_wf(ns),
    ensures
        forall|k: int|
            0 <= k < covering(ns, i, path).len() ==> 0 <= (#[trigger] covering(ns, i, path)[k]).0
                < ns.len() && ns[covering(ns, i, path)[k].0].metadata is Some,
    decreases ns.len() - i, ns[i].children.len() + 1,
{
    if 0 <= i < ns.len() && ns[i].metadata is None {
        lemma_covering_children_props(ns, i, path, ns[i].children.len() as int);
    }
}

proof fn lemma_covering_children_props(ns: Seq<NodeView>, i: int, path: Seq<char>, k: int)
    requires
        tree_wf(ns),
    ensures
        forall|m: int|
            0 <= m < covering_children(ns, i, path, k).len() ==> 0 <= (
            #[trigger] covering_children(ns, i, path, k)[m]).0 < ns.len() && ns[covering_children(
                ns,
                i,
                path,
                k,
            )[m].0].metadata is Some,
    decreases ns.len() - i, k,
{
    if 0 <= i < ns.len() && 0 < k <= ns[i].children.len() {
        let c = ns[i].children[k - 1] as int;
        lemma_covering_children_props(ns, i, path, k - 1);
        if i < c < ns.len() {
            lemma_covering_props(ns, c, child_path(path, ns[c].segment));
        }
    }
}

pub open spec fn groups_view(gs: Seq<(usize, Vec<(usize, Vec<char>)>)>) -> Seq<
    (usize, Seq<(int, Seq<char>)>),
> {
    gs.map_values(|g: (usize, Vec<(usize, Vec<char>)>)| (g.0, entries_view(g.1@)))
}

/// Group neighbouring entries with the same metadata identity.
fn group_entries(ns: Ghost<Seq<NodeView>>, ids: &Vec<usize>, entries: Vec<(usize, Vec<char>)>) -> (r: Vec<(usize, Vec<(usize, Vec<char>)>)>)
    requires
        ids@.len() == entries@.len(),
        forall|k: int| 0 <= k < ids@.len() ==> ns@[entries@[k].0 as int].metadata == Some(#[trigger] ids@[k]),
    ensures
        groups_view(r@) == group_by_metadata(ns@, entries_view(entries@)),
{
    let ghost es = entries_view(entries@);
    let mut groups: Vec<(usize, Vec<(usize, Vec<char>)>)> = Vec::new();
    let mut i: usize = 0;
    let mut rest = entries;
    let ghost all = rest@;
    assert(es.take(0) =~= Seq::<(int, Seq<char>)>::empty());
    assert(groups_view(groups@) =~= Seq::<(usize, Seq<(int, Seq<char>)>)>::empty());
    while i < ids.len()
        invariant
            ids@.len() == all.len(),
            es == entries_view(all),
            rest@ == all.skip(i as int),
            i <= ids@.len(),
            forall|k: int| 0 <= k < ids@.len() ==> ns@[all[k].0 as int].metadata == Some(#[trigger] ids@[k]),
            groups_view(groups@) == group_by_metadata(ns@, es.take(i as int)),
        decreases ids@.len() - i,
    {
        let e = rest.remove(0);
        assert(rest@ =~= all.skip(i + 1));
        assert(e == all[i as int]);
        let id = ids[i];
        let ghost prev = groups_view(groups@);
        proof {
            assert(es.take(i + 1).drop_last() =~= es.take(i as int));
            assert(es.take(i + 1).last() == (e.0 as int, e.1@));
            assert(ns@[e.0 as int].metadata->0 == id);
        }
        let n = groups.len();
        if n > 0 && groups[n - 1].0 == id {
            let ghost last = groups@[n - 1];
            let ghost ev = (e.0 as int, e.1@);
            groups[n - 1].1.push(e);
            proof {
                assert(entries_view(groups@[n - 1].1@) =~= entries_view(last.1@).push(ev));
                assert(groups_view(groups@) =~= prev.update(n - 1, (id, prev.last().1.push(ev))));
            }
        } else {
            let mut members: Vec<(usize, Vec<char>)> = Vec::new();
            let ghost ev = (e.0 as int, e.1@);
            members.push(e);
            assert(entries_view(members@) =~= seq![ev]);
            groups.push((id, members));
            assert(groups_view(groups@) =~= prev.push((id, seq![ev])));
        }
        i += 1;
    }
    assert(es.take(ids@.len() as int) =~= es);
    groups
}

/// The copyright field for the text `t`: as it is, or parsed under the
/// given options, restated and written back.
pub open spec fn copyright_field(t: Seq<char>, summarize: Option<YearRangeNormalization>) -> Seq<
    char,
> {
    match summarize {
        None => t,
        Some(o) => copyright_text(resummarized(parse_copyright(o, t))),
    }
}

/// What a files paragraph says for a group of covering nodes that share
/// the metadata `m`.
pub open spec fn paragraph_for(
    p: FilesParagraph,
    ns: Seq<NodeView>,
    group: Seq<(int, Seq<char>)>,
    m: MetadataView,
    summarize: Option<YearRangeNormalization>,
) -> bool {
    &&& p.files.0@ == files_field(ns, group)
    &&& p.copyright.0@ == copyright_field(m.copyright_text, summarize)
    &&& p.license.0@ == license_field(m.license)
    &&& p.comment is None
}

impl CopyrightDataTree<Metadata> {
    /// The files field of a group of covering nodes.
    fn files_text(&self, group: &Vec<(usize, Vec<char>)>) -> (r: String)
        requires
            self.wf(),
            forall|k: int| 0 <= k < group@.len() ==> (#[trigger] group@[k]).0 < self.nodes().len(),
        ensures
            r@ == files_field(self.nodes(), entries_view(group@)),
    {
        let ghost ns = self.nodes();
        let ghost es = entries_view(group@);
        let mut patterns: Vec<Vec<char>> = Vec::new();
        let mut i: usize = 0;
        while i < group.len()
            invariant
                ns == self.nodes(),
                self.wf(),
                es == entries_view(group@),
                forall|k: int| 0 <= k < group@.len() ==> (#[trigger] group@[k]).0 < ns.len(),
                i <= group@.len(),
                views_of_texts(patterns@) == es.take(i as int).map_values(
                    |e: (int, Seq<char>)| pattern_of(ns, e),
                ),
            decreases group@.len() - i,
        {
            let node = group[i].0;
            let mut p = slice_of(&group[i].1, 0, group[i].1.len());
            assert(p@ =~= group@[i as int].1@);
            let dir = self.is_directory(node);
            if dir {
                p.push('/');
                p.push('*');
            }
            proof {
                assert(es[i as int] == (node as int, group@[i as int].1@));
                assert(p@ =~= pattern_of(ns, es[i as int]));
                assert(es.take(i + 1).map_values(|e: (int, Seq<char>)| pattern_of(ns, e)) =~= es.take(
                    i as int,
                ).map_values(|e: (int, Seq<char>)| pattern_of(ns, e)).push(p@));
            }
            let ghost before = patterns@;
            patterns.push(p);
            assert(views_of_texts(patterns@) =~= views_of_texts(before).push(p@));
            i += 1;
        }
        assert(es.take(group@.len() as int) =~= es);
        let sorted = sort_texts(patterns);
        let ghost st = views_of_texts(sorted@);
        let mut written: Vec<Vec<char>> = Vec::new();
        let mut j: usize = 0;
        while j < sorted.len()
            invariant
                j <= sorted@.len(),
                st == views_of_texts(sorted@),
                views_of_texts(written@) == st.take(j as int).map_values(|p: Seq<char>| written_pattern(p)),
            decreases sorted@.len() - j,
        {
            let w = process_file_pattern(&sorted[j]);
            proof {
                assert(st[j as int] == sorted@[j as int]@);
                assert(st.take(j + 1).map_values(|p: Seq<char>| written_pattern(p)) =~= st.take(
                    j as int,
                ).map_values(|p: Seq<char>| written_pattern(p)).push(w@));
            }
            let ghost before = written@;
            written.push(w);
            assert(views_of_texts(written@) =~= views_of_texts(before).push(w@));
            j += 1;
        }
        assert(st.take(sorted@.len() as int) =~= st);
        let sep: Vec<char> = vec!['\n'];
        assert(sep@ =~= seq!['\n']);
        string_of(join_texts(&written, &sep).as_slice())
    }

    /// The copyright field for `text`.
    fn copyright_field_text(text: &String, summarize: Option<YearRangeNormalization>) -> (r: String)
        ensures
            r@ == copyright_field(text@, summarize),
    {
        match summarize {
            None => text.clone(),
            Some(options) => match Copyright::try_parse(options, text.as_str()) {
                Ok(c) => c.resummarize().to_text(),
                Err(_) => text.clone(),
            },
        }
    }

    /// One files paragraph per run of covering nodes, in pre-order, that
    /// share their metadata: the patterns of the nodes, the copyright text
    /// and the license field of the metadata.
    pub fn make_paragraphs(&self) -> (r: Vec<FilesParagraph>)
        requires
            self.wf(),
        ensures
            ({
                let ns = self.nodes();
                let groups = group_by_metadata(ns, covering(ns, 0, ns[0].segment));
                &&& r@.len() == groups.len()
                &&& forall|g: int| 0 <= g < groups.len() ==> (#[trigger] groups[g]).0 < self.table().len()
                &&& forall|g: int|
                    0 <= g < groups.len() ==> paragraph_for(
                        #[trigger] r@[g],
                        ns,
                        groups[g].1,
                        self.table()[groups[g].0 as int]@,
                        None,
                    )
            }),
    {
        self.build_paragraphs(None)
    }

    /// As `make_paragraphs`, with each copyright statement parsed under
    /// `options`, restated with one line per holder and all of that holder's
    /// years coalesced, and written back (opaque text is kept as it is).
    pub fn make_summarized_paragraphs(&self, options: YearRangeNormalization) -> (r: Vec<FilesParagraph>)
        requires
            self.wf(),
        ensures
            ({
                let ns = self.nodes();
                let groups = group_by_metadata(ns, covering(ns, 0, ns[0].segment));
                &&& r@.len() == groups.len()
                &&& forall|g: int| 0 <= g < groups.len() ==> (#[trigger] groups[g]).0 < self.table().len()
                &&& forall|g: int|
                    0 <= g < groups.len() ==> paragraph_for(
                        #[trigger] r@[g],
                        ns,
                        groups[g].1,
                        self.table()[groups[g].0 as int]@,
                        Some(options),
                    )
            }),
    {
        self.build_paragraphs(Some(options))
    }

    fn build_paragraphs(&self, summarize: Option<YearRangeNormalization>) -> (r: Vec<FilesParagraph>)
        requires
            self.wf(),
        ensures
            ({
                let ns = self.nodes();
                let groups = group_by_metadata(ns, covering(ns, 0, ns[0].segment));
                &&& r@.len() == groups.len()
                &&& forall|g: int| 0 <= g < groups.len() ==> (#[trigger] groups[g]).0 < self.table().len()
                &&& forall|g: int|
                    0 <= g < groups.len() ==> paragraph_for(
                        #[trigger] r@[g],
                        ns,
                        groups[g].1,
                        self.table()[groups[g].0 as int]@,
                        summarize,
                    )
            }),
    {
        let ghost ns = self.nodes();
        let entries = self.covering_nodes();
        let ghost es = entries_view(entries@);
        proof {
            lemma_covering_props(ns, 0, ns[0].segment);
        }
        let mut ids: Vec<usize> = Vec::new();
        let mut i: usize = 0;
        while i < entries.len()
            invariant
                ns == self.nodes(),
                self.wf(),
                es == entries_view(entries@),
                forall|k: int| 0 <= k < es.len() ==> 0 <= (#[trigger] es[k]).0 < ns.len() && ns[es[k].0].metadata is Some,
                i <= entries@.len(),
                ids@.len() == i,
                forall|k: int| 0 <= k < i ==> ns[entries@[k].0 as int].metadata == Some(#[trigger] ids@[k]),
            decreases entries@.len() - i,
        {
            let node = entries[i].0;
            assert(es[i as int].0 == node);
            let id = match self.get_metadata_id(node) {
                Some(id) => id,
                None => {
                    assert(false);
                    0
                },
            };
            ids.push(id);
            i += 1;
        }
        let groups = group_entries(Ghost(ns), &ids, entries);
        let ghost gv = groups_view(groups@);
        proof {
            lemma_groups_props(ns, es);
            assert forall|k: int| 0 <= k < gv.len() implies (#[trigger] gv[k]).0 < self.table().len() by {
                let member = gv[k].1[0].0;
                assert(ns[member].metadata == Some(gv[k].0));
                assert(self.nodes()[member].metadata is Some);
            }
        }
        let mut paras: Vec<FilesParagraph> = Vec::new();
        let mut g: usize = 0;
        while g < groups.len()
            invariant
                ns == self.nodes(),
                self.wf(),
                gv == groups_view(groups@),
                gv == group_by_metadata(ns, es),
                forall|k: int| 0 <= k < es.len() ==> 0 <= (#[trigger] es[k]).0 < ns.len() && ns[es[k].0].metadata is Some,
                g <= groups@.len(),
                paras@.len() == g,
                gv.len() == groups@.len(),
                forall|k: int| 0 <= k < gv.len() ==> (#[trigger] gv[k]).0 < self.table().len(),
                forall|k: int|
                    0 <= k < g ==> paragraph_for(
                        #[trigger] paras@[k],
                        ns,
                        gv[k].1,
                        self.table()[gv[k].0 as int]@,
                        summarize,
                    ),
            decreases groups@.len() - g,
        {
            let id = groups[g].0;
            proof {
                lemma_groups_props(ns, es);
                assert(gv[g as int].0 == id);
                assert(gv[g as int].1 == entries_view(groups@[g as int].1@));
                let member = gv[g as int].1[0].0;
                assert(ns[member].metadata == Some(id));
                assert(self.nodes()[member].metadata is Some);
                assert(id < self.table().len());
                assert forall|k: int| 0 <= k < groups@[g as int].1@.len() implies (
                #[trigger] groups@[g as int].1@[k]).0 < self.nodes().len() by {
                    assert(gv[g as int].1[k].0 == groups@[g as int].1@[k].0 as int);
                }
            }
            let metadata = self.metadata.get_value(id).unwrap();
            let files = self.files_text(&groups[g].1);
            let license = license_field_text(&metadata.license);
            let para = FilesParagraph {
                files: MultilineField(files),
                copyright: MultilineField(Self::copyright_field_text(&metadata.copyright_text, summarize)),
                license: SingleLineOrMultilineEmptyFirstLineField(license),
                comment: None,
            };
            proof {
                assert(files@ == files_field(ns, gv[g as int].1));
                assert(*metadata == self.table()[id as int]);
            }
            let ghost before = paras@;
            assert(gv[g as int].0 < self.table().len());
            paras.push(para);
            assert forall|k: int|
                0 <= k < g + 1 implies paragraph_for(
                #[trigger] paras@[k],
                ns,
                gv[k].1,
                self.table()[gv[k].0 as int]@,
                summarize,
            ) by {
                if k < g {
                    assert(paras@[k] == before[k]);
                }
            }
            g += 1;
        }
        assert(gv.len() == groups@.len());
        paras
    }
}

/// Every group of covering nodes is non-empty and names the metadata of its
/// members.
proof fn lemma_groups_props(ns: Seq<NodeView>, es: Seq<(int, Seq<char>)>)
    requires
        forall|k: int| 0 <= k < es.len() ==> 0 <= (#[trigger] es[k]).0 < ns.len() && ns[es[k].0].metadata is Some,
    ensures
        forall|g: int|
            0 <= g < group_by_metadata(ns, es).len() ==> (#[trigger] group_by_metadata(ns, es)[g]).1.len() > 0,
        forall|g: int|
            0 <= g < group_by_metadata(ns, es).len() ==> forall|m: int|
                0 <= m < (#[trigger] group_by_metadata(ns, es)[g]).1.len() ==> 0 <= group_by_metadata(ns, es)[g].1[m].0 < ns.len() && ns[group_by_metadata(ns, es)[g].1[m].0].metadata == Some(group_by_metadata(ns, es)[g].0),
    decreases es.len(),
{
    if es.len() > 0 {
        let p = es.drop_last();
        assert forall|k: int| 0 <= k < p.len() implies 0 <= (#[trigger] p[k]).0 < ns.len() && ns[p[k].0].metadata is Some by {
            assert(p[k] == es[k]);
        }
        lemma_groups_props(ns, p);
        assert(es.last() == es[es.len() - 1]);
    }
}

/// One file of the bill of materials: its path (which may start with
/// "./"), its raw copyright text if any, and its license expressions.
#[derive(Debug, Clone)]
pub struct FileRecord {
    pub file_name: String,
    pub copyright_text: Option<String>,
    pub license_information_in_file: Vec<String>,
}

pub open spec fn opt_text(t: Option<String>) -> Option<Seq<char>> {
    match t {
        Some(s) => Some(s@),
        None => None,
    }
}

/// The metadata that a file record carries: its cleaned copyright lines,
/// one per line, and its license expressions.
pub open spec fn record_metadata(item: FileRecord) -> MetadataView {
    MetadataView {
        copyright_text: join_with(cleaned_lines(opt_text(item.copyright_text)), seq!['\n']),
        license: texts_of(item.license_information_in_file@),
    }
}

fn copy_texts(v: &Vec<String>) -> (r: Vec<String>)
    ensures
        texts_of(r@) == texts_of(v@),
{
    let mut out: Vec<String> = Vec::new();
    let mut i: usize = 0;
    while i < v.len()
        invariant
            i <= v@.len(),
            texts_of(out@) == texts_of(v@.take(i as int)),
        decreases v@.len() - i,
    {
        let ghost before = out@;
        let t = v[i].clone();
        out.push(t);
        proof {
            assert(texts_of(out@) =~= texts_of(before).push(t@));
            assert(v@.take(i + 1) =~= v@.take(i as int).push(v@[i as int]));
            assert(texts_of(v@.take(i + 1)) =~= texts_of(v@.take(i as int)).push(v@[i as int]@));
        }
        i += 1;
    }
    assert(v@.take(v@.len() as int) =~= v@);
    out
}

impl CopyrightDataTree<Metadata> {
    /// A tree with the root "." alone, and no metadata.
    pub fn new_tree() -> (r: CopyrightDataTree<Metadata>)
        ensures
            r.wf(),
            r.nodes().len() == 1,
            r.table().len() == 0,
    {
        CopyrightDataTree::new()
    }

    /// Add one file: the node of its path takes the identity of the
    /// metadata that the record carries. Returns the node and the identity.
    pub fn accumulate(&mut self, item: &FileRecord) -> (r: (usize, usize))
        requires
            old(self).wf(),
            old(self).table().len() < usize::MAX,
        ensures
            final(self).wf(),
            lookup(final(self).nodes(), path_segments(item.file_name@)) == Some(r.0 as int),
            r.0 < final(self).nodes().len(),
            final(self).nodes()[r.0 as int].metadata == Some(r.1),
            r.1 < final(self).table().len(),
            final(self).table()[r.1 as int]@ == record_metadata(*item),
    {
        let lines = cleanup_copyright_text(&item.copyright_text);
        let mut texts: Vec<Vec<char>> = Vec::new();
        let mut i: usize = 0;
        while i < lines.len()
            invariant
                i <= lines@.len(),
                views_of_texts(texts@) == texts_of(lines@).take(i as int),
            decreases lines@.len() - i,
        {
            let t = chars_of(lines[i].as_str());
            let ghost before = texts@;
            texts.push(t);
            proof {
                assert(views_of_texts(texts@) =~= views_of_texts(before).push(t@));
                assert(texts_of(lines@).take(i + 1) =~= texts_of(lines@).take(i as int).push(
                    lines@[i as int]@,
                ));
            }
            i += 1;
        }
        assert(texts_of(lines@).take(lines@.len() as int) =~= texts_of(lines@));
        let sep: Vec<char> = vec!['\n'];
        assert(sep@ =~= seq!['\n']);
        let copyright_text = string_of(join_texts(&texts, &sep).as_slice());
        let license = copy_texts(&item.license_information_in_file);
        let metadata = Metadata { copyright_text, license };
        assert(metadata@ == record_metadata(*item));
        self.insert(item.file_name.as_str(), metadata)
    }
}

/// Licenses and the parsed copyright statement of a file.
#[derive(Debug)]
pub struct ParsedMetadata {
    pub license: Vec<String>,
    pub copyright: Copyright,
}

pub struct ParsedMetadataView {
    pub license: Seq<Seq<char>>,
    pub copyright: CopyrightView,
}

impl View for ParsedMetadata {
    type V = ParsedMetadataView;

    open spec fn view(&self) -> ParsedMetadataView {
        ParsedMetadataView { license: texts_of(self.license@), copyright: self.copyright@ }
    }
}

impl PartialEq for ParsedMetadata {
    fn eq(&self, other: &ParsedMetadata) -> (r: bool) {
        same_texts(&self.license, &other.license) && self.copyright.same_as(&other.copyright)
    }
}

impl vstd::std_specs::cmp::PartialEqSpecImpl for ParsedMetadata {
    open spec fn obeys_eq_spec() -> bool {
        true
    }

    open spec fn eq_spec(&self, other: &ParsedMetadata) -> bool {
        self@ == other@
    }
}

/// The metadata with its copyright text parsed under `o`.
pub open spec fn decomposed(m: MetadataView, o: YearRangeNormalization) -> ParsedMetadataView {
    ParsedMetadataView { license: m.license, copyright: parse_copyright(o, m.copyright_text) }
}

/// No two metadata values of `t` parse alike under `o`.
pub open spec fn decomposition_injective(t: Seq<Metadata>, o: YearRangeNormalization) -> bool {
    forall|i: int, j: int|
        0 <= i < t.len() && 0 <= j < t.len() && i != j ==> #[trigger] decomposed(t[i]@, o)
            != #[trigger] decomposed(t[j]@, o)
}

impl CopyrightDataTree<Metadata> {
    /// Every metadata value with its copyright text parsed, by identity.
    fn decomposed_values(&self, options: YearRangeNormalization) -> (r: Vec<ParsedMetadata>)
        ensures
            r@.len() == self.table().len(),
            forall|k: int| 0 <= k < r@.len() ==> (#[trigger] r@[k])@ == decomposed(self.table()[k]@, options),
    {
        let n = self.metadata.len();
        let mut values: Vec<ParsedMetadata> = Vec::new();
        let mut i: usize = 0;
        while i < n
            invariant
                n == self.table().len(),
                i <= n,
                values@.len() == i,
                forall|k: int| 0 <= k < i ==> (#[trigger] values@[k])@ == decomposed(self.table()[k]@, options),
            decreases n - i,
        {
            let m = self.metadata.get_value(i).unwrap();
            let copyright = match Copyright::try_parse(options, m.copyright_text.as_str()) {
                Ok(c) => c,
                Err(_) => Copyright::Complex(String::new()),
            };
            let license = copy_texts(&m.license);
            values.push(ParsedMetadata { license, copyright });
            i += 1;
        }
        values
    }

    /// Two identities whose metadata values parse alike under `options`, if
    /// there are any: decomposition would merge them.
    pub fn decomposition_collision(&self, options: YearRangeNormalization) -> (r: Option<(usize, usize)>)
        ensures
            match r {
                None => decomposition_injective(self.table(), options),
                Some((i, j)) => i < j < self.table().len() && decomposed(self.table()[i as int]@, options)
                    == decomposed(self.table()[j as int]@, options),
            },
    {
        let values = self.decomposed_values(options);
        let r = AtomTable::find_collision(&values);
        proof {
            if r is None {
                assert forall|i: int, j: int|
                    0 <= i < self.table().len() && 0 <= j < self.table().len() && i != j implies #[trigger] decomposed(
                        self.table()[i]@,
                        options,
                    ) != #[trigger] decomposed(self.table()[j]@, options) by {
                    assert(!values@[i].eq_spec(&values@[j]));
                }
            }
        }
        r
    }

    /// The same tree, with each metadata value's copyright text parsed, under
    /// the same identities. Two values that parse alike would break the
    /// identities: that is a contract violation, left out here, and
    /// `decomposition_collision` tells beforehand.
    pub fn perform_copyright_decomposition(self, options: YearRangeNormalization) -> (r:
        CopyrightDataTree<ParsedMetadata>)
        requires
            self.wf(),
            decomposition_injective(self.table(), options),
        ensures
            r.wf(),
            r.nodes() == self.nodes(),
            r.table().len() == self.table().len(),
            forall|i: int|
                0 <= i < r.table().len() ==> (#[trigger] r.table()[i])@ == decomposed(self.table()[i]@, options),
    {
        let values = self.decomposed_values(options);
        proof {
            assert forall|i: int, j: int|
                0 <= i < values@.len() && 0 <= j < values@.len() && i != j implies !#[trigger] values@[i].eq_spec(
                &values@[j],
            ) by {
                assert(decomposed(self.table()[i]@, options) != decomposed(self.table()[j]@, options));
            }
        }
        let table = AtomTable::from_distinct_values(values);
        let t = CopyrightDataTree { nodes: self.nodes, metadata: table };
        assert(t.nodes() == self.nodes());
        t
    }
}

/// `new` is `old` after one promotion pass: the same nodes, each carrying
/// the identity that all its children share, or else its old one.
pub open spec fn promoted(old: Seq<NodeView>, new: Seq<NodeView>) -> bool {
    &&& new.len() == old.len()
    &&& forall|i: int|
        0 <= i < new.len() ==> (#[trigger] new[i]).segment == old[i].segment && new[i].children
            == old[i].children
    &&& forall|i: int|
        0 <= i < new.len() ==> (#[trigger] new[i]).metadata == match common_child_metadata(new, i) {
            Some(m) => Some(m),
            None => old[i].metadata,
        }
}

proof fn lemma_promoted_wf(a: Seq<NodeView>, b: Seq<NodeView>)
    requires
        tree_wf(a),
        promoted(a, b),
    ensures
        tree_wf(b),
{
    assert forall|i: int, k: int| 0 <= i < b.len() && 0 <= k < b[i].children.len() implies i
        < #[trigger] b[i].children[k] < b.len() by {
        assert(b[i].children == a[i].children);
    }
    assert forall|i: int, k: int, m: int|
        0 <= i < b.len() && 0 <= k < m < b[i].children.len() implies b[#[trigger] b[i].children[k] as int].segment
        != b[#[trigger] b[i].children[m] as int].segment by {
        assert(b[i].children == a[i].children);
        assert(i < a[i].children[k] < a.len() && i < a[i].children[m] < a.len());
        assert(b[a[i].children[k] as int].segment == a[a[i].children[k] as int].segment);
        assert(b[a[i].children[m] as int].segment == a[a[i].children[m] as int].segment);
    }
}

proof fn lemma_promotion_suffix(a: Seq<NodeView>, b: Seq<NodeView>, c: Seq<NodeView>, i: int)
    requires
        tree_wf(b),
        promoted(a, b),
        promoted(b, c),
        0 <= i <= b.len(),
    ensures
        forall|j: int| i <= j < b.len() ==> (#[trigger] c[j]).metadata == b[j].metadata,
    decreases b.len() - i,
{
    if i < b.len() {
        lemma_promotion_suffix(a, b, c, i + 1);
        assert forall|j: int| 0 <= j < b.len() implies (#[trigger] c[j]).children == b[j].children by {
        }
        lemma_common_frame(b, c, i, i);
        assert(c[i].metadata == b[i].metadata);
    }
}

/// Promotion is idempotent: a second pass over a promoted tree changes no
/// node's metadata.
pub proof fn lemma_promotion_idempotent(a: Seq<NodeView>, b: Seq<NodeView>, c: Seq<NodeView>)
    requires
        tree_wf(a),
        promoted(a, b),
        promoted(b, c),
    ensures
        forall|i: int| 0 <= i < c.len() ==> (#[trigger] c[i]).metadata == b[i].metadata,
{
    lemma_promoted_wf(a, b);
    lemma_promotion_suffix(a, b, c, 0);
}

/// The metadata identity that all children of node `i` carry, if there is
/// at least one child and they all carry the same one.
pub open spec fn common_child_metadata(ns: Seq<NodeView>, i: int) -> Option<usize> {
    let cs = ns[i].children;
    if cs.len() > 0 && ns[cs[0] as int].metadata is Some && forall|k: int|
        0 <= k < cs.len() ==> ns[#[trigger] cs[k] as int].metadata == ns[cs[0] as int].metadata {
        ns[cs[0] as int].metadata
    } else {
        None
    }
}

proof fn lemma_common_in_table(ns: Seq<NodeView>, i: int, bound: int)
    requires
        tree_wf(ns),
        0 <= i < ns.len(),
        forall|j: int|
            0 <= j < ns.len() && (#[trigger] ns[j]).metadata is Some ==> ns[j].metadata->0 < bound,
    ensures
        common_child_metadata(ns, i) matches Some(m) ==> m < bound,
{
    let cs = ns[i].children;
    if cs.len() > 0 {
        assert(i < cs[0] < ns.len());
        assert(ns[cs[0] as int].metadata is Some ==> ns[cs[0] as int].metadata->0 < bound);
    }
}

/// Whether the children of node `i` agree depends only on the children,
/// all of which come after `p <= i`.
proof fn lemma_common_frame(ns: Seq<NodeView>, ns2: Seq<NodeView>, i: int, p: int)
    requires
        tree_wf(ns),
        0 <= p <= i < ns.len(),
        ns2.len() == ns.len(),
        forall|j: int| 0 <= j < ns.len() ==> (#[trigger] ns2[j]).children == ns[j].children,
        forall|j: int| p < j < ns.len() ==> (#[trigger] ns2[j]).metadata == ns[j].metadata,
    ensures
        common_child_metadata(ns2, i) == common_child_metadata(ns, i),
{
    let cs = ns[i].children;
    assert(ns2[i].children == cs);
    assert forall|k: int| 0 <= k < cs.len() implies ns2[#[trigger] cs[k] as int].metadata == ns[cs[k] as int].metadata by {
        assert(i < cs[k] < ns.len());
    }
}

/// A first match within a prefix is the first match of the whole.
proof fn lemma_child_with_prefix(ns: Seq<NodeView>, cs: Seq<usize>, seg: Seq<char>, k: int)
    requires
        0 <= k <= cs.len(),
        child_with(ns, cs.take(k), seg) is Some,
    ensures
        child_with(ns, cs, seg) == child_with(ns, cs.take(k), seg),
    decreases cs.len() - k,
{
    if k < cs.len() {
        assert(cs.take(k + 1).drop_last() =~= cs.take(k));
        lemma_child_with_prefix(ns, cs, seg, k + 1);
    } else {
        assert(cs.take(k) =~= cs);
    }
}

} // verus!
