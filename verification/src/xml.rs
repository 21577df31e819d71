//! A plain-value model of a parsed XML document.
//!
//! The document is held as its element nodes in document order (a preorder
//! walk), each with its depth in the tree, its tag name, and its text content
//! (the text of its first child, when that child is a text node). Depths are
//! what relate the flat sequence back to the tree: the children of the node at
//! index `i` are exactly the later nodes one level deeper that come before the
//! first node at the same or a shallower level.

use vstd::prelude::*;

verus! {

/// One element of a parsed document: its depth in the tree, its tag name, and
/// its text content, if any.
#[derive(Debug, Clone, PartialEq, Eq)]
pub struct XmlNode {
    pub depth: usize,
    pub tag: String,
    pub text: Option<String>,
}

/// The mathematical value of an [`XmlNode`].
pub struct XmlNodeView {
    pub depth: nat,
    pub tag: Seq<char>,
    pub text: Option<Seq<char>>,
}

impl View for XmlNode {
    type V = XmlNodeView;

    open spec fn view(&self) -> XmlNodeView {
        XmlNodeView {
            depth: self.depth as nat,
            tag: self.tag@,
            text: match self.text {
                Some(t) => Some(t@),
                None => None,
            },
        }
    }
}

/// The values of a whole document's worth of nodes.
pub open spec fn nodes_view(ns: Seq<XmlNode>) -> Seq<XmlNodeView> {
    ns.map_values(|n: XmlNode| n@)
}

/// The element nodes, in document order with depths, of the XML document that
/// `body` spells, or nothing when `body` is not well-formed XML.
pub uninterp spec fn doc_elements(body: Seq<char>) -> Option<Seq<XmlNodeView>>;

/// Relies on roxmltree: `Document::parse` accepts exactly the well-formed
/// documents, and `descendants` walks every node in document order, here kept
/// when `is_element` holds, with `ancestors` giving the node's depth,
/// `tag_name().name()` its local tag name, and `text` its text content.
#[verifier::external_body]
pub(crate) fn parse_xml_elements(body: &str) -> (r: Result<Vec<XmlNode>, String>)
    ensures
        match r {
            Ok(v) => doc_elements(body@) == Some(nodes_view(v@)),
            Err(_) => doc_elements(body@) is None,
        },
{
    let doc = match roxmltree::Document::parse(body) {
        Ok(d) => d,
        Err(e) => return Err(e.to_string()),
    };
    let mut out = Vec::new();
    for n in doc.descendants() {
        if n.is_element() {
            let tag = n.tag_name().name().to_string();
            let text = n.text().map(|t| t.to_string());
            out.push(XmlNode { depth: n.ancestors().count(), tag, text });
        }
    }
    Ok(out)
}

/// The first index at or after `from` whose node bears `tag`.
pub open spec fn spec_find_tag_from(v: Seq<XmlNodeView>, from: int, tag: Seq<char>) -> Option<int>
    decreases v.len() - from,
{
    if from < 0 || from >= v.len() {
        None
    } else if v[from].tag == tag {
        Some(from)
    } else {
        spec_find_tag_from(v, from + 1, tag)
    }
}

/// The first index at or after `j` whose node is at depth `d` or shallower;
/// the length of the sequence when there is none.
pub open spec fn spec_scan_end(v: Seq<XmlNodeView>, d: nat, j: int) -> int
    decreases v.len() - j,
{
    if j < 0 || j >= v.len() {
        v.len() as int
    } else if v[j].depth <= d {
        j
    } else {
        spec_scan_end(v, d, j + 1)
    }
}

/// One past the last node of the subtree rooted at index `i`: in a preorder
/// walk the subtree runs until the next node at the root's depth or above.
pub open spec fn spec_subtree_end(v: Seq<XmlNodeView>, i: int) -> int {
    spec_scan_end(v, v[i].depth, i + 1)
}

/// Whether index `j` is a child of index `i`: inside `i`'s subtree and exactly
/// one level deeper.
pub open spec fn spec_is_child(v: Seq<XmlNodeView>, i: int, j: int) -> bool {
    i < j < spec_subtree_end(v, i) && v[j].depth == v[i].depth + 1
}

/// The first child of `i` bearing `tag`, scanning from index `j` on.
pub open spec fn spec_find_child_tag_from(
    v: Seq<XmlNodeView>,
    i: int,
    j: int,
    tag: Seq<char>,
) -> Option<int>
    decreases v.len() - j,
{
    if j < 0 || j >= v.len() || j >= spec_subtree_end(v, i) {
        None
    } else if v[j].depth == v[i].depth + 1 && v[j].tag == tag {
        Some(j)
    } else {
        spec_find_child_tag_from(v, i, j + 1, tag)
    }
}

/// The first child of `i` bearing `tag`.
pub open spec fn spec_find_child_tag(v: Seq<XmlNodeView>, i: int, tag: Seq<char>) -> Option<int> {
    spec_find_child_tag_from(v, i, i + 1, tag)
}

/// The indices of the children of `i`, in document order, from index `j` on.
pub open spec fn spec_child_indices_from(v: Seq<XmlNodeView>, i: int, j: int) -> Seq<int>
    decreases v.len() - j,
{
    if j < 0 || j >= v.len() || j >= spec_subtree_end(v, i) {
        Seq::empty()
    } else if v[j].depth == v[i].depth + 1 {
        seq![j] + spec_child_indices_from(v, i, j + 1)
    } else {
        spec_child_indices_from(v, i, j + 1)
    }
}

/// The indices of the children of `i`, in document order.
pub open spec fn spec_child_indices(v: Seq<XmlNodeView>, i: int) -> Seq<int> {
    spec_child_indices_from(v, i, i + 1)
}

/// Scanning for the end of a subtree never runs past the end of the sequence.
pub proof fn lemma_scan_end_le_len(v: Seq<XmlNodeView>, d: nat, j: int)
    ensures
        spec_scan_end(v, d, j) <= v.len(),
    decreases v.len() - j,
{
    if j < 0 || j >= v.len() {
    } else if v[j].depth <= d {
    } else {
        lemma_scan_end_le_len(v, d, j + 1);
    }
}

/// Every child of `i` appears among `i`'s child indices scanned from `j` on.
pub proof fn lemma_child_in_indices(v: Seq<XmlNodeView>, i: int, j: int, c: int)
    requires
        0 <= i,
        spec_is_child(v, i, c),
        i < j <= c,
    ensures
        spec_child_indices_from(v, i, j).contains(c),
    decreases v.len() - j,
{
    lemma_scan_end_le_len(v, v[i].depth, i + 1);
    assert(c < v.len());
    if j == c {
        let here = spec_child_indices_from(v, i, j);
        assert(here == seq![j] + spec_child_indices_from(v, i, j + 1));
        assert(here[0] == c);
    } else {
        lemma_child_in_indices(v, i, j + 1, c);
        let rest = spec_child_indices_from(v, i, j + 1);
        let here = spec_child_indices_from(v, i, j);
        if v[j].depth == v[i].depth + 1 {
            assert(here == seq![j] + rest);
            let k = choose|k: int| 0 <= k < rest.len() && rest[k] == c;
            assert(here[k + 1] == c);
        } else {
            assert(here == rest);
        }
    }
}

/// A found tag index lies between the start of the scan and the end of the
/// sequence.
pub proof fn lemma_find_tag_from_bounds(v: Seq<XmlNodeView>, from: int, tag: Seq<char>)
    ensures
        spec_find_tag_from(v, from, tag) matches Some(i) ==> from <= i < v.len(),
    decreases v.len() - from,
{
    if from < 0 || from >= v.len() {
    } else if v[from].tag == tag {
    } else {
        lemma_find_tag_from_bounds(v, from + 1, tag);
    }
}

/// A found child is a child indeed, and was not skipped over.
pub proof fn lemma_find_child_tag_from_is_child(v: Seq<XmlNodeView>, i: int, j: int, tag: Seq<char>)
    ensures
        spec_find_child_tag_from(v, i, j, tag) matches Some(c) ==> j <= c < v.len()
            && v[c].depth == v[i].depth + 1 && c < spec_subtree_end(v, i),
    decreases v.len() - j,
{
    if j < 0 || j >= v.len() || j >= spec_subtree_end(v, i) {
    } else if v[j].depth == v[i].depth + 1 && v[j].tag == tag {
    } else {
        lemma_find_child_tag_from_is_child(v, i, j + 1, tag);
    }
}

/// Finds the first node at or after `from` that bears `tag`.
pub fn find_tag_from(nodes: &Vec<XmlNode>, from: usize, tag: &String) -> (r: Option<usize>)
    ensures
        match r {
            Some(i) => from <= i < nodes@.len() && spec_find_tag_from(
                nodes_view(nodes@),
                from as int,
                tag@,
            ) == Some(i as int),
            None => spec_find_tag_from(nodes_view(nodes@), from as int, tag@) is None,
        },
{
    let ghost v = nodes_view(nodes@);
    let mut i: usize = from;
    while i < nodes.len()
        invariant
            from <= i,
            v == nodes_view(nodes@),
            spec_find_tag_from(v, from as int, tag@) == spec_find_tag_from(v, i as int, tag@),
        decreases nodes@.len() - i,
    {
        proof {
            assert(v[i as int] == nodes@[i as int]@);
        }
        if nodes[i].tag == *tag {
            return Some(i);
        }
        i = i + 1;
    }
    None
}

/// One past the last node of the subtree rooted at `i`.
pub fn subtree_end(nodes: &Vec<XmlNode>, i: usize) -> (r: usize)
    requires
        i < nodes@.len(),
    ensures
        r == spec_subtree_end(nodes_view(nodes@), i as int),
        i < r <= nodes@.len(),
{
    let ghost v = nodes_view(nodes@);
    let n = nodes.len();
    let d = nodes[i].depth;
    proof {
        assert(v[i as int] == nodes@[i as int]@);
    }
    let mut j: usize = i + 1;
    while j < n && nodes[j].depth > d
        invariant
            i < j,
            n == nodes@.len(),
            j <= nodes@.len(),
            v == nodes_view(nodes@),
            d as nat == v[i as int].depth,
            spec_scan_end(v, d as nat, i + 1) == spec_scan_end(v, d as nat, j as int),
        decreases nodes@.len() - j,
    {
        proof {
            assert(v[j as int] == nodes@[j as int]@);
        }
        j = j + 1;
    }
    proof {
        if j < nodes@.len() {
            assert(v[j as int] == nodes@[j as int]@);
        }
        assert(spec_scan_end(v, d as nat, j as int) == j);
    }
    j
}

/// The indices of the children of `i`, in document order.
pub fn child_elements(nodes: &Vec<XmlNode>, i: usize) -> (r: Vec<usize>)
    requires
        i < nodes@.len(),
    ensures
        r@.map_values(|x: usize| x as int) == spec_child_indices(nodes_view(nodes@), i as int),
        forall|k: int| 0 <= k < r@.len() ==> i < #[trigger] r@[k] < nodes@.len(),
{
    let ghost v = nodes_view(nodes@);
    let end = subtree_end(nodes, i);
    let d = nodes[i].depth;
    proof {
        assert(v[i as int] == nodes@[i as int]@);
    }
    let mut out: Vec<usize> = Vec::new();
    let mut j: usize = i + 1;
    while j < end
        invariant
            i < j,
            j <= end,
            end == spec_subtree_end(v, i as int),
            end <= nodes@.len(),
            i < nodes@.len(),
            v == nodes_view(nodes@),
            d as nat == v[i as int].depth,
            spec_child_indices(v, i as int) == out@.map_values(|x: usize| x as int)
                + spec_child_indices_from(v, i as int, j as int),
            forall|k: int| 0 <= k < out@.len() ==> i < #[trigger] out@[k] < nodes@.len(),
        decreases end - j,
    {
        proof {
            assert(v[j as int] == nodes@[j as int]@);
        }
        let ghost old_out = out@;
        if nodes[j].depth >= 1 && nodes[j].depth - 1 == d {
            out.push(j);
            proof {
                assert(v[j as int].depth == v[i as int].depth + 1);
                assert(spec_child_indices_from(v, i as int, j as int) == seq![j as int]
                    + spec_child_indices_from(v, i as int, j + 1));
                assert(out@.map_values(|x: usize| x as int) =~= old_out.map_values(
                    |x: usize| x as int,
                ) + seq![j as int]);
            }
        } else {
            proof {
                assert(v[j as int].depth != v[i as int].depth + 1);
                assert(spec_child_indices_from(v, i as int, j as int)
                    == spec_child_indices_from(v, i as int, j + 1));
            }
        }
        j = j + 1;
    }
    proof {
        assert(spec_child_indices_from(v, i as int, j as int) == Seq::<int>::empty());
        assert(spec_child_indices(v, i as int) =~= out@.map_values(|x: usize| x as int));
    }
    out
}

} // verus!
