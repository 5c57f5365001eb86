//! Parsed markup as a flat list of nodes in document order.
//!
//! Each node knows where its subtree ends, so the descendants of node `i` are the nodes from
//! `i + 1` up to `d[i].end`. An HTML parser delivers the nodes; `HtmlDocument::from_nodes` checks
//! that the subtrees nest.
use vstd::prelude::*;

use crate::text::{lower, lowered, same};

verus! {

broadcast use vstd::string::group_string_axioms;

/// One attribute of an element.
pub struct Attribute {
    pub name: String,
    pub value: String,
}

/// What a node is.
pub enum NodeKind {
    Element { tag: String, attributes: Vec<Attribute> },
    Text { content: String },
    /// A comment, or whatever else shows nothing.
    Comment,
}

/// A node and the index just behind its subtree.
pub struct HtmlNode {
    pub kind: NodeKind,
    pub end: usize,
}

/// A parsed document: its nodes in document order.
pub struct HtmlDocument {
    pub nodes: Vec<HtmlNode>,
}

/// The attributes of a node; a text node has none.
pub open spec fn attributes(n: HtmlNode) -> Seq<Attribute> {
    match n.kind {
        NodeKind::Element { tag, attributes } => attributes@,
        NodeKind::Text { content } => Seq::empty(),
        NodeKind::Comment => Seq::empty(),
    }
}

/// The nodes and attributes among the first `n` nodes, with room for five signals per node.
pub open spec fn weight(d: Seq<HtmlNode>, n: int) -> int
    decreases n,
{
    if n <= 0 {
        0
    } else {
        weight(d, n - 1) + attributes(d[n - 1]).len() + 5
    }
}

/// Every subtree is a range that starts at its node and lies in the document.
pub open spec fn ends_in_range(d: Seq<HtmlNode>) -> bool {
    forall|i: int| 0 <= i < d.len() ==> i < (#[trigger] d[i]).end <= d.len()
}

/// The subtree of node `j` lies in the subtree of node `i`.
pub open spec fn nested_in(d: Seq<HtmlNode>, i: int, j: int) -> bool {
    d[j].end <= d[i].end
}

/// Subtrees nest: whatever starts inside a subtree ends inside it.
pub open spec fn subtrees_nest(d: Seq<HtmlNode>) -> bool {
    forall|i: int, j: int|
        0 <= i < d.len() && i < j < d[i].end ==> #[trigger] nested_in(d, i, j)
}

/// Only elements have descendants.
pub open spec fn others_are_leaves(d: Seq<HtmlNode>) -> bool {
    forall|i: int| 0 <= i < d.len() && !((#[trigger] d[i]).kind is Element) ==> d[i].end == i + 1
}

/// The nodes form a forest in document order, of a size that can be counted.
pub open spec fn is_document(d: Seq<HtmlNode>) -> bool {
    &&& ends_in_range(d)
    &&& subtrees_nest(d)
    &&& others_are_leaves(d)
    &&& weight(d, d.len() as int) <= usize::MAX
}

/// Whether node `n` is an element with tag `t` (tags are compared in ASCII lower case).
pub open spec fn has_tag(n: HtmlNode, t: Seq<char>) -> bool {
    match n.kind {
        NodeKind::Element { tag, attributes } => lower(tag@) == t,
        NodeKind::Text { content } => false,
        NodeKind::Comment => false,
    }
}

/// The value of the first attribute called `name`.
pub open spec fn first_value(attrs: Seq<Attribute>, name: Seq<char>) -> Option<Seq<char>>
    decreases attrs.len(),
{
    if attrs.len() == 0 {
        None
    } else if attrs[0].name@ == name {
        Some(attrs[0].value@)
    } else {
        first_value(attrs.drop_first(), name)
    }
}

/// The value of the attribute `name` of a node.
pub open spec fn attr(n: HtmlNode, name: Seq<char>) -> Option<Seq<char>> {
    first_value(attributes(n), name)
}

/// The text that a node itself holds.
pub open spec fn own_text(n: HtmlNode) -> Seq<char> {
    match n.kind {
        NodeKind::Element { tag, attributes } => Seq::empty(),
        NodeKind::Text { content } => content@,
        NodeKind::Comment => Seq::empty(),
    }
}

/// The text of the nodes from `a` up to `b`, in document order.
pub open spec fn text_between(d: Seq<HtmlNode>, a: int, b: int) -> Seq<char>
    decreases b - a,
{
    if b <= a {
        Seq::empty()
    } else {
        text_between(d, a, b - 1) + own_text(d[b - 1])
    }
}

/// The text of a node and its descendants.
pub open spec fn text_contents(d: Seq<HtmlNode>, i: int) -> Seq<char> {
    text_between(d, i, d[i].end as int)
}

/// How many of the nodes from `a` up to `b` are elements with tag `t`.
pub open spec fn count_tag(d: Seq<HtmlNode>, a: int, b: int, t: Seq<char>) -> nat
    decreases b - a,
{
    if b <= a {
        0
    } else {
        count_tag(d, a, b - 1, t) + (if has_tag(d[b - 1], t) {
            1nat
        } else {
            0nat
        })
    }
}

/// How many of the nodes from `a` up to `b` are elements with tag `t` and an attribute `name`.
pub open spec fn count_tag_with(
    d: Seq<HtmlNode>,
    a: int,
    b: int,
    t: Seq<char>,
    name: Seq<char>,
) -> nat
    decreases b - a,
{
    if b <= a {
        0
    } else {
        count_tag_with(d, a, b - 1, t, name) + (if has_tag(d[b - 1], t) && attr(
            d[b - 1],
            name,
        ) is Some {
            1nat
        } else {
            0nat
        })
    }
}

/// The first node from `a` on that is an element with tag `t`.
pub open spec fn first_tag(d: Seq<HtmlNode>, a: int, t: Seq<char>) -> Option<int>
    decreases d.len() - a,
{
    if a >= d.len() {
        None
    } else if has_tag(d[a], t) {
        Some(a)
    } else {
        first_tag(d, a + 1, t)
    }
}

impl HtmlNode {
    /// Tells whether this is an element with tag `t`, which is given in lower case.
    pub fn is_tag(&self, t: &str) -> (r: bool)
        ensures
            r == has_tag(*self, t@),
    {
        match &self.kind {
            NodeKind::Element { tag, attributes: _ } => same(&lowered(tag), t),
            NodeKind::Text { content: _ } => false,
            NodeKind::Comment => false,
        }
    }

    /// Tells whether this is an element.
    pub fn is_element(&self) -> (r: bool)
        ensures
            r == (self.kind is Element),
    {
        match &self.kind {
            NodeKind::Element { tag: _, attributes: _ } => true,
            NodeKind::Text { content: _ } => false,
            NodeKind::Comment => false,
        }
    }

    /// The value of the attribute `name`.
    pub fn get(&self, name: &str) -> (r: Option<&String>)
        ensures
            match r {
                Some(v) => attr(*self, name@) == Some(v@),
                None => attr(*self, name@) is None,
            },
    {
        match &self.kind {
            NodeKind::Element { tag: _, attributes } => {
                let mut i: usize = 0;
                proof {
                    assert(attributes@.skip(0) =~= attributes@);
                }
                while i < attributes.len()
                    invariant
                        i <= attributes@.len(),
                        attributes@ == self::attributes(*self),
                        first_value(attributes@.skip(i as int), name@) == first_value(
                            attributes@,
                            name@,
                        ),
                    decreases attributes@.len() - i,
                {
                    proof {
                        assert(attributes@.skip(i as int).drop_first() =~= attributes@.skip(i + 1));
                        assert(attributes@.skip(i as int)[0] == attributes@[i as int]);
                    }
                    if same(&attributes[i].name, name) {
                        return Some(&attributes[i].value);
                    }
                    i += 1;
                }
                None
            },
            NodeKind::Text { content: _ } => None,
            NodeKind::Comment => None,
        }
    }

    /// Tells whether the node has an attribute `name`.
    pub fn has(&self, name: &str) -> (r: bool)
        ensures
            r == (attr(*self, name@) is Some),
    {
        self.get(name).is_some()
    }
}

/// Weights grow with the number of nodes.
pub proof fn weight_grows(d: Seq<HtmlNode>, a: int, b: int)
    requires
        0 <= a <= b,
    ensures
        0 <= weight(d, a) <= weight(d, b),
    decreases b,
{
    if a < b {
        weight_grows(d, a, b - 1);
    } else if a > 0 {
        weight_grows(d, a - 1, b - 1);
    }
}

/// There are at most as many nodes as the weight says.
pub proof fn weight_covers_length(d: Seq<HtmlNode>, n: int)
    requires
        0 <= n,
    ensures
        5 * n <= weight(d, n),
    decreases n,
{
    if n > 0 {
        weight_covers_length(d, n - 1);
    }
}

impl HtmlDocument {
    /// Takes the nodes that a parser delivered. Refuses them unless each subtree is a range inside
    /// the document, subtrees nest, text nodes are leaves and the total can be counted.
    pub fn from_nodes(nodes: Vec<HtmlNode>) -> (r: Option<HtmlDocument>)
        ensures
            match r {
                Some(doc) => doc.nodes == nodes && is_document(nodes@),
                None => !is_document(nodes@),
            },
    {
        let n: usize = nodes.len();
        let mut total: usize = 0;
        let mut i: usize = 0;
        while i < n
            invariant
                i <= n == nodes@.len(),
                total == weight(nodes@, i as int),
                forall|k: int|
                    0 <= k < i ==> k < (#[trigger] nodes@[k]).end <= nodes@.len() && (
                    !(nodes@[k].kind is Element) ==> nodes@[k].end == k + 1),
            decreases n - i,
        {
            let node = &nodes[i];
            proof {
                weight_grows(nodes@, i + 1, n as int);
            }
            let own: usize = match &node.kind {
                NodeKind::Element { tag: _, attributes } => attributes.len(),
                NodeKind::Text { content: _ } => 0,
                NodeKind::Comment => 0,
            };
            if usize::MAX - total < 5 || usize::MAX - total - 5 < own {
                return None;
            }
            total = total + own + 5;
            if node.end <= i || node.end > n {
                return None;
            }
            if !node.is_element() && node.end != i + 1 {
                return None;
            }
            i += 1;
        }
        let mut i: usize = 0;
        while i < n
            invariant
                i <= n == nodes@.len(),
                ends_in_range(nodes@),
                forall|a: int, b: int|
                    0 <= a < i && a < b < nodes@[a].end ==> #[trigger] nested_in(nodes@, a, b),
            decreases n - i,
        {
            let end: usize = nodes[i].end;
            let mut j: usize = i + 1;
            while j < end
                invariant
                    i < j <= end <= n == nodes@.len(),
                    end == nodes@[i as int].end,
                    forall|b: int| i < b < j ==> #[trigger] nested_in(nodes@, i as int, b),
                decreases end - j,
            {
                if nodes[j].end > end {
                    proof {
                        assert(!nested_in(nodes@, i as int, j as int));
                    }
                    return None;
                }
                j += 1;
            }
            i += 1;
        }
        Some(HtmlDocument { nodes })
    }

    /// The text of node `i` and its descendants.
    pub fn text_contents(&self, i: usize) -> (out: String)
        requires
            is_document(self.nodes@),
            i < self.nodes@.len(),
        ensures
            out@ == text_contents(self.nodes@, i as int),
    {
        let end: usize = self.nodes[i].end;
        let mut out = String::new();
        let mut j: usize = i;
        while j < end
            invariant
                i <= j <= end <= self.nodes@.len(),
                out@ == text_between(self.nodes@, i as int, j as int),
            decreases end - j,
        {
            proof {
                assert(out@ + Seq::<char>::empty() =~= out@);
            }
            match &self.nodes[j].kind {
                NodeKind::Element { tag: _, attributes: _ } => {},
                NodeKind::Comment => {},
                NodeKind::Text { content } => {
                    out.append(content);
                },
            }
            j += 1;
        }
        out
    }

    /// How many of the nodes from `a` up to `b` are elements with tag `t`.
    pub fn count_tag(&self, a: usize, b: usize, t: &str) -> (r: usize)
        requires
            a <= b <= self.nodes@.len(),
        ensures
            r == count_tag(self.nodes@, a as int, b as int, t@),
            r <= b - a,
    {
        let mut r: usize = 0;
        let mut j: usize = a;
        while j < b
            invariant
                a <= j <= b <= self.nodes@.len(),
                r == count_tag(self.nodes@, a as int, j as int, t@),
                r <= j - a,
            decreases b - j,
        {
            if self.nodes[j].is_tag(t) {
                r += 1;
            }
            j += 1;
        }
        r
    }

    /// How many of the nodes from `a` up to `b` are elements with tag `t` and an attribute `name`.
    pub fn count_tag_with(&self, a: usize, b: usize, t: &str, name: &str) -> (r: usize)
        requires
            a <= b <= self.nodes@.len(),
        ensures
            r == count_tag_with(self.nodes@, a as int, b as int, t@, name@),
            r <= b - a,
    {
        let mut r: usize = 0;
        let mut j: usize = a;
        while j < b
            invariant
                a <= j <= b <= self.nodes@.len(),
                r == count_tag_with(self.nodes@, a as int, j as int, t@, name@),
                r <= j - a,
            decreases b - j,
        {
            if self.nodes[j].is_tag(t) && self.nodes[j].has(name) {
                r += 1;
            }
            j += 1;
        }
        r
    }

    /// The first element with tag `t`.
    pub fn first_tag(&self, t: &str) -> (r: Option<usize>)
        ensures
            match r {
                Some(i) => i < self.nodes@.len() && first_tag(self.nodes@, 0, t@) == Some(i as int),
                None => first_tag(self.nodes@, 0, t@) is None,
            },
    {
        let mut j: usize = 0;
        while j < self.nodes.len()
            invariant
                j <= self.nodes@.len(),
                first_tag(self.nodes@, j as int, t@) == first_tag(self.nodes@, 0, t@),
            decreases self.nodes@.len() - j,
        {
            if self.nodes[j].is_tag(t) {
                return Some(j);
            }
            j += 1;
        }
        None
    }
}

} // verus!
