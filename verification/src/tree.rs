//! The tree of patterns and its construction.

use vstd::prelude::*;
use vstd::string::*;
use crate::escape::{escape, escaped, escaped_is_injective, escaped_star_follows_backslash};
use crate::extract::{extraction, find_common_substrings, is_extraction, precedes, sample_texts,
    string_texts};
use crate::text::{chars_of, contains, occurs_at, window_contained};

verus! {

/// What a node stands for: a pattern and the trees below it, in order.
pub ghost struct Tree {
    pub pattern: Seq<char>,
    pub children: Seq<Tree>,
}

/// A pattern and the more special patterns below it. Each node owns its
/// children: a pattern that stands under two nodes is there twice.
#[derive(Debug)]
pub struct Node {
    pub pattern: String,
    pub children: Vec<Node>,
}

impl View for Node {
    type V = Tree;

    open spec fn view(&self) -> Tree
        decreases self,
    {
        Tree {
            pattern: self.pattern@,
            children: Seq::new(
                self.children@.len(),
                |i: int|
                    if 0 <= i < self.children@.len() {
                        self.children@[i].view()
                    } else {
                        leaf(Seq::empty())
                    },
            ),
        }
    }
}

impl Clone for Node {
    /// A copy that owns its own children, and stands for the same tree.
    fn clone(&self) -> (copy: Self)
        ensures
            copy@ == self@,
        decreases self,
    {
        let mut children: Vec<Node> = Vec::new();
        let mut i: usize = 0;
        while i < self.children.len()
            invariant
                i <= self.children@.len(),
                children@.len() == i,
                forall|k: int| 0 <= k < i ==> (#[trigger] children@[k])@ == self.children@[k]@,
            decreases self.children@.len() - i,
        {
            children.push(self.children[i].clone());
            i += 1;
        }
        let copy = Node { pattern: self.pattern.clone(), children };
        proof {
            node_view(copy);
            node_view(*self);
            assert(forest(copy.children@) =~= forest(self.children@));
        }
        copy
    }
}

/// The trees that a list of nodes stands for.
pub open spec fn forest(nodes: Seq<Node>) -> Seq<Tree> {
    Seq::new(nodes.len(), |i: int| nodes[i]@)
}

/// A tree without children.
pub open spec fn leaf(pattern: Seq<char>) -> Tree {
    Tree { pattern, children: Seq::empty() }
}

/// The pattern that matches any text.
pub open spec fn wildcard() -> Seq<char> {
    seq!['.', '*']
}

/// The pattern of a substring: its escaped text between two wildcards.
pub open spec fn wrapped(text: Seq<char>) -> Seq<char> {
    wildcard() + escaped(text) + wildcard()
}

/// The patterns of a list of substrings, in order.
pub open spec fn patterns_of(texts: Seq<Seq<char>>) -> Seq<Seq<char>> {
    Seq::new(texts.len(), |i: int| wrapped(texts[i]))
}

/// The test by which a later pattern goes under `inner`: it holds `inner`,
/// wildcards included, as a literal substring.
pub open spec fn holds(inner: Seq<char>) -> spec_fn(Seq<char>) -> bool {
    |p: Seq<char>| contains(p, inner)
}

/// The leaves under the pattern at `i`: of the patterns at `i + 1` up to `end`,
/// those that hold it, in order.
pub open spec fn nested_upto(patterns: Seq<Seq<char>>, i: int, end: int) -> Seq<Tree> {
    patterns.subrange(i + 1, end).filter(holds(patterns[i])).map_values(|p: Seq<char>| leaf(p))
}

/// The children of the pattern at `i`: the later patterns that hold it.
pub open spec fn nested(patterns: Seq<Seq<char>>, i: int) -> Seq<Tree> {
    nested_upto(patterns, i, patterns.len() as int)
}

/// The tree of a list of substrings: under the wildcard root one node for each
/// substring, in order, each with the later patterns that hold its own.
pub open spec fn tree_of(texts: Seq<Seq<char>>) -> Tree {
    let patterns = patterns_of(texts);
    Tree {
        pattern: wildcard(),
        children: Seq::new(
            patterns.len(),
            |i: int| Tree { pattern: patterns[i], children: nested(patterns, i) },
        ),
    }
}

/// The tree of no samples at all: an empty pattern and no children.
pub open spec fn empty_tree() -> Tree {
    leaf(Seq::empty())
}

/// A node stands for its pattern and the forest of its children.
pub proof fn node_view(node: Node)
    ensures
        node@ == (Tree { pattern: node.pattern@, children: forest(node.children@) }),
{
    assert(node@.children =~= forest(node.children@));
}

/// The tree of a list of substrings has the wildcard at its root and under it
/// one child for each substring, in order, with that substring's pattern.
pub proof fn root_has_child_per_text(texts: Seq<Seq<char>>)
    ensures
        tree_of(texts).pattern == wildcard(),
        tree_of(texts).children.len() == texts.len(),
        forall|i: int|
            0 <= i < texts.len() ==> (#[trigger] tree_of(texts).children[i]).pattern == wrapped(
                texts[i],
            ),
{
}

/// The nodes under a child of the root are leaves, and each holds the pattern
/// of a substring that stands later in the list than the child's own.
pub proof fn nested_are_later_leaves(texts: Seq<Seq<char>>, i: int, k: int)
    requires
        0 <= i < texts.len(),
        0 <= k < tree_of(texts).children[i].children.len(),
    ensures
        tree_of(texts).children[i].children[k].children.len() == 0,
        contains(tree_of(texts).children[i].children[k].pattern, wrapped(texts[i])),
        exists|j: int|
            i < j < texts.len() && tree_of(texts).children[i].children[k].pattern == wrapped(
                #[trigger] texts[j],
            ),
{
    let patterns = patterns_of(texts);
    let later = patterns.subrange(i + 1, patterns.len() as int);
    let kept = later.filter(holds(patterns[i]));
    later.lemma_filter_pred(holds(patterns[i]), k);
    assert(kept.contains(kept[k]));
    later.lemma_filter_contains_rev(holds(patterns[i]), kept[k]);
    let m = choose|m: int| 0 <= m < later.len() && later[m] == kept[k];
    assert(kept[k] == wrapped(texts[i + 1 + m]));
}

/// The pattern of one text holds the pattern of another only where the two
/// texts are the same: inside escaped text no wildcard can be read.
pub proof fn wrapped_holds_only_itself(x: Seq<char>, y: Seq<char>)
    requires
        contains(wrapped(y), wrapped(x)),
    ensures
        x == y,
{
    let wx = wrapped(x);
    let wy = wrapped(y);
    let ex = escaped(x);
    let ey = escaped(y);
    let p = choose|p: int| #[trigger] occurs_at(wy, wx, p);
    assert(wx.len() == ex.len() + 4);
    assert(wy.len() == ey.len() + 4);
    assert forall|k: int| 0 <= k < wx.len() implies wy[p + k] == wx[k] by {
        assert(wy.subrange(p, p + wx.len())[k] == wx[k]);
    }
    assert(wx[0] == '.' && wx[1] == '*');
    assert(wy[p] == wx[0]);
    assert(wy[p + 1] == wx[1]);
    if p > 0 {
        assert(wy[p + 1] == ey[p - 1]);
        escaped_star_follows_backslash(y, p - 1);
        assert(wy[p] == ey[p - 2]);
    }
    let n = ex.len() as int;
    assert(wx[n + 2] == wildcard()[0] && wx[n + 3] == wildcard()[1]);
    assert(wy[n + 2] == wx[n + 2]);
    assert(wy[n + 3] == wx[n + 3]);
    if n < ey.len() {
        if n + 1 < ey.len() {
            assert(wy[n + 3] == ey[n + 1]);
            escaped_star_follows_backslash(y, n + 1);
            assert(wy[n + 2] == ey[n]);
        } else {
            assert(wy[n + 3] == wildcard()[0]);
        }
    }
    assert forall|k: int| 0 <= k < n implies ex[k] == ey[k] by {
        assert(wy[k + 2] == wx[k + 2]);
        assert(wx[k + 2] == ex[k]);
        assert(wy[k + 2] == ey[k]);
    }
    assert(ex =~= ey);
    escaped_is_injective(x, y);
}

/// Where no text stands twice in the list, the tree is flat: every node
/// below the root is a leaf.
pub proof fn distinct_texts_give_leaves(texts: Seq<Seq<char>>, i: int)
    requires
        forall|a: int, b: int| 0 <= a < b < texts.len() ==> texts[a] != texts[b],
        0 <= i < texts.len(),
    ensures
        tree_of(texts).children[i].children.len() == 0,
{
    if tree_of(texts).children[i].children.len() > 0 {
        nested_are_later_leaves(texts, i, 0);
        let j = choose|j: int|
            i < j < texts.len() && tree_of(texts).children[i].children[0].pattern == wrapped(
                #[trigger] texts[j],
            );
        wrapped_holds_only_itself(texts[i], texts[j]);
    }
}

/// The tree of an extraction is flat: what all samples share is listed once,
/// so that no pattern holds another.
pub proof fn extraction_gives_leaves(samples: Seq<Seq<char>>, texts: Seq<Seq<char>>, i: int)
    requires
        is_extraction(samples, texts),
        0 <= i < texts.len(),
    ensures
        tree_of(texts).children[i].children.len() == 0,
{
    assert forall|a: int, b: int| 0 <= a < b < texts.len() implies texts[a] != texts[b] by {
        assert(precedes(samples[0], texts[a], texts[b]));
    }
    distinct_texts_give_leaves(texts, i);
}

/// Building is a function of the list of substrings: two trees built from
/// lists with the same texts are the same tree.
pub proof fn built_trees_agree(a: Node, b: Node, first: Seq<String>, second: Seq<String>)
    requires
        string_texts(first) == string_texts(second),
        a@ == tree_of(string_texts(first)),
        b@ == tree_of(string_texts(second)),
    ensures
        a@ == b@,
{
}

/// The pattern of `text`: its escaped form between two wildcards.
pub fn wrap(text: &str) -> (pattern: String)
    ensures
        pattern@ == wrapped(text@),
{
    proof {
        reveal_strlit(".*");
        assert(".*"@ =~= wildcard());
    }
    let quoted = escape(text);
    let mut pattern = String::from_str(".*");
    pattern.append(quoted.as_str());
    pattern.append(".*");
    pattern
}

/// The leaves under the pattern at `i`: one for each later pattern that holds it.
///
/// `chars` holds the code points of each of `patterns`.
fn nest(patterns: &Vec<String>, chars: &Vec<Vec<char>>, i: usize) -> (kids: Vec<Node>)
    requires
        i < patterns@.len(),
        chars@.len() == patterns@.len(),
        forall|k: int| 0 <= k < chars@.len() ==> (#[trigger] chars@[k])@ == patterns@[k]@,
    ensures
        forest(kids@) == nested(string_texts(patterns@), i as int),
{
    let ghost pats = string_texts(patterns@);
    let n: usize = patterns.len();
    let mut kids: Vec<Node> = Vec::new();
    let mut j: usize = i + 1;
    proof {
        reveal(Seq::filter);
        assert(pats.subrange(i + 1, j as int) =~= Seq::<Seq<char>>::empty());
        assert(forest(kids@) =~= nested_upto(pats, i as int, j as int));
    }
    while j < n
        invariant
            n == patterns@.len(),
            i < j <= n,
            pats == string_texts(patterns@),
            chars@.len() == patterns@.len(),
            forall|k: int| 0 <= k < chars@.len() ==> (#[trigger] chars@[k])@ == patterns@[k]@,
            forest(kids@) == nested_upto(pats, i as int, j as int),
        decreases n - j,
    {
        let ghost before = forest(kids@);
        let ghost seen = pats.subrange(i + 1, j as int);
        let inner: &Vec<char> = &chars[i];
        if window_contained(&chars[j], inner, 0, inner.len()) {
            let kid = Node { pattern: patterns[j].clone(), children: Vec::new() };
            proof {
                node_view(kid);
                assert(forest(kid.children@) =~= Seq::<Tree>::empty());
            }
            kids.push(kid);
            assert(forest(kids@) =~= before.push(leaf(pats[j as int])));
        }
        proof {
            assert(inner@.subrange(0, inner@.len() as int) =~= inner@);
            assert(pats[i as int] == inner@);
            assert(pats[j as int] == chars@[j as int]@);
            assert(pats.subrange(i + 1, j + 1) =~= seen.push(pats[j as int]));
            seen.lemma_filter_push(pats[j as int], holds(pats[i as int]));
            let kept = seen.filter(holds(pats[i as int]));
            assert(kept.push(pats[j as int]).map_values(|p: Seq<char>| leaf(p)) =~= kept.map_values(
                |p: Seq<char>| leaf(p),
            ).push(leaf(pats[j as int])));
        }
        j += 1;
    }
    kids
}

/// Builds the tree of `substrings`, which stand longest first.
///
/// The root holds the wildcard and has one child for each substring, in the
/// order given. The child of a substring holds its wrapped pattern and, as
/// leaves, copies of the later patterns that contain that pattern literally.
pub fn build_tree(substrings: &[String]) -> (root: Node)
    ensures
        root@ == tree_of(string_texts(substrings@)),
{
    let ghost texts = string_texts(substrings@);
    let n: usize = substrings.len();
    let mut patterns: Vec<String> = Vec::new();
    let mut chars: Vec<Vec<char>> = Vec::new();
    let mut k: usize = 0;
    while k < n
        invariant
            n == substrings@.len(),
            k <= n,
            patterns@.len() == k,
            chars@.len() == k,
            forall|m: int| 0 <= m < k ==> (#[trigger] patterns@[m])@ == wrapped(substrings@[m]@),
            forall|m: int| 0 <= m < k ==> (#[trigger] chars@[m])@ == patterns@[m]@,
        decreases n - k,
    {
        let pattern = wrap(substrings[k].as_str());
        chars.push(chars_of(pattern.as_str()));
        patterns.push(pattern);
        k += 1;
    }
    assert(string_texts(patterns@) =~= patterns_of(texts));
    let mut nodes: Vec<Node> = Vec::new();
    let mut i: usize = 0;
    while i < n
        invariant
            n == patterns@.len(),
            i <= n,
            nodes@.len() == i,
            chars@.len() == patterns@.len(),
            forall|m: int| 0 <= m < chars@.len() ==> (#[trigger] chars@[m])@ == patterns@[m]@,
            forall|m: int|
                0 <= m < i ==> (#[trigger] nodes@[m])@ == (Tree {
                    pattern: patterns@[m]@,
                    children: nested(string_texts(patterns@), m),
                }),
        decreases n - i,
    {
        let kids = nest(&patterns, &chars, i);
        let node = Node { pattern: patterns[i].clone(), children: kids };
        proof {
            node_view(node);
        }
        nodes.push(node);
        i += 1;
    }
    proof {
        reveal_strlit(".*");
        assert(".*"@ =~= wildcard());
    }
    let root = Node { pattern: String::from_str(".*"), children: nodes };
    proof {
        node_view(root);
        assert(forest(root.children@) =~= tree_of(texts).children);
    }
    root
}

/// Generates the pattern tree of `strings`.
///
/// Of no samples the tree is a single node with an empty pattern. Else it is
/// the tree built from the substrings that all samples share, longest first.
pub fn generate_regex_tree(strings: &[&str]) -> (root: Node)
    ensures
        strings@.len() == 0 ==> root@ == empty_tree(),
        strings@.len() > 0 ==> is_extraction(
            sample_texts(strings@),
            extraction(sample_texts(strings@)),
        ),
        strings@.len() > 0 ==> root@ == tree_of(extraction(sample_texts(strings@))),
        strings@.len() > 0 ==> root@.pattern == wildcard(),
        strings@.len() > 0 ==> root@.children.len() == extraction(sample_texts(strings@)).len(),
{
    if strings.len() == 0 {
        let root = Node { pattern: String::new(), children: Vec::new() };
        proof {
            node_view(root);
            assert(forest(root.children@) =~= Seq::<Tree>::empty());
        }
        return root;
    }
    let substrings = find_common_substrings(strings);
    build_tree(substrings.as_slice())
}

} // verus!
