//! The geometry channel: stable names for widgets, and which of them changed.

use vstd::prelude::*;
use vstd::string::StringExecFns;
use crate::text;
use crate::trace::record::{GeomFields, GeomRecord};

verus! {

// ---- widget paths --------------------------------------------------------

/// A node of the widget tree: its name, its parent, and its children in the
/// order in which they were spawned. Nodes are named by their index.
#[derive(PartialEq, Eq, Debug)]
pub struct TreeNode {
    pub name: Option<String>,
    pub parent: Option<usize>,
    pub children: Vec<usize>,
}

/// How far up a path is followed at most.
pub const MAX_DEPTH: usize = 64;

/// Whether node `i` has the name `name`.
pub open spec fn named(tree: Seq<TreeNode>, i: int, name: Seq<char>) -> bool {
    0 <= i < tree.len() && (tree[i].name matches Some(n) && n@ == name)
}

/// Where `node` stands among `children`, the first time it does.
pub open spec fn ordinal(children: Seq<usize>, node: usize) -> Option<nat>
    decreases children.len(),
{
    if children.len() == 0 {
        None
    } else {
        match ordinal(children.drop_last(), node) {
            Some(i) => Some(i),
            None => if children.last() == node {
                Some((children.len() - 1) as nat)
            } else {
                None
            },
        }
    }
}

/// How many of `children` have the name `name`.
pub open spec fn namesakes(tree: Seq<TreeNode>, children: Seq<usize>, name: Seq<char>) -> nat
    decreases children.len(),
{
    if children.len() == 0 {
        0
    } else {
        namesakes(tree, children.drop_last(), name) + (if named(
            tree,
            children.last() as int,
            name,
        ) {
            1nat
        } else {
            0nat
        })
    }
}

/// The siblings of a node, itself among them: the children of its parent.
pub open spec fn siblings(tree: Seq<TreeNode>, node: int) -> Option<Seq<usize>> {
    match tree[node].parent {
        Some(p) => if p < tree.len() {
            Some(tree[p as int].children@)
        } else {
            None
        },
        None => None,
    }
}

/// The part of a path that stands for one node: its name, with its place among
/// the siblings where the name alone does not tell it from them.
pub open spec fn segment(tree: Seq<TreeNode>, node: int) -> Seq<char> {
    let place = match siblings(tree, node) {
        Some(s) => ordinal(s, node as usize),
        None => None,
    };
    match tree[node].name {
        Some(n) => {
            let unique = match siblings(tree, node) {
                Some(s) => namesakes(tree, s, n@) < 2,
                None => false,
            };
            if unique {
                n@
            } else {
                match place {
                    Some(i) => n@ + "."@ + text::decimal(i),
                    None => n@,
                }
            }
        },
        None => match place {
            Some(i) => "."@ + text::decimal(i),
            None => ".?"@,
        },
    }
}

/// The segments from the node upward, at most `depth` of them.
pub open spec fn climb(tree: Seq<TreeNode>, node: int, depth: nat) -> Seq<Seq<char>>
    decreases depth,
{
    if depth == 0 || !(0 <= node < tree.len()) {
        Seq::empty()
    } else {
        seq![segment(tree, node)] + match tree[node].parent {
            Some(p) => climb(tree, p as int, (depth - 1) as nat),
            None => Seq::empty(),
        }
    }
}

/// The path of a node: its segments from the root down, with slashes between.
pub open spec fn path_of(tree: Seq<TreeNode>, node: int) -> Seq<char> {
    text::joined(climb(tree, node, MAX_DEPTH as nat).reverse(), "/"@)
}

fn find_ordinal(children: &Vec<usize>, node: usize) -> (place: Option<usize>)
    ensures
        place is Some <==> ordinal(children@, node) is Some,
        place matches Some(i) ==> ordinal(children@, node) == Some(i as nat),
{
    let mut place: Option<usize> = None;
    for i in 0..children.len()
        invariant
            place is Some <==> ordinal(children@.take(i as int), node) is Some,
            place matches Some(k) ==> ordinal(children@.take(i as int), node) == Some(k as nat),
    {
        assert(children@.take(i + 1).drop_last() =~= children@.take(i as int));
        if place.is_none() && children[i] == node {
            place = Some(i);
        }
    }
    assert(children@.take(children@.len() as int) =~= children@);
    place
}

/// Whether a name is shared by more than one of the siblings.
pub fn name_repeats(tree: &Vec<TreeNode>, children: &Vec<usize>, name: &str) -> (yes: bool)
    ensures
        yes == (namesakes(tree@, children@, name@) >= 2),
{
    let mut count: usize = 0;
    for i in 0..children.len()
        invariant
            count <= i,
            count == namesakes(tree@, children@.take(i as int), name@),
    {
        assert(children@.take(i + 1).drop_last() =~= children@.take(i as int));
        let c: usize = children[i];
        if c < tree.len() {
            if let Some(n) = &tree[c].name {
                if text::same(n.as_str(), name) {
                    count = count + 1;
                }
            }
        }
    }
    assert(children@.take(children@.len() as int) =~= children@);
    count >= 2
}

/// The part of a path that stands for one node.
pub fn path_segment(tree: &Vec<TreeNode>, node: usize) -> (s: String)
    requires
        node < tree@.len(),
    ensures
        s@ == segment(tree@, node as int),
{
    let family: Option<&Vec<usize>> = match tree[node].parent {
        Some(p) => if p < tree.len() {
            Some(&tree[p].children)
        } else {
            None
        },
        None => None,
    };
    let place: Option<usize> = match family {
        Some(children) => find_ordinal(children, node),
        None => None,
    };
    let mut s = String::new();
    match &tree[node].name {
        Some(name) => {
            s.append(name.as_str());
            let unique = match family {
                Some(children) => !name_repeats(tree, children, name.as_str()),
                None => false,
            };
            if !unique {
                if let Some(i) = place {
                    s.append(".");
                    text::push_decimal(&mut s, i as u64);
                }
            }
            assert(Seq::<char>::empty() + name@ =~= name@);
        },
        None => {
            match place {
                Some(i) => {
                    s.append(".");
                    text::push_decimal(&mut s, i as u64);
                    assert(Seq::<char>::empty() + "."@ =~= "."@);
                },
                None => {
                    s.append(".?");
                    assert(Seq::<char>::empty() + ".?"@ =~= ".?"@);
                },
            }
        },
    }
    s
}

/// The path of a node: the names of its ancestry from the root down, joined with
/// slashes. It is made of names and places only, so that it stays the same from
/// run to run.
pub fn widget_path(tree: &Vec<TreeNode>, node: usize) -> (path: String)
    requires
        node < tree@.len(),
    ensures
        path@ == path_of(tree@, node as int),
{
    let mut segments: Vec<String> = Vec::new();
    let mut cur: Option<usize> = Some(node);
    let mut left: usize = MAX_DEPTH;
    let ghost whole = climb(tree@, node as int, MAX_DEPTH as nat);
    assert(text::contents(segments@) =~= Seq::empty());
    assert(Seq::<Seq<char>>::empty() + whole =~= whole);
    while left > 0 && cur.is_some()
        invariant
            left <= MAX_DEPTH,
            whole == text::contents(segments@) + (match cur {
                Some(c) => climb(tree@, c as int, left as nat),
                None => Seq::empty(),
            }),
        decreases left,
    {
        let ghost held = text::contents(segments@);
        match cur {
            Some(c) => {
                if c >= tree.len() {
                    cur = None;
                    left = 0;
                    assert(held + Seq::<Seq<char>>::empty() =~= held);
                } else {
                    let ghost before = segments@;
                    let s = path_segment(tree, c);
                    let ghost seg = s@;
                    segments.push(s);
                    let ghost up = tree@[c as int].parent;
                    cur = tree[c].parent;
                    left = left - 1;
                    proof {
                        assert(text::contents(segments@) =~= held.push(seg));
                        let rest = match up {
                            Some(p) => climb(tree@, p as int, left as nat),
                            None => Seq::empty(),
                        };
                        assert(held + (seq![seg] + rest) =~= held.push(seg) + rest);
                    }
                }
            },
            None => {},
        }
    }
    proof {
        assert(whole =~= text::contents(segments@)) by {
            match cur {
                Some(c) => {
                    assert(climb(tree@, c as int, 0) =~= Seq::empty());
                },
                None => {},
            }
        }
    }
    let mut ordered: Vec<String> = Vec::new();
    let n: usize = segments.len();
    let ghost up = segments@;
    for i in 0..n
        invariant
            n == up.len(),
            segments@ == up,
            ordered@.len() == i,
            forall|k: int| 0 <= k < i ==> (#[trigger] ordered@[k]) == up[n - 1 - k],
    {
        ordered.push(segments[n - 1 - i].clone());
    }
    assert(text::contents(ordered@) =~= whole.reverse());
    text::join(&ordered, "/")
}

// ---- laws on paths -------------------------------------------------------

/// Whether a name holds no dot.
pub open spec fn dotless(name: Seq<char>) -> bool {
    forall|i: int| 0 <= i < name.len() ==> (#[trigger] name[i]) != '.'
}

/// Whether a name is absent or holds no dot.
pub open spec fn plainly_named(node: TreeNode) -> bool {
    node.name matches Some(n) ==> dotless(n@)
}

/// Siblings never share a segment, as long as no name holds a dot.
pub proof fn law_siblings_are_told_apart(tree: Seq<TreeNode>, parent: usize, a: usize, b: usize)
    requires
        parent < tree.len(),
        a < tree.len(),
        b < tree.len(),
        a != b,
        tree[a as int].parent == Some(parent),
        tree[b as int].parent == Some(parent),
        tree[parent as int].children@.contains(a),
        tree[parent as int].children@.contains(b),
        plainly_named(tree[a as int]),
        plainly_named(tree[b as int]),
    ensures
        segment(tree, a as int) != segment(tree, b as int),
{
    let s = tree[parent as int].children@;
    lemma_ordinal(s, a);
    lemma_ordinal(s, b);
    let i = ordinal(s, a)->0;
    let j = ordinal(s, b)->0;
    reveal_strlit(".");
    let (x, y) = (segment(tree, a as int), segment(tree, b as int));
    let dot_a = lemma_split(tree, a as int, s, i);
    let dot_b = lemma_split(tree, b as int, s, j);
    if x == y {
        lemma_numeral_dotless(i);
        lemma_numeral_dotless(j);
        if dot_a && dot_b {
            let p = head_of(tree, a as int);
            let q = head_of(tree, b as int);
            lemma_same_split(p, text::decimal(i), q, text::decimal(j));
            lemma_numerals_differ(i, j);
        } else if !dot_a && !dot_b {
            let n = tree[a as int].name->0@;
            lemma_two_namesakes(tree, s, a, b, n);
        } else if dot_a {
            let p = head_of(tree, a as int);
            assert((p + "."@ + text::decimal(i))[p.len() as int] == '.');
            assert(y == tree[b as int].name->0@);
        } else {
            let q = head_of(tree, b as int);
            assert((q + "."@ + text::decimal(j))[q.len() as int] == '.');
            assert(x == tree[a as int].name->0@);
        }
    }
}

/// The name of a node, or nothing.
pub open spec fn head_of(tree: Seq<TreeNode>, node: int) -> Seq<char> {
    match tree[node].name {
        Some(n) => n@,
        None => Seq::empty(),
    }
}

/// A segment is either a bare name that no sibling shares, or name, dot, place.
proof fn lemma_split(tree: Seq<TreeNode>, node: int, s: Seq<usize>, i: nat) -> (dotted: bool)
    requires
        0 <= node < tree.len(),
        siblings(tree, node) == Some(s),
        ordinal(s, node as usize) == Some(i),
    ensures
        dotted ==> segment(tree, node) == head_of(tree, node) + "."@ + text::decimal(i),
        !dotted ==> tree[node].name is Some && segment(tree, node) == tree[node].name->0@
            && namesakes(tree, s, tree[node].name->0@) < 2,
{
    match tree[node].name {
        Some(n) => {
            namesakes(tree, s, n@) >= 2
        },
        None => {
            assert(Seq::<char>::empty() + "."@ =~= "."@);
            true
        },
    }
}

proof fn lemma_ordinal(s: Seq<usize>, node: usize)
    ensures
        s.contains(node) ==> ordinal(s, node) is Some,
        ordinal(s, node) matches Some(i) ==> i < s.len() && s[i as int] == node,
    decreases s.len(),
{
    if s.len() > 0 {
        let rest = s.drop_last();
        lemma_ordinal(rest, node);
        if s.contains(node) {
            let k = choose|k: int| 0 <= k < s.len() && s[k] == node;
            if k < rest.len() {
                assert(rest[k] == node);
            }
        }
    }
}

/// Two siblings of one name are counted twice.
proof fn lemma_two_namesakes(tree: Seq<TreeNode>, s: Seq<usize>, a: usize, b: usize, name: Seq<char>)
    requires
        s.contains(a),
        s.contains(b),
        a != b,
        named(tree, a as int, name),
        named(tree, b as int, name),
    ensures
        namesakes(tree, s, name) >= 2,
    decreases s.len(),
{
    let rest = s.drop_last();
    let i = choose|i: int| 0 <= i < s.len() && s[i] == a;
    let j = choose|j: int| 0 <= j < s.len() && s[j] == b;
    if i < rest.len() && j < rest.len() {
        assert(rest[i] == a);
        assert(rest[j] == b);
        lemma_two_namesakes(tree, rest, a, b, name);
    } else if i < rest.len() {
        assert(rest[i] == a);
        lemma_one_namesake(tree, rest, a, name);
    } else {
        assert(rest[j] == b);
        lemma_one_namesake(tree, rest, b, name);
    }
}

proof fn lemma_one_namesake(tree: Seq<TreeNode>, s: Seq<usize>, a: usize, name: Seq<char>)
    requires
        s.contains(a),
        named(tree, a as int, name),
    ensures
        namesakes(tree, s, name) >= 1,
    decreases s.len(),
{
    let rest = s.drop_last();
    let i = choose|i: int| 0 <= i < s.len() && s[i] == a;
    if i < rest.len() {
        assert(rest[i] == a);
        lemma_one_namesake(tree, rest, a, name);
    }
}

/// A numeral holds no dot.
proof fn lemma_numeral_dotless(n: nat)
    ensures
        dotless(text::decimal(n)),
    decreases n,
{
    if n >= 10 {
        lemma_numeral_dotless(n / 10);
        assert forall|i: int| 0 <= i < text::decimal(n).len() implies (
        #[trigger] text::decimal(n)[i]) != '.' by {
            if i < text::decimal(n / 10).len() {
                assert(text::decimal(n)[i] == text::decimal(n / 10)[i]);
            }
        }
    }
}

/// Different numbers have different numerals.
proof fn lemma_numerals_differ(m: nat, n: nat)
    requires
        text::decimal(m) == text::decimal(n),
    ensures
        m == n,
    decreases m,
{
    let (a, b) = (text::decimal(m), text::decimal(n));
    text::lemma_decimal_len(m);
    text::lemma_decimal_len(n);
    if m >= 10 {
        text::lemma_decimal_len(m / 10);
        if n >= 10 {
            text::lemma_decimal_len(n / 10);
            assert(a.drop_last() =~= text::decimal(m / 10));
            assert(b.drop_last() =~= text::decimal(n / 10));
            lemma_numerals_differ(m / 10, n / 10);
            assert(a.last() == text::digit((m % 10) as int));
            assert(b.last() == text::digit((n % 10) as int));
        } else {
            assert(a.len() == text::decimal(m / 10).len() + 1);
        }
    } else if n >= 10 {
        text::lemma_decimal_len(n / 10);
        assert(b.len() == text::decimal(n / 10).len() + 1);
    } else {
        assert(a[0] == text::digit(m as int));
        assert(b[0] == text::digit(n as int));
    }
}

/// Where heads and tails hold no dot, a text splits at its dot in one way only.
proof fn lemma_same_split(p: Seq<char>, i: Seq<char>, q: Seq<char>, j: Seq<char>)
    requires
        dotless(p),
        dotless(q),
        dotless(i),
        dotless(j),
        p + "."@ + i == q + "."@ + j,
    ensures
        i == j,
{
    reveal_strlit(".");
    let x = p + "."@ + i;
    let y = q + "."@ + j;
    assert(x[p.len() as int] == '.');
    assert(y[q.len() as int] == '.');
    if p.len() < q.len() {
        assert(y[p.len() as int] == q[p.len() as int]);
    }
    if q.len() < p.len() {
        assert(x[q.len() as int] == p[q.len() as int]);
    }
    assert(i =~= x.skip(p.len() as int + 1));
    assert(j =~= y.skip(q.len() as int + 1));
}

// ---- changes -------------------------------------------------------------

/// The geometry of one widget on a grid of tenths of a pixel: what is compared
/// from frame to frame, so that jitter below that is no change.
#[derive(Clone, Copy, PartialEq, Eq, Structural, Debug)]
pub struct GeomKey {
    pub width: i64,
    pub height: i64,
    pub min_x: i64,
    pub min_y: i64,
    pub max_x: i64,
    pub max_y: i64,
    pub clip: Option<ClipKey>,
    pub angle: i64,
    pub scale_factor: i64,
}

/// The clip box on the same grid.
#[derive(Clone, Copy, PartialEq, Eq, Structural, Debug)]
pub struct ClipKey {
    pub min_x: i64,
    pub min_y: i64,
    pub max_x: i64,
    pub max_y: i64,
}

/// A widget as it was measured in this frame.
#[derive(PartialEq, Eq, Debug)]
pub struct Measured {
    pub path: String,
    pub entity: u64,
    pub key: GeomKey,
    pub fields: GeomFields,
}

/// A widget as it was last seen.
#[derive(PartialEq, Eq, Debug)]
pub struct Seen {
    pub path: String,
    pub key: GeomKey,
    pub entity: u64,
}

/// What was seen in the frame before.
pub struct GeomMemory {
    pub seen: Vec<Seen>,
}

/// The last entry for a path, if there is one.
pub open spec fn recall(seen: Seq<Seen>, path: Seq<char>) -> Option<Seen>
    decreases seen.len(),
{
    if seen.len() == 0 {
        None
    } else if seen.last().path@ == path {
        Some(seen.last())
    } else {
        recall(seen.drop_last(), path)
    }
}

/// Whether a widget is measured at a path.
pub open spec fn present(nodes: Seq<Measured>, path: Seq<char>) -> bool {
    exists|i: int| 0 <= i < nodes.len() && (#[trigger] nodes[i]).path@ == path
}

/// Whether a widget is new or changed.
pub open spec fn changed(seen: Seq<Seen>, node: Measured) -> bool {
    match recall(seen, node.path@) {
        Some(s) => s.key != node.key,
        None => true,
    }
}

/// Whether `r` is the record of a changed widget.
pub open spec fn records_change(r: GeomRecord, node: Measured) -> bool {
    r.path@ == node.path@ && r.entity == node.entity && r.fields == Some(node.fields) && !r.gone
}

/// Whether `r` is the record of a widget that is gone.
pub open spec fn records_loss(r: GeomRecord, seen: Seen) -> bool {
    r.path@ == seen.path@ && r.entity == seen.entity && r.fields is None && r.gone
}

/// The widgets that are new or changed, in order.
pub open spec fn changes(seen: Seq<Seen>, nodes: Seq<Measured>) -> Seq<Measured>
    decreases nodes.len(),
{
    if nodes.len() == 0 {
        Seq::empty()
    } else {
        let before = changes(seen, nodes.drop_last());
        if changed(seen, nodes.last()) {
            before.push(nodes.last())
        } else {
            before
        }
    }
}

/// The widgets that are gone, in the order in which they were seen.
pub open spec fn losses(seen: Seq<Seen>, nodes: Seq<Measured>) -> Seq<Seen>
    decreases seen.len(),
{
    if seen.len() == 0 {
        Seq::empty()
    } else {
        let before = losses(seen.drop_last(), nodes);
        if present(nodes, seen.last().path@) {
            before
        } else {
            before.push(seen.last())
        }
    }
}

/// Whether `records` are the records of these changes and losses, in order.
pub open spec fn reports(records: Seq<GeomRecord>, c: Seq<Measured>, l: Seq<Seen>) -> bool {
    &&& records.len() == c.len() + l.len()
    &&& forall|i: int| 0 <= i < c.len() ==> records_change(#[trigger] records[i], c[i])
    &&& forall|i: int| 0 <= i < l.len() ==> records_loss(#[trigger] records[c.len() + i], l[i])
}

/// Whether no path occurs twice.
pub open spec fn distinct(seen: Seq<Seen>) -> bool {
    forall|i: int, j: int| 0 <= i < j < seen.len() ==> seen[i].path@ != seen[j].path@
}

impl GeomMemory {
    /// Whether no path occurs twice.
    pub open spec fn valid(self) -> bool {
        distinct(self.seen@)
    }

    /// A memory of nothing.
    pub fn new() -> (m: Self)
        ensures
            m.seen@.len() == 0,
            m.valid(),
    {
        GeomMemory { seen: Vec::new() }
    }

    fn find(&self, path: &str) -> (i: Option<usize>)
        requires
            self.valid(),
        ensures
            i is None <==> recall(self.seen@, path@) is None,
            i is None ==> forall|k: int|
                0 <= k < self.seen@.len() ==> (#[trigger] self.seen@[k]).path@ != path@,
            i matches Some(k) ==> k < self.seen@.len() && self.seen@[k as int].path@ == path@
                && recall(self.seen@, path@) == Some(self.seen@[k as int]),
    {
        let mut k: usize = self.seen.len();
        assert(self.seen@.take(k as int) =~= self.seen@);
        while k > 0
            invariant
                k <= self.seen@.len(),
                recall(self.seen@, path@) == recall(self.seen@.take(k as int), path@),
                forall|m: int|
                    k <= m < self.seen@.len() ==> (#[trigger] self.seen@[m]).path@ != path@,
            decreases k,
        {
            assert(self.seen@.take(k as int).drop_last() =~= self.seen@.take(k - 1));
            k = k - 1;
            if text::same(self.seen[k].path.as_str(), path) {
                return Some(k);
            }
        }
        None
    }

    /// Notes a widget. Of two at one path the later counts.
    fn note(&mut self, node: &Measured)
        requires
            old(self).valid(),
        ensures
            final(self).valid(),
            recall(final(self).seen@, node.path@) matches Some(s) && s.key == node.key && s.entity
                == node.entity,
            forall|path: Seq<char>|
                path != node.path@ ==> recall(final(self).seen@, path) == #[trigger] recall(
                    old(self).seen@,
                    path,
                ),
    {
        let ghost before = self.seen@;
        match self.find(node.path.as_str()) {
            Some(k) => {
                let now = Seen { path: node.path.clone(), key: node.key, entity: node.entity };
                let ghost entry = now;
                self.seen.set(k, now);
                proof {
                    lemma_recall_unique(self.seen@, k as int);
                    assert forall|path: Seq<char>| path != node.path@ implies recall(
                        self.seen@,
                        path,
                    ) == #[trigger] recall(before, path) by {
                        lemma_recall_update(before, k as int, entry, path);
                    }
                }
            },
            None => {
                self.seen.push(
                    Seen { path: node.path.clone(), key: node.key, entity: node.entity },
                );
                assert(self.seen@.drop_last() =~= before);
            },
        }
    }
}

/// Where no path occurs twice, a path leads to its one entry.
proof fn lemma_recall_unique(seen: Seq<Seen>, k: int)
    requires
        distinct(seen),
        0 <= k < seen.len(),
    ensures
        recall(seen, seen[k].path@) == Some(seen[k]),
    decreases seen.len(),
{
    if k < seen.len() - 1 {
        let rest = seen.drop_last();
        assert(seen[k].path@ != seen[seen.len() - 1].path@);
        assert(distinct(rest));
        lemma_recall_unique(rest, k);
        assert(rest[k] == seen[k]);
    }
}

/// Replacing an entry by one of the same path touches no other path.
proof fn lemma_recall_update(seen: Seq<Seen>, k: int, now: Seen, path: Seq<char>)
    requires
        0 <= k < seen.len(),
        now.path@ == seen[k].path@,
        path != now.path@,
    ensures
        recall(seen.update(k, now), path) == recall(seen, path),
    decreases seen.len(),
{
    let rest = seen.drop_last();
    if k == seen.len() - 1 {
        assert(seen.update(k, now).drop_last() =~= rest);
    } else {
        assert(seen.update(k, now).drop_last() =~= rest.update(k, now));
        assert(seen.update(k, now).last() == seen.last());
        lemma_recall_update(rest, k, now, path);
    }
}

/// What the memory holds after a frame: the last widget measured at each path.
pub open spec fn remembers(seen: Seq<Seen>, nodes: Seq<Measured>, path: Seq<char>) -> bool
    decreases nodes.len(),
{
    if nodes.len() == 0 {
        recall(seen, path) is None
    } else if nodes.last().path@ == path {
        recall(seen, path) matches Some(s) && s.key == nodes.last().key && s.entity
            == nodes.last().entity
    } else {
        remembers(seen, nodes.drop_last(), path)
    }
}

/// What the memory holds after a frame, at every path.
pub open spec fn holds_frame(seen: Seq<Seen>, nodes: Seq<Measured>) -> bool {
    forall|path: Seq<char>| #[trigger] remembers(seen, nodes, path)
}

proof fn lemma_remembers_same(a: Seq<Seen>, b: Seq<Seen>, nodes: Seq<Measured>, path: Seq<char>)
    requires
        remembers(a, nodes, path),
        recall(a, path) == recall(b, path),
    ensures
        remembers(b, nodes, path),
    decreases nodes.len(),
{
    if nodes.len() > 0 && nodes.last().path@ != path {
        lemma_remembers_same(a, b, nodes.drop_last(), path);
    }
}

/// Noting the last widget of a frame brings the memory up to that frame.
proof fn lemma_holds_next(before: Seq<Seen>, now: Seq<Seen>, nodes: Seq<Measured>)
    requires
        nodes.len() > 0,
        holds_frame(before, nodes.drop_last()),
        recall(now, nodes.last().path@) matches Some(s) && s.key == nodes.last().key && s.entity
            == nodes.last().entity,
        forall|path: Seq<char>|
            path != nodes.last().path@ ==> recall(now, path) == #[trigger] recall(before, path),
    ensures
        holds_frame(now, nodes),
{
    assert forall|path: Seq<char>| #[trigger] remembers(now, nodes, path) by {
        if path != nodes.last().path@ {
            assert(remembers(before, nodes.drop_last(), path));
            assert(recall(now, path) == recall(before, path));
            lemma_remembers_same(before, now, nodes.drop_last(), path);
        }
    }
}

fn is_present(nodes: &Vec<Measured>, path: &str) -> (yes: bool)
    ensures
        yes == present(nodes@, path@),
{
    for i in 0..nodes.len()
        invariant
            forall|k: int| 0 <= k < i ==> (#[trigger] nodes@[k]).path@ != path@,
    {
        if text::same(nodes[i].path.as_str(), path) {
            return true;
        }
    }
    false
}

/// The records of a frame's geometry: one for each widget that is new or moved,
/// and one for each that is gone. A widget that was replaced in place, at the
/// same path with the same geometry, leaves none. Afterwards the memory holds
/// this frame.
pub fn record_geom(memory: &mut GeomMemory, nodes: &Vec<Measured>) -> (records: Vec<GeomRecord>)
    requires
        old(memory).valid(),
    ensures
        reports(
            records@,
            changes(old(memory).seen@, nodes@),
            losses(old(memory).seen@, nodes@),
        ),
        final(memory).valid(),
        holds_frame(final(memory).seen@, nodes@),
{
    let mut records: Vec<GeomRecord> = Vec::new();
    let mut seen = GeomMemory::new();
    let ghost was = memory.seen@;
    for i in 0..nodes.len()
        invariant
            memory.valid(),
            was == memory.seen@,
            reports(records@, changes(was, nodes@.take(i as int)), Seq::empty()),
            seen.valid(),
            holds_frame(seen.seen@, nodes@.take(i as int)),
    {
        let node = &nodes[i];
        let ghost before = seen.seen@;
        let ghost told = records@;
        let ghost c = changes(was, nodes@.take(i as int));
        proof {
            assert(nodes@.take(i + 1).drop_last() =~= nodes@.take(i as int));
            assert(nodes@.take(i + 1).last() == nodes@[i as int]);
        }
        let is_changed = match memory.find(node.path.as_str()) {
            Some(k) => memory.seen[k].key != node.key,
            None => true,
        };
        if is_changed {
            records.push(
                GeomRecord {
                    path: node.path.clone(),
                    entity: node.entity,
                    fields: Some(node.fields),
                    gone: false,
                },
            );
            proof {
                let now = c.push(nodes@[i as int]);
                assert forall|k: int| 0 <= k < now.len() implies records_change(
                    #[trigger] records@[k],
                    now[k],
                ) by {
                    if k < c.len() {
                        assert(records@[k] == told[k]);
                    }
                }
            }
        }
        seen.note(node);
        proof {
            lemma_holds_next(before, seen.seen@, nodes@.take(i + 1));
        }
    }
    assert(nodes@.take(nodes@.len() as int) =~= nodes@);
    let ghost c = changes(was, nodes@);
    for i in 0..memory.seen.len()
        invariant
            was == memory.seen@,
            reports(records@, c, losses(was.take(i as int), nodes@)),
    {
        let ghost told = records@;
        let ghost l = losses(was.take(i as int), nodes@);
        assert(was.take(i + 1).drop_last() =~= was.take(i as int));
        let prev = &memory.seen[i];
        if !is_present(nodes, prev.path.as_str()) {
            records.push(
                GeomRecord {
                    path: prev.path.clone(),
                    entity: prev.entity,
                    fields: None,
                    gone: true,
                },
            );
            proof {
                let now = l.push(was[i as int]);
                assert forall|k: int| 0 <= k < c.len() implies records_change(
                    #[trigger] records@[k],
                    c[k],
                ) by {
                    assert(records@[k] == told[k]);
                }
                assert forall|k: int| 0 <= k < now.len() implies records_loss(
                    #[trigger] records@[c.len() + k],
                    now[k],
                ) by {
                    if k < l.len() {
                        assert(records@[c.len() + k] == told[c.len() + k]);
                    }
                }
            }
        }
    }
    assert(was.take(was.len() as int) =~= was);
    *memory = seen;
    records
}

/// A frame in which every widget stands where it stood leaves no record.
pub proof fn law_still_frames_write_nothing(seen: Seq<Seen>, nodes: Seq<Measured>)
    requires
        forall|i: int| 0 <= i < nodes.len() ==> !changed(seen, #[trigger] nodes[i]),
        forall|i: int| 0 <= i < seen.len() ==> present(nodes, (#[trigger] seen[i]).path@),
    ensures
        changes(seen, nodes).len() == 0,
        losses(seen, nodes).len() == 0,
{
    lemma_no_changes(seen, nodes);
    lemma_no_losses(seen, nodes);
}

proof fn lemma_no_changes(seen: Seq<Seen>, nodes: Seq<Measured>)
    requires
        forall|i: int| 0 <= i < nodes.len() ==> !changed(seen, #[trigger] nodes[i]),
    ensures
        changes(seen, nodes).len() == 0,
    decreases nodes.len(),
{
    if nodes.len() > 0 {
        let rest = nodes.drop_last();
        assert forall|i: int| 0 <= i < rest.len() implies !changed(seen, #[trigger] rest[i]) by {
            assert(rest[i] == nodes[i]);
        }
        lemma_no_changes(seen, rest);
        assert(!changed(seen, nodes[nodes.len() - 1]));
    }
}

proof fn lemma_no_losses(seen: Seq<Seen>, nodes: Seq<Measured>)
    requires
        forall|i: int| 0 <= i < seen.len() ==> present(nodes, (#[trigger] seen[i]).path@),
    ensures
        losses(seen, nodes).len() == 0,
    decreases seen.len(),
{
    if seen.len() > 0 {
        let rest = seen.drop_last();
        assert forall|i: int| 0 <= i < rest.len() implies present(
            nodes,
            (#[trigger] rest[i]).path@,
        ) by {
            assert(rest[i] == seen[i]);
        }
        lemma_no_losses(rest, nodes);
        assert(present(nodes, seen[seen.len() - 1].path@));
    }
}

/// What is absent from a frame is not remembered of it.
proof fn lemma_absent(seen: Seq<Seen>, nodes: Seq<Measured>, path: Seq<char>)
    requires
        remembers(seen, nodes, path),
        !present(nodes, path),
    ensures
        recall(seen, path) is None,
    decreases nodes.len(),
{
    if nodes.len() > 0 {
        let rest = nodes.drop_last();
        assert(nodes[nodes.len() - 1].path@ != path);
        if present(rest, path) {
            let i = choose|i: int| 0 <= i < rest.len() && (#[trigger] rest[i]).path@ == path;
            assert(nodes[i].path@ == path);
        }
        lemma_absent(seen, rest, path);
    }
}

/// The one widget at a path is what is remembered of that path.
proof fn lemma_remembered(seen: Seq<Seen>, nodes: Seq<Measured>, i: int)
    requires
        0 <= i < nodes.len(),
        remembers(seen, nodes, nodes[i].path@),
        forall|j: int| i < j < nodes.len() ==> (#[trigger] nodes[j]).path@ != nodes[i].path@,
    ensures
        recall(seen, nodes[i].path@) matches Some(s) && s.key == nodes[i].key,
    decreases nodes.len(),
{
    if i < nodes.len() - 1 {
        let rest = nodes.drop_last();
        assert(nodes[nodes.len() - 1].path@ != nodes[i].path@);
        assert(rest[i] == nodes[i]);
        assert forall|j: int| i < j < rest.len() implies (#[trigger] rest[j]).path@
            != rest[i].path@ by {
            assert(rest[j] == nodes[j]);
        }
        lemma_remembered(seen, rest, i);
    }
}

/// A frame that repeats the one before leaves no record, whichever entities stand
/// at its paths.
pub proof fn law_a_repeated_frame_writes_nothing(
    seen: Seq<Seen>,
    before: Seq<Measured>,
    now: Seq<Measured>,
)
    requires
        distinct(seen),
        holds_frame(seen, before),
        before.len() == now.len(),
        forall|i: int|
            0 <= i < now.len() ==> (#[trigger] now[i]).path@ == before[i].path@ && now[i].key
                == before[i].key,
        forall|i: int, j: int| 0 <= i < j < before.len() ==> before[i].path@ != before[j].path@,
    ensures
        changes(seen, now).len() == 0,
        losses(seen, now).len() == 0,
{
    assert forall|i: int| 0 <= i < now.len() implies !changed(seen, #[trigger] now[i]) by {
        assert(remembers(seen, before, before[i].path@));
        lemma_remembered(seen, before, i);
    }
    assert forall|i: int| 0 <= i < seen.len() implies present(now, (#[trigger] seen[i]).path@) by {
        let path = seen[i].path@;
        assert(remembers(seen, before, path));
        lemma_recall_unique(seen, i);
        if !present(before, path) {
            lemma_absent(seen, before, path);
        }
        let k = choose|k: int| 0 <= k < before.len() && (#[trigger] before[k]).path@ == path;
        assert(now[k].path@ == path);
    }
    law_still_frames_write_nothing(seen, now);
}

/// A loss is told once: what has left the screen is forgotten with the frame that
/// tells of it.
pub proof fn law_a_loss_is_told_once(seen: Seq<Seen>, nodes: Seq<Measured>, path: Seq<char>)
    requires
        holds_frame(seen, nodes),
        !present(nodes, path),
    ensures
        recall(seen, path) is None,
        forall|i: int| 0 <= i < seen.len() ==> (#[trigger] seen[i]).path@ != path,
{
    assert(remembers(seen, nodes, path));
    lemma_absent(seen, nodes, path);
    lemma_forgotten(seen, path);
}

/// A path that leads nowhere has no entry.
proof fn lemma_forgotten(seen: Seq<Seen>, path: Seq<char>)
    requires
        recall(seen, path) is None,
    ensures
        forall|i: int| 0 <= i < seen.len() ==> (#[trigger] seen[i]).path@ != path,
    decreases seen.len(),
{
    if seen.len() > 0 {
        let rest = seen.drop_last();
        lemma_forgotten(rest, path);
        assert forall|i: int| 0 <= i < seen.len() implies (#[trigger] seen[i]).path@ != path by {
            if i < rest.len() {
                assert(rest[i] == seen[i]);
            }
        }
    }
}

// ---- what paths and changes stand for --------------------------------------

/// A node has a name where it is in the tree and carries it.
pub proof fn law_names_are_carried(tree: Seq<TreeNode>, i: int, name: Seq<char>)
    ensures
        named(tree, i, name) <==> 0 <= i < tree.len() && tree[i].name is Some && tree[i].name->0@
            == name,
{
}

/// A node's place is the first at which it stands among the children; where it does
/// not stand among them it has none.
pub proof fn law_places_are_the_first(children: Seq<usize>, node: usize)
    ensures
        ordinal(children, node) is None <==> !children.contains(node),
        ordinal(children, node) matches Some(i) ==> i < children.len() && children[i as int]
            == node && forall|k: int| 0 <= k < i ==> children[k] != node,
    decreases children.len(),
{
    lemma_ordinal(children, node);
    if children.len() > 0 {
        let rest = children.drop_last();
        law_places_are_the_first(rest, node);
        match ordinal(rest, node) {
            Some(i) => {
                assert forall|k: int| 0 <= k < i implies children[k] != node by {
                    assert(rest[k] == children[k]);
                }
                assert(children[i as int] == node);
            },
            None => {
                assert forall|k: int| 0 <= k < rest.len() implies children[k] != node by {
                    assert(rest[k] == children[k]);
                    assert(!rest.contains(node));
                }
            },
        }
    }
}

/// Namesakes are counted one by one: those of two lists add up, and a child counts
/// where it carries the name.
pub proof fn law_namesakes_add_up(
    tree: Seq<TreeNode>,
    a: Seq<usize>,
    b: Seq<usize>,
    c: usize,
    name: Seq<char>,
)
    ensures
        namesakes(tree, a + b, name) == namesakes(tree, a, name) + namesakes(tree, b, name),
        namesakes(tree, Seq::<usize>::empty(), name) == 0,
        c < tree.len() && (tree[c as int].name matches Some(n) && n@ == name) ==> namesakes(
            tree,
            seq![c],
            name,
        ) == 1,
        c >= tree.len() || !(tree[c as int].name matches Some(n) && n@ == name) ==> namesakes(
            tree,
            seq![c],
            name,
        ) == 0,
    decreases b.len(),
{
    assert(seq![c].drop_last() =~= Seq::<usize>::empty());
    if b.len() == 0 {
        assert(a + b =~= a);
    } else {
        assert((a + b).drop_last() =~= a + b.drop_last());
        law_namesakes_add_up(tree, a, b.drop_last(), c, name);
    }
}

/// How one node is named in a path: by its name where no sibling shares it, by name
/// and place where one does, by its place alone where it has no name, and by a
/// question mark where it has no place either.
pub proof fn law_how_nodes_are_named(tree: Seq<TreeNode>, node: usize, parent: usize, place: nat)
    requires
        node < tree.len(),
    ensures
        tree[node as int].parent is None ==> siblings(tree, node as int) is None,
        tree[node as int].parent == Some(parent) && parent < tree.len() ==> siblings(
            tree,
            node as int,
        ) == Some(tree[parent as int].children@),
        tree[node as int].parent == Some(parent) && parent >= tree.len() ==> siblings(
            tree,
            node as int,
        ) is None,
        siblings(tree, node as int) is None ==> (match tree[node as int].name {
            Some(n) => segment(tree, node as int) == n@,
            None => segment(tree, node as int) == ".?"@,
        }),
        siblings(tree, node as int) matches Some(s) ==> (match tree[node as int].name {
            Some(n) => {
                &&& namesakes(tree, s, n@) <= 1 ==> segment(tree, node as int) == n@
                &&& namesakes(tree, s, n@) >= 2 && ordinal(s, node) == Some(place) ==> segment(
                    tree,
                    node as int,
                ) == n@ + "."@ + text::decimal(place)
                &&& ordinal(s, node) is None ==> segment(tree, node as int) == n@
            },
            None => {
                &&& ordinal(s, node) == Some(place) ==> segment(tree, node as int) == "."@
                    + text::decimal(place)
                &&& ordinal(s, node) is None ==> segment(tree, node as int) == ".?"@
            },
        }),
{
}

proof fn lemma_climb_enough(tree: Seq<TreeNode>, node: int, depth: nat)
    ensures
        climb(tree, node, depth).len() <= depth,
        climb(tree, node, depth + 1).len() <= depth ==> climb(tree, node, depth + 1) == climb(
            tree,
            node,
            depth,
        ),
    decreases depth,
{
    if 0 <= node < tree.len() {
        if let Some(p) = tree[node].parent {
            if depth > 0 {
                lemma_climb_enough(tree, p as int, (depth - 1) as nat);
                let longer = climb(tree, p as int, depth);
                assert(climb(tree, node, depth + 1) == seq![segment(tree, node)] + longer);
                assert(climb(tree, node, depth + 1).len() == 1 + longer.len());
            }
        }
    }
}

/// A path grows downward: a root is named alone, and a child's path is that of its
/// parent, a slash and its own name. Ancestries of 64 nodes and more are cut.
pub proof fn law_paths_grow_downward(tree: Seq<TreeNode>, node: int)
    requires
        0 <= node < tree.len(),
    ensures
        climb(tree, node, 64).len() <= 64,
        tree[node].parent is None ==> path_of(tree, node) == segment(tree, node),
        tree[node].parent matches Some(p) ==> (p < tree.len() && climb(tree, p as int, 64).len()
            < 64 ==> path_of(tree, node) == path_of(tree, p as int) + "/"@ + segment(tree, node)),
{
    lemma_climb_enough(tree, node, 64);
    let seg = segment(tree, node);
    match tree[node].parent {
        None => {
            let c = climb(tree, node, 64);
            assert(c =~= seq![seg]);
            assert(c.reverse() =~= seq![seg]);
        },
        Some(p) => {
            if p < tree.len() && climb(tree, p as int, 64).len() < 64 {
                lemma_climb_enough(tree, p as int, 63);
                let up = climb(tree, p as int, 64);
                assert(climb(tree, node, 64) =~= seq![seg] + up);
                assert((seq![seg] + up).reverse() =~= up.reverse().push(seg));
                assert(up.len() > 0);
                assert(up.reverse().push(seg) =~= up.reverse() + seq![seg]);
                text::law_joining(up.reverse(), seq![seg], seg, "/"@);
            }
        },
    }
}

/// What is recalled at a path is the last entry of that path.
pub proof fn law_the_last_entry_is_recalled(seen: Seq<Seen>, path: Seq<char>, i: int)
    ensures
        recall(seen, path) is None <==> forall|k: int|
            0 <= k < seen.len() ==> (#[trigger] seen[k]).path@ != path,
        0 <= i < seen.len() && seen[i].path@ == path && (forall|k: int|
            i < k < seen.len() ==> (#[trigger] seen[k]).path@ != path) ==> recall(seen, path)
            == Some(seen[i]),
    decreases seen.len(),
{
    if seen.len() > 0 {
        let rest = seen.drop_last();
        law_the_last_entry_is_recalled(rest, path, i);
        assert(seen[seen.len() - 1] == seen.last());
        assert forall|k: int| 0 <= k < rest.len() implies rest[k] == seen[k] by {}
        if seen.last().path@ != path {
            if forall|k: int| 0 <= k < rest.len() ==> (#[trigger] rest[k]).path@ != path {
                assert forall|k: int| 0 <= k < seen.len() implies (#[trigger] seen[k]).path@
                    != path by {
                    if k < rest.len() {
                        assert(rest[k].path@ != path);
                    }
                }
            } else {
                let k = choose|k: int| 0 <= k < rest.len() && (#[trigger] rest[k]).path@ == path;
                assert(seen[k].path@ == path);
            }
            if 0 <= i < rest.len() && (forall|k: int|
                i < k < seen.len() ==> (#[trigger] seen[k]).path@ != path) {
                assert forall|k: int| i < k < rest.len() implies (#[trigger] rest[k]).path@
                    != path by {
                    assert(seen[k].path@ != path);
                }
            }
        }
    }
}

/// A widget has changed where nothing was seen at its path, or its geometry was
/// another. Which entity stands there does not count.
pub proof fn law_what_counts_as_a_change(seen: Seq<Seen>, node: Measured)
    ensures
        changed(seen, node) <==> recall(seen, node.path@) is None || recall(seen, node.path@)->0.key
            != node.key,
{
}

/// Changes are told in order, and one by one: those of two lists follow each other,
/// and a widget is told exactly where it changed.
pub proof fn law_changes_are_told_in_order(
    seen: Seq<Seen>,
    a: Seq<Measured>,
    b: Seq<Measured>,
    node: Measured,
)
    ensures
        changes(seen, a + b) == changes(seen, a) + changes(seen, b),
        changed(seen, node) ==> changes(seen, seq![node]) == seq![node],
        !changed(seen, node) ==> changes(seen, seq![node]).len() == 0,
    decreases b.len(),
{
    assert(seq![node].drop_last() =~= Seq::<Measured>::empty());
    assert(changes(seen, Seq::<Measured>::empty()) =~= Seq::<Measured>::empty());
    assert(Seq::<Measured>::empty().push(node) =~= seq![node]);
    if b.len() == 0 {
        assert(a + b =~= a);
        assert(changes(seen, a) + changes(seen, b) =~= changes(seen, a));
    } else {
        assert((a + b).drop_last() =~= a + b.drop_last());
        law_changes_are_told_in_order(seen, a, b.drop_last(), node);
        assert((changes(seen, a) + changes(seen, b.drop_last())).push(b.last()) =~= changes(seen, a)
            + changes(seen, b.drop_last()).push(b.last()));
    }
}

/// Losses are told in the order in which the widgets were seen: those of two lists
/// follow each other, and a widget is told exactly where no path of the frame is its
/// own.
pub proof fn law_losses_are_told_in_order(
    a: Seq<Seen>,
    b: Seq<Seen>,
    nodes: Seq<Measured>,
    was: Seen,
)
    ensures
        losses(a + b, nodes) == losses(a, nodes) + losses(b, nodes),
        (forall|i: int| 0 <= i < nodes.len() ==> (#[trigger] nodes[i]).path@ != was.path@)
            ==> losses(seq![was], nodes) == seq![was],
        (exists|i: int| 0 <= i < nodes.len() && (#[trigger] nodes[i]).path@ == was.path@)
            ==> losses(seq![was], nodes).len() == 0,
    decreases b.len(),
{
    assert(seq![was].drop_last() =~= Seq::<Seen>::empty());
    assert(losses(Seq::<Seen>::empty(), nodes) =~= Seq::<Seen>::empty());
    assert(Seq::<Seen>::empty().push(was) =~= seq![was]);
    if b.len() == 0 {
        assert(a + b =~= a);
        assert(losses(a, nodes) + losses(b, nodes) =~= losses(a, nodes));
    } else {
        assert((a + b).drop_last() =~= a + b.drop_last());
        law_losses_are_told_in_order(a, b.drop_last(), nodes, was);
        assert((losses(a, nodes) + losses(b.drop_last(), nodes)).push(b.last()) =~= losses(a, nodes)
            + losses(b.drop_last(), nodes).push(b.last()));
    }
}

/// A report tells the changes first, each with its path, its entity and what was
/// measured, and then the losses, each with its path and the entity that stood there.
pub proof fn law_reports_tell_changes_then_losses(
    records: Seq<GeomRecord>,
    c: Seq<Measured>,
    l: Seq<Seen>,
    i: int,
)
    requires
        reports(records, c, l),
    ensures
        records.len() == c.len() + l.len(),
        0 <= i < c.len() ==> {
            &&& records[i].path@ == c[i].path@
            &&& records[i].entity == c[i].entity
            &&& records[i].fields == Some(c[i].fields)
            &&& !records[i].gone
        },
        0 <= i < l.len() ==> {
            &&& records[c.len() + i].path@ == l[i].path@
            &&& records[c.len() + i].entity == l[i].entity
            &&& records[c.len() + i].fields is None
            &&& records[c.len() + i].gone
        },
{
    if 0 <= i < c.len() {
        assert(records_change(records[i], c[i]));
    }
    if 0 <= i < l.len() {
        assert(records_loss(records[c.len() + i], l[i]));
    }
}

/// After a frame the memory holds, at each path, the geometry and the entity of the
/// last widget that was measured there.
pub proof fn law_the_frame_is_remembered(seen: Seq<Seen>, nodes: Seq<Measured>, i: int)
    requires
        0 <= i < nodes.len(),
        holds_frame(seen, nodes),
        forall|j: int| i < j < nodes.len() ==> (#[trigger] nodes[j]).path@ != nodes[i].path@,
    ensures
        recall(seen, nodes[i].path@) matches Some(s) && s.key == nodes[i].key && s.entity
            == nodes[i].entity,
{
    assert(remembers(seen, nodes, nodes[i].path@));
    lemma_remembered_whole(seen, nodes, i);
}

proof fn lemma_remembered_whole(seen: Seq<Seen>, nodes: Seq<Measured>, i: int)
    requires
        0 <= i < nodes.len(),
        remembers(seen, nodes, nodes[i].path@),
        forall|j: int| i < j < nodes.len() ==> (#[trigger] nodes[j]).path@ != nodes[i].path@,
    ensures
        recall(seen, nodes[i].path@) matches Some(s) && s.key == nodes[i].key && s.entity
            == nodes[i].entity,
    decreases nodes.len(),
{
    if i < nodes.len() - 1 {
        let rest = nodes.drop_last();
        assert(nodes[nodes.len() - 1].path@ != nodes[i].path@);
        assert(rest[i] == nodes[i]);
        assert forall|j: int| i < j < rest.len() implies (#[trigger] rest[j]).path@
            != rest[i].path@ by {
            assert(rest[j] == nodes[j]);
        }
        lemma_remembered_whole(seen, rest, i);
    }
}

/// No path has two entries in a valid memory, so that what is recalled at the path of
/// an entry is that entry.
pub proof fn law_entries_are_found_by_their_path(memory: GeomMemory, k: int)
    requires
        memory.valid(),
        0 <= k < memory.seen@.len(),
    ensures
        recall(memory.seen@, memory.seen@[k].path@) == Some(memory.seen@[k]),
{
    lemma_recall_unique(memory.seen@, k);
}

}
