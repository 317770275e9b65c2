use vstd::prelude::*;
use vstd::string::StringExecFns;

verus! {

broadcast use vstd::std_specs::vec::axiom_vec_index_decreases;

/// A declaration of the game's data: its tokens and its indented children.
#[derive(Debug, PartialEq, Eq)]
pub struct DataNode {
    pub tokens: Vec<String>,
    pub children: Vec<DataNode>,
}

/// The mathematical value of a `DataNode`.
pub struct Tree {
    pub tokens: Seq<Seq<char>>,
    pub children: Seq<Tree>,
}

impl View for DataNode {
    type V = Tree;

    open spec fn view(&self) -> Tree
        decreases self,
    {
        Tree {
            tokens: texts(self.tokens@),
            children: Seq::new(
                self.children@.len(),
                |i: int|
                    if 0 <= i < self.children@.len() {
                        self.children@[i].view()
                    } else {
                        leaf_tree(Seq::empty())
                    },
            ),
        }
    }
}

/// The character sequences of a list of strings.
pub open spec fn texts(v: Seq<String>) -> Seq<Seq<char>> {
    v.map_values(|t: String| t@)
}

/// The values of a list of nodes.
pub open spec fn trees(v: Seq<DataNode>) -> Seq<Tree> {
    v.map_values(|n: DataNode| n@)
}

/// A node without children.
pub open spec fn leaf_tree(tokens: Seq<Seq<char>>) -> Tree {
    Tree { tokens, children: Seq::empty() }
}

/// A node with the given tokens and children.
pub open spec fn tree(tokens: Seq<Seq<char>>, children: Seq<Tree>) -> Tree {
    Tree { tokens, children }
}

/// The first token of a node, or the empty text when it has none.
pub open spec fn head(t: Tree) -> Seq<char> {
    if t.tokens.len() > 0 {
        t.tokens[0]
    } else {
        Seq::empty()
    }
}

/// The decimal digits of `n`, most significant first.
pub open spec fn decimal(n: nat) -> Seq<char>
    decreases n,
{
    if n < 10 {
        digit(n)
    } else {
        decimal(n / 10) + digit(n % 10)
    }
}

/// The single decimal digit `d`, for `d < 10`.
pub open spec fn digit(d: nat) -> Seq<char> {
    if d == 0 {
        "0"@
    } else if d == 1 {
        "1"@
    } else if d == 2 {
        "2"@
    } else if d == 3 {
        "3"@
    } else if d == 4 {
        "4"@
    } else if d == 5 {
        "5"@
    } else if d == 6 {
        "6"@
    } else if d == 7 {
        "7"@
    } else if d == 8 {
        "8"@
    } else {
        "9"@
    }
}

/// A string holding the text `s`.
pub fn text(s: &str) -> (r: String)
    ensures
        r@ == s@,
{
    String::from_str(s)
}

/// Whether `a` holds exactly the text `s`.
pub fn is_text(a: &String, s: &str) -> (r: bool)
    ensures
        r == (a@ == s@),
{
    *a == String::from_str(s)
}

/// Whether two strings hold the same text.
pub fn same_text(a: &String, b: &String) -> (r: bool)
    ensures
        r == (a@ == b@),
{
    *a == *b
}

/// The concatenation of two texts.
pub fn join(a: &String, b: &String) -> (r: String)
    ensures
        r@ == a@ + b@,
{
    let mut r = a.clone();
    r.append(b.as_str());
    r
}

fn digit_text(d: u64) -> (r: String)
    requires
        d < 10,
    ensures
        r@ == digit(d as nat),
{
    if d == 0 {
        text("0")
    } else if d == 1 {
        text("1")
    } else if d == 2 {
        text("2")
    } else if d == 3 {
        text("3")
    } else if d == 4 {
        text("4")
    } else if d == 5 {
        text("5")
    } else if d == 6 {
        text("6")
    } else if d == 7 {
        text("7")
    } else if d == 8 {
        text("8")
    } else {
        text("9")
    }
}

/// The decimal form of `n`.
pub fn decimal_text(n: u64) -> (r: String)
    ensures
        r@ == decimal(n as nat),
    decreases n,
{
    if n < 10 {
        digit_text(n)
    } else {
        let high = decimal_text(n / 10);
        let low = digit_text(n % 10);
        join(&high, &low)
    }
}

/// A node with the given tokens and no children.
pub fn leaf(tokens: Vec<String>) -> (r: DataNode)
    ensures
        r@ == leaf_tree(texts(tokens@)),
{
    let r = DataNode { tokens, children: Vec::new() };
    assert(r@.children =~= Seq::<Tree>::empty());
    r
}

/// A node with the given tokens and children.
pub fn node(tokens: Vec<String>, children: Vec<DataNode>) -> (r: DataNode)
    ensures
        r@ == tree(texts(tokens@), trees(children@)),
{
    let r = DataNode { tokens, children };
    assert(r@.children =~= trees(children@));
    r
}

/// Appends a child to a node.
pub fn push_child(n: &mut DataNode, c: DataNode)
    ensures
        final(n)@ == tree(old(n)@.tokens, old(n)@.children.push(c@)),
{
    n.children.push(c);
    assert(final(n)@.children =~= old(n)@.children.push(c@));
}

/// The tokens of a node, as owned strings.
pub fn clone_tokens(v: &Vec<String>) -> (r: Vec<String>)
    ensures
        texts(r@) == texts(v@),
{
    let r = v.clone();
    assert forall|k: int| 0 <= k < v@.len() implies #[trigger] r@[k] == v@[k] by {
        assert(cloned::<String>(v[k], r[k]));
    }
    assert(texts(r@) =~= texts(v@));
    r
}

/// Whether a copied node keeps a child: it has a token, and its first token is not a
/// dropped kind.
pub open spec fn keeps_child(c: Tree, drop_objects: bool, drop_links: bool) -> bool {
    &&& c.tokens.len() > 0
    &&& !(drop_objects && c.tokens[0] == "object"@)
    &&& !(drop_links && c.tokens[0] == "link"@)
}

/// The copies of the first `n` children of `t` that `keeps_child` accepts, in order.
pub open spec fn copied_children(t: Tree, n: nat, drop_objects: bool, drop_links: bool) -> Seq<
    Tree,
>
    decreases t, 0nat, n,
{
    if n == 0 || n > t.children.len() {
        Seq::empty()
    } else {
        let rest = copied_children(t, (n - 1) as nat, drop_objects, drop_links);
        let c = t.children[n - 1];
        if keeps_child(c, drop_objects, drop_links) {
            rest.push(copy_tree(c, drop_objects, drop_links))
        } else {
            rest
        }
    }
}

/// A deep copy of `t` without the children (at any depth) that `keeps_child` refuses.
pub open spec fn copy_tree(t: Tree, drop_objects: bool, drop_links: bool) -> Tree
    decreases t, 1nat, 0nat,
{
    Tree {
        tokens: t.tokens,
        children: copied_children(t, t.children.len(), drop_objects, drop_links),
    }
}

/// A deep copy of `n`, leaving out children that hold no token, nested `object`
/// children when `drop_objects`, and nested `link` children when `drop_links`.
pub fn deep_copy(n: &DataNode, drop_objects: bool, drop_links: bool) -> (r: DataNode)
    ensures
        r@ == copy_tree(n@, drop_objects, drop_links),
    decreases n,
{
    let tokens = clone_tokens(&n.tokens);
    let mut children: Vec<DataNode> = Vec::new();
    let mut i: usize = 0;
    while i < n.children.len()
        invariant
            i <= n.children@.len(),
            trees(children@) == copied_children(n@, i as nat, drop_objects, drop_links),
        decreases n.children@.len() - i,
    {
        let c = &n.children[i];
        let keep = c.tokens.len() > 0 && !(drop_objects && is_text(&c.tokens[0], "object")) && !(
        drop_links && is_text(&c.tokens[0], "link"));
        assert(n@.children[i as int] == c@);
        assert(keeps_child(c@, drop_objects, drop_links) == keep) by {
            assert(c@.tokens =~= texts(c.tokens@));
        }
        if keep {
            let copied = deep_copy(c, drop_objects, drop_links);
            children.push(copied);
            assert(trees(children@) =~= copied_children(n@, i as nat, drop_objects, drop_links).push(
                copied@,
            ));
        }
        i = i + 1;
    }
    let r = DataNode { tokens, children };
    assert(r@.children =~= trees(children@));
    assert(r@.tokens =~= n@.tokens);
    r
}

/// One token.
pub fn toks1(a: String) -> (r: Vec<String>)
    ensures
        texts(r@) == seq![a@],
{
    let r = vec![a];
    assert(texts(r@) =~= seq![a@]);
    r
}

/// Two tokens.
pub fn toks2(a: String, b: String) -> (r: Vec<String>)
    ensures
        texts(r@) == seq![a@, b@],
{
    let r = vec![a, b];
    assert(texts(r@) =~= seq![a@, b@]);
    r
}

/// Three tokens.
pub fn toks3(a: String, b: String, c: String) -> (r: Vec<String>)
    ensures
        texts(r@) == seq![a@, b@, c@],
{
    let r = vec![a, b, c];
    assert(texts(r@) =~= seq![a@, b@, c@]);
    r
}

/// Seven tokens.
pub fn toks7(a: String, b: String, c: String, d: String, e: String, f: String, g: String) -> (r:
    Vec<String>)
    ensures
        texts(r@) == seq![a@, b@, c@, d@, e@, f@, g@],
{
    let r = vec![a, b, c, d, e, f, g];
    assert(texts(r@) =~= seq![a@, b@, c@, d@, e@, f@, g@]);
    r
}

/// A deep copy of `n` as `deep_copy` makes it, or nothing when `n` holds no token.
pub fn copy_node(n: &DataNode, drop_objects: bool, drop_links: bool) -> (r: Option<DataNode>)
    ensures
        r matches Some(c) ==> c@ == copy_tree(n@, drop_objects, drop_links),
        r is None <==> n@.tokens.len() == 0,
{
    if n.tokens.len() == 0 {
        None
    } else {
        Some(deep_copy(n, drop_objects, drop_links))
    }
}

/// An exact copy of a node.
pub fn clone_node(n: &DataNode) -> (r: DataNode)
    ensures
        r@ == n@,
    decreases n,
{
    let tokens = clone_tokens(&n.tokens);
    let mut children: Vec<DataNode> = Vec::new();
    let mut i: usize = 0;
    while i < n.children.len()
        invariant
            i <= n.children@.len(),
            trees(children@) == n@.children.take(i as int),
        decreases n.children@.len() - i,
    {
        let c = clone_node(&n.children[i]);
        assert(c@ == n@.children[i as int]);
        let ghost before = children@;
        children.push(c);
        i = i + 1;
        assert(children@ == before.push(c));
        assert(trees(children@) =~= trees(before).push(c@));
        assert(n@.children.take(i as int) =~= n@.children.take(i - 1).push(c@));
    }
    assert(n@.children.take(i as int) =~= n@.children);
    let r = DataNode { tokens, children };
    assert(r@.children =~= n@.children);
    assert(r@.tokens =~= n@.tokens);
    r
}

/// Appends nodes to the children of `parent`, in order.
pub fn push_all(parent: &mut DataNode, v: Vec<DataNode>)
    ensures
        final(parent)@ == tree(old(parent)@.tokens, old(parent)@.children + trees(v@)),
{
    let ghost all = trees(v@);
    let ghost start = parent@;
    let mut v = v;
    let ghost mut k: int = 0;
    while v.len() > 0
        invariant
            0 <= k <= all.len(),
            trees(v@) == all.skip(k),
            parent@ == tree(start.tokens, start.children + all.take(k)),
        decreases v@.len(),
    {
        let ghost before = v@;
        let x = v.remove(0);
        proof {
            assert(trees(before).len() == before.len());
            assert(k < all.len());
            assert(trees(before)[0] == x@);
            assert(all.skip(k)[0] == all[k]);
            assert(v@ =~= before.subrange(1, before.len() as int));
            assert forall|m: int| 0 <= m < v@.len() implies #[trigger] trees(v@)[m] == all.skip(
                k + 1,
            )[m] by {
                assert(trees(before)[m + 1] == all.skip(k)[m + 1]);
            }
            assert(trees(v@) =~= all.skip(k + 1));
        }
        push_child(parent, x);
        proof {
            assert(start.children + all.take(k + 1) =~= (start.children + all.take(k)).push(all[k]));
            k = k + 1;
        }
    }
    assert(all.take(k) =~= all);
}

/// Whether two nodes have the same value: the same tokens and, in order, children of the
/// same value.
pub fn same_node(a: &DataNode, b: &DataNode) -> (r: bool)
    ensures
        r == (a@ == b@),
    decreases a,
{
    assert(a@.tokens.len() == a.tokens@.len() && b@.tokens.len() == b.tokens@.len());
    assert(a@.children.len() == a.children@.len() && b@.children.len() == b.children@.len());
    if a.tokens.len() != b.tokens.len() || a.children.len() != b.children.len() {
        return false;
    }
    let mut i: usize = 0;
    while i < a.tokens.len()
        invariant
            i <= a.tokens@.len(),
            a.tokens@.len() == b.tokens@.len(),
            forall|k: int| 0 <= k < i ==> a@.tokens[k] == b@.tokens[k],
        decreases a.tokens@.len() - i,
    {
        assert(a@.tokens[i as int] == a.tokens@[i as int]@);
        assert(b@.tokens[i as int] == b.tokens@[i as int]@);
        if !same_text(&a.tokens[i], &b.tokens[i]) {
            return false;
        }
        i = i + 1;
    }
    let mut j: usize = 0;
    while j < a.children.len()
        invariant
            j <= a.children@.len(),
            a.children@.len() == b.children@.len(),
            forall|k: int| 0 <= k < j ==> a@.children[k] == b@.children[k],
        decreases a.children@.len() - j,
    {
        assert(a@.children[j as int] == a.children@[j as int]@);
        assert(b@.children[j as int] == b.children@[j as int]@);
        if !same_node(&a.children[j], &b.children[j]) {
            return false;
        }
        j = j + 1;
    }
    assert(a@.tokens =~= b@.tokens);
    assert(a@.children =~= b@.children);
    true
}

} // verus!
