use vstd::prelude::*;

use crate::records::{
    entity_views, AttributeRecords, AttributeView, EntityRecords, EntityView, NodeAction,
    SwapView, SystemSwaps,
};
use crate::tree::{
    deep_copy, copy_tree, head, is_text, same_text, leaf, leaf_tree, node, push_all, push_child, text, texts, tree,
    trees, DataNode, Tree,
};

verus! {

/// Whether a delta puts a declaration in place: activating one that the baseline adds,
/// or restoring one that the baseline removes.
pub open spec fn is_adding(activate: bool, action: NodeAction) -> bool {
    (activate && (action == NodeAction::Add || action == NodeAction::ClearAdd)) || (!activate && (
    action == NodeAction::Remove || action == NodeAction::ClearRemove))
}

/// Whether an attribute kind is a link kind.
pub open spec fn is_link_kind(k: Seq<char>) -> bool {
    k == "link"@ || k == "unlink"@
}

/// The tokens that follow the first occurrence of `k` in `s` (none when `k` is absent).
pub open spec fn after_first(s: Seq<Seq<char>>, k: Seq<char>) -> Seq<Seq<char>>
    decreases s.len(),
{
    if s.len() == 0 {
        s
    } else if s[0] == k {
        s.drop_first()
    } else {
        after_first(s.drop_first(), k)
    }
}

/// The names of `s`, each renamed by the preset.
pub open spec fn renamed_all(swaps: SwapView, s: Seq<Seq<char>>) -> Seq<Seq<char>> {
    s.map_values(|l: Seq<char>| swaps.rename(l))
}

/// The position delta: the declaration itself, whatever the direction.
pub open spec fn pos_delta(t: Tree) -> Tree {
    copy_tree(t, false, false)
}

/// The jump-range delta: the declaration when adding, an explicit `jump range 0` otherwise.
pub open spec fn jump_range_delta(t: Tree, adding: bool) -> Tree {
    if adding {
        copy_tree(t, false, false)
    } else {
        leaf_tree(seq!["jump range"@, "0"@])
    }
}

/// The first tokens of a link delta.
pub open spec fn link_head(entity_kind: Seq<char>, adding: bool) -> Seq<Seq<char>> {
    if is_link_kind(entity_kind) {
        if adding {
            seq!["link"@]
        } else {
            seq!["unlink"@]
        }
    } else if adding {
        seq!["add"@, "link"@]
    } else {
        seq!["remove"@, "link"@]
    }
}

/// The link delta: the link's targets renamed by the preset, except that restoring a
/// wormhole's links clears them all with a bare `remove link`.
pub open spec fn link_delta(
    entity_kind: Seq<char>,
    attribute_kind: Seq<char>,
    t: Tree,
    adding: bool,
    swaps: SwapView,
) -> Tree {
    leaf_tree(
        link_head(entity_kind, adding) + if entity_kind != "wormhole"@ || adding {
            renamed_all(swaps, after_first(t.tokens, attribute_kind))
        } else {
            Seq::empty()
        },
    )
}

/// The contained-object delta: the object without nested links (and without nested objects
/// when removing), its `add` / `remove` modifier set to the direction.
pub open spec fn object_delta(t: Tree, adding: bool) -> Tree {
    let c = copy_tree(t, !adding, true);
    let m = if adding {
        "add"@
    } else {
        "remove"@
    };
    if t.tokens.len() > 0 && (t.tokens[0] == "add"@ || t.tokens[0] == "remove"@) {
        tree(c.tokens.update(0, m), c.children)
    } else {
        tree(seq![m] + c.tokens, c.children)
    }
}

/// The delta of a flag or another simple attribute: the declaration without its modifier
/// when adding, `remove <kind>` otherwise.
pub open spec fn other_delta(kind: Seq<char>, t: Tree, adding: bool) -> Tree {
    if adding {
        let c = copy_tree(t, false, false);
        if c.tokens.len() > 0 && (c.tokens[0] == "add"@ || c.tokens[0] == "remove"@) {
            tree(c.tokens.drop_first(), c.children)
        } else {
            c
        }
    } else {
        leaf_tree(seq!["remove"@, kind])
    }
}

/// The delta of one baseline declaration of kind `attribute_kind`.
pub open spec fn delta_for(
    entity_kind: Seq<char>,
    attribute_kind: Seq<char>,
    t: Tree,
    adding: bool,
    swaps: SwapView,
) -> Tree {
    if attribute_kind == "pos"@ {
        pos_delta(t)
    } else if attribute_kind == "jump range"@ {
        jump_range_delta(t, adding)
    } else if is_link_kind(attribute_kind) {
        link_delta(entity_kind, attribute_kind, t, adding, swaps)
    } else if attribute_kind == "object"@ {
        object_delta(t, adding)
    } else {
        other_delta(attribute_kind, t, adding)
    }
}

/// Whether a record clears a wormhole's links in this direction.
pub open spec fn clears_wormhole_links(
    entity_kind: Seq<char>,
    attribute_kind: Seq<char>,
    activate: bool,
    action: NodeAction,
) -> bool {
    is_link_kind(attribute_kind) && entity_kind == "wormhole"@ && !is_adding(activate, action)
}

/// The deltas of the records of one attribute from position `i` on. Once a wormhole's
/// links were cleared, the next clearing record ends the list.
pub open spec fn attribute_deltas_from(
    entity_kind: Seq<char>,
    a: AttributeView,
    i: int,
    activate: bool,
    swaps: SwapView,
    cleared: bool,
) -> Seq<Tree>
    decreases a.records.len() - i,
{
    if i < 0 || i >= a.records.len() {
        Seq::empty()
    } else {
        let r = a.records[i];
        let clears = clears_wormhole_links(entity_kind, a.kind, activate, r.0);
        if clears && cleared {
            Seq::empty()
        } else {
            seq![delta_for(entity_kind, a.kind, r.1, is_adding(activate, r.0), swaps)]
                + attribute_deltas_from(entity_kind, a, i + 1, activate, swaps, cleared || clears)
        }
    }
}

/// The deltas of the attributes of an entity whose kind is a link kind (`links`) or is
/// not, attribute by attribute, before ordering.
pub open spec fn entity_deltas(
    e: EntityView,
    attributes: Seq<AttributeView>,
    activate: bool,
    swaps: SwapView,
    links: bool,
) -> Seq<Tree>
    decreases attributes.len(),
{
    if attributes.len() == 0 {
        Seq::empty()
    } else {
        let before = entity_deltas(e, attributes.drop_last(), activate, swaps, links);
        if is_link_kind(attributes.last().kind) == links {
            before + attribute_deltas_from(e.kind, attributes.last(), 0, activate, swaps, false)
        } else {
            before
        }
    }
}

/// Whether a delta goes before the others: it sets a position or removes something.
pub open spec fn goes_first(t: Tree) -> bool {
    head(t) == "pos"@ || head(t) == "remove"@
}

/// The elements of `s` for which `goes_first` is `first`, in order.
pub open spec fn part(s: Seq<Tree>, first: bool) -> Seq<Tree>
    decreases s.len(),
{
    if s.len() == 0 {
        s
    } else if goes_first(s.last()) == first {
        part(s.drop_last(), first).push(s.last())
    } else {
        part(s.drop_last(), first)
    }
}

/// A stable ordering of deltas with positions and removals first.
pub open spec fn ordered(s: Seq<Tree>) -> Seq<Tree> {
    part(s, true) + part(s, false)
}

/// The ordered deltas of an entity in one direction.
pub open spec fn modified(e: EntityView, activate: bool, swaps: SwapView) -> Seq<Tree> {
    ordered(
        entity_deltas(e, e.attributes, activate, swaps, false) + entity_deltas(
            e,
            e.attributes,
            activate,
            swaps,
            true,
        ),
    )
}

/// Whether a delta is a top-level link declaration.
pub open spec fn is_link_delta(t: Tree) -> bool {
    is_link_kind(head(t))
}

/// The elements of `s` for which `is_link_delta` is `links`, in order.
pub open spec fn link_part(s: Seq<Tree>, links: bool) -> Seq<Tree>
    decreases s.len(),
{
    if s.len() == 0 {
        s
    } else if is_link_delta(s.last()) == links {
        link_part(s.drop_last(), links).push(s.last())
    } else {
        link_part(s.drop_last(), links)
    }
}

/// Whether an entity gets a `<kind> <name>` block: some delta in either direction is not
/// a top-level link.
pub open spec fn has_block(e: EntityView, swaps: SwapView) -> bool {
    link_part(modified(e, false, swaps), false).len() > 0 || link_part(
        modified(e, true, swaps),
        false,
    ).len() > 0
}

/// What one entity adds to an event in one direction: its block under the renamed
/// header, then its top-level links.
pub open spec fn entity_event_part(e: EntityView, activate: bool, swaps: SwapView) -> Seq<
    Tree,
> {
    let m = modified(e, activate, swaps);
    (if has_block(e, swaps) {
        seq![tree(seq![e.kind, swaps.rename(e.name)], link_part(m, false))]
    } else {
        Seq::empty()
    }) + link_part(m, true)
}

/// What a list of entities adds to an event in one direction.
pub open spec fn event_children(es: Seq<EntityView>, activate: bool, swaps: SwapView) -> Seq<
    Tree,
>
    decreases es.len(),
{
    if es.len() == 0 {
        Seq::empty()
    } else {
        event_children(es.drop_last(), activate, swaps) + entity_event_part(
            es.last(),
            activate,
            swaps,
        )
    }
}

fn modify_pos(n: &DataNode) -> (r: DataNode)
    ensures
        r@ == pos_delta(n@),
{
    deep_copy(n, false, false)
}

fn modify_jump_range(n: &DataNode, adding: bool) -> (r: DataNode)
    ensures
        r@ == jump_range_delta(n@, adding),
{
    if adding {
        deep_copy(n, false, false)
    } else {
        let tokens = vec![text("jump range"), text("0")];
        assert(texts(tokens@) =~= seq!["jump range"@, "0"@]);
        leaf(tokens)
    }
}

fn modify_link(
    entity_kind: &String,
    attribute_kind: &String,
    n: &DataNode,
    adding: bool,
    swaps: &SystemSwaps,
) -> (r: DataNode)
    requires
        swaps.wf(),
    ensures
        r@ == link_delta(entity_kind@, attribute_kind@, n@, adding, swaps@),
{
    let top = is_text(entity_kind, "link") || is_text(entity_kind, "unlink");
    let mut tokens: Vec<String> = Vec::new();
    if top {
        if adding {
            tokens.push(text("link"));
        } else {
            tokens.push(text("unlink"));
        }
    } else {
        if adding {
            tokens.push(text("add"));
        } else {
            tokens.push(text("remove"));
        }
        tokens.push(text("link"));
    }
    let ghost head_part = texts(tokens@);
    assert(head_part =~= link_head(entity_kind@, adding));
    let ghost s = n@.tokens;
    let ghost k = attribute_kind@;
    if !is_text(entity_kind, "wormhole") || adding {
        let mut i: usize = 0;
        assert(s.skip(0) =~= s);
        while i < n.tokens.len() && !same_text(&n.tokens[i], attribute_kind)
            invariant
                i <= n.tokens@.len(),
                s == texts(n.tokens@),
                k == attribute_kind@,
                after_first(s, k) == after_first(s.skip(i as int), k),
            decreases n.tokens@.len() - i,
        {
            assert(s.skip(i as int).drop_first() =~= s.skip(i + 1));
            assert(s.skip(i as int)[0] == n.tokens@[i as int]@);
            assert(s.skip(i as int)[0] != k);
            i = i + 1;
        }
        let ghost rest = renamed_all(swaps@, after_first(s, k));
        if i < n.tokens.len() {
            assert(after_first(s, k) =~= s.skip(i + 1));
            let mut j: usize = i + 1;
            while j < n.tokens.len()
                invariant
                    i < j <= n.tokens@.len(),
                    s == texts(n.tokens@),
                    after_first(s, k) == s.skip(i + 1),
                    rest == renamed_all(swaps@, after_first(s, k)),
                    swaps.wf(),
                    texts(tokens@) == head_part + rest.take(j - i - 1),
                decreases n.tokens@.len() - j,
            {
                let t = swaps.lookup(&n.tokens[j]);
                assert(s[j as int] == n.tokens@[j as int]@);
                assert(t@ == swaps@.rename(s[j as int]));
                assert(rest[j - i - 1] == swaps@.rename(s[j as int]));
                let ghost before = tokens@;
                tokens.push(t);
                j = j + 1;
                assert(tokens@ == before.push(t));
                assert(texts(tokens@) =~= texts(before).push(t@));
                assert(rest.take(j - i - 1) =~= rest.take(j - i - 2).push(rest[j - i - 2]));
                assert(texts(tokens@) =~= head_part + rest.take(j - i - 1));
            }
            assert(rest.take(j - i - 1) =~= rest);
        } else {
            assert(after_first(s, k) =~= Seq::<Seq<char>>::empty());
            assert(head_part + rest =~= head_part);
        }
    } else {
        assert(head_part + Seq::<Seq<char>>::empty() =~= head_part);
    }
    leaf(tokens)
}

fn modify_object(n: &DataNode, adding: bool) -> (r: DataNode)
    ensures
        r@ == object_delta(n@, adding),
{
    let mut c = deep_copy(n, !adding, true);
    let m = if adding {
        text("add")
    } else {
        text("remove")
    };
    let has_modifier = n.tokens.len() > 0 && (is_text(&n.tokens[0], "add") || is_text(
        &n.tokens[0],
        "remove",
    ));
    let ghost before = c@;
    assert(c@.tokens == n@.tokens);
    assert(c@.tokens.len() == c.tokens@.len());
    if has_modifier {
        c.tokens[0] = m;
        assert(c@.tokens =~= before.tokens.update(0, m@));
    } else {
        c.tokens.insert(0, m);
        assert(c@.tokens =~= seq![m@] + before.tokens);
    }
    assert(c@.children =~= before.children);
    c
}

fn modify_other(kind: &String, n: &DataNode, adding: bool) -> (r: DataNode)
    ensures
        r@ == other_delta(kind@, n@, adding),
{
    if adding {
        let mut c = deep_copy(n, false, false);
        let ghost before = c@;
        if c.tokens.len() > 0 && (is_text(&c.tokens[0], "add") || is_text(&c.tokens[0], "remove")) {
            c.tokens.remove(0);
            assert(c@.tokens =~= before.tokens.drop_first());
            assert(c@.children =~= before.children);
        }
        c
    } else {
        let tokens = vec![text("remove"), kind.clone()];
        assert(texts(tokens@) =~= seq!["remove"@, kind@]);
        leaf(tokens)
    }
}

fn delta(
    entity_kind: &String,
    attribute_kind: &String,
    n: &DataNode,
    adding: bool,
    swaps: &SystemSwaps,
) -> (r: DataNode)
    requires
        swaps.wf(),
    ensures
        r@ == delta_for(entity_kind@, attribute_kind@, n@, adding, swaps@),
{
    if is_text(attribute_kind, "pos") {
        modify_pos(n)
    } else if is_text(attribute_kind, "jump range") {
        modify_jump_range(n, adding)
    } else if is_text(attribute_kind, "link") || is_text(attribute_kind, "unlink") {
        modify_link(entity_kind, attribute_kind, n, adding, swaps)
    } else if is_text(attribute_kind, "object") {
        modify_object(n, adding)
    } else {
        modify_other(attribute_kind, n, adding)
    }
}

fn goes_first_node(n: &DataNode) -> (r: bool)
    ensures
        r == goes_first(n@),
{
    proof {
        reveal_strlit("pos");
        reveal_strlit("remove");
    }
    assert(n@.tokens.len() == n.tokens@.len());
    if n.tokens.len() == 0 {
        assert(head(n@) == Seq::<char>::empty());
        return false;
    }
    assert(head(n@) == n.tokens@[0]@);
    let a = is_text(&n.tokens[0], "pos");
    let b = is_text(&n.tokens[0], "remove");
    a || b
}

fn is_link_node(n: &DataNode) -> (r: bool)
    ensures
        r == is_link_delta(n@),
{
    proof {
        reveal_strlit("link");
        reveal_strlit("unlink");
    }
    assert(n@.tokens.len() == n.tokens@.len());
    if n.tokens.len() == 0 {
        assert(head(n@) == Seq::<char>::empty());
        return false;
    }
    assert(head(n@) == n.tokens@[0]@);
    let a = is_text(&n.tokens[0], "link");
    let b = is_text(&n.tokens[0], "unlink");
    a || b
}

proof fn lemma_part_push(s: Seq<Tree>, x: Tree)
    ensures
        part(s.push(x), true) == if goes_first(x) {
            part(s, true).push(x)
        } else {
            part(s, true)
        },
        part(s.push(x), false) == if goes_first(x) {
            part(s, false)
        } else {
            part(s, false).push(x)
        },
{
    assert(s.push(x).drop_last() =~= s);
}

proof fn lemma_link_part_push(s: Seq<Tree>, x: Tree)
    ensures
        link_part(s.push(x), true) == if is_link_delta(x) {
            link_part(s, true).push(x)
        } else {
            link_part(s, true)
        },
        link_part(s.push(x), false) == if is_link_delta(x) {
            link_part(s, false)
        } else {
            link_part(s, false).push(x)
        },
{
    assert(s.push(x).drop_last() =~= s);
}

/// Appends the deltas of one attribute's records, each to `first` or `rest` as
/// `goes_first` says.
fn attribute_deltas(
    entity_kind: &String,
    a: &AttributeRecords,
    activate: bool,
    swaps: &SystemSwaps,
    first: &mut Vec<DataNode>,
    rest: &mut Vec<DataNode>,
    Ghost(done): Ghost<Seq<Tree>>,
)
    requires
        swaps.wf(),
        trees(old(first)@) == part(done, true),
        trees(old(rest)@) == part(done, false),
    ensures
        trees(final(first)@) == part(
            done + attribute_deltas_from(entity_kind@, a@, 0, activate, swaps@, false),
            true,
        ),
        trees(final(rest)@) == part(
            done + attribute_deltas_from(entity_kind@, a@, 0, activate, swaps@, false),
            false,
        ),
{
    let ghost total = attribute_deltas_from(entity_kind@, a@, 0, activate, swaps@, false);
    let ghost mut made: Seq<Tree> = Seq::empty();
    let mut cleared = false;
    let mut stopped = false;
    let mut i: usize = 0;
    let wormhole = is_text(entity_kind, "wormhole");
    let link_kind = is_text(&a.kind, "link") || is_text(&a.kind, "unlink");
    while i < a.records.len() && !stopped
        invariant
            swaps.wf(),
            i <= a.records@.len(),
            stopped ==> attribute_deltas_from(entity_kind@, a@, i as int, activate, swaps@, cleared)
                == Seq::<Tree>::empty(),
            wormhole == (entity_kind@ == "wormhole"@),
            link_kind == is_link_kind(a@.kind),
            total == attribute_deltas_from(entity_kind@, a@, 0, activate, swaps@, false),
            made + attribute_deltas_from(entity_kind@, a@, i as int, activate, swaps@, cleared)
                == total,
            trees(first@) == part(done + made, true),
            trees(rest@) == part(done + made, false),
        decreases a.records@.len() - i, if stopped { 0int } else { 1int },
    {
        let r = &a.records[i];
        assert(a@.records[i as int] == r@);
        let adding = (activate && (r.action == NodeAction::Add || r.action == NodeAction::ClearAdd))
            || (!activate && (r.action == NodeAction::Remove || r.action
            == NodeAction::ClearRemove));
        let clears = link_kind && wormhole && !adding;
        if clears && cleared {
            stopped = true;
            continue;
        }
        let x = delta(entity_kind, &a.kind, &r.node, adding, swaps);
        proof {
            lemma_part_push(done + made, x@);
            assert((done + made).push(x@) =~= done + made.push(x@));
            assert(made.push(x@) + attribute_deltas_from(
                entity_kind@,
                a@,
                i + 1,
                activate,
                swaps@,
                cleared || clears,
            ) =~= made + attribute_deltas_from(
                entity_kind@,
                a@,
                i as int,
                activate,
                swaps@,
                cleared,
            ));
        }
        if goes_first_node(&x) {
            first.push(x);
            assert(trees(first@) =~= part(done + made, true).push(x@));
        } else {
            rest.push(x);
            assert(trees(rest@) =~= part(done + made, false).push(x@));
        }
        proof {
            made = made.push(x@);
        }
        cleared = cleared || clears;
        i = i + 1;
    }
    assert(made + Seq::<Tree>::empty() =~= made);
}

/// Appends the deltas of the attributes whose kind is a link kind (`links`) or is not,
/// each to `first` or `rest` as `goes_first` says.
fn attribute_pass(
    e: &EntityRecords,
    links: bool,
    activate: bool,
    swaps: &SystemSwaps,
    first: &mut Vec<DataNode>,
    rest: &mut Vec<DataNode>,
    Ghost(start): Ghost<Seq<Tree>>,
)
    requires
        swaps.wf(),
        trees(old(first)@) == part(start, true),
        trees(old(rest)@) == part(start, false),
    ensures
        trees(final(first)@) == part(
            start + entity_deltas(e@, e@.attributes, activate, swaps@, links),
            true,
        ),
        trees(final(rest)@) == part(
            start + entity_deltas(e@, e@.attributes, activate, swaps@, links),
            false,
        ),
{
    let ghost mut done: Seq<Tree> = start;
    let mut j: usize = 0;
    assert(start + entity_deltas(e@, e@.attributes.take(0), activate, swaps@, links) =~= start);
    while j < e.attributes.len()
        invariant
            swaps.wf(),
            j <= e.attributes@.len(),
            done == start + entity_deltas(e@, e@.attributes.take(j as int), activate, swaps@, links),
            trees(first@) == part(done, true),
            trees(rest@) == part(done, false),
        decreases e.attributes@.len() - j,
    {
        let a = &e.attributes[j];
        let ghost attrs = e@.attributes;
        proof {
            assert(attrs.take(j + 1).drop_last() =~= attrs.take(j as int));
            assert(attrs.take(j + 1).last() == a@);
        }
        let is_link = is_text(&a.kind, "link") || is_text(&a.kind, "unlink");
        if is_link == links {
            attribute_deltas(&e.kind, a, activate, swaps, first, rest, Ghost(done));
            proof {
                let d = attribute_deltas_from(e@.kind, a@, 0, activate, swaps@, false);
                assert(done + d =~= start + entity_deltas(e@, attrs.take(j + 1), activate, swaps@, links));
                done = done + d;
            }
        }
        j = j + 1;
    }
    assert(e@.attributes.take(j as int) =~= e@.attributes);
}

/// The deltas of an entity in one direction: those of its non-link attributes, then those
/// of its link attributes, positions and removals first.
pub fn modify_node(e: &EntityRecords, activate: bool, swaps: &SystemSwaps) -> (r: Vec<DataNode>)
    requires
        swaps.wf(),
    ensures
        trees(r@) == modified(e@, activate, swaps@),
{
    let mut first: Vec<DataNode> = Vec::new();
    let mut rest: Vec<DataNode> = Vec::new();
    let ghost empty: Seq<Tree> = Seq::empty();
    assert(trees(first@) =~= part(empty, true));
    assert(trees(rest@) =~= part(empty, false));
    attribute_pass(e, false, activate, swaps, &mut first, &mut rest, Ghost(empty));
    let ghost others = entity_deltas(e@, e@.attributes, activate, swaps@, false);
    assert(empty + others =~= others);
    attribute_pass(e, true, activate, swaps, &mut first, &mut rest, Ghost(others));
    let ghost f = first@;
    let ghost b = rest@;
    first.append(&mut rest);
    assert(trees(first@) =~= trees(f) + trees(b));
    first
}

/// Splits deltas into those that are not top-level links and those that are, keeping
/// their order.
fn split_links(v: Vec<DataNode>) -> (r: (Vec<DataNode>, Vec<DataNode>))
    ensures
        trees(r.0@) == link_part(trees(v@), false),
        trees(r.1@) == link_part(trees(v@), true),
{
    let ghost all = trees(v@);
    let mut v = v;
    let mut others: Vec<DataNode> = Vec::new();
    let mut links: Vec<DataNode> = Vec::new();
    let ghost mut k: int = 0;
    while v.len() > 0
        invariant
            0 <= k <= all.len(),
            trees(v@) == all.skip(k),
            trees(others@) == link_part(all.take(k), false),
            trees(links@) == link_part(all.take(k), true),
        decreases v@.len(),
    {
        let ghost before = v@;
        let x = v.remove(0);
        proof {
            assert(trees(before).len() == before.len());
            assert(k < all.len());
            assert(trees(before)[0] == x@);
            assert(all.skip(k)[0] == all[k]);
            assert(all.take(k + 1) =~= all.take(k).push(x@));
            lemma_link_part_push(all.take(k), x@);
            assert(v@ =~= before.subrange(1, before.len() as int));
            assert forall|m: int| 0 <= m < v@.len() implies #[trigger] trees(v@)[m] == all.skip(
                k + 1,
            )[m] by {
                assert(trees(before)[m + 1] == all.skip(k)[m + 1]);
            }
            assert(trees(v@) =~= all.skip(k + 1));
        }
        if is_link_node(&x) {
            links.push(x);
            assert(trees(links@) =~= link_part(all.take(k), true).push(all[k]));
        } else {
            others.push(x);
            assert(trees(others@) =~= link_part(all.take(k), false).push(all[k]));
        }
        proof {
            k = k + 1;
        }
    }
    assert(all.take(k) =~= all);
    (others, links)
}

/// The restoration and activation events of a preset: `event <restore_name>` and
/// `event <activate_name>`, holding the deltas of every entity in the order given.
pub open spec fn preset_events(
    restore_name: Seq<char>,
    activate_name: Seq<char>,
    es: Seq<EntityView>,
    swaps: SwapView,
) -> Seq<Tree> {
    seq![
        tree(seq!["event"@, restore_name], event_children(es, false, swaps)),
        tree(seq!["event"@, activate_name], event_children(es, true, swaps)),
    ]
}

/// Adds the deltas of every entity, in the order given, to the restoration and the
/// activation event.
fn event(
    entities: &Vec<EntityRecords>,
    swaps: &SystemSwaps,
    restore: &mut DataNode,
    activate: &mut DataNode,
)
    requires
        swaps.wf(),
    ensures
        final(restore)@ == tree(
            old(restore)@.tokens,
            old(restore)@.children + event_children(entity_views(entities@), false, swaps@),
        ),
        final(activate)@ == tree(
            old(activate)@.tokens,
            old(activate)@.children + event_children(entity_views(entities@), true, swaps@),
        ),
{
    let ghost es = entity_views(entities@);
    let ghost r0 = restore@;
    let ghost a0 = activate@;
    let mut j: usize = 0;
    assert(r0.children + event_children(es.take(0), false, swaps@) =~= r0.children);
    assert(a0.children + event_children(es.take(0), true, swaps@) =~= a0.children);
    while j < entities.len()
        invariant
            swaps.wf(),
            j <= entities@.len(),
            es == entity_views(entities@),
            restore@ == tree(r0.tokens, r0.children + event_children(es.take(j as int), false, swaps@)),
            activate@ == tree(a0.tokens, a0.children + event_children(es.take(j as int), true, swaps@)),
        decreases entities@.len() - j,
    {
        let e = &entities[j];
        let ghost ev = e@;
        assert(es[j as int] == ev);
        let removals = modify_node(e, false, swaps);
        let additions = modify_node(e, true, swaps);
        let (r_other, r_links) = split_links(removals);
        let (a_other, a_links) = split_links(additions);
        let ghost rb = restore@.children;
        let ghost ab = activate@.children;
        let ghost r_block: Seq<Tree> = Seq::empty();
        let ghost a_block: Seq<Tree> = Seq::empty();
        if r_other.len() > 0 || a_other.len() > 0 {
            let replacement = swaps.lookup(&e.name);
            let rt = vec![e.kind.clone(), replacement.clone()];
            let at = vec![e.kind.clone(), replacement];
            assert(texts(rt@) =~= seq![ev.kind, swaps@.rename(ev.name)]);
            assert(texts(at@) =~= seq![ev.kind, swaps@.rename(ev.name)]);
            let pr = node(rt, r_other);
            let pa = node(at, a_other);
            proof {
                r_block = seq![pr@];
                a_block = seq![pa@];
            }
            push_child(restore, pr);
            push_child(activate, pa);
        }
        assert(has_block(ev, swaps@) == (r_block.len() > 0)) by {
            assert(trees(r_other@).len() == r_other@.len());
            assert(trees(a_other@).len() == a_other@.len());
        }
        assert(restore@.children == rb + r_block) by {
            if r_block.len() == 0 {
                assert(rb + r_block =~= rb);
            } else {
                assert(rb.push(r_block[0]) =~= rb + r_block);
            }
        }
        assert(activate@.children == ab + a_block) by {
            if a_block.len() == 0 {
                assert(ab + a_block =~= ab);
            } else {
                assert(ab.push(a_block[0]) =~= ab + a_block);
            }
        }
        push_all(restore, r_links);
        push_all(activate, a_links);
        proof {
            assert(es.take(j + 1).drop_last() =~= es.take(j as int));
            assert(es.take(j + 1).last() == ev);
            assert(entity_event_part(ev, false, swaps@) == r_block + trees(r_links@));
            assert(entity_event_part(ev, true, swaps@) == a_block + trees(a_links@));
            assert(r0.children + event_children(es.take(j + 1), false, swaps@) =~= rb + r_block
                + trees(r_links@));
            assert(a0.children + event_children(es.take(j + 1), true, swaps@) =~= ab + a_block
                + trees(a_links@));
        }
        j = j + 1;
    }
    assert(es.take(j as int) =~= es);
}

/// The restoration and activation events of a preset for the given entities.
pub fn preset_event(
    restore_name: &String,
    activate_name: &String,
    entities: &Vec<EntityRecords>,
    swaps: &SystemSwaps,
) -> (r: Vec<DataNode>)
    requires
        swaps.wf(),
    ensures
        trees(r@) == preset_events(restore_name@, activate_name@, entity_views(entities@), swaps@),
{
    let rt = vec![text("event"), restore_name.clone()];
    let at = vec![text("event"), activate_name.clone()];
    assert(texts(rt@) =~= seq!["event"@, restore_name@]);
    assert(texts(at@) =~= seq!["event"@, activate_name@]);
    let mut restore = node(rt, Vec::new());
    let mut activate = node(at, Vec::new());
    assert(restore@.children =~= Seq::<Tree>::empty());
    assert(activate@.children =~= Seq::<Tree>::empty());
    event(entities, swaps, &mut restore, &mut activate);
    assert(Seq::<Tree>::empty() + event_children(entity_views(entities@), false, swaps@)
        =~= event_children(entity_views(entities@), false, swaps@));
    assert(Seq::<Tree>::empty() + event_children(entity_views(entities@), true, swaps@)
        =~= event_children(entity_views(entities@), true, swaps@));
    let r = vec![restore, activate];
    assert(trees(r@) =~= preset_events(
        restore_name@,
        activate_name@,
        entity_views(entities@),
        swaps@,
    ));
    r
}

} // verus!
