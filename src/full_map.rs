use vstd::prelude::*;

use crate::system_shuffler::{entry_views, EntryView, PackageEntry};
use crate::tree::{
    head, is_text, leaf, leaf_tree, node, push_child, text, texts, toks1, toks2, toks3, tree,
    trees, DataNode, Tree,
};

verus! {

/// The names of the objects among the first `k` children of `n` and inside them, in
/// order: an object's own name comes before the names of the objects it holds.
pub open spec fn named_objects_children(n: Tree, k: nat) -> Seq<Seq<char>>
    decreases n, 0nat, k,
{
    if k == 0 || k > n.children.len() {
        Seq::empty()
    } else {
        let c = n.children[k - 1];
        named_objects_children(n, (k - 1) as nat) + if head(c) == "object"@ {
            (if c.tokens.len() >= 2 {
                seq![c.tokens[1]]
            } else {
                Seq::empty()
            }) + named_objects(c)
        } else {
            Seq::empty()
        }
    }
}

/// The names of the objects inside `n`, at any depth.
pub open spec fn named_objects(n: Tree) -> Seq<Seq<char>>
    decreases n, 1nat, 0nat,
{
    named_objects_children(n, n.children.len())
}

/// Whether `t` is a system declaration with a name.
pub open spec fn named_system(t: Tree) -> bool {
    t.tokens.len() >= 2 && t.tokens[0] == "system"@
}

/// One `visit <system>` per named system among `roots`, in order.
pub open spec fn system_visits(roots: Seq<Tree>) -> Seq<Tree>
    decreases roots.len(),
{
    if roots.len() == 0 {
        Seq::empty()
    } else {
        let t = roots.last();
        system_visits(roots.drop_last()) + if named_system(t) {
            seq![leaf_tree(seq!["visit"@, t.tokens[1]])]
        } else {
            Seq::empty()
        }
    }
}

/// The named objects of the named systems among `roots`, system by system.
pub open spec fn planet_names(roots: Seq<Tree>) -> Seq<Seq<char>>
    decreases roots.len(),
{
    if roots.len() == 0 {
        Seq::empty()
    } else {
        let t = roots.last();
        planet_names(roots.drop_last()) + if named_system(t) {
            named_objects(t)
        } else {
            Seq::empty()
        }
    }
}

/// One `visit planet <name>` per name.
pub open spec fn planet_visits(names: Seq<Seq<char>>) -> Seq<Tree>
    decreases names.len(),
{
    if names.len() == 0 {
        Seq::empty()
    } else {
        planet_visits(names.drop_last()).push(leaf_tree(seq!["visit planet"@, names.last()]))
    }
}

/// The title of the mission and of the event that reveal the map.
pub open spec fn reveal_title() -> Seq<char> {
    "Full Map: I know where everything is now"@
}

/// The job that triggers the reveal.
pub open spec fn reveal_mission() -> Tree {
    tree(
        seq!["mission"@, reveal_title()],
        seq![
            leaf_tree(seq!["name"@, "Map Reveal"@]),
            leaf_tree(
                seq![
                    "description"@,
                    "You can now see every system and planet on the map. Shrouded and hidden systems may disappear again"@,
                ],
            ),
            leaf_tree(seq!["job"@]),
            leaf_tree(seq!["repeat"@]),
            tree(
                seq!["on"@, "accept"@],
                seq![leaf_tree(seq!["event"@, reveal_title(), "0"@]), leaf_tree(seq!["fail"@])],
            ),
        ],
    )
}

/// The package that reveals the whole map: `plugin.txt`, the job, and the event that
/// visits every named system and then every named object of those systems.
pub open spec fn full_map_package(roots: Seq<Tree>) -> Seq<EntryView> {
    seq![
        EntryView::File(
            "plugin.txt"@,
            seq![
                leaf_tree(seq!["name"@, "Full Map"@]),
                leaf_tree(seq!["about"@, "Reveal the entire map via any job board"@]),
                leaf_tree(seq!["version"@, "0.1.0"@]),
            ],
        ),
        EntryView::Directory("data/"@),
        EntryView::File("data/full_map_mission.txt"@, seq![reveal_mission()]),
        EntryView::File(
            "data/full_map_event.txt"@,
            seq![
                tree(
                    seq!["event"@, reveal_title()],
                    system_visits(roots) + planet_visits(planet_names(roots)),
                ),
            ],
        ),
    ]
}

/// Appends the names of the objects inside `n`, at any depth.
pub fn find_named_objects(n: &DataNode, names: &mut Vec<String>)
    ensures
        texts(final(names)@) == texts(old(names)@) + named_objects(n@),
    decreases n,
{
    let ghost start = texts(names@);
    let mut i: usize = 0;
    assert(start + named_objects_children(n@, 0) =~= start);
    while i < n.children.len()
        invariant
            i <= n.children@.len(),
            texts(names@) == start + named_objects_children(n@, i as nat),
        decreases n.children@.len() - i,
    {
        let c = &n.children[i];
        assert(n@.children[i as int] == c@);
        assert(c@.tokens.len() == c.tokens@.len());
        let ghost before = texts(names@);
        proof {
            reveal_strlit("object");
        }
        let is_object = if c.tokens.len() > 0 {
            assert(head(c@) == c.tokens@[0]@);
            is_text(&c.tokens[0], "object")
        } else {
            assert(head(c@) == Seq::<char>::empty());
            false
        };
        assert(is_object == (head(c@) == "object"@));
        if is_object {
            let ghost own: Seq<Seq<char>> = Seq::empty();
            if c.tokens.len() >= 2 {
                names.push(c.tokens[1].clone());
                proof {
                    own = seq![c@.tokens[1]];
                }
                assert(texts(names@) =~= before + own);
            }
            find_named_objects(c, names);
            assert(texts(names@) =~= before + (own + named_objects(c@)));
        } else {
            assert(texts(names@) =~= before + Seq::<Seq<char>>::empty());
        }
        i = i + 1;
    }
}

fn reveal_mission_node() -> (r: DataNode)
    ensures
        r@ == reveal_mission(),
{
    let mut m = node(toks2(text("mission"), text("Full Map: I know where everything is now")), Vec::new());
    assert(m@.children =~= Seq::<Tree>::empty());
    push_child(&mut m, leaf(toks2(text("name"), text("Map Reveal"))));
    push_child(
        &mut m,
        leaf(
            toks2(
                text("description"),
                text(
                    "You can now see every system and planet on the map. Shrouded and hidden systems may disappear again",
                ),
            ),
        ),
    );
    push_child(&mut m, leaf(toks1(text("job"))));
    push_child(&mut m, leaf(toks1(text("repeat"))));
    let trigger = leaf(toks3(text("event"), text("Full Map: I know where everything is now"), text("0")));
    let fail = leaf(toks1(text("fail")));
    let on_accept = node(toks2(text("on"), text("accept")), vec![trigger, fail]);
    assert(on_accept@.children =~= seq![trigger@, fail@]);
    push_child(&mut m, on_accept);
    assert(m@.children =~= reveal_mission().children);
    m
}

/// Generates the map-reveal package from the baseline declarations `roots`.
pub fn process(roots: &Vec<DataNode>) -> (r: Vec<PackageEntry>)
    ensures
        entry_views(r@) == full_map_package(trees(roots@)),
{
    let ghost rs = trees(roots@);
    let mut event = node(toks2(text("event"), text("Full Map: I know where everything is now")), Vec::new());
    assert(event@.children =~= Seq::<Tree>::empty());
    let ghost e0 = event@;
    let mut planets: Vec<String> = Vec::new();
    let mut i: usize = 0;
    assert(texts(planets@) =~= planet_names(rs.take(0)));
    while i < roots.len()
        invariant
            i <= roots@.len(),
            rs == trees(roots@),
            event@ == tree(e0.tokens, system_visits(rs.take(i as int))),
            texts(planets@) == planet_names(rs.take(i as int)),
        decreases roots@.len() - i,
    {
        let t = &roots[i];
        assert(rs[i as int] == t@);
        assert(t@.tokens.len() == t.tokens@.len());
        assert(rs.take(i + 1).drop_last() =~= rs.take(i as int));
        assert(rs.take(i + 1).last() == t@);
        if t.tokens.len() >= 2 && is_text(&t.tokens[0], "system") {
            let ghost before = event@.children;
            push_child(&mut event, leaf(toks2(text("visit"), t.tokens[1].clone())));
            assert(event@.children =~= before + seq![leaf_tree(seq!["visit"@, t@.tokens[1]])]);
            find_named_objects(t, &mut planets);
        } else {
            let ghost before = event@.children;
            assert(before + Seq::<Tree>::empty() =~= before);
            assert(texts(planets@) + Seq::<Seq<char>>::empty() =~= texts(planets@));
        }
        i = i + 1;
    }
    assert(rs.take(i as int) =~= rs);
    let ghost names = texts(planets@);
    let ghost visits = event@.children;
    let mut k: usize = 0;
    assert(visits + planet_visits(names.take(0)) =~= visits);
    while k < planets.len()
        invariant
            k <= planets@.len(),
            names == texts(planets@),
            event@ == tree(e0.tokens, visits + planet_visits(names.take(k as int))),
        decreases planets@.len() - k,
    {
        push_child(&mut event, leaf(toks2(text("visit planet"), planets[k].clone())));
        assert(names.take(k + 1).drop_last() =~= names.take(k as int));
        assert(names.take(k + 1).last() == planets@[k as int]@);
        assert(event@.children =~= visits + planet_visits(names.take(k + 1)));
        k = k + 1;
    }
    assert(names.take(k as int) =~= names);
    let plugin = vec![
        leaf(toks2(text("name"), text("Full Map"))),
        leaf(toks2(text("about"), text("Reveal the entire map via any job board"))),
        leaf(toks2(text("version"), text("0.1.0"))),
    ];
    assert(trees(plugin@) =~= seq![
        leaf_tree(seq!["name"@, "Full Map"@]),
        leaf_tree(seq!["about"@, "Reveal the entire map via any job board"@]),
        leaf_tree(seq!["version"@, "0.1.0"@]),
    ]);
    let mission = vec![reveal_mission_node()];
    assert(trees(mission@) =~= seq![reveal_mission()]);
    let ghost ev = event@;
    let events = vec![event];
    assert(trees(events@) =~= seq![ev]);
    let r = vec![
        PackageEntry::File(text("plugin.txt"), plugin),
        PackageEntry::Directory(text("data/")),
        PackageEntry::File(text("data/full_map_mission.txt"), mission),
        PackageEntry::File(text("data/full_map_event.txt"), events),
    ];
    assert(entry_views(r@) =~= full_map_package(trees(roots@)));
    r
}

} // verus!
