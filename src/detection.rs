use vstd::prelude::*;

use crate::extract::{
    baseline, event_scanned, initial_state, key_index, keyed, map_get, map_put,
    marked_wormholes, scan_events, scan_nodes, scanned, scanned_kind, set_insert,
    visit_object, walk, walk_children, SharedView,
};
use crate::order::sorted_pos;
use crate::records::EntityView;
use crate::tree::Tree;

verus! {

/// Whether object `c` is named `w`.
pub open spec fn names_object(c: Tree, w: Seq<char>) -> bool {
    key_index(c) + 1 < c.tokens.len() && c.tokens[key_index(c) + 1] == w
}

/// Whether one of the first `k` children of `n` is an object named `w` or holds one, at
/// any depth.
pub open spec fn declares_children(n: Tree, k: nat, w: Seq<char>) -> bool
    decreases n, 0nat, k,
{
    if k == 0 || k > n.children.len() {
        false
    } else {
        let c = n.children[k - 1];
        declares_children(n, (k - 1) as nat, w) || (keyed(c, "object"@) && (names_object(c, w)
            || declares(c, w)))
    }
}

/// Whether `n` contains an object named `w`, at any depth.
pub open spec fn declares(n: Tree, w: Seq<char>) -> bool
    decreases n, 1nat, 0nat,
{
    declares_children(n, n.children.len(), w)
}

proof fn lemma_sorted_pos_range(s: Seq<Seq<char>>, x: Seq<char>, i: int)
    requires
        0 <= i <= s.len(),
    ensures
        i <= sorted_pos(s, x, i) <= s.len(),
    decreases s.len() - i,
{
    if i < s.len() && !crate::order::text_less(x, s[i]) {
        lemma_sorted_pos_range(s, x, i + 1);
    }
}

proof fn lemma_set_insert_contains(s: Seq<Seq<char>>, x: Seq<char>, y: Seq<char>)
    ensures
        set_insert(s, x).contains(y) <==> (s.contains(y) || y == x),
{
    if !s.contains(x) {
        let p = sorted_pos(s, x, 0);
        lemma_sorted_pos_range(s, x, 0);
        let t = s.insert(p, x);
        assert(t[p] == x);
        if s.contains(y) {
            let k = choose|k: int| 0 <= k < s.len() && s[k] == y;
            if k < p {
                assert(t[k] == y);
            } else {
                assert(t[k + 1] == y);
            }
        }
        if t.contains(y) {
            let k = choose|k: int| 0 <= k < t.len() && t[k] == y;
            if k < p {
                assert(s[k] == y);
            } else if k > p {
                assert(s[k - 1] == y);
            }
        }
    }
}

/// Whether `keys` / `values` form a map: as many values as keys, no key twice.
pub open spec fn map_wf(keys: Seq<Seq<char>>, values: Seq<Seq<char>>) -> bool {
    keys.len() == values.len() && keys.no_duplicates()
}

proof fn lemma_map_put(keys: Seq<Seq<char>>, values: Seq<Seq<char>>, w: Seq<char>, o: Seq<char>, x: Seq<char>)
    requires
        map_wf(keys, values),
    ensures
        map_wf(map_put(keys, values, w, o).0, map_put(keys, values, w, o).1),
        map_put(keys, values, w, o).0.contains(x) <==> (keys.contains(x) || x == w),
        map_get(map_put(keys, values, w, o).0, map_put(keys, values, w, o).1, x) == if x == w {
            Some(o)
        } else {
            map_get(keys, values, x)
        },
{
    let (k2, v2) = map_put(keys, values, w, o);
    if keys.contains(w) {
        let i = keys.index_of(w);
        assert(keys[i] == w);
        assert(k2 == keys);
        assert(v2 == values.update(i, o));
        if x == w {
            assert(map_get(k2, v2, x) == Some(v2[i]));
        } else if keys.contains(x) {
            let j = keys.index_of(x);
            assert(keys[j] == x);
            assert(j != i);
            assert(map_get(k2, v2, x) == Some(values[j]));
        } else {
            assert(map_get(k2, v2, x) is None);
        }
    } else {
        assert(k2 == keys.push(w));
        assert(v2 == values.push(o));
        assert(k2.no_duplicates()) by {
            assert forall|a: int, b: int| 0 <= a < k2.len() && 0 <= b < k2.len() && a != b implies k2[a]
                != k2[b] by {
                if a == keys.len() as int {
                    assert(k2[b] == keys[b]);
                } else if b == keys.len() as int {
                    assert(k2[a] == keys[a]);
                } else {
                    assert(k2[a] == keys[a] && k2[b] == keys[b]);
                }
            }
        }
        assert(k2[keys.len() as int] == w);
        assert(k2.contains(w));
        if x == w {
            let j = k2.index_of(w);
            assert(j == keys.len()) by {
                if j != keys.len() as int {
                    assert(k2[j] == keys[j]);
                }
            }
            assert(map_get(k2, v2, x) == Some(o));
        } else if keys.contains(x) {
            let i = keys.index_of(x);
            assert(keys[i] == x);
            assert(k2[i] == x);
            assert(k2.contains(x));
            let j = k2.index_of(x);
            assert(j < keys.len());
            assert(keys[j] == x);
            assert(i == j);
            assert(map_get(k2, v2, x) == Some(values[i]));
        } else {
            assert(!k2.contains(x)) by {
                if k2.contains(x) {
                    let j = k2.index_of(x);
                    assert(j < keys.len());
                    assert(keys[j] == x);
                }
            }
        }
    }
}

/// Whether `o` is the owner of a name and differs from `s`.
pub open spec fn other_owner(o: Option<Seq<char>>, s: Seq<char>) -> bool {
    o is Some && o->0 != s
}

/// The effect on name `x` of walking objects under system `s`, where `decl` says whether
/// the walk meets an object named `x`: it becomes a key owned by `s`, and it becomes a
/// wormhole when it had another owner before.
pub open spec fn walk_effect(st: SharedView, res: SharedView, s: Seq<char>, decl: bool, x: Seq<char>) -> bool {
    &&& map_wf(res.planet_keys, res.planet_owners)
    &&& res.names == st.names
    &&& res.planet_keys.contains(x) == (st.planet_keys.contains(x) || decl)
    &&& map_get(res.planet_keys, res.planet_owners, x) == if decl {
        Some(s)
    } else {
        map_get(st.planet_keys, st.planet_owners, x)
    }
    &&& res.wormholes.contains(x) == (st.wormholes.contains(x) || (decl && other_owner(
        map_get(st.planet_keys, st.planet_owners, x),
        s,
    )))
}

proof fn lemma_visit_object(st: SharedView, s: Seq<char>, c: Tree, x: Seq<char>)
    requires
        map_wf(st.planet_keys, st.planet_owners),
    ensures
        walk_effect(st, visit_object(st, s, c).0, s, names_object(c, x), x),
{
    let i = key_index(c) + 1;
    if i < c.tokens.len() {
        let w = c.tokens[i];
        let seen = map_get(st.planet_keys, st.planet_owners, w);
        lemma_map_put(st.planet_keys, st.planet_owners, w, s, x);
        if seen is Some && seen->0 != s {
            lemma_set_insert_contains(st.wormholes, w, x);
        }
    }
}

proof fn lemma_walk_children(
    st: SharedView,
    recs: Seq<EntityView>,
    s: Seq<char>,
    n: Tree,
    k: nat,
    top: bool,
    x: Seq<char>,
)
    requires
        map_wf(st.planet_keys, st.planet_owners),
    ensures
        walk_effect(st, walk_children(st, recs, s, n, k, top).0, s, declares_children(n, k, x), x),
    decreases n, 0nat, k,
{
    if k == 0 || k > n.children.len() {
    } else {
        let (st1, r1, any) = walk_children(st, recs, s, n, (k - 1) as nat, top);
        lemma_walk_children(st, recs, s, n, (k - 1) as nat, top, x);
        let c = n.children[k - 1];
        if keyed(c, "object"@) {
            let (st2, w1) = visit_object(st1, s, c);
            lemma_visit_object(st1, s, c, x);
            lemma_walk(st2, r1, s, c, false, x);
        }
    }
}

pub(crate) proof fn lemma_walk(st: SharedView, recs: Seq<EntityView>, s: Seq<char>, n: Tree, top: bool, x: Seq<char>)
    requires
        map_wf(st.planet_keys, st.planet_owners),
    ensures
        walk_effect(st, walk(st, recs, s, n, top).0, s, declares(n, x), x),
    decreases n, 1nat, 0nat,
{
    lemma_walk_children(st, recs, s, n, n.children.len(), top, x);
}

/// Whether `t` is a system declaration with a name and at least one child.
pub open spec fn is_system_decl(t: Tree) -> bool {
    t.tokens.len() >= 2 && t.tokens[0] == "system"@ && t.children.len() > 0
}

/// The system declarations among `ns`, in order.
pub open spec fn systems_in(ns: Seq<Tree>) -> Seq<Tree>
    decreases ns.len(),
{
    if ns.len() == 0 {
        Seq::empty()
    } else {
        let r = systems_in(ns.drop_last());
        if is_system_decl(ns.last()) {
            r.push(ns.last())
        } else {
            r
        }
    }
}

/// The system declarations inside the story events that the scan reads, in order.
pub open spec fn event_systems(roots: Seq<Tree>) -> Seq<Tree>
    decreases roots.len(),
{
    if roots.len() == 0 {
        Seq::empty()
    } else {
        let r = event_systems(roots.drop_last());
        if event_scanned(roots.last()) {
            r + systems_in(roots.last().children)
        } else {
            r
        }
    }
}

/// Every system declaration that the scan visits: the top-level ones, then those inside
/// story events.
pub open spec fn system_decls(roots: Seq<Tree>) -> Seq<Tree> {
    systems_in(roots) + event_systems(roots)
}

/// Whether two declarations among `v` with different names both contain an object
/// named `x`.
pub open spec fn held_by_two(v: Seq<Tree>, x: Seq<char>) -> bool {
    exists|k: int, l: int|
        0 <= k < v.len() && 0 <= l < v.len() && #[trigger] declares(v[k], x) && #[trigger] declares(
            v[l],
            x,
        ) && v[k].tokens[1] != v[l].tokens[1]
}

/// Whether some declaration among `v` contains an object named `x`.
pub open spec fn held(v: Seq<Tree>, x: Seq<char>) -> bool {
    exists|k: int| 0 <= k < v.len() && #[trigger] declares(v[k], x)
}

/// What the shared state says after visiting the system declarations `v`: the keys are
/// the object names seen, each owned by a declaration that holds it, and the wormholes
/// are the marked names and the names held under two different system names.
pub open spec fn owners_inv(st: SharedView, v: Seq<Tree>, marked: Seq<Seq<char>>) -> bool {
    &&& map_wf(st.planet_keys, st.planet_owners)
    &&& forall|x: Seq<char>| #[trigger] st.planet_keys.contains(x) == held(v, x)
    &&& forall|x: Seq<char>|
        #[trigger] map_get(st.planet_keys, st.planet_owners, x) is Some ==> exists|k: int|
            0 <= k < v.len() && #[trigger] declares(v[k], x) && v[k].tokens[1] == map_get(
                st.planet_keys,
                st.planet_owners,
                x,
            )->0
    &&& forall|x: Seq<char>| #[trigger]
        st.wormholes.contains(x) == (marked.contains(x) || held_by_two(v, x))
}

proof fn lemma_visit_system(st: SharedView, recs: Seq<EntityView>, v: Seq<Tree>, marked: Seq<Seq<char>>, n: Tree)
    requires
        owners_inv(st, v, marked),
        is_system_decl(n),
    ensures
        owners_inv(
            walk(SharedView { names: set_insert(st.names, n.tokens[1]), ..st }, recs, n.tokens[1], n, true).0,
            v.push(n),
            marked,
        ),
{
    let s = n.tokens[1];
    let st0 = SharedView { names: set_insert(st.names, s), ..st };
    let res = walk(st0, recs, s, n, true).0;
    let v2 = v.push(n);
    assert(v2[v.len() as int] == n);
    lemma_walk(st0, recs, s, n, true, Seq::empty());
    assert forall|x: Seq<char>| #[trigger] res.planet_keys.contains(x) == held(v2, x) by {
        lemma_walk(st0, recs, s, n, true, x);
        if held(v, x) {
            let k = choose|k: int| 0 <= k < v.len() && #[trigger] declares(v[k], x);
            assert(v2[k] == v[k]);
        }
        if held(v2, x) && !declares(n, x) {
            let k = choose|k: int| 0 <= k < v2.len() && #[trigger] declares(v2[k], x);
            assert(k < v.len());
            assert(v2[k] == v[k]);
        }
    }
    assert forall|x: Seq<char>| #[trigger] map_get(res.planet_keys, res.planet_owners, x) is Some implies exists|k: int|
            0 <= k < v2.len() && #[trigger] declares(v2[k], x) && v2[k].tokens[1] == map_get(
                res.planet_keys,
                res.planet_owners,
                x,
            )->0 by {
        lemma_walk(st0, recs, s, n, true, x);
        if !declares(n, x) {
            let k = choose|k: int|
                0 <= k < v.len() && #[trigger] declares(v[k], x) && v[k].tokens[1] == map_get(
                    st.planet_keys,
                    st.planet_owners,
                    x,
                )->0;
            assert(v2[k] == v[k]);
        }
    }
    assert forall|x: Seq<char>| #[trigger]
        res.wormholes.contains(x) == (marked.contains(x) || held_by_two(v2, x)) by {
        lemma_walk(st0, recs, s, n, true, x);
        let old_owner = map_get(st.planet_keys, st.planet_owners, x);
        if held_by_two(v, x) {
            let (k, l) = choose|k: int, l: int|
                0 <= k < v.len() && 0 <= l < v.len() && #[trigger] declares(v[k], x) && #[trigger] declares(
                    v[l],
                    x,
                ) && v[k].tokens[1] != v[l].tokens[1];
            assert(v2[k] == v[k] && v2[l] == v[l]);
            assert(held_by_two(v2, x));
        }
        if declares(n, x) && other_owner(old_owner, s) {
            let m = choose|m: int|
                0 <= m < v.len() && #[trigger] declares(v[m], x) && v[m].tokens[1] == old_owner->0;
            assert(v2[m] == v[m]);
            assert(declares(v2[v.len() as int], x));
            assert(held_by_two(v2, x));
        }
        if held_by_two(v2, x) && !held_by_two(v, x) {
            let (k, l) = choose|k: int, l: int|
                0 <= k < v2.len() && 0 <= l < v2.len() && #[trigger] declares(v2[k], x) && #[trigger] declares(
                    v2[l],
                    x,
                ) && v2[k].tokens[1] != v2[l].tokens[1];
            // one of the two is the new declaration, the other an earlier one
            let e = if k == v.len() as int { l } else { k };
            assert(e < v.len()) by {
                if k < v.len() && l < v.len() {
                    assert(v2[k] == v[k] && v2[l] == v[l]);
                    assert(held_by_two(v, x));
                }
            }
            assert(v2[e] == v[e]);
            assert(declares(n, x));
            assert(v[e].tokens[1] != s);
            assert(held(v, x));
            assert(st.planet_keys.contains(x));
            assert(old_owner is Some) by {
                assert(st.planet_keys.contains(x));
            }
            let m = choose|m: int|
                0 <= m < v.len() && #[trigger] declares(v[m], x) && v[m].tokens[1] == old_owner->0;
            if old_owner->0 == s {
                assert(v[m].tokens[1] != v[e].tokens[1]);
                assert(held_by_two(v, x));
            }
        }
    }
}

proof fn lemma_scan_nodes(
    st: SharedView,
    recs: Seq<EntityView>,
    ns: Seq<Tree>,
    in_event: bool,
    v: Seq<Tree>,
    marked: Seq<Seq<char>>,
)
    requires
        owners_inv(st, v, marked),
    ensures
        owners_inv(scan_nodes(st, recs, ns, in_event).0, v + systems_in(ns), marked),
    decreases ns.len(),
{
    if ns.len() == 0 {
        assert(v + systems_in(ns) =~= v);
    } else {
        let (st1, r1) = scan_nodes(st, recs, ns.drop_last(), in_event);
        lemma_scan_nodes(st, recs, ns.drop_last(), in_event, v, marked);
        let n = ns.last();
        let v1 = v + systems_in(ns.drop_last());
        if scanned(n, in_event) {
            if n.tokens[0] == "system"@ {
                reveal_strlit("system");
                reveal_strlit("link");
                reveal_strlit("unlink");
                assert("system"@.len() != "link"@.len() && "system"@[0] != "unlink"@[0]);
                lemma_visit_system(st1, r1, v1, marked, n);
                assert(v + systems_in(ns) =~= v1.push(n));
            } else {
                assert(v + systems_in(ns) =~= v1);
            }
        } else {
            assert(v + systems_in(ns) =~= v1);
        }
    }
}

proof fn lemma_scan_events(
    st: SharedView,
    evs: Seq<(Seq<char>, Seq<EntityView>)>,
    roots: Seq<Tree>,
    v: Seq<Tree>,
    marked: Seq<Seq<char>>,
)
    requires
        owners_inv(st, v, marked),
    ensures
        owners_inv(scan_events(st, evs, roots).0, v + event_systems(roots), marked),
    decreases roots.len(),
{
    if roots.len() == 0 {
        assert(v + event_systems(roots) =~= v);
    } else {
        let (st1, e1) = scan_events(st, evs, roots.drop_last());
        lemma_scan_events(st, evs, roots.drop_last(), v, marked);
        let t = roots.last();
        let v1 = v + event_systems(roots.drop_last());
        if event_scanned(t) {
            lemma_scan_nodes(st1, Seq::empty(), t.children, true, v1, marked);
            assert(v + event_systems(roots) =~= v1 + systems_in(t.children));
        } else {
            assert(v + event_systems(roots) =~= v1);
        }
    }
}

/// Wormhole detection: a name that two system declarations with different names both
/// hold as an object, at any depth and in the baseline or in a story event, is a wormhole;
/// a name that only declarations of a single system hold is not, unless a planet of that
/// name declares itself a wormhole.
pub proof fn lemma_wormhole_detection(roots: Seq<Tree>, x: Seq<char>)
    ensures
        held_by_two(system_decls(roots), x) ==> baseline(roots).wormholes.contains(x),
        !held_by_two(system_decls(roots), x) && !marked_wormholes(Seq::empty(), roots).contains(x)
            ==> !baseline(roots).wormholes.contains(x),
{
    let marked = marked_wormholes(Seq::empty(), roots);
    let st0 = initial_state(roots);
    assert(owners_inv(st0, Seq::empty(), marked)) by {
        assert(Seq::<Seq<char>>::empty().no_duplicates());
        assert forall|y: Seq<char>| #[trigger] st0.planet_keys.contains(y) == held(Seq::<Tree>::empty(), y) by {}
        assert forall|y: Seq<char>| #[trigger] st0.wormholes.contains(y) == (marked.contains(y) || held_by_two(Seq::<Tree>::empty(), y)) by {}
    }
    let (st1, recs) = scan_nodes(st0, Seq::empty(), roots, false);
    lemma_scan_nodes(st0, Seq::empty(), roots, false, Seq::empty(), marked);
    assert(Seq::<Tree>::empty() + systems_in(roots) =~= systems_in(roots));
    lemma_scan_events(st1, Seq::empty(), roots, systems_in(roots), marked);
    let st2 = scan_events(st1, Seq::empty(), roots).0;
    assert(st2.wormholes.contains(x) == (marked.contains(x) || held_by_two(system_decls(roots), x)));
}

} // verus!
