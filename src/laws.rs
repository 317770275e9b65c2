use vstd::prelude::*;

use crate::delta::{entity_event_part, has_block, renamed_all, delta_for, is_adding, link_delta, link_head, object_delta, other_delta};
use crate::dispatcher::{event_flag, scoped, side_conditions};
use crate::missions::{main_mission_tree, offer_condition, SystemShufflerConfig};
use crate::records::{renamed, NodeAction, SwapView};
use crate::system_shuffler::{shuffler_package, swap_targets, swaps_of};
use crate::tree::{leaf_tree, tree, Tree};
use crate::zippy::{archive_bytes, item_entries, ArchiveItem};
use crate::extract::{entity_pos, entity_with, has_key, kinds_unique, persist_spec, records_wf};
use crate::records::{AttributeView, EntityView};
use crate::wandom::{
    fisher_yates, identity_order, is_permutation_of_range, pow2_floor, rand_range_spec,
    lemma_swap_keeps_permutation, shuffle_spec, XoState,
};

verus! {

proof fn lemma_pow2_floor_bounds(x: nat)
    ensures
        1 <= pow2_floor(x),
        x >= 1 ==> pow2_floor(x) <= x,
    decreases x,
{
    if x >= 2 {
        lemma_pow2_floor_bounds(x / 2);
    }
}

proof fn lemma_draw_below(s: XoState, bound: u64)
    requires
        bound >= 1,
    ensures
        rand_range_spec(s, 0, bound).0 < bound,
{
    if bound >= 2 {
        lemma_pow2_floor_bounds(bound as nat);
    }
}

proof fn lemma_fisher_yates_permutation(v: Seq<usize>, s: XoState, i: nat, n: nat)
    requires
        is_permutation_of_range(v, n),
        i < n,
        n <= usize::MAX,
    ensures
        is_permutation_of_range(fisher_yates(v, s, i), n),
    decreases i,
{
    if i > 0 {
        let (j, s2) = rand_range_spec(s, 0, (i + 1) as u64);
        lemma_draw_below(s, (i + 1) as u64);
        lemma_swap_keeps_permutation(v, n, i as int, j as int);
        lemma_fisher_yates_permutation(
            v.update(i as int, v[j as int]).update(j as int, v[i as int]),
            s2,
            (i - 1) as nat,
            n,
        );
    }
}

/// Every preset's order of positions is a permutation: it lists each position of the
/// collection exactly once, for every seed.
pub proof fn lemma_shuffle_is_permutation(n: nat, seed: usize)
    requires
        n <= usize::MAX,
    ensures
        is_permutation_of_range(shuffle_spec(n, seed), n),
{
    if n > 0 {
        let v = identity_order(n);
        assert forall|x: int| 0 <= x < n implies #[trigger] v.contains(x as usize) by {
            assert(v[x] == x as usize);
        }
        assert forall|k: int| 0 <= k < n implies #[trigger] v[k] < n by {
            assert(v[k] == k as usize);
        }
        assert forall|a: int, b: int| 0 <= a < n && 0 <= b < n && a != b implies v[a] != v[b] by {
            assert(v[a] == a as usize && v[b] == b as usize);
        }
        lemma_fisher_yates_permutation(v, crate::wandom::seeded_state(seed as u64), (n - 1) as nat, n);
    }
}

/// For every seed and every preset, the name map is total over the extracted names: it
/// gives each name a target among the names, and each name is the target of some name.
pub proof fn lemma_preset_names_total(names: Seq<Seq<char>>, seed: usize, i: usize)
    requires
        names.len() <= usize::MAX,
    ensures
        swap_targets(names, seed, i).len() == names.len(),
        forall|k: int| 0 <= k < names.len() ==> names.contains(#[trigger] swap_targets(names, seed, i)[k]),
        forall|k: int| 0 <= k < names.len() ==> swap_targets(names, seed, i).contains(#[trigger] names[k]),
{
    let t = swap_targets(names, seed, i);
    if i != 0 {
        let p = shuffle_spec(names.len(), crate::system_shuffler::preset_seed(seed, i));
        lemma_shuffle_is_permutation(names.len(), crate::system_shuffler::preset_seed(seed, i));
        assert forall|k: int| 0 <= k < names.len() implies names.contains(#[trigger] t[k]) by {
            assert(t[k] == names[p[k] as int]);
        }
        assert forall|k: int| 0 <= k < names.len() implies t.contains(#[trigger] names[k]) by {
            assert(p.contains(k as usize));
            let y = choose|y: int| 0 <= y < p.len() && p[y] == k as usize;
            assert(t[y] == names[k]);
        }
    } else {
        assert forall|k: int| 0 <= k < names.len() implies names.contains(#[trigger] t[k]) by {
            assert(t[k] == names[k]);
        }
        assert forall|k: int| 0 <= k < names.len() implies t.contains(#[trigger] names[k]) by {
            assert(t[k] == names[k]);
        }
    }
}

proof fn lemma_renamed_by_itself(names: Seq<Seq<char>>, l: Seq<char>)
    ensures
        renamed(names, names, l) == l,
    decreases names.len(),
{
    if names.len() > 0 && names[0] != l {
        lemma_renamed_by_itself(names.drop_first(), l);
    }
}

/// Preset 0 is the identity: it shows every name, system or not, as itself, so its
/// blocks and link bodies name the systems of the baseline.
pub proof fn lemma_preset_zero_is_identity(names: Seq<Seq<char>>, seed: usize, l: Seq<char>)
    ensures
        swap_targets(names, seed, 0) == names,
        swaps_of(names, seed, 0).rename(l) == l,
{
    lemma_renamed_by_itself(names, l);
}

/// At preset 0 every entity block is headed by the entity's own kind and name, and every
/// link body names the baseline targets unchanged.
pub proof fn lemma_preset_zero_keeps_names(
    names: Seq<Seq<char>>,
    seed: usize,
    e: EntityView,
    activate: bool,
    body: Seq<Seq<char>>,
)
    ensures
        has_block(e, swaps_of(names, seed, 0)) ==> entity_event_part(
            e,
            activate,
            swaps_of(names, seed, 0),
        )[0].tokens == seq![e.kind, e.name],
        renamed_all(swaps_of(names, seed, 0), body) == body,
{
    lemma_renamed_by_itself(names, e.name);
    assert forall|k: int| 0 <= k < body.len() implies #[trigger] renamed_all(
        swaps_of(names, seed, 0),
        body,
    )[k] == body[k] by {
        lemma_renamed_by_itself(names, body[k]);
    }
    assert(renamed_all(swaps_of(names, seed, 0), body) =~= body);
}

/// Generation is a function of its input: two runs on equal declarations with equal
/// settings give equal packages.
pub proof fn lemma_generation_deterministic(
    a: Seq<Tree>,
    b: Seq<Tree>,
    ca: SystemShufflerConfig,
    cb: SystemShufflerConfig,
)
    requires
        a == b,
        ca == cb,
    ensures
        shuffler_package(a, ca) == shuffler_package(b, cb),
{
}

/// Packing is a function of what is packed: equal items give byte-identical archives.
pub proof fn lemma_archive_deterministic(a: Seq<ArchiveItem>, b: Seq<ArchiveItem>)
    requires
        item_entries(a) == item_entries(b),
    ensures
        archive_bytes(item_entries(a)) == archive_bytes(item_entries(b)),
{
}

/// Every baseline declaration is put in place in exactly one direction and reverted in the
/// other; a link is toggled with one body in both directions, its keyword flipped (except
/// that a wormhole's links are cleared whole on restoration); an object is added in one
/// direction and removed in the other; and a flag is written out in one direction and
/// removed by kind in the other.
pub proof fn lemma_toggle_round_trip(
    entity_kind: Seq<char>,
    attribute_kind: Seq<char>,
    t: Tree,
    action: NodeAction,
    swaps: SwapView,
)
    ensures
        is_adding(true, action) == !is_adding(false, action),
        link_head(entity_kind, true) != link_head(entity_kind, false),
        entity_kind != "wormhole"@ ==> link_delta(entity_kind, attribute_kind, t, true, swaps).tokens.skip(
            link_head(entity_kind, true).len() as int,
        ) == link_delta(entity_kind, attribute_kind, t, false, swaps).tokens.skip(
            link_head(entity_kind, false).len() as int,
        ),
        object_delta(t, true).tokens[0] == "add"@,
        object_delta(t, false).tokens[0] == "remove"@,
        object_delta(t, true).tokens.drop_first() == object_delta(t, false).tokens.drop_first(),
        other_delta(attribute_kind, t, false) == leaf_tree(seq!["remove"@, attribute_kind]),
{
    reveal_strlit("link");
    reveal_strlit("unlink");
    reveal_strlit("add");
    reveal_strlit("remove");
    assert("link"@[0] != "unlink"@[0]);
    assert("add"@.len() != "remove"@.len());
    let h1 = link_head(entity_kind, true);
    let h0 = link_head(entity_kind, false);
    if crate::delta::is_link_kind(entity_kind) {
        assert(h1[0] != h0[0]);
    } else {
        assert(h1[0] != h0[0]);
    }
    let b = link_delta(entity_kind, attribute_kind, t, true, swaps).tokens;
    let c = link_delta(entity_kind, attribute_kind, t, false, swaps).tokens;
    assert(b.skip(h1.len() as int) =~= c.skip(h0.len() as int) || entity_kind == "wormhole"@);
    assert(object_delta(t, true).tokens.drop_first() =~= object_delta(t, false).tokens.drop_first());
}

/// Restoring a jump range that the baseline declares (rather than removes) always
/// gives the explicit `jump range 0`, never a removal.
pub proof fn lemma_jump_range_restores_to_zero(
    entity_kind: Seq<char>,
    t: Tree,
    action: NodeAction,
    swaps: SwapView,
)
    requires
        action == NodeAction::Add || action == NodeAction::ClearAdd,
    ensures
        delta_for(entity_kind, "jump range"@, t, crate::delta::is_adding(false, action), swaps)
            == leaf_tree(seq!["jump range"@, "0"@]),
{
    reveal_strlit("pos");
    reveal_strlit("jump range");
    assert("jump range"@.len() != "pos"@.len());
}

/// With no chance, no fixed interval and no shuffle on installation, the reshuffle
/// mission is offered under a bare `never`, never under an `or`.
pub proof fn lemma_disabled_reshuffle_is_never(cfg: SystemShufflerConfig, keys: Seq<Seq<char>>)
    requires
        cfg.shuffle_chance == 0,
        cfg.fixed_shuffle_days == 0,
        !cfg.shuffle_once_on_install,
    ensures
        offer_condition(cfg) == leaf_tree(seq!["never"@]),
        main_mission_tree(cfg, keys).children[5] == tree(
            seq!["to"@, "offer"@],
            seq![leaf_tree(seq!["never"@])],
        ),
{
}

/// The value of condition variable `v`; a variable never assigned is 0.
pub open spec fn value_of(st: Map<Seq<char>, int>, v: Seq<char>) -> int {
    if st.contains_key(v) {
        st[v]
    } else {
        0
    }
}

/// The effect of one action line on the condition variables: `<v> = 0` and
/// `<v> = <w>` assign; any other line (an event trigger, for one) assigns nothing.
pub open spec fn assign(st: Map<Seq<char>, int>, t: Tree) -> Map<Seq<char>, int> {
    if t.tokens.len() == 3 && t.tokens[1] == "="@ {
        if t.tokens[2] == "0"@ {
            st.insert(t.tokens[0], 0)
        } else {
            st.insert(t.tokens[0], value_of(st, t.tokens[2]))
        }
    } else {
        st
    }
}

/// The effect of a sequence of action lines, in order.
pub open spec fn run(st: Map<Seq<char>, int>, ts: Seq<Tree>) -> Map<Seq<char>, int>
    decreases ts.len(),
{
    if ts.len() == 0 {
        st
    } else {
        run(assign(st, ts[0]), ts.drop_first())
    }
}

proof fn lemma_run_two(st: Map<Seq<char>, int>, a: Tree, b: Tree)
    ensures
        run(st, seq![a, b]) == assign(assign(st, a), b),
{
    assert(seq![a, b].drop_first() =~= seq![b]);
    assert(seq![b].drop_first() =~= Seq::<Tree>::empty());
    let m = assign(st, a);
    assert(run(st, seq![a, b]) == run(m, seq![b]));
    assert(run(m, seq![b]) == run(assign(m, b), Seq::<Tree>::empty()));
}

/// Toggling a story event's side delta on and then off (or off and then on) in the same
/// preset gives every condition variable back the value it had before, provided the
/// shadow variable matched the state toggled from: 0 before an activation, the story
/// event's own value before a restoration.
pub proof fn lemma_side_delta_round_trip(
    e: Seq<char>,
    restore_name: Seq<char>,
    activate_name: Seq<char>,
    invert: bool,
    st: Map<Seq<char>, int>,
    v: Seq<char>,
)
    ensures
        ({
            let shadow = event_flag(scoped(activate_name, e));
            let on = side_conditions(e, restore_name, activate_name, true, invert).1;
            let off = side_conditions(e, restore_name, activate_name, false, invert).1;
            &&& value_of(st, shadow) == 0 ==> value_of(run(run(st, on), off), v) == value_of(st, v)
            &&& value_of(st, shadow) == value_of(st, event_flag(e)) ==> value_of(
                run(run(st, off), on),
                v,
            ) == value_of(st, v)
        }),
{
    reveal_strlit("=");
    reveal_strlit("0");
    reveal_strlit("event: ");
    reveal_strlit(": ");
    let shadow = event_flag(scoped(activate_name, e));
    let on = side_conditions(e, restore_name, activate_name, true, invert).1;
    let off = side_conditions(e, restore_name, activate_name, false, invert).1;
    assert(scoped(activate_name, e).len() >= 2);
    assert(scoped(restore_name, e).len() >= 2);
    assert(event_flag(e).len() >= 7);
    assert(shadow.len() > event_flag(e).len());
    assert(scoped(activate_name, e) != "="@);
    assert(scoped(restore_name, e) != "="@);
    assert(event_flag(e) != "0"@);
    assert(shadow != event_flag(e));
    lemma_run_two(st, on[0], on[1]);
    lemma_run_two(run(st, on), off[0], off[1]);
    lemma_run_two(st, off[0], off[1]);
    lemma_run_two(run(st, off), on[0], on[1]);
}

proof fn lemma_entity_pos_range(es: Seq<EntityView>, kind: Seq<char>, name: Seq<char>, i: int)
    requires
        0 <= i <= es.len(),
    ensures
        i <= entity_pos(es, kind, name, i) <= es.len(),
    decreases es.len() - i,
{
    if i < es.len() && !crate::order::pair_less((kind, name), (es[i].kind, es[i].name)) {
        lemma_entity_pos_range(es, kind, name, i + 1);
    }
}

proof fn lemma_entity_with_twice(e: EntityView, a: Seq<char>, rec: (NodeAction, Tree))
    requires
        kinds_unique(e),
    ensures
        entity_with(entity_with(e, a, rec), a, rec) == entity_with(e, a, rec),
        entity_with(e, a, rec).kind == e.kind,
        entity_with(e, a, rec).name == e.name,
{
    let e1 = entity_with(e, a, rec);
    if exists|j: int| 0 <= j < e.attributes.len() && e.attributes[j].kind == a {
        let j = choose|j: int| 0 <= j < e.attributes.len() && e.attributes[j].kind == a;
        if !e.attributes[j].records.contains(rec) {
            assert(e1.attributes[j].kind == a);
            let j2 = choose|x: int| 0 <= x < e1.attributes.len() && e1.attributes[x].kind == a;
            assert(j2 == j) by {
                if j2 != j {
                    assert(e1.attributes[j2] == e.attributes[j2]);
                    assert(e.attributes[j2].kind != e.attributes[j].kind);
                }
            }
            assert(e1.attributes[j].records[e.attributes[j].records.len() as int] == rec);
            assert(e1.attributes[j].records.contains(rec));
        }
    } else {
        let last = e.attributes.len() as int;
        assert(e1.attributes[last].kind == a);
        let j2 = choose|x: int| 0 <= x < e1.attributes.len() && e1.attributes[x].kind == a;
        assert(j2 == last) by {
            if j2 != last {
                assert(e1.attributes[j2] == e.attributes[j2]);
            }
        }
        assert(e1.attributes[last].records[0] == rec);
        assert(e1.attributes[last].records.contains(rec));
    }
}

/// Adding a record is idempotent: a declaration reached twice leaves the same records as
/// one reached once, since a record equal to one already held is not added again.
pub proof fn lemma_persist_idempotent(
    es: Seq<EntityView>,
    kind: Seq<char>,
    name: Seq<char>,
    a: Seq<char>,
    rec: (NodeAction, Tree),
)
    requires
        records_wf(es),
    ensures
        persist_spec(persist_spec(es, kind, name, a, rec), kind, name, a, rec) == persist_spec(
            es,
            kind,
            name,
            a,
            rec,
        ),
{
    let es1 = persist_spec(es, kind, name, a, rec);
    if exists|i: int| 0 <= i < es.len() && has_key(es[i], kind, name) {
        let i = choose|i: int| 0 <= i < es.len() && has_key(es[i], kind, name);
        assert(kinds_unique(es[i]));
        lemma_entity_with_twice(es[i], a, rec);
        assert(has_key(es1[i], kind, name));
        let i2 = choose|x: int| 0 <= x < es1.len() && has_key(es1[x], kind, name);
        assert(i2 == i) by {
            if i2 != i {
                assert(es1[i2] == es[i2]);
                assert(!has_key(es[i2], es[i].kind, es[i].name));
            }
        }
        assert(es1.update(i, entity_with(es1[i], a, rec)) =~= es1);
    } else {
        let p = entity_pos(es, kind, name, 0);
        lemma_entity_pos_range(es, kind, name, 0);
        let e = EntityView {
            kind,
            name,
            attributes: seq![AttributeView { kind: a, records: seq![rec] }],
        };
        assert(es1 == es.insert(p, e));
        assert(es1[p] == e);
        assert(has_key(es1[p], kind, name));
        let i2 = choose|x: int| 0 <= x < es1.len() && has_key(es1[x], kind, name);
        assert(i2 == p) by {
            if i2 < p {
                assert(es1[i2] == es[i2]);
            } else if i2 > p {
                assert(es1[i2] == es[i2 - 1]);
            }
        }
        assert(e.attributes[0].kind == a);
        let j2 = choose|x: int| 0 <= x < e.attributes.len() && e.attributes[x].kind == a;
        assert(j2 == 0);
        assert(e.attributes[0].records[0] == rec);
        assert(e.attributes[0].records.contains(rec));
        assert(entity_with(e, a, rec) == e);
        assert(es1.update(p, entity_with(es1[p], a, rec)) =~= es1);
    }
}

} // verus!
