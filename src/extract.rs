use vstd::prelude::*;

use crate::records::{
    entity_views, AttributeRecord, AttributeRecords, AttributeView, EntityRecords, EntityView,
    NodeAction,
};
use crate::order::{pair_less, pair_lt, sorted_pos, sorted_position};
use crate::tree::{clone_node, is_text, same_node, same_text, text, texts, DataNode, Tree};
use crate::records::action_of;

verus! {

/// `s` with `x` inserted at its sorted position unless it is already there.
pub open spec fn set_insert(s: Seq<Seq<char>>, x: Seq<char>) -> Seq<Seq<char>> {
    if s.contains(x) {
        s
    } else {
        s.insert(sorted_pos(s, x, 0), x)
    }
}

/// A set of names, kept in lexicographic order when only `insert` adds to it.
pub struct NameSet {
    pub items: Vec<String>,
}

impl View for NameSet {
    type V = Seq<Seq<char>>;

    open spec fn view(&self) -> Seq<Seq<char>> {
        texts(self.items@)
    }
}

/// The position of `x` in `s`, when it is there.
fn position(s: &Vec<String>, x: &String) -> (r: Option<usize>)
    ensures
        r is None ==> !texts(s@).contains(x@),
        r matches Some(i) ==> i < s@.len() && texts(s@)[i as int] == x@ && forall|j: int|
            0 <= j < i ==> texts(s@)[j] != x@,
{
    let mut i: usize = 0;
    while i < s.len()
        invariant
            i <= s@.len(),
            forall|j: int| 0 <= j < i ==> texts(s@)[j] != x@,
        decreases s@.len() - i,
    {
        if same_text(&s[i], x) {
            return Some(i);
        }
        i = i + 1;
    }
    assert forall|j: int| 0 <= j < texts(s@).len() implies texts(s@)[j] != x@ by {}
    None
}

impl NameSet {
    /// No name twice, in ascending order.
    pub open spec fn wf(&self) -> bool {
        self@.no_duplicates() && crate::order::texts_sorted(self@)
    }

    /// The empty set.
    pub fn new() -> (r: Self)
        ensures
            r@ == Seq::<Seq<char>>::empty(),
            r.wf(),
    {
        let r = NameSet { items: Vec::new() };
        assert(r@ =~= Seq::<Seq<char>>::empty());
        r
    }

    /// Whether `x` is in the set.
    pub fn contains(&self, x: &String) -> (r: bool)
        ensures
            r == self@.contains(x@),
    {
        position(&self.items, x).is_some()
    }

    /// Adds `x` at its sorted position unless it is already there.
    pub fn insert(&mut self, x: &String)
        requires
            old(self).wf(),
        ensures
            final(self)@ == set_insert(old(self)@, x@),
            final(self).wf(),
    {
        if !self.contains(x) {
            let ghost before = self@;
            let p = sorted_position(&self.items, x);
            self.items.insert(p, x.clone());
            assert(self@ =~= before.insert(p as int, x@));
            assert(self@.no_duplicates()) by {
                let s = self@;
                assert forall|a: int, b: int| 0 <= a < s.len() && 0 <= b < s.len() && a != b implies s[a]
                    != s[b] by {
                    if a != p as int && b != p as int {
                        let oa = if a < p { a } else { a - 1 };
                        let ob = if b < p { b } else { b - 1 };
                        assert(s[a] == before[oa] && s[b] == before[ob]);
                    } else if a == p as int {
                        let ob = if b < p { b } else { b - 1 };
                        assert(s[b] == before[ob]);
                    } else {
                        let oa = if a < p { a } else { a - 1 };
                        assert(s[a] == before[oa]);
                    }
                }
            }
            assert(crate::order::texts_sorted(self@)) by {
                let s = self@;
                crate::order::lemma_sorted_pos_split(before, x@, 0);
                assert forall|a: int, b: int| 0 <= a < b < s.len() implies crate::order::text_less(
                    #[trigger] s[a],
                    #[trigger] s[b],
                ) by {
                    if b < p {
                        assert(s[a] == before[a] && s[b] == before[b]);
                    } else if a > p {
                        assert(s[a] == before[a - 1] && s[b] == before[b - 1]);
                    } else if a < p && b > p {
                        assert(s[a] == before[a] && s[b] == before[b - 1]);
                    } else if b == p as int {
                        assert(s[a] == before[a]);
                        assert(!crate::order::text_less(x@, before[a]));
                        assert(before[a] != x@);
                        crate::order::lemma_text_less_order(x@, before[a], x@);
                    } else {
                        assert(s[b] == before[b - 1]);
                        if b - 1 > p {
                            assert(crate::order::text_less(before[p as int], before[b - 1]));
                            crate::order::lemma_text_less_order(x@, before[p as int], before[b - 1]);
                        }
                    }
                }
            }
        }
    }
}

/// The value that `keys` / `values` give to `k`, when `k` is among the keys.
pub open spec fn map_get(keys: Seq<Seq<char>>, values: Seq<Seq<char>>, k: Seq<char>) -> Option<
    Seq<char>,
> {
    if keys.contains(k) {
        Some(values[keys.index_of(k)])
    } else {
        None
    }
}

/// `keys` / `values` with the value of `k` set to `v`: in place when `k` is a key, else
/// as a new last key.
pub open spec fn map_put(keys: Seq<Seq<char>>, values: Seq<Seq<char>>, k: Seq<char>, v: Seq<char>) -> (
    Seq<Seq<char>>,
    Seq<Seq<char>>,
) {
    if keys.contains(k) {
        (keys, values.update(keys.index_of(k), v))
    } else {
        (keys.push(k), values.push(v))
    }
}

/// A map from names to names that keeps its keys in the order in which they were added.
pub struct NameMap {
    pub keys: Vec<String>,
    pub values: Vec<String>,
}

impl NameMap {
    /// As many values as keys, and no key twice.
    pub open spec fn wf(&self) -> bool {
        &&& self.keys@.len() == self.values@.len()
        &&& texts(self.keys@).no_duplicates()
    }

    /// The keys, in order.
    pub open spec fn key_view(&self) -> Seq<Seq<char>> {
        texts(self.keys@)
    }

    /// The values, in the order of their keys.
    pub open spec fn value_view(&self) -> Seq<Seq<char>> {
        texts(self.values@)
    }

    /// The value of `k`, when it is a key.
    pub open spec fn get_spec(&self, k: Seq<char>) -> Option<Seq<char>> {
        map_get(self.key_view(), self.value_view(), k)
    }

    /// The empty map.
    pub fn new() -> (r: Self)
        ensures
            r.wf(),
            r.key_view() == Seq::<Seq<char>>::empty(),
            r.value_view() == Seq::<Seq<char>>::empty(),
    {
        let r = NameMap { keys: Vec::new(), values: Vec::new() };
        assert(r.key_view() =~= Seq::<Seq<char>>::empty());
        assert(r.value_view() =~= Seq::<Seq<char>>::empty());
        r
    }

    /// The value of `k`, when it is a key.
    pub fn get(&self, k: &String) -> (r: Option<String>)
        requires
            self.wf(),
        ensures
            r matches Some(v) ==> self.get_spec(k@) == Some(v@),
            r is None ==> self.get_spec(k@) is None,
    {
        match position(&self.keys, k) {
            Some(i) => {
                assert(self.key_view().index_of(k@) == i) by {
                    assert(self.key_view().contains(k@));
                }
                Some(self.values[i].clone())
            },
            None => None,
        }
    }

    /// Sets the value of `k` to `v`: in place when `k` is a key, else as a new last key.
    pub fn insert(&mut self, k: &String, v: &String)
        requires
            old(self).wf(),
        ensures
            final(self).wf(),
            old(self).key_view().contains(k@) ==> final(self).key_view() == old(self).key_view()
                && final(self).value_view() == old(self).value_view().update(
                old(self).key_view().index_of(k@),
                v@,
            ),
            !old(self).key_view().contains(k@) ==> final(self).key_view() == old(
                self,
            ).key_view().push(k@) && final(self).value_view() == old(self).value_view().push(v@),
    {
        let ghost kv = self.key_view();
        let ghost vv = self.value_view();
        match position(&self.keys, k) {
            Some(i) => {
                assert(kv.index_of(k@) == i) by {
                    assert(kv.contains(k@));
                }
                self.values[i] = v.clone();
                assert(self.value_view() =~= vv.update(i as int, v@));
                assert(self.key_view() =~= kv);
            },
            None => {
                self.keys.push(k.clone());
                self.values.push(v.clone());
                assert(self.key_view() =~= kv.push(k@));
                assert(self.value_view() =~= vv.push(v@));
            },
        }
    }
}

/// Whether entity `e` has the key `(kind, name)`.
pub open spec fn has_key(e: EntityView, kind: Seq<char>, name: Seq<char>) -> bool {
    e.kind == kind && e.name == name
}

/// Whether no two entities share a key, no entity holds two lists of one kind or a record
/// twice, and the entities are in ascending order of their keys.
pub open spec fn records_wf(es: Seq<EntityView>) -> bool {
    &&& forall|i: int, j: int|
        0 <= i < es.len() && 0 <= j < es.len() && i != j ==> !has_key(
            es[j],
            es[i].kind,
            es[i].name,
        )
    &&& forall|i: int| 0 <= i < es.len() ==> kinds_unique(#[trigger] es[i])
    &&& forall|i: int, j: int|
        0 <= i < j < es.len() ==> pair_less(key_of(#[trigger] es[i]), key_of(#[trigger] es[j]))
}

/// The key of an entity: its kind, then its name.
pub open spec fn key_of(e: EntityView) -> (Seq<char>, Seq<char>) {
    (e.kind, e.name)
}

proof fn lemma_entity_pos_split(es: Seq<EntityView>, kind: Seq<char>, name: Seq<char>, i: int)
    requires
        0 <= i <= es.len(),
    ensures
        i <= entity_pos(es, kind, name, i) <= es.len(),
        forall|x: int|
            i <= x < entity_pos(es, kind, name, i) ==> !pair_less((kind, name), key_of(es[x])),
        entity_pos(es, kind, name, i) < es.len() ==> pair_less(
            (kind, name),
            key_of(es[entity_pos(es, kind, name, i)]),
        ),
    decreases es.len() - i,
{
    if i < es.len() && !pair_less((kind, name), (es[i].kind, es[i].name)) {
        lemma_entity_pos_split(es, kind, name, i + 1);
    }
}

/// Whether no two attribute lists of `e` have the same kind, and no list holds a record
/// twice.
pub open spec fn kinds_unique(e: EntityView) -> bool {
    &&& forall|a: int, b: int|
        0 <= a < e.attributes.len() && 0 <= b < e.attributes.len() && a != b
            ==> #[trigger] e.attributes[a].kind != #[trigger] e.attributes[b].kind
    &&& forall|a: int| 0 <= a < e.attributes.len() ==> (#[trigger] e.attributes[a]).records.no_duplicates()
}

/// `e` with `rec` added to its list of kind `a`, which is created when missing. A record
/// equal to one the list already holds (same action, same declaration) is not added again.
pub open spec fn entity_with(e: EntityView, a: Seq<char>, rec: (NodeAction, Tree)) -> EntityView {
    if exists|j: int| 0 <= j < e.attributes.len() && e.attributes[j].kind == a {
        let j = choose|j: int| 0 <= j < e.attributes.len() && e.attributes[j].kind == a;
        if e.attributes[j].records.contains(rec) {
            e
        } else {
        EntityView {
            attributes: e.attributes.update(
                j,
                AttributeView { kind: a, records: e.attributes[j].records.push(rec) },
            ),
            ..e
        }
        }
    } else {
        EntityView {
            attributes: e.attributes.push(AttributeView { kind: a, records: seq![rec] }),
            ..e
        }
    }
}

/// The records after adding `rec` under entity `(kind, name)` and attribute kind `a`.
pub open spec fn persist_spec(
    es: Seq<EntityView>,
    kind: Seq<char>,
    name: Seq<char>,
    a: Seq<char>,
    rec: (NodeAction, Tree),
) -> Seq<EntityView> {
    if exists|i: int| 0 <= i < es.len() && has_key(es[i], kind, name) {
        let i = choose|i: int| 0 <= i < es.len() && has_key(es[i], kind, name);
        es.update(i, entity_with(es[i], a, rec))
    } else {
        es.insert(
            entity_pos(es, kind, name, 0),
            EntityView {
                kind,
                name,
                attributes: seq![AttributeView { kind: a, records: seq![rec] }],
            },
        )
    }
}

/// The first position from `i` on whose entity key comes after `(kind, name)`, or the
/// length.
pub open spec fn entity_pos(es: Seq<EntityView>, kind: Seq<char>, name: Seq<char>, i: int) -> int
    decreases es.len() - i,
{
    if i < 0 || i >= es.len() {
        es.len() as int
    } else if pair_less((kind, name), (es[i].kind, es[i].name)) {
        i
    } else {
        entity_pos(es, kind, name, i + 1)
    }
}

/// Whether `list` already holds a record equal to `rec`.
fn holds_record(list: &AttributeRecords, rec: &AttributeRecord) -> (r: bool)
    ensures
        r == list@.records.contains(rec@),
{
    let mut k: usize = 0;
    while k < list.records.len()
        invariant
            k <= list.records@.len(),
            forall|x: int| 0 <= x < k ==> list@.records[x] != rec@,
        decreases list.records@.len() - k,
    {
        assert(list@.records[k as int] == list.records@[k as int]@);
        if list.records[k].action == rec.action && same_node(&list.records[k].node, &rec.node) {
            return true;
        }
        k = k + 1;
    }
    false
}

fn add_to_entity(e: &mut EntityRecords, a: &String, rec: AttributeRecord)
    requires
        kinds_unique(old(e)@),
    ensures
        final(e)@ == entity_with(old(e)@, a@, rec@),
        kinds_unique(final(e)@),
{
    let ghost ev = e@;
    let mut j: usize = 0;
    let mut found = false;
    while j < e.attributes.len() && !found
        invariant
            j <= e.attributes@.len(),
            e@ == ev,
            kinds_unique(ev),
            found ==> j < ev.attributes.len() && ev.attributes[j as int].kind == a@,
            forall|x: int| 0 <= x < j ==> ev.attributes[x].kind != a@,
        decreases e.attributes@.len() - j, if found { 0int } else { 1int },
    {
        assert(ev.attributes[j as int] == e.attributes@[j as int]@);
        if same_text(&e.attributes[j].kind, a) {
            found = true;
        } else {
            j = j + 1;
        }
    }
    if found {
        let ghost x = choose|x: int| 0 <= x < ev.attributes.len() && ev.attributes[x].kind == a@;
        assert(x == j as int) by {
            if x != j as int {
                assert(ev.attributes[x].kind != ev.attributes[j as int].kind);
            }
        }
        let ghost before = e.attributes@[j as int]@;
        assert(before == ev.attributes[j as int]);
        let mut list = e.attributes.remove(j);
        assert(list@ == before);
        if holds_record(&list, &rec) {
            e.attributes.insert(j, list);
            assert(e@.attributes =~= ev.attributes);
        } else {
            list.records.push(rec);
            assert(list@.records =~= before.records.push(rec@));
            assert(list@.records.no_duplicates()) by {
                assert(before.records.no_duplicates());
                assert forall|x: int, y: int|
                    0 <= x < list@.records.len() && 0 <= y < list@.records.len() && x != y implies list@.records[x]
                        != list@.records[y] by {
                    if x == before.records.len() as int {
                        assert(!before.records.contains(rec@));
                        assert(list@.records[y] == before.records[y]);
                    } else if y == before.records.len() as int {
                        assert(!before.records.contains(rec@));
                        assert(list@.records[x] == before.records[x]);
                    }
                }
            }
            e.attributes.insert(j, list);
            assert(e@.attributes =~= entity_with(ev, a@, rec@).attributes);
            assert(forall|x: int| 0 <= x < e@.attributes.len() && x != j ==> e@.attributes[x] == ev.attributes[x]);
        }
    } else {
        let list = AttributeRecords { kind: a.clone(), records: vec![rec] };
        assert(list@.records =~= seq![rec@]);
        e.attributes.push(list);
        assert(e@.attributes =~= entity_with(ev, a@, rec@).attributes);
        assert(seq![rec@].no_duplicates());
    }
    assert(e@ == entity_with(ev, a@, rec@));
}

/// Adds `rec` under entity `(kind, name)` and attribute kind `a`.
pub fn persist(
    records: &mut Vec<EntityRecords>,
    kind: &String,
    name: &String,
    a: &String,
    rec: AttributeRecord,
)
    requires
        records_wf(entity_views(old(records)@)),
    ensures
        records_wf(entity_views(final(records)@)),
        entity_views(final(records)@) == persist_spec(
            entity_views(old(records)@),
            kind@,
            name@,
            a@,
            rec@,
        ),
{
    let ghost es = entity_views(records@);
    let mut i: usize = 0;
    let mut found = false;
    while i < records.len() && !found
        invariant
            i <= records@.len(),
            es == entity_views(records@),
            records_wf(es),
            found ==> i < es.len() && has_key(es[i as int], kind@, name@),
            forall|x: int| 0 <= x < i ==> !has_key(es[x], kind@, name@),
        decreases records@.len() - i, if found { 0int } else { 1int },
    {
        assert(es[i as int] == records@[i as int]@);
        if same_text(&records[i].kind, kind) && same_text(&records[i].name, name) {
            found = true;
        } else {
            i = i + 1;
        }
    }
    if found {
        let ghost x = choose|x: int| 0 <= x < es.len() && has_key(es[x], kind@, name@);
        assert(x == i as int) by {
            if x != i as int {
                assert(!has_key(es[x], es[i as int].kind, es[i as int].name));
            }
        }
        assert(kinds_unique(es[i as int]));
        let mut e = records.remove(i);
        assert(e@ == es[i as int]);
        add_to_entity(&mut e, a, rec);
        records.insert(i, e);
        assert(entity_views(records@) =~= es.update(i as int, entity_with(es[i as int], a@, rec@)));
        assert(records_wf(entity_views(records@))) by {
            let ns = entity_views(records@);
            assert forall|p: int, q: int|
                0 <= p < ns.len() && 0 <= q < ns.len() && p != q implies !has_key(
                    ns[q],
                    ns[p].kind,
                    ns[p].name,
                ) by {
                assert(ns[p].kind == es[p].kind && ns[p].name == es[p].name);
                assert(ns[q].kind == es[q].kind && ns[q].name == es[q].name);
                assert(!has_key(es[q], es[p].kind, es[p].name));
            }
            assert forall|p: int| 0 <= p < ns.len() implies kinds_unique(#[trigger] ns[p]) by {
                if p != i as int {
                    assert(ns[p] == es[p]);
                }
            }
            assert forall|x: int, y: int| 0 <= x < y < ns.len() implies pair_less(
                key_of(#[trigger] ns[x]),
                key_of(#[trigger] ns[y]),
            ) by {
                assert(key_of(ns[x]) == key_of(es[x]) && key_of(ns[y]) == key_of(es[y]));
            }
        }
        return;
    }
    let list = AttributeRecords { kind: a.clone(), records: vec![rec] };
    assert(list@.records =~= seq![rec@]);
    let attributes = vec![list];
    let e = EntityRecords { kind: kind.clone(), name: name.clone(), attributes };
    assert(e@.attributes =~= seq![AttributeView { kind: a@, records: seq![rec@] }]);
    let mut p: usize = 0;
    while p < records.len() && !pair_lt(kind, name, &records[p].kind, &records[p].name)
        invariant
            p <= records@.len(),
            es == entity_views(records@),
            entity_pos(es, kind@, name@, 0) == entity_pos(es, kind@, name@, p as int),
        decreases records@.len() - p,
    {
        assert(es[p as int] == records@[p as int]@);
        p = p + 1;
    }
    if p < records.len() {
        assert(es[p as int] == records@[p as int]@);
    }
    records.insert(p, e);
    assert(entity_views(records@) =~= es.insert(p as int, e@));
    assert(records_wf(entity_views(records@))) by {
        let ns = entity_views(records@);
        assert forall|x: int, y: int|
            0 <= x < ns.len() && 0 <= y < ns.len() && x != y implies !has_key(
                ns[y],
                ns[x].kind,
                ns[x].name,
            ) by {
            let ox = if x < p { x } else { x - 1 };
            let oy = if y < p { y } else { y - 1 };
            if x != p as int && y != p as int {
                assert(ns[x] == es[ox] && ns[y] == es[oy]);
                assert(!has_key(es[oy], es[ox].kind, es[ox].name));
            } else if x == p as int {
                assert(ns[y] == es[oy]);
            } else {
                assert(ns[x] == es[ox]);
            }
        }
        assert forall|x: int| 0 <= x < ns.len() implies kinds_unique(#[trigger] ns[x]) by {
            if x != p as int {
                let ox = if x < p { x } else { x - 1 };
                assert(ns[x] == es[ox]);
            }
        }
        lemma_entity_pos_split(es, kind@, name@, 0);
        let nk = (kind@, name@);
        assert forall|x: int, y: int| 0 <= x < y < ns.len() implies pair_less(
            key_of(#[trigger] ns[x]),
            key_of(#[trigger] ns[y]),
        ) by {
            if y < p {
                assert(ns[x] == es[x] && ns[y] == es[y]);
            } else if x > p {
                assert(ns[x] == es[x - 1] && ns[y] == es[y - 1]);
            } else if x < p && y > p {
                assert(ns[x] == es[x] && ns[y] == es[y - 1]);
            } else if y == p as int {
                assert(ns[x] == es[x] && ns[y] == e@);
                assert(!pair_less(nk, key_of(es[x])));
                assert(!has_key(es[x], kind@, name@));
                crate::order::lemma_pair_less_order(nk, key_of(es[x]), nk);
            } else {
                assert(x == p as int);
                assert(ns[x] == e@ && ns[y] == es[y - 1]);
                assert(pair_less(nk, key_of(es[p as int])));
                if y - 1 > p {
                    assert(pair_less(key_of(es[p as int]), key_of(es[y - 1])));
                    crate::order::lemma_pair_less_order(nk, key_of(es[p as int]), key_of(es[y - 1]));
                }
            }
        }
    }
}

/// What the scan of the whole data shares between scopes: the system names, the last
/// system that declared each object, and the names found to be wormholes.
pub struct Shared {
    pub names: NameSet,
    pub planets: NameMap,
    pub wormholes: NameSet,
}

/// The value of a `Shared`.
pub struct SharedView {
    pub names: Seq<Seq<char>>,
    pub planet_keys: Seq<Seq<char>>,
    pub planet_owners: Seq<Seq<char>>,
    pub wormholes: Seq<Seq<char>>,
}

impl View for Shared {
    type V = SharedView;

    open spec fn view(&self) -> SharedView {
        SharedView {
            names: self.names@,
            planet_keys: self.planets.key_view(),
            planet_owners: self.planets.value_view(),
            wormholes: self.wormholes@,
        }
    }
}

impl Shared {
    /// Each part is well formed.
    pub open spec fn wf(&self) -> bool {
        self.names.wf() && self.planets.wf() && self.wormholes.wf()
    }
}

/// The position of the attribute kind among the tokens: after an `add` / `remove`
/// modifier, else first.
pub open spec fn key_index(t: Tree) -> int {
    if t.tokens.len() > 0 && (t.tokens[0] == "remove"@ || t.tokens[0] == "add"@) {
        1
    } else {
        0
    }
}

/// Whether the attribute kind of `t` is `w`.
pub open spec fn keyed(t: Tree, w: Seq<char>) -> bool {
    key_index(t) < t.tokens.len() && t.tokens[key_index(t)] == w
}

/// The shared state after seeing object `c` under system `s`, and whether the object is
/// then a wormhole: a name already seen under another system becomes a wormhole, and `s`
/// becomes the last system of the name.
pub open spec fn visit_object(st: SharedView, s: Seq<char>, c: Tree) -> (SharedView, bool) {
    let i = key_index(c) + 1;
    if i < c.tokens.len() {
        let w = c.tokens[i];
        let seen = map_get(st.planet_keys, st.planet_owners, w);
        let wormholes = if seen is Some && seen->0 != s {
            set_insert(st.wormholes, w)
        } else {
            st.wormholes
        };
        let (keys, owners) = map_put(st.planet_keys, st.planet_owners, w, s);
        (
            SharedView { planet_keys: keys, planet_owners: owners, wormholes, ..st },
            wormholes.contains(w),
        )
    } else {
        (st, false)
    }
}

/// The walk over the first `k` children of `n`, the contained objects of system `s`:
/// each object updates the shared state, its own objects are walked, and an object of
/// the system itself (`top`) that is or holds a wormhole is recorded. Also returns
/// whether any of them is or holds a wormhole.
pub open spec fn walk_children(
    st: SharedView,
    recs: Seq<EntityView>,
    s: Seq<char>,
    n: Tree,
    k: nat,
    top: bool,
) -> (SharedView, Seq<EntityView>, bool)
    decreases n, 0nat, k,
{
    if k == 0 || k > n.children.len() {
        (st, recs, false)
    } else {
        let (st1, r1, any) = walk_children(st, recs, s, n, (k - 1) as nat, top);
        let c = n.children[k - 1];
        if !keyed(c, "object"@) {
            (st1, r1, any)
        } else {
            let (st2, w1) = visit_object(st1, s, c);
            let (st3, r3, w2) = walk(st2, r1, s, c, false);
            let w = w1 || w2;
            let r4 = if top && w {
                persist_spec(r3, "system"@, s, "object"@, (action_of(c), c))
            } else {
                r3
            };
            (st3, r4, any || w)
        }
    }
}

/// The walk over all contained objects of `n` (see `walk_children`).
pub open spec fn walk(st: SharedView, recs: Seq<EntityView>, s: Seq<char>, n: Tree, top: bool) -> (
    SharedView,
    Seq<EntityView>,
    bool,
)
    decreases n, 1nat, 0nat,
{
    walk_children(st, recs, s, n, n.children.len(), top)
}

/// Walks the contained objects of `n` under system `s`, tracking the owners of object
/// names, promoting a name seen under a second system to a wormhole, and recording the
/// objects of the system itself that are or hold wormholes.
pub fn find_wormholes_from_system(
    shared: &mut Shared,
    recs: &mut Vec<EntityRecords>,
    s: &String,
    n: &DataNode,
    top: bool,
) -> (r: bool)
    requires
        old(shared).wf(),
        records_wf(entity_views(old(recs)@)),
    ensures
        final(shared).wf(),
        records_wf(entity_views(final(recs)@)),
        (final(shared)@, entity_views(final(recs)@), r) == walk(
            old(shared)@,
            entity_views(old(recs)@),
            s@,
            n@,
            top,
        ),
        forall|x: Seq<char>| #[trigger]
            final(shared)@.wormholes.contains(x) == (old(shared)@.wormholes.contains(x) || (
            crate::detection::declares(n@, x) && crate::detection::other_owner(
                map_get(old(shared)@.planet_keys, old(shared)@.planet_owners, x),
                s@,
            ))),
        forall|x: Seq<char>| #[trigger]
            map_get(final(shared)@.planet_keys, final(shared)@.planet_owners, x) == if crate::detection::declares(n@, x) {
                Some(s@)
            } else {
                map_get(old(shared)@.planet_keys, old(shared)@.planet_owners, x)
            },
    decreases n,
{
    let ghost st0 = shared@;
    let ghost r0 = entity_views(recs@);
    let mut any = false;
    let mut i: usize = 0;
    while i < n.children.len()
        invariant
            i <= n.children@.len(),
            shared.wf(),
            records_wf(entity_views(recs@)),
            (shared@, entity_views(recs@), any) == walk_children(st0, r0, s@, n@, i as nat, top),
        decreases n.children@.len() - i,
    {
        let c = &n.children[i];
        assert(n@.children[i as int] == c@);
        let ghost cv = c@;
        assert(cv.tokens.len() == c.tokens@.len());
        let modified = c.tokens.len() > 0 && (is_text(&c.tokens[0], "remove") || is_text(
            &c.tokens[0],
            "add",
        ));
        let ki: usize = if modified {
            1
        } else {
            0
        };
        assert(ki as int == key_index(cv));
        if ki < c.tokens.len() && is_text(&c.tokens[ki], "object") {
            let ghost before = shared@;
            let mut w1 = false;
            if ki + 1 < c.tokens.len() {
                let w = &c.tokens[ki + 1];
                assert(cv.tokens[ki + 1] == w@);
                let seen = shared.planets.get(w);
                match seen {
                    Some(owner) => {
                        if !same_text(&owner, s) {
                            shared.wormholes.insert(w);
                        }
                    },
                    None => {},
                }
                shared.planets.insert(w, s);
                w1 = shared.wormholes.contains(w);
            }
            assert((shared@, w1) == visit_object(before, s@, cv)) by {
                assert(shared@.names == before.names);
            }
            let w2 = find_wormholes_from_system(shared, recs, s, c, false);
            let w = w1 || w2;
            if top && w {
                let action = classify(c);
                let node = clone_node(c);
                persist(recs, &text("system"), s, &text("object"), AttributeRecord { action, node });
            }
            any = any || w;
        }
        i = i + 1;
    }
    proof {
        assert forall|x: Seq<char>| #[trigger] shared@.wormholes.contains(x) == (st0.wormholes.contains(x) || (
            crate::detection::declares(n@, x) && crate::detection::other_owner(
                map_get(st0.planet_keys, st0.planet_owners, x),
                s@,
            ))) by {
            crate::detection::lemma_walk(st0, r0, s@, n@, top, x);
        }
        assert forall|x: Seq<char>| #[trigger] map_get(shared@.planet_keys, shared@.planet_owners, x)
            == if crate::detection::declares(n@, x) {
                Some(s@)
            } else {
                map_get(st0.planet_keys, st0.planet_owners, x)
            } by {
            crate::detection::lemma_walk(st0, r0, s@, n@, top, x);
        }
    }
    any
}

/// The baseline action of a declaration.
pub fn classify(n: &DataNode) -> (r: NodeAction)
    ensures
        r == action_of(n@),
{
    assert(n@.tokens.len() == n.tokens@.len());
    if n.tokens.len() > 0 && is_text(&n.tokens[0], "remove") {
        if n.tokens.len() >= 3 || n.children.len() > 0 {
            NodeAction::Remove
        } else {
            NodeAction::ClearRemove
        }
    } else if n.tokens.len() > 0 && is_text(&n.tokens[0], "add") {
        NodeAction::Add
    } else {
        NodeAction::ClearAdd
    }
}

/// The records after adding every child among the first `j` children of `n` whose
/// attribute kind is `kind`, under entity `(k, m)`.
pub open spec fn collect_kind(
    recs: Seq<EntityView>,
    k: Seq<char>,
    m: Seq<char>,
    n: Tree,
    kind: Seq<char>,
    j: nat,
) -> Seq<EntityView>
    decreases j,
{
    if j == 0 || j > n.children.len() {
        recs
    } else {
        let r = collect_kind(recs, k, m, n, kind, (j - 1) as nat);
        let c = n.children[j - 1];
        if keyed(c, kind) {
            persist_spec(r, k, m, kind, (action_of(c), c))
        } else {
            r
        }
    }
}

/// The records after collecting the children of `n` of each kind of `kinds`, kind by kind.
pub open spec fn collect(
    recs: Seq<EntityView>,
    k: Seq<char>,
    m: Seq<char>,
    n: Tree,
    kinds: Seq<Seq<char>>,
) -> Seq<EntityView>
    decreases kinds.len(),
{
    if kinds.len() == 0 {
        recs
    } else {
        let r = collect(recs, k, m, n, kinds.drop_last());
        collect_kind(r, k, m, n, kinds.last(), n.children.len())
    }
}

/// The attribute kinds recorded for an entity kind.
pub open spec fn kinds_for(k: Seq<char>) -> Seq<Seq<char>> {
    if k == "system"@ {
        seq!["pos"@, "jump range"@, "inaccessible"@, "hidden"@, "shrouded"@, "link"@]
    } else if k == "wormhole"@ {
        seq!["link"@]
    } else {
        Seq::empty()
    }
}

fn collect_kind_exec(recs: &mut Vec<EntityRecords>, k: &String, m: &String, n: &DataNode, kind: &String)
    requires
        records_wf(entity_views(old(recs)@)),
    ensures
        records_wf(entity_views(final(recs)@)),
        entity_views(final(recs)@) == collect_kind(
            entity_views(old(recs)@),
            k@,
            m@,
            n@,
            kind@,
            n@.children.len(),
        ),
{
    let ghost r0 = entity_views(recs@);
    let mut j: usize = 0;
    while j < n.children.len()
        invariant
            j <= n.children@.len(),
            records_wf(entity_views(recs@)),
            entity_views(recs@) == collect_kind(r0, k@, m@, n@, kind@, j as nat),
        decreases n.children@.len() - j,
    {
        let c = &n.children[j];
        assert(n@.children[j as int] == c@);
        let ghost cv = c@;
        assert(cv.tokens.len() == c.tokens@.len());
        let modified = c.tokens.len() > 0 && (is_text(&c.tokens[0], "remove") || is_text(
            &c.tokens[0],
            "add",
        ));
        let ki: usize = if modified {
            1
        } else {
            0
        };
        if ki < c.tokens.len() && same_text(&c.tokens[ki], kind) {
            let action = classify(c);
            let node = clone_node(c);
            persist(recs, k, m, kind, AttributeRecord { action, node });
        }
        j = j + 1;
    }
}

fn collect_exec(recs: &mut Vec<EntityRecords>, k: &String, m: &String, n: &DataNode)
    requires
        records_wf(entity_views(old(recs)@)),
    ensures
        records_wf(entity_views(final(recs)@)),
        entity_views(final(recs)@) == collect(entity_views(old(recs)@), k@, m@, n@, kinds_for(k@)),
{
    let ghost r0 = entity_views(recs@);
    let kinds: Vec<String> = if is_text(k, "system") {
        vec![
            text("pos"),
            text("jump range"),
            text("inaccessible"),
            text("hidden"),
            text("shrouded"),
            text("link"),
        ]
    } else if is_text(k, "wormhole") {
        vec![text("link")]
    } else {
        Vec::new()
    };
    let ghost ks = kinds_for(k@);
    assert(texts(kinds@) =~= ks);
    let mut i: usize = 0;
    while i < kinds.len()
        invariant
            i <= kinds@.len(),
            texts(kinds@) == ks,
            records_wf(entity_views(recs@)),
            entity_views(recs@) == collect(r0, k@, m@, n@, ks.take(i as int)),
        decreases kinds@.len() - i,
    {
        collect_kind_exec(recs, k, m, n, &kinds[i]);
        assert(ks.take(i + 1).drop_last() =~= ks.take(i as int));
        assert(ks.take(i + 1).last() == kinds@[i as int]@);
        i = i + 1;
    }
    assert(ks.take(i as int) =~= ks);
}

/// Whether a top-level declaration kind is scanned: systems and wormholes, and inside a
/// story event also link and unlink declarations.
pub open spec fn scanned_kind(k: Seq<char>, in_event: bool) -> bool {
    k == "system"@ || k == "wormhole"@ || (in_event && (k == "link"@ || k == "unlink"@))
}

/// Whether the scan reads declaration `n`: it has a scanned kind and a name, and a system
/// or wormhole also has at least one child (a link or unlink declaration need not).
pub open spec fn scanned(n: Tree, in_event: bool) -> bool {
    &&& n.tokens.len() >= 2
    &&& scanned_kind(n.tokens[0], in_event)
    &&& (n.children.len() > 0 || n.tokens[0] == "link"@ || n.tokens[0] == "unlink"@)
}

/// The scan of one declaration with a kind and a name: a system adds its name and has its
/// objects walked; a link or unlink declaration is recorded under the sentinel entity;
/// then the attributes of the entity kind are collected.
pub open spec fn scan_node(st: SharedView, recs: Seq<EntityView>, n: Tree) -> (
    SharedView,
    Seq<EntityView>,
) {
    let k = n.tokens[0];
    let m = n.tokens[1];
    let (st1, r1) = if k == "system"@ {
        let st0 = SharedView { names: set_insert(st.names, m), ..st };
        let w = walk(st0, recs, m, n, true);
        (w.0, w.1)
    } else if k == "link"@ {
        (st, persist_spec(recs, "link"@, Seq::empty(), "link"@, (NodeAction::Add, n)))
    } else if k == "unlink"@ {
        (st, persist_spec(recs, "unlink"@, Seq::empty(), "unlink"@, (NodeAction::Remove, n)))
    } else {
        (st, recs)
    };
    (st1, collect(r1, k, m, n, kinds_for(k)))
}

/// The scan of the declarations among `ns` that `scanned` accepts, in order.
pub open spec fn scan_nodes(
    st: SharedView,
    recs: Seq<EntityView>,
    ns: Seq<Tree>,
    in_event: bool,
) -> (SharedView, Seq<EntityView>)
    decreases ns.len(),
{
    if ns.len() == 0 {
        (st, recs)
    } else {
        let (st1, r1) = scan_nodes(st, recs, ns.drop_last(), in_event);
        let n = ns.last();
        if scanned(n, in_event) {
            scan_node(st1, r1, n)
        } else {
            (st1, r1)
        }
    }
}

/// Scans the declarations of `nodes` that `scanned` accepts.
pub fn data_from_node(
    shared: &mut Shared,
    recs: &mut Vec<EntityRecords>,
    nodes: &Vec<DataNode>,
    in_event: bool,
)
    requires
        old(shared).wf(),
        records_wf(entity_views(old(recs)@)),
    ensures
        final(shared).wf(),
        records_wf(entity_views(final(recs)@)),
        (final(shared)@, entity_views(final(recs)@)) == scan_nodes(
            old(shared)@,
            entity_views(old(recs)@),
            crate::tree::trees(nodes@),
            in_event,
        ),
{
    let ghost st0 = shared@;
    let ghost r0 = entity_views(recs@);
    let ghost ns = crate::tree::trees(nodes@);
    proof {
        reveal_strlit("");
    }
    let mut i: usize = 0;
    while i < nodes.len()
        invariant
            i <= nodes@.len(),
            ns == crate::tree::trees(nodes@),
            shared.wf(),
            records_wf(entity_views(recs@)),
            (shared@, entity_views(recs@)) == scan_nodes(st0, r0, ns.take(i as int), in_event),
        decreases nodes@.len() - i,
    {
        proof {
            reveal_strlit("");
        }
        let ghost st_i = shared@;
        let ghost r_i = entity_views(recs@);
        let n = &nodes[i];
        let ghost nv = n@;
        assert(ns[i as int] == nv);
        assert(ns.take(i + 1).drop_last() =~= ns.take(i as int));
        assert(ns.take(i + 1).last() == nv);
        assert(nv.tokens.len() == n.tokens@.len());
        if n.tokens.len() >= 2 {
            let k = &n.tokens[0];
            let m = &n.tokens[1];
            assert(nv.tokens[0] == k@ && nv.tokens[1] == m@);
            let is_system = is_text(k, "system");
            let is_link = is_text(k, "link");
            let is_unlink = is_text(k, "unlink");
            let kind_scanned = is_system || is_text(k, "wormhole") || (in_event && (is_link
                || is_unlink));
            if kind_scanned && (n.children.len() > 0 || is_link || is_unlink) {
                if is_system {
                    let ghost before = shared@;
                    shared.names.insert(m);
                    assert(shared@ == SharedView { names: set_insert(before.names, m@), ..before });
                    find_wormholes_from_system(shared, recs, m, n, true);
                } else if is_link {
                    let empty = text("");
                    assert(empty@ =~= Seq::<char>::empty());
                    persist(
                        recs,
                        &text("link"),
                        &empty,
                        &text("link"),
                        AttributeRecord { action: NodeAction::Add, node: clone_node(n) },
                    );
                } else if is_unlink {
                    let empty = text("");
                    assert(empty@ =~= Seq::<char>::empty());
                    persist(
                        recs,
                        &text("unlink"),
                        &empty,
                        &text("unlink"),
                        AttributeRecord { action: NodeAction::Remove, node: clone_node(n) },
                    );
                }
                let ghost want = scan_node(st_i, r_i, nv);
                collect_exec(recs, k, m, n);
                assert(shared@ == want.0);
                assert(entity_views(recs@) == want.1);
            }
        }
        i = i + 1;
    }
    assert(ns.take(i as int) =~= ns);
}

/// Whether `t` declares a planet that is a wormhole: `planet <name>` with a child
/// `wormhole <name>`.
pub open spec fn planet_is_wormhole(t: Tree) -> bool {
    &&& t.tokens.len() >= 2
    &&& t.tokens[0] == "planet"@
    &&& t.children.len() > 0
    &&& exists|i: int|
        0 <= i < t.children.len() && #[trigger] t.children[i].tokens.len() >= 2
            && t.children[i].tokens[0] == "wormhole"@
}

/// The names of the planets among `roots` that declare themselves wormholes, added to `ws`.
pub open spec fn marked_wormholes(ws: Seq<Seq<char>>, roots: Seq<Tree>) -> Seq<Seq<char>>
    decreases roots.len(),
{
    if roots.len() == 0 {
        ws
    } else {
        let w = marked_wormholes(ws, roots.drop_last());
        let t = roots.last();
        if planet_is_wormhole(t) {
            set_insert(w, t.tokens[1])
        } else {
            w
        }
    }
}

fn declares_wormhole(n: &DataNode) -> (r: bool)
    ensures
        r == planet_is_wormhole(n@),
{
    let ghost t = n@;
    assert(t.tokens.len() == n.tokens@.len());
    if n.tokens.len() < 2 || !is_text(&n.tokens[0], "planet") || n.children.len() == 0 {
        return false;
    }
    assert(t.tokens[0] == n.tokens@[0]@);
    let mut i: usize = 0;
    while i < n.children.len()
        invariant
            i <= n.children@.len(),
            t == n@,
            t.tokens.len() >= 2 && t.tokens[0] == "planet"@ && t.children.len() > 0,
            forall|j: int|
                0 <= j < i ==> !(#[trigger] t.children[j].tokens.len() >= 2
                    && t.children[j].tokens[0] == "wormhole"@),
        decreases n.children@.len() - i,
    {
        let c = &n.children[i];
        assert(t.children[i as int] == c@);
        assert(c@.tokens.len() == c.tokens@.len());
        if c.tokens.len() >= 2 && is_text(&c.tokens[0], "wormhole") {
            assert(t.children[i as int].tokens[0] == "wormhole"@);
            return true;
        }
        i = i + 1;
    }
    false
}

/// Adds the names of the planets among `roots` that declare themselves wormholes.
pub fn find_wormholes_from_planets(roots: &Vec<DataNode>, wormholes: &mut NameSet)
    requires
        old(wormholes).wf(),
    ensures
        final(wormholes).wf(),
        final(wormholes)@ == marked_wormholes(old(wormholes)@, crate::tree::trees(roots@)),
{
    let ghost w0 = wormholes@;
    let ghost ns = crate::tree::trees(roots@);
    let mut i: usize = 0;
    while i < roots.len()
        invariant
            i <= roots@.len(),
            ns == crate::tree::trees(roots@),
            wormholes.wf(),
            wormholes@ == marked_wormholes(w0, ns.take(i as int)),
        decreases roots@.len() - i,
    {
        let n = &roots[i];
        assert(ns[i as int] == n@);
        assert(ns.take(i + 1).drop_last() =~= ns.take(i as int));
        if declares_wormhole(n) {
            assert(n@.tokens[1] == n.tokens@[1]@);
            wormholes.insert(&n.tokens[1]);
        }
        i = i + 1;
    }
    assert(ns.take(i as int) =~= ns);
}

/// The records of one story event.
pub struct EventRecords {
    pub name: String,
    pub records: Vec<EntityRecords>,
}

/// The values of a list of story-event records.
pub open spec fn event_views(v: Seq<EventRecords>) -> Seq<(Seq<char>, Seq<EntityView>)> {
    v.map_values(|e: EventRecords| (e.name@, entity_views(e.records@)))
}

/// Whether no two story events share a name, and they are in ascending order of name.
pub open spec fn events_wf(evs: Seq<(Seq<char>, Seq<EntityView>)>) -> bool {
    &&& forall|i: int, j: int|
        0 <= i < evs.len() && 0 <= j < evs.len() && i != j ==> evs[i].0 != evs[j].0
    &&& forall|i: int, j: int|
        0 <= i < j < evs.len() ==> crate::order::text_less((#[trigger] evs[i]).0, (#[trigger] evs[j]).0)
}

proof fn lemma_event_pos_split(evs: Seq<(Seq<char>, Seq<EntityView>)>, name: Seq<char>, i: int)
    requires
        0 <= i <= evs.len(),
    ensures
        i <= event_pos(evs, name, i) <= evs.len(),
        forall|x: int| i <= x < event_pos(evs, name, i) ==> !crate::order::text_less(name, evs[x].0),
        event_pos(evs, name, i) < evs.len() ==> crate::order::text_less(
            name,
            evs[event_pos(evs, name, i)].0,
        ),
    decreases evs.len() - i,
{
    if i < evs.len() && !crate::order::text_less(name, evs[i].0) {
        lemma_event_pos_split(evs, name, i + 1);
    }
}

/// The first position from `i` on whose name comes after `name`, or the length.
pub open spec fn event_pos(evs: Seq<(Seq<char>, Seq<EntityView>)>, name: Seq<char>, i: int) -> int
    decreases evs.len() - i,
{
    if i < 0 || i >= evs.len() {
        evs.len() as int
    } else if crate::order::text_less(name, evs[i].0) {
        i
    } else {
        event_pos(evs, name, i + 1)
    }
}

/// The story events with `recs` stored under `name`, replacing what was there.
pub open spec fn event_put(
    evs: Seq<(Seq<char>, Seq<EntityView>)>,
    name: Seq<char>,
    recs: Seq<EntityView>,
) -> Seq<(Seq<char>, Seq<EntityView>)> {
    if exists|i: int| 0 <= i < evs.len() && evs[i].0 == name {
        let i = choose|i: int| 0 <= i < evs.len() && evs[i].0 == name;
        evs.update(i, (name, recs))
    } else {
        evs.insert(event_pos(evs, name, 0), (name, recs))
    }
}

/// Whether `t` is a story event whose data the scan reads: `event <name>` with a system,
/// wormhole, link or unlink child.
pub open spec fn event_scanned(t: Tree) -> bool {
    &&& t.tokens.len() >= 2
    &&& t.tokens[0] == "event"@
    &&& t.children.len() > 0
    &&& exists|i: int|
        0 <= i < t.children.len() && #[trigger] t.children[i].tokens.len() > 0 && scanned_kind(
            t.children[i].tokens[0],
            true,
        )
}

/// The scan of the story events among `roots`: each one's declarations are scanned into
/// records of their own, kept under the event's name when there are any.
pub open spec fn scan_events(
    st: SharedView,
    evs: Seq<(Seq<char>, Seq<EntityView>)>,
    roots: Seq<Tree>,
) -> (SharedView, Seq<(Seq<char>, Seq<EntityView>)>)
    decreases roots.len(),
{
    if roots.len() == 0 {
        (st, evs)
    } else {
        let (st1, e1) = scan_events(st, evs, roots.drop_last());
        let t = roots.last();
        if event_scanned(t) {
            let (st2, recs) = scan_nodes(st1, Seq::empty(), t.children, true);
            if recs.len() > 0 {
                (st2, event_put(e1, t.tokens[1], recs))
            } else {
                (st2, e1)
            }
        } else {
            (st1, e1)
        }
    }
}

fn scanned_event(n: &DataNode) -> (r: bool)
    ensures
        r == event_scanned(n@),
{
    let ghost t = n@;
    assert(t.tokens.len() == n.tokens@.len());
    if n.tokens.len() < 2 || !is_text(&n.tokens[0], "event") || n.children.len() == 0 {
        return false;
    }
    assert(t.tokens[0] == n.tokens@[0]@);
    let mut i: usize = 0;
    while i < n.children.len()
        invariant
            i <= n.children@.len(),
            t == n@,
            t.tokens.len() >= 2 && t.tokens[0] == "event"@ && t.children.len() > 0,
            forall|j: int|
                0 <= j < i ==> !(#[trigger] t.children[j].tokens.len() > 0 && scanned_kind(
                    t.children[j].tokens[0],
                    true,
                )),
        decreases n.children@.len() - i,
    {
        let c = &n.children[i];
        assert(t.children[i as int] == c@);
        assert(c@.tokens.len() == c.tokens@.len());
        if c.tokens.len() > 0 {
            let k = &c.tokens[0];
            if is_text(k, "system") || is_text(k, "wormhole") || is_text(k, "link") || is_text(
                k,
                "unlink",
            ) {
                assert(t.children[i as int].tokens[0] == k@);
                assert(t.children[i as int].tokens.len() > 0);
                return true;
            }
        }
        i = i + 1;
    }
    false
}

fn put_event(events: &mut Vec<EventRecords>, name: &String, records: Vec<EntityRecords>)
    requires
        events_wf(event_views(old(events)@)),
    ensures
        events_wf(event_views(final(events)@)),
        event_views(final(events)@) == event_put(
            event_views(old(events)@),
            name@,
            entity_views(records@),
        ),
{
    let ghost evs = event_views(events@);
    let ghost rv = entity_views(records@);
    let mut i: usize = 0;
    let mut found = false;
    while i < events.len() && !found
        invariant
            i <= events@.len(),
            evs == event_views(events@),
            found ==> i < evs.len() && evs[i as int].0 == name@,
            forall|x: int| 0 <= x < i ==> evs[x].0 != name@,
        decreases events@.len() - i, if found { 0int } else { 1int },
    {
        assert(evs[i as int].0 == events@[i as int].name@);
        if same_text(&events[i].name, name) {
            found = true;
        } else {
            i = i + 1;
        }
    }
    let e = EventRecords { name: name.clone(), records };
    if found {
        let ghost x = choose|x: int| 0 <= x < evs.len() && evs[x].0 == name@;
        assert(x == i as int) by {
            if x != i as int {
                assert(evs[x].0 != evs[i as int].0);
            }
        }
        events.set(i, e);
        assert(event_views(events@) =~= evs.update(i as int, (name@, rv)));
        assert(events_wf(event_views(events@))) by {
            let ns = event_views(events@);
            assert forall|x: int| 0 <= x < ns.len() implies ns[x].0 == evs[x].0 by {}
        }
        return;
    }
    let mut p: usize = 0;
    while p < events.len() && !crate::order::text_lt(name, &events[p].name)
        invariant
            p <= events@.len(),
            evs == event_views(events@),
            event_pos(evs, name@, 0) == event_pos(evs, name@, p as int),
        decreases events@.len() - p,
    {
        assert(evs[p as int].0 == events@[p as int].name@);
        p = p + 1;
    }
    if p < events.len() {
        assert(evs[p as int].0 == events@[p as int].name@);
    }
    events.insert(p, e);
    assert(event_views(events@) =~= evs.insert(p as int, (name@, rv)));
    assert(events_wf(event_views(events@))) by {
        let ns = event_views(events@);
        assert forall|x: int, y: int| 0 <= x < ns.len() && 0 <= y < ns.len() && x != y implies ns[x].0
            != ns[y].0 by {
            let ox = if x < p { x } else { x - 1 };
            let oy = if y < p { y } else { y - 1 };
            if x != p as int && y != p as int {
                assert(ns[x] == evs[ox] && ns[y] == evs[oy]);
            } else if x == p as int {
                assert(ns[y] == evs[oy]);
            } else {
                assert(ns[x] == evs[ox]);
            }
        }
        lemma_event_pos_split(evs, name@, 0);
        assert forall|x: int, y: int| 0 <= x < y < ns.len() implies crate::order::text_less(
            (#[trigger] ns[x]).0,
            (#[trigger] ns[y]).0,
        ) by {
            if y < p {
                assert(ns[x] == evs[x] && ns[y] == evs[y]);
            } else if x > p {
                assert(ns[x] == evs[x - 1] && ns[y] == evs[y - 1]);
            } else if x < p && y > p {
                assert(ns[x] == evs[x] && ns[y] == evs[y - 1]);
            } else if y == p as int {
                assert(ns[x] == evs[x]);
                assert(!crate::order::text_less(name@, evs[x].0));
                assert(evs[x].0 != name@);
                crate::order::lemma_text_less_order(name@, evs[x].0, name@);
            } else {
                assert(ns[y] == evs[y - 1]);
                if y - 1 > p {
                    assert(crate::order::text_less(evs[p as int].0, evs[y - 1].0));
                    crate::order::lemma_text_less_order(name@, evs[p as int].0, evs[y - 1].0);
                }
            }
        }
    }
}

/// Scans the story events among `roots` (see `scan_events`).
pub fn find_persistent_event_nodes(shared: &mut Shared, roots: &Vec<DataNode>) -> (r: Vec<
    EventRecords,
>)
    requires
        old(shared).wf(),
    ensures
        final(shared).wf(),
        events_wf(event_views(r@)),
        (final(shared)@, event_views(r@)) == scan_events(
            old(shared)@,
            Seq::empty(),
            crate::tree::trees(roots@),
        ),
{
    let ghost st0 = shared@;
    let ghost ns = crate::tree::trees(roots@);
    let mut events: Vec<EventRecords> = Vec::new();
    assert(event_views(events@) =~= Seq::<(Seq<char>, Seq<EntityView>)>::empty());
    let mut i: usize = 0;
    while i < roots.len()
        invariant
            i <= roots@.len(),
            ns == crate::tree::trees(roots@),
            shared.wf(),
            events_wf(event_views(events@)),
            (shared@, event_views(events@)) == scan_events(st0, Seq::empty(), ns.take(i as int)),
        decreases roots@.len() - i,
    {
        let n = &roots[i];
        assert(ns[i as int] == n@);
        assert(ns.take(i + 1).drop_last() =~= ns.take(i as int));
        if scanned_event(n) {
            let mut recs: Vec<EntityRecords> = Vec::new();
            assert(entity_views(recs@) =~= Seq::<EntityView>::empty());
            data_from_node(shared, &mut recs, &n.children, true);
            assert(crate::tree::trees(n.children@) =~= n@.children);
            assert(entity_views(recs@).len() == recs@.len());
            if recs.len() > 0 {
                assert(n@.tokens[1] == n.tokens@[1]@);
                put_event(&mut events, &n.tokens[1], recs);
            }
        }
        i = i + 1;
    }
    assert(ns.take(i as int) =~= ns);
    events
}

/// What the scan of the baseline data yields: the sorted system names, the names found
/// to be wormholes, the records of the baseline systems and wormholes, and the records of
/// each story event, by event name.
pub struct Baseline {
    pub system_names: Vec<String>,
    pub wormholes: Vec<String>,
    pub records: Vec<EntityRecords>,
    pub events: Vec<EventRecords>,
}

/// The value of a `Baseline`.
pub struct BaselineView {
    pub names: Seq<Seq<char>>,
    pub wormholes: Seq<Seq<char>>,
    pub records: Seq<EntityView>,
    pub events: Seq<(Seq<char>, Seq<EntityView>)>,
}

impl View for Baseline {
    type V = BaselineView;

    open spec fn view(&self) -> BaselineView {
        BaselineView {
            names: texts(self.system_names@),
            wormholes: texts(self.wormholes@),
            records: entity_views(self.records@),
            events: event_views(self.events@),
        }
    }
}

/// The state before the scan of the systems: only the planets that declare themselves
/// wormholes are known.
pub open spec fn initial_state(roots: Seq<Tree>) -> SharedView {
    SharedView {
        names: Seq::empty(),
        planet_keys: Seq::empty(),
        planet_owners: Seq::empty(),
        wormholes: marked_wormholes(Seq::empty(), roots),
    }
}

/// The scan of the baseline data: planets first, then the top-level systems and
/// wormholes, then the story events.
pub open spec fn baseline(roots: Seq<Tree>) -> BaselineView {
    let (st1, recs) = scan_nodes(initial_state(roots), Seq::empty(), roots, false);
    let (st2, evs) = scan_events(st1, Seq::empty(), roots);
    BaselineView { names: st2.names, wormholes: st2.wormholes, records: recs, events: evs }
}

/// Scans the baseline data.
pub fn extract_baseline(roots: &Vec<DataNode>) -> (r: Baseline)
    ensures
        r@ == baseline(crate::tree::trees(roots@)),
        texts(r.system_names@).no_duplicates(),
        crate::order::texts_sorted(texts(r.system_names@)),
        records_wf(entity_views(r.records@)),
        events_wf(event_views(r.events@)),
{
    let mut shared = Shared { names: NameSet::new(), planets: NameMap::new(), wormholes: NameSet::new() };
    find_wormholes_from_planets(roots, &mut shared.wormholes);
    assert(shared@ == initial_state(crate::tree::trees(roots@)));
    let mut records: Vec<EntityRecords> = Vec::new();
    assert(entity_views(records@) =~= Seq::<EntityView>::empty());
    data_from_node(&mut shared, &mut records, roots, false);
    let events = find_persistent_event_nodes(&mut shared, roots);
    Baseline {
        system_names: shared.names.items,
        wormholes: shared.wormholes.items,
        records,
        events,
    }
}

} // verus!
