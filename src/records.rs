use vstd::prelude::*;

use crate::tree::{texts, DataNode, Tree};

verus! {

/// How a declaration stood in the baseline data: removed (with or without a payload) or
/// added (with an explicit `add`, or declared plainly).
#[derive(Clone, Copy, Debug, PartialEq, Eq, Structural)]
pub enum NodeAction {
    Remove,
    ClearRemove,
    Add,
    ClearAdd,
}

/// The baseline action of a declaration: `remove <kind>` with a payload (tokens after the
/// kind, or children) is `Remove`, a bare `remove <kind>` is `ClearRemove`, `add` is
/// `Add`, and a declaration without a modifier is `ClearAdd`.
pub open spec fn action_of(t: Tree) -> NodeAction {
    if t.tokens.len() > 0 && t.tokens[0] == "remove"@ {
        if t.tokens.len() >= 3 || t.children.len() > 0 {
            NodeAction::Remove
        } else {
            NodeAction::ClearRemove
        }
    } else if t.tokens.len() > 0 && t.tokens[0] == "add"@ {
        NodeAction::Add
    } else {
        NodeAction::ClearAdd
    }
}

/// One baseline declaration of an attribute, with its action.
pub struct AttributeRecord {
    pub action: NodeAction,
    pub node: DataNode,
}

/// All baseline declarations of one attribute kind of an entity, in the order found.
pub struct AttributeRecords {
    pub kind: String,
    pub records: Vec<AttributeRecord>,
}

/// The persistent attributes of one entity (a system, a wormhole, or the sentinel
/// `link` / `unlink` entity with the empty name).
pub struct EntityRecords {
    pub kind: String,
    pub name: String,
    pub attributes: Vec<AttributeRecords>,
}

/// The value of an `AttributeRecords`.
pub struct AttributeView {
    pub kind: Seq<char>,
    pub records: Seq<(NodeAction, Tree)>,
}

/// The value of an `EntityRecords`.
pub struct EntityView {
    pub kind: Seq<char>,
    pub name: Seq<char>,
    pub attributes: Seq<AttributeView>,
}

impl View for AttributeRecord {
    type V = (NodeAction, Tree);

    open spec fn view(&self) -> (NodeAction, Tree) {
        (self.action, self.node@)
    }
}

impl View for AttributeRecords {
    type V = AttributeView;

    open spec fn view(&self) -> AttributeView {
        AttributeView {
            kind: self.kind@,
            records: self.records@.map_values(|r: AttributeRecord| r@),
        }
    }
}

impl View for EntityRecords {
    type V = EntityView;

    open spec fn view(&self) -> EntityView {
        EntityView {
            kind: self.kind@,
            name: self.name@,
            attributes: self.attributes@.map_values(|a: AttributeRecords| a@),
        }
    }
}

/// The values of a list of entity records.
pub open spec fn entity_views(v: Seq<EntityRecords>) -> Seq<EntityView> {
    v.map_values(|e: EntityRecords| e@)
}

/// The name map of one preset: `names[k]` is shown as `targets[k]`.
pub struct SystemSwaps {
    pub names: Vec<String>,
    pub targets: Vec<String>,
}

/// What name `l` becomes under a name map: the target of its first occurrence among
/// `names`, or `l` itself when it is not among them.
pub open spec fn renamed(names: Seq<Seq<char>>, targets: Seq<Seq<char>>, l: Seq<char>) -> Seq<char>
    decreases names.len(),
{
    if names.len() == 0 || targets.len() == 0 {
        l
    } else if names[0] == l {
        targets[0]
    } else {
        renamed(names.drop_first(), targets.drop_first(), l)
    }
}

/// The value of a `SystemSwaps`.
pub struct SwapView {
    pub names: Seq<Seq<char>>,
    pub targets: Seq<Seq<char>>,
}

impl SwapView {
    /// What `l` becomes under this map.
    pub open spec fn rename(&self, l: Seq<char>) -> Seq<char> {
        renamed(self.names, self.targets, l)
    }
}

impl View for SystemSwaps {
    type V = SwapView;

    open spec fn view(&self) -> SwapView {
        SwapView { names: texts(self.names@), targets: texts(self.targets@) }
    }
}

impl SystemSwaps {
    /// As many targets as names.
    pub open spec fn wf(&self) -> bool {
        self.names@.len() == self.targets@.len()
    }

    /// The name that `l` is shown as.
    pub fn lookup(&self, l: &String) -> (r: String)
        requires
            self.wf(),
        ensures
            r@ == self@.rename(l@),
    {
        let mut i: usize = 0;
        assert(texts(self.names@).skip(0) =~= texts(self.names@));
        assert(texts(self.targets@).skip(0) =~= texts(self.targets@));
        while i < self.names.len()
            invariant
                self.wf(),
                i <= self.names@.len(),
                renamed(texts(self.names@), texts(self.targets@), l@) == renamed(
                    texts(self.names@).skip(i as int),
                    texts(self.targets@).skip(i as int),
                    l@,
                ),
            decreases self.names@.len() - i,
        {
            let ghost ns = texts(self.names@).skip(i as int);
            let ghost ts = texts(self.targets@).skip(i as int);
            assert(ns[0] == self.names@[i as int]@);
            if self.names[i] == *l {
                assert(ts[0] == self.targets@[i as int]@);
                return self.targets[i].clone();
            }
            assert(ns.drop_first() =~= texts(self.names@).skip(i + 1));
            assert(ts.drop_first() =~= texts(self.targets@).skip(i + 1));
            i = i + 1;
        }
        l.clone()
    }
}

} // verus!
