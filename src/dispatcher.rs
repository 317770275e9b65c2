use vstd::prelude::*;

use crate::tree::{
    decimal, decimal_text, leaf, leaf_tree, node, push_child, text, texts, toks1, toks2, toks3,
    tree, trees, DataNode, Tree,
};

verus! {

/// The condition that is set once the package has been installed.
pub open spec fn installed_name() -> Seq<char> {
    "System Shuffler: Installed"@
}

/// The variable that holds the active preset.
pub open spec fn current_preset_name() -> Seq<char> {
    "System Shuffler: Current Preset"@
}

/// The variable that holds the day of the last shuffle.
pub open spec fn last_shuffle_name() -> Seq<char> {
    "System Shuffler: Last Shuffle Day"@
}

/// The prefix of the restoration events.
pub open spec fn restore_prefix() -> Seq<char> {
    "System Shuffler: Restore Preset"@
}

/// The prefix of the activation events.
pub open spec fn activate_prefix() -> Seq<char> {
    "System Shuffler: Activate Preset"@
}

/// `<prefix> <i>`.
pub open spec fn numbered(prefix: Seq<char>, i: nat) -> Seq<char> {
    prefix + " "@ + decimal(i)
}

/// `<name>: <e>`, the name of something scoped to the story event `e`.
pub open spec fn scoped(name: Seq<char>, e: Seq<char>) -> Seq<char> {
    name + ": "@ + e
}

/// `event: <name>`, the condition that an event has happened.
pub open spec fn event_flag(name: Seq<char>) -> Seq<char> {
    "event: "@ + name
}

/// The two conditions and the two actions that guard the side deltas of story event `e`.
///
/// The second condition and the second action use the shadow variable
/// `event: <activate_name>: <e>`, which holds whether the side delta is applied. With
/// `invert` the conditions are those under which a dispatcher skips the side delta.
pub open spec fn side_conditions(
    e: Seq<char>,
    restore_name: Seq<char>,
    activate_name: Seq<char>,
    activate: bool,
    invert: bool,
) -> (Seq<Tree>, Seq<Tree>) {
    let c1 = leaf_tree(
        seq![
            if invert {
                "not"@
            } else {
                "has"@
            },
            event_flag(e),
        ],
    );
    let shadow = event_flag(scoped(activate_name, e));
    if activate {
        (
            seq![
                c1,
                leaf_tree(
                    seq![
                        shadow,
                        if invert {
                            "=="@
                        } else {
                            "!="@
                        },
                        event_flag(e),
                    ],
                ),
            ],
            seq![
                leaf_tree(seq!["event"@, scoped(activate_name, e), "0"@]),
                leaf_tree(seq![shadow, "="@, event_flag(e)]),
            ],
        )
    } else {
        (
            seq![
                c1,
                leaf_tree(
                    seq![
                        if invert {
                            "not"@
                        } else {
                            "has"@
                        },
                        shadow,
                    ],
                ),
            ],
            seq![
                leaf_tree(seq!["event"@, scoped(restore_name, e), "0"@]),
                leaf_tree(seq![shadow, "="@, "0"@]),
            ],
        )
    }
}

/// The label that skips the block of preset `i`.
pub open spec fn preset_gate(i: nat, suffix: Seq<char>) -> Seq<char> {
    "not "@ + decimal(i) + " "@ + suffix
}

/// The action that triggers the event `<prefix> <i>`.
pub open spec fn trigger_action(prefix: Seq<char>, i: nat) -> Tree {
    tree(seq!["action"@], seq![leaf_tree(seq!["event"@, numbered(prefix, i), "0"@])])
}

/// The branch / action / label triple that toggles the side deltas of story event `e`
/// inside the block of preset `i`. The branch skips the action when either skip
/// condition holds, so the action runs only when the story event has happened and the
/// shadow variable says the side delta is not yet in the requested state.
pub open spec fn side_block(i: nat, suffix: Seq<char>, e: Seq<char>, activate: bool) -> Seq<Tree> {
    let label = preset_gate(i, suffix) + " "@ + e;
    let gate = side_conditions(
        e,
        numbered(restore_prefix(), i),
        numbered(activate_prefix(), i),
        activate,
        true,
    );
    seq![
        tree(seq!["branch"@, label], seq![tree(seq!["or"@], gate.0)]),
        tree(seq!["action"@], gate.1),
        leaf_tree(seq!["label"@, label]),
    ]
}

/// The side blocks of preset `i` for the story events `keys`, in order.
pub open spec fn side_blocks(i: nat, suffix: Seq<char>, keys: Seq<Seq<char>>, activate: bool) -> Seq<
    Tree,
>
    decreases keys.len(),
{
    if keys.len() == 0 {
        Seq::empty()
    } else {
        side_blocks(i, suffix, keys.drop_last(), activate) + side_block(
            i,
            suffix,
            keys.last(),
            activate,
        )
    }
}

/// The block of preset `i`: a branch that skips it unless preset `i` is the active one,
/// the trigger of `<prefix> <i>` (before the side blocks when activating, after them when
/// restoring), the side blocks, and the label.
pub open spec fn preset_block(
    i: nat,
    activate: bool,
    prefix: Seq<char>,
    suffix: Seq<char>,
    keys: Seq<Seq<char>>,
) -> Seq<Tree> {
    let gate = preset_gate(i, suffix);
    seq![
        tree(
            seq!["branch"@, gate],
            seq![leaf_tree(seq![current_preset_name(), "!="@, decimal(i)])],
        ),
    ] + (if activate {
        seq![trigger_action(prefix, i)]
    } else {
        Seq::empty()
    }) + side_blocks(i, suffix, keys, activate) + (if !activate {
        seq![trigger_action(prefix, i)]
    } else {
        Seq::empty()
    }) + seq![leaf_tree(seq!["label"@, gate])]
}

/// The blocks of presets `0..n`, in order.
pub open spec fn preset_blocks(
    n: nat,
    activate: bool,
    prefix: Seq<char>,
    suffix: Seq<char>,
    keys: Seq<Seq<char>>,
) -> Seq<Tree>
    decreases n,
{
    if n == 0 {
        Seq::empty()
    } else {
        preset_blocks((n - 1) as nat, activate, prefix, suffix, keys) + preset_block(
            (n - 1) as nat,
            activate,
            prefix,
            suffix,
            keys,
        )
    }
}

/// The action that assigns the preset variable to itself.
pub open spec fn blank_action() -> Tree {
    tree(
        seq!["action"@],
        seq![leaf_tree(seq![current_preset_name(), "="@, current_preset_name()])],
    )
}

/// The dispatcher: the blocks of presets `0..=max`, then a blank action so that the
/// text never ends on a label.
pub open spec fn dispatcher(
    max: nat,
    activate: bool,
    prefix: Seq<char>,
    suffix: Seq<char>,
    keys: Seq<Seq<char>>,
) -> Seq<Tree> {
    preset_blocks(max + 1, activate, prefix, suffix, keys) + seq![blank_action()]
}

pub(crate) fn installed() -> (r: String)
    ensures
        r@ == installed_name(),
{
    text("System Shuffler: Installed")
}

pub(crate) fn current_preset() -> (r: String)
    ensures
        r@ == current_preset_name(),
{
    text("System Shuffler: Current Preset")
}

pub(crate) fn last_shuffle() -> (r: String)
    ensures
        r@ == last_shuffle_name(),
{
    text("System Shuffler: Last Shuffle Day")
}

/// The text `<prefix> <i>`.
pub fn numbered_text(prefix: &String, i: u64) -> (r: String)
    ensures
        r@ == numbered(prefix@, i as nat),
{
    let mut r = prefix.clone();
    r.append(" ");
    let d = decimal_text(i);
    r.append(d.as_str());
    r
}

/// The text `<name>: <e>`.
pub fn scoped_text(name: &String, e: &String) -> (r: String)
    ensures
        r@ == scoped(name@, e@),
{
    let mut r = name.clone();
    r.append(": ");
    r.append(e.as_str());
    r
}

/// The text `event: <name>`.
pub fn event_flag_text(name: &String) -> (r: String)
    ensures
        r@ == event_flag(name@),
{
    let mut r = text("event: ");
    r.append(name.as_str());
    r
}

/// The two conditions and the two actions of the side-delta gate of story event `e`.
pub fn side_event_conditions(
    e: &String,
    restore_name: &String,
    activate_name: &String,
    activate: bool,
    invert: bool,
) -> (r: (Vec<DataNode>, Vec<DataNode>))
    ensures
        (trees(r.0@), trees(r.1@)) == side_conditions(
            e@,
            restore_name@,
            activate_name@,
            activate,
            invert,
        ),
{
    let c1 = leaf(
        toks2(
            if invert {
                text("not")
            } else {
                text("has")
            },
            event_flag_text(e),
        ),
    );
    let scoped_activate = scoped_text(activate_name, e);
    let shadow = event_flag_text(&scoped_activate);
    let ghost want = side_conditions(e@, restore_name@, activate_name@, activate, invert);
    if activate {
        let c2 = leaf(
            toks3(
                shadow.clone(),
                if invert {
                    text("==")
                } else {
                    text("!=")
                },
                event_flag_text(e),
            ),
        );
        let a1 = leaf(toks3(text("event"), scoped_activate, text("0")));
        let a2 = leaf(toks3(shadow, text("="), event_flag_text(e)));
        let conds = vec![c1, c2];
        let acts = vec![a1, a2];
        assert(trees(conds@) =~= want.0);
        assert(trees(acts@) =~= want.1);
        (conds, acts)
    } else {
        let c2 = leaf(
            toks2(
                if invert {
                    text("not")
                } else {
                    text("has")
                },
                shadow.clone(),
            ),
        );
        let a1 = leaf(toks3(text("event"), scoped_text(restore_name, e), text("0")));
        let a2 = leaf(toks3(shadow, text("="), text("0")));
        let conds = vec![c1, c2];
        let acts = vec![a1, a2];
        assert(trees(conds@) =~= want.0);
        assert(trees(acts@) =~= want.1);
        (conds, acts)
    }
}

fn preset_gate_text(i: u64, suffix: &String) -> (r: String)
    ensures
        r@ == preset_gate(i as nat, suffix@),
{
    let mut r = text("not ");
    let d = decimal_text(i);
    r.append(d.as_str());
    r.append(" ");
    r.append(suffix.as_str());
    r
}

fn trigger(prefix: &String, i: u64) -> (r: DataNode)
    ensures
        r@ == trigger_action(prefix@, i as nat),
{
    let inner = leaf(toks3(text("event"), numbered_text(prefix, i), text("0")));
    let children = vec![inner];
    assert(trees(children@) =~= seq![inner@]);
    node(toks1(text("action")), children)
}

/// Appends the side block of story event `e` inside the block of preset `i`.
fn push_side_block(parent: &mut DataNode, i: u64, suffix: &String, e: &String, activate: bool)
    ensures
        final(parent)@ == tree(
            old(parent)@.tokens,
            old(parent)@.children + side_block(i as nat, suffix@, e@, activate),
        ),
{
    let restore_name = numbered_text(&text("System Shuffler: Restore Preset"), i);
    let activate_name = numbered_text(&text("System Shuffler: Activate Preset"), i);
    let mut label = preset_gate_text(i, suffix);
    label.append(" ");
    label.append(e.as_str());
    let (conds, acts) = side_event_conditions(e, &restore_name, &activate_name, activate, true);
    let either = node(toks1(text("or")), conds);
    let alternatives = vec![either];
    assert(trees(alternatives@) =~= seq![either@]);
    let branch = node(toks2(text("branch"), label.clone()), alternatives);
    let action = node(toks1(text("action")), acts);
    let end = leaf(toks2(text("label"), label));
    let ghost start = parent@;
    push_child(parent, branch);
    push_child(parent, action);
    push_child(parent, end);
    assert(parent@.children =~= start.children + side_block(i as nat, suffix@, e@, activate));
}

/// Appends the block of preset `i`.
fn push_preset_block(
    parent: &mut DataNode,
    i: u64,
    activate: bool,
    prefix: &String,
    suffix: &String,
    keys: &Vec<String>,
)
    ensures
        final(parent)@ == tree(
            old(parent)@.tokens,
            old(parent)@.children + preset_block(i as nat, activate, prefix@, suffix@, texts(keys@)),
        ),
{
    let ghost start = parent@;
    let ghost ks = texts(keys@);
    let gate = preset_gate_text(i, suffix);
    let cond = leaf(toks3(current_preset(), text("!="), decimal_text(i)));
    let conds = vec![cond];
    assert(trees(conds@) =~= seq![cond@]);
    let branch = node(toks2(text("branch"), gate.clone()), conds);
    push_child(parent, branch);
    if activate {
        push_child(parent, trigger(prefix, i));
    }
    let ghost after_first = parent@.children;
    let mut k: usize = 0;
    while k < keys.len()
        invariant
            k <= keys@.len(),
            ks == texts(keys@),
            parent@ == tree(start.tokens, after_first + side_blocks(i as nat, suffix@, ks.take(k as int), activate)),
        decreases keys@.len() - k,
    {
        push_side_block(parent, i, suffix, &keys[k], activate);
        assert(ks.take(k + 1).drop_last() =~= ks.take(k as int));
        assert(ks.take(k + 1).last() == keys@[k as int]@);
        assert(after_first + side_blocks(i as nat, suffix@, ks.take(k + 1), activate) =~= after_first
            + side_blocks(i as nat, suffix@, ks.take(k as int), activate) + side_block(
            i as nat,
            suffix@,
            keys@[k as int]@,
            activate,
        ));
        k = k + 1;
    }
    assert(ks.take(k as int) =~= ks);
    if !activate {
        push_child(parent, trigger(prefix, i));
    }
    push_child(parent, leaf(toks2(text("label"), gate)));
    assert(parent@.children =~= start.children + preset_block(i as nat, activate, prefix@, suffix@, ks));
}

/// Appends the dispatcher for presets `0..=max` to the children of `parent`.
pub fn conditional_events(
    parent: &mut DataNode,
    max: u8,
    activate: bool,
    prefix: &String,
    suffix: &String,
    keys: &Vec<String>,
)
    ensures
        final(parent)@ == tree(
            old(parent)@.tokens,
            old(parent)@.children + dispatcher(max as nat, activate, prefix@, suffix@, texts(keys@)),
        ),
{
    let ghost start = parent@;
    let ghost ks = texts(keys@);
    let mut i: u64 = 0;
    assert(start.children + preset_blocks(0, activate, prefix@, suffix@, ks) =~= start.children);
    while i <= max as u64
        invariant
            i <= max as u64 + 1,
            ks == texts(keys@),
            parent@ == tree(start.tokens, start.children + preset_blocks(i as nat, activate, prefix@, suffix@, ks)),
        decreases max as u64 + 1 - i,
    {
        push_preset_block(parent, i, activate, prefix, suffix, keys);
        assert(start.children + preset_blocks((i + 1) as nat, activate, prefix@, suffix@, ks) =~= start.children
            + preset_blocks(i as nat, activate, prefix@, suffix@, ks) + preset_block(
            i as nat,
            activate,
            prefix@,
            suffix@,
            ks,
        ));
        i = i + 1;
    }
    let blank = leaf(toks3(current_preset(), text("="), current_preset()));
    let blanks = vec![blank];
    assert(trees(blanks@) =~= seq![blank@]);
    push_child(parent, node(toks1(text("action")), blanks));
    assert(parent@.children =~= start.children + dispatcher(max as nat, activate, prefix@, suffix@, ks));
}

} // verus!
