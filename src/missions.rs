use vstd::prelude::*;

use crate::dispatcher::{
    activate_prefix, conditional_events, current_preset, current_preset_name, dispatcher,
    installed, installed_name, last_shuffle, last_shuffle_name, restore_prefix, scoped,
    side_conditions, side_event_conditions,
};
use crate::tree::{
    decimal, decimal_text, leaf, leaf_tree, node, push_child, text, texts, toks1, toks2, toks3,
    toks7, tree, trees, push_all, DataNode, Tree,
};

verus! {

/// The settings of a generated package.
#[derive(Clone, Copy, Debug)]
pub struct SystemShufflerConfig {
    /// Seed of the preset permutations.
    pub seed: usize,
    /// Highest preset index; presets are `0..=max_presets`.
    pub max_presets: u8,
    /// Chance in percent of a reshuffle on each landing; 0 turns it off.
    pub shuffle_chance: u8,
    /// Days between guaranteed reshuffles; 0 turns it off.
    pub fixed_shuffle_days: u8,
    /// Whether the first landing after installation reshuffles.
    pub shuffle_once_on_install: bool,
}

impl SystemShufflerConfig {
    /// Settings from their five values.
    pub fn new(
        seed: usize,
        max_presets: u8,
        shuffle_chance: u8,
        fixed_shuffle_days: u8,
        shuffle_once_on_install: bool,
    ) -> (r: Self)
        ensures
            r.seed == seed,
            r.max_presets == max_presets,
            r.shuffle_chance == shuffle_chance,
            r.fixed_shuffle_days == fixed_shuffle_days,
            r.shuffle_once_on_install == shuffle_once_on_install,
    {
        SystemShufflerConfig {
            seed,
            max_presets,
            shuffle_chance,
            fixed_shuffle_days,
            shuffle_once_on_install,
        }
    }
}

/// The action that records a new preset: a fresh roll in `1..=max_presets`, or 0 when
/// resetting.
pub open spec fn selection(cfg: SystemShufflerConfig, reset: bool) -> Tree {
    tree(
        seq!["action"@],
        seq![
            leaf_tree(seq![installed_name(), "="@, "1"@]),
            if reset {
                leaf_tree(seq![current_preset_name(), "="@, "0"@])
            } else {
                leaf_tree(
                    seq![
                        current_preset_name(),
                        "="@,
                        "("@,
                        "roll: "@ + decimal(cfg.max_presets as nat),
                        "+"@,
                        "1"@,
                        ")"@,
                    ],
                )
            },
            leaf_tree(seq![last_shuffle_name(), "="@, "days since epoch"@]),
        ],
    )
}

/// Whether no trigger of the periodic reshuffle is enabled.
pub open spec fn never_offered(cfg: SystemShufflerConfig) -> bool {
    cfg.shuffle_chance == 0 && cfg.fixed_shuffle_days == 0 && !cfg.shuffle_once_on_install
}

/// The offer condition of the periodic reshuffle: `never` when no trigger is enabled,
/// otherwise an `or` of the enabled triggers.
pub open spec fn offer_condition(cfg: SystemShufflerConfig) -> Tree {
    if never_offered(cfg) {
        leaf_tree(seq!["never"@])
    } else {
        tree(
            seq!["or"@],
            (if cfg.shuffle_chance > 0 {
                seq![leaf_tree(seq!["random"@, "<"@, decimal(cfg.shuffle_chance as nat)])]
            } else {
                Seq::empty()
            }) + (if cfg.fixed_shuffle_days > 0 {
                seq![
                    leaf_tree(
                        seq![
                            "days since epoch"@,
                            ">="@,
                            "("@,
                            last_shuffle_name(),
                            "+"@,
                            decimal(cfg.fixed_shuffle_days as nat),
                            ")"@,
                        ],
                    ),
                ]
            } else {
                Seq::empty()
            }) + (if cfg.shuffle_once_on_install {
                seq![leaf_tree(seq!["not"@, installed_name()])]
            } else {
                Seq::empty()
            }),
        )
    }
}

/// A dispatching conversation: its text, the restoration dispatcher, the new preset, and
/// the activation dispatcher.
pub open spec fn conversation(
    line: Seq<char>,
    cfg: SystemShufflerConfig,
    reset: bool,
    keys: Seq<Seq<char>>,
) -> Tree {
    tree(
        seq!["conversation"@],
        seq![leaf_tree(seq![line])] + dispatcher(
            cfg.max_presets as nat,
            false,
            restore_prefix(),
            "restore"@,
            keys,
        ) + seq![selection(cfg, reset)] + dispatcher(
            cfg.max_presets as nat,
            true,
            activate_prefix(),
            "activate"@,
            keys,
        ),
    )
}

/// The flags of an invisible mission that is offered on every landing.
pub open spec fn hidden_mission_flags() -> Seq<Tree> {
    seq![
        leaf_tree(seq!["invisible"@]),
        leaf_tree(seq!["repeat"@]),
        leaf_tree(seq!["non-blocking"@]),
        leaf_tree(seq!["landing"@]),
        leaf_tree(seq!["offer precedence"@, "-1000000"@]),
    ]
}

/// The periodic reshuffle mission.
pub open spec fn main_mission_tree(cfg: SystemShufflerConfig, keys: Seq<Seq<char>>) -> Tree {
    tree(
        seq!["mission"@, "zzzzz System Shuffler: Select Preset"@],
        hidden_mission_flags() + seq![
            tree(seq!["to"@, "offer"@], seq![offer_condition(cfg)]),
            tree(
                seq!["on"@, "offer"@],
                seq![
                    conversation("The universe has shuffled. Good luck."@, cfg, false, keys),
                    leaf_tree(seq!["fail"@]),
                ],
            ),
        ],
    )
}

/// The job that restores preset 0.
pub open spec fn restore_job_tree(cfg: SystemShufflerConfig, keys: Seq<Seq<char>>) -> Tree {
    tree(
        seq!["mission"@, "zzzzz System Shuffler: Restore Universe"@],
        seq![
            leaf_tree(seq!["name"@, "Unshuffle the universe"@]),
            leaf_tree(
                seq![
                    "description"@,
                    "Restore all systems in the universe to how they should be, free of charge."@,
                ],
            ),
            leaf_tree(seq!["repeat"@]),
            leaf_tree(seq!["job"@]),
            tree(
                seq!["to"@, "offer"@],
                seq![leaf_tree(seq![current_preset_name(), "!="@, "0"@])],
            ),
            tree(
                seq!["on"@, "accept"@],
                seq![
                    conversation(
                        "As per your request, the universe has been restored."@,
                        cfg,
                        true,
                        keys,
                    ),
                    leaf_tree(seq!["fail"@]),
                ],
            ),
        ],
    )
}

/// The job that forces a reshuffle.
pub open spec fn manual_trigger_tree(cfg: SystemShufflerConfig, keys: Seq<Seq<char>>) -> Tree {
    tree(
        seq!["mission"@, "zzzzz System Shuffler: Manual Shuffle"@],
        seq![
            leaf_tree(seq!["name"@, "Shuffle the universe"@]),
            leaf_tree(
                seq![
                    "description"@,
                    "Shuffle all systems in the universe to one of "@ + decimal(
                        cfg.max_presets as nat,
                    ) + " presets."@,
                ],
            ),
            leaf_tree(seq!["repeat"@]),
            leaf_tree(seq!["job"@]),
            tree(
                seq!["on"@, "accept"@],
                seq![
                    conversation(
                        "As per your request, the universe has shuffled. Good luck."@,
                        cfg,
                        false,
                        keys,
                    ),
                    leaf_tree(seq!["fail"@]),
                ],
            ),
        ],
    )
}

/// The backpatch mission of story event `e` in preset `i`, in one direction.
pub open spec fn backpatch_tree(
    i: nat,
    e: Seq<char>,
    restore_name: Seq<char>,
    activate_name: Seq<char>,
    activate: bool,
) -> Tree {
    let gate = side_conditions(e, restore_name, activate_name, activate, false);
    tree(
        seq![
            "mission"@,
            "zzzzz "@ + scoped(
                if activate {
                    activate_name
                } else {
                    restore_name
                },
                e,
            ),
        ],
        hidden_mission_flags() + seq![
            tree(
                seq!["to"@, "offer"@],
                seq![
                    leaf_tree(seq!["has"@, installed_name()]),
                    leaf_tree(
                        seq![
                            current_preset_name(),
                            if activate {
                                "=="@
                            } else {
                                "!="@
                            },
                            decimal(i),
                        ],
                    ),
                ] + gate.0,
            ),
            tree(seq!["on"@, "offer"@], gate.1 + seq![leaf_tree(seq!["fail"@])]),
        ],
    )
}

/// The two backpatch missions of story event `e` in preset `i`: restoring, then
/// activating.
pub open spec fn backpatch_missions(
    i: nat,
    e: Seq<char>,
    restore_name: Seq<char>,
    activate_name: Seq<char>,
) -> Seq<Tree> {
    seq![
        backpatch_tree(i, e, restore_name, activate_name, false),
        backpatch_tree(i, e, restore_name, activate_name, true),
    ]
}

fn flag(word: &str) -> (r: DataNode)
    ensures
        r@ == leaf_tree(seq![word@]),
{
    leaf(toks1(text(word)))
}

/// The action that records a new preset.
pub fn select_preset(cfg: &SystemShufflerConfig, reset: bool) -> (r: DataNode)
    ensures
        r@ == selection(*cfg, reset),
{
    let first = leaf(toks3(installed(), text("="), text("1")));
    let second = if reset {
        leaf(toks3(current_preset(), text("="), text("0")))
    } else {
        let mut roll = text("roll: ");
        let d = decimal_text(cfg.max_presets as u64);
        roll.append(d.as_str());
        leaf(toks7(current_preset(), text("="), text("("), roll, text("+"), text("1"), text(")")))
    };
    let third = leaf(toks3(last_shuffle(), text("="), text("days since epoch")));
    let children = vec![first, second, third];
    assert(trees(children@) =~= selection(*cfg, reset).children);
    node(toks1(text("action")), children)
}

/// The offer condition of the periodic reshuffle.
pub fn offer(cfg: &SystemShufflerConfig) -> (r: DataNode)
    ensures
        r@ == offer_condition(*cfg),
{
    if cfg.shuffle_chance == 0 && cfg.fixed_shuffle_days == 0 && !cfg.shuffle_once_on_install {
        return flag("never");
    }
    let mut or = flag("or");
    let ghost a: Seq<Tree> = Seq::empty();
    let ghost b: Seq<Tree> = Seq::empty();
    let ghost c: Seq<Tree> = Seq::empty();
    if cfg.shuffle_chance > 0 {
        let x = leaf(toks3(text("random"), text("<"), decimal_text(cfg.shuffle_chance as u64)));
        proof {
            a = seq![x@];
        }
        push_child(&mut or, x);
    }
    if cfg.fixed_shuffle_days > 0 {
        let x = leaf(
            toks7(
                text("days since epoch"),
                text(">="),
                text("("),
                last_shuffle(),
                text("+"),
                decimal_text(cfg.fixed_shuffle_days as u64),
                text(")"),
            ),
        );
        proof {
            b = seq![x@];
        }
        push_child(&mut or, x);
    }
    if cfg.shuffle_once_on_install {
        let x = leaf(toks2(text("not"), installed()));
        proof {
            c = seq![x@];
        }
        push_child(&mut or, x);
    }
    assert(or@.children =~= a + b + c);
    or
}

fn dispatching_conversation(
    line: &str,
    cfg: &SystemShufflerConfig,
    reset: bool,
    keys: &Vec<String>,
) -> (r: DataNode)
    ensures
        r@ == conversation(line@, *cfg, reset, texts(keys@)),
{
    let first = flag(line);
    let mut conv = node(toks1(text("conversation")), vec![first]);
    assert(conv@.children =~= seq![first@]);
    conditional_events(
        &mut conv,
        cfg.max_presets,
        false,
        &text("System Shuffler: Restore Preset"),
        &text("restore"),
        keys,
    );
    push_child(&mut conv, select_preset(cfg, reset));
    conditional_events(
        &mut conv,
        cfg.max_presets,
        true,
        &text("System Shuffler: Activate Preset"),
        &text("activate"),
        keys,
    );
    assert(conv@.children =~= conversation(line@, *cfg, reset, texts(keys@)).children);
    conv
}

fn hidden_mission(title: String) -> (r: DataNode)
    ensures
        r@ == tree(seq!["mission"@, title@], hidden_mission_flags()),
{
    let mut m = node(toks2(text("mission"), title), Vec::new());
    assert(m@.children =~= Seq::<Tree>::empty());
    push_child(&mut m, flag("invisible"));
    push_child(&mut m, flag("repeat"));
    push_child(&mut m, flag("non-blocking"));
    push_child(&mut m, flag("landing"));
    push_child(&mut m, leaf(toks2(text("offer precedence"), text("-1000000"))));
    assert(m@.children =~= hidden_mission_flags());
    m
}

/// The periodic reshuffle mission.
pub fn main_mission(cfg: &SystemShufflerConfig, keys: &Vec<String>) -> (r: DataNode)
    ensures
        r@ == main_mission_tree(*cfg, texts(keys@)),
{
    let mut m = hidden_mission(text("zzzzz System Shuffler: Select Preset"));
    let cond = offer(cfg);
    let to_offer = node(toks2(text("to"), text("offer")), vec![cond]);
    assert(to_offer@.children =~= seq![cond@]);
    push_child(&mut m, to_offer);
    let conv = dispatching_conversation("The universe has shuffled. Good luck.", cfg, false, keys);
    let fail = flag("fail");
    let on_offer = node(toks2(text("on"), text("offer")), vec![conv, fail]);
    assert(on_offer@.children =~= seq![conv@, fail@]);
    push_child(&mut m, on_offer);
    assert(m@.children =~= main_mission_tree(*cfg, texts(keys@)).children);
    m
}

/// The job that restores preset 0.
pub fn restore_job(cfg: &SystemShufflerConfig, keys: &Vec<String>) -> (r: DataNode)
    ensures
        r@ == restore_job_tree(*cfg, texts(keys@)),
{
    let mut m = node(
        toks2(text("mission"), text("zzzzz System Shuffler: Restore Universe")),
        Vec::new(),
    );
    assert(m@.children =~= Seq::<Tree>::empty());
    push_child(&mut m, leaf(toks2(text("name"), text("Unshuffle the universe"))));
    push_child(
        &mut m,
        leaf(
            toks2(
                text("description"),
                text("Restore all systems in the universe to how they should be, free of charge."),
            ),
        ),
    );
    push_child(&mut m, flag("repeat"));
    push_child(&mut m, flag("job"));
    let cond = leaf(toks3(current_preset(), text("!="), text("0")));
    let to_offer = node(toks2(text("to"), text("offer")), vec![cond]);
    assert(to_offer@.children =~= seq![cond@]);
    push_child(&mut m, to_offer);
    let conv = dispatching_conversation(
        "As per your request, the universe has been restored.",
        cfg,
        true,
        keys,
    );
    let fail = flag("fail");
    let on_accept = node(toks2(text("on"), text("accept")), vec![conv, fail]);
    assert(on_accept@.children =~= seq![conv@, fail@]);
    push_child(&mut m, on_accept);
    assert(m@.children =~= restore_job_tree(*cfg, texts(keys@)).children);
    m
}

/// The job that forces a reshuffle.
pub fn manual_trigger(cfg: &SystemShufflerConfig, keys: &Vec<String>) -> (r: DataNode)
    ensures
        r@ == manual_trigger_tree(*cfg, texts(keys@)),
{
    let mut m = node(
        toks2(text("mission"), text("zzzzz System Shuffler: Manual Shuffle")),
        Vec::new(),
    );
    assert(m@.children =~= Seq::<Tree>::empty());
    push_child(&mut m, leaf(toks2(text("name"), text("Shuffle the universe"))));
    let mut description = text("Shuffle all systems in the universe to one of ");
    let d = decimal_text(cfg.max_presets as u64);
    description.append(d.as_str());
    description.append(" presets.");
    push_child(&mut m, leaf(toks2(text("description"), description)));
    push_child(&mut m, flag("repeat"));
    push_child(&mut m, flag("job"));
    let conv = dispatching_conversation(
        "As per your request, the universe has shuffled. Good luck.",
        cfg,
        false,
        keys,
    );
    let fail = flag("fail");
    let on_accept = node(toks2(text("on"), text("accept")), vec![conv, fail]);
    assert(on_accept@.children =~= seq![conv@, fail@]);
    push_child(&mut m, on_accept);
    assert(m@.children =~= manual_trigger_tree(*cfg, texts(keys@)).children);
    m
}

fn backpatch_one(
    i: u8,
    e: &String,
    restore_name: &String,
    activate_name: &String,
    activate: bool,
) -> (r: DataNode)
    ensures
        r@ == backpatch_tree(i as nat, e@, restore_name@, activate_name@, activate),
{
    let mut title = text("zzzzz ");
    let scope = if activate {
        crate::dispatcher::scoped_text(activate_name, e)
    } else {
        crate::dispatcher::scoped_text(restore_name, e)
    };
    title.append(scope.as_str());
    let mut m = hidden_mission(title);
    let (conds, acts) = side_event_conditions(e, restore_name, activate_name, activate, false);
    let has_installed = leaf(toks2(text("has"), installed()));
    let at_preset = leaf(
        toks3(
            current_preset(),
            if activate {
                text("==")
            } else {
                text("!=")
            },
            decimal_text(i as u64),
        ),
    );
    let mut to_offer = node(toks2(text("to"), text("offer")), vec![has_installed, at_preset]);
    assert(to_offer@.children =~= seq![has_installed@, at_preset@]);
    push_all(&mut to_offer, conds);
    let mut on_offer = node(toks2(text("on"), text("offer")), acts);
    push_child(&mut on_offer, flag("fail"));
    let ghost want = backpatch_tree(i as nat, e@, restore_name@, activate_name@, activate);
    assert(to_offer@ == want.children[5]) by {
        assert(to_offer@.children =~= want.children[5].children);
    }
    assert(on_offer@ == want.children[6]) by {
        assert(on_offer@.children =~= want.children[6].children);
    }
    push_child(&mut m, to_offer);
    push_child(&mut m, on_offer);
    assert(m@.children =~= want.children);
    m
}

/// The two backpatch missions of story event `e` in preset `i`.
pub fn backpatch_mission(
    i: u8,
    e: &String,
    restore_name: &String,
    activate_name: &String,
) -> (r: Vec<DataNode>)
    ensures
        trees(r@) == backpatch_missions(i as nat, e@, restore_name@, activate_name@),
{
    let restoring = backpatch_one(i, e, restore_name, activate_name, false);
    let activating = backpatch_one(i, e, restore_name, activate_name, true);
    let r = vec![restoring, activating];
    assert(trees(r@) =~= backpatch_missions(i as nat, e@, restore_name@, activate_name@));
    r
}

} // verus!
