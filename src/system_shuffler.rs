use vstd::prelude::*;

use crate::delta::{preset_event, preset_events};
use crate::dispatcher::{activate_prefix, numbered, numbered_text, restore_prefix, scoped, scoped_text};
use crate::extract::{
    baseline, event_views, extract_baseline, Baseline, BaselineView, EventRecords,
};
use crate::missions::{
    backpatch_mission, backpatch_missions, main_mission, main_mission_tree, manual_trigger,
    manual_trigger_tree, restore_job, restore_job_tree, SystemShufflerConfig,
};
use crate::records::{entity_views, EntityView, SwapView, SystemSwaps};
use crate::tree::{
    decimal, decimal_text, leaf, leaf_tree, text, texts, toks2, tree, trees, DataNode, Tree,
};
use crate::wandom::{is_permutation_of_range, shuffle_spec, ShuffleIndex};

verus! {

/// One entry of a generated package: a directory, or a text file given as its root
/// declarations.
#[derive(Debug, PartialEq, Eq)]
pub enum PackageEntry {
    Directory(String),
    File(String, Vec<DataNode>),
}

/// The value of a `PackageEntry`.
pub enum EntryView {
    Directory(Seq<char>),
    File(Seq<char>, Seq<Tree>),
}

impl View for PackageEntry {
    type V = EntryView;

    open spec fn view(&self) -> EntryView {
        match self {
            PackageEntry::Directory(p) => EntryView::Directory(p@),
            PackageEntry::File(p, roots) => EntryView::File(p@, trees(roots@)),
        }
    }
}

/// The values of a list of package entries.
pub open spec fn entry_views(v: Seq<PackageEntry>) -> Seq<EntryView> {
    v.map_values(|e: PackageEntry| e@)
}

/// The seed of the permutation of preset `i`.
pub open spec fn preset_seed(seed: usize, i: usize) -> usize {
    vstd::wrapping::usize_specs::wrapping_add(seed, i)
}

/// The name each system is shown as in preset `i`: itself in preset 0, else the name at
/// the shuffled position.
pub open spec fn swap_targets(names: Seq<Seq<char>>, seed: usize, i: usize) -> Seq<Seq<char>> {
    if i == 0 {
        names
    } else {
        let p = shuffle_spec(names.len(), preset_seed(seed, i));
        Seq::new(names.len(), |k: int| names[p[k] as int])
    }
}

/// The name map of preset `i` over the sorted system names.
pub fn get_system_swaps(names: &Vec<String>, seed: usize, preset_index: usize) -> (r: SystemSwaps)
    ensures
        r.wf(),
        texts(r.names@) == texts(names@),
        texts(r.targets@) == swap_targets(texts(names@), seed, preset_index),
        forall|k: int|
            0 <= k < names@.len() ==> #[trigger] texts(names@).contains(texts(r.targets@)[k]),
        forall|k: int|
            0 <= k < names@.len() ==> #[trigger] texts(r.targets@).contains(texts(names@)[k]),
{
    let ghost ns = texts(names@);
    let copy = crate::tree::clone_tokens(names);
    if preset_index == 0 {
        let targets = crate::tree::clone_tokens(names);
        let r = SystemSwaps { names: copy, targets };
        assert forall|k: int| 0 <= k < names@.len() implies #[trigger] ns.contains(
            texts(r.targets@)[k],
        ) by {
            assert(ns[k] == texts(r.targets@)[k]);
        }
        assert forall|k: int| 0 <= k < names@.len() implies #[trigger] texts(r.targets@).contains(
            ns[k],
        ) by {
            assert(ns[k] == texts(r.targets@)[k]);
        }
        return r;
    }
    let perm = names.shuffled_indices(seed.wrapping_add(preset_index));
    let ghost p = perm@;
    assert(is_permutation_of_range(p, names@.len()));
    let mut targets: Vec<String> = Vec::new();
    let mut k: usize = 0;
    while k < names.len()
        invariant
            k <= names@.len(),
            ns == texts(names@),
            p == perm@,
            is_permutation_of_range(p, names@.len()),
            p == shuffle_spec(names@.len(), preset_seed(seed, preset_index)),
            preset_index != 0,
            texts(targets@) == swap_targets(ns, seed, preset_index).take(k as int),
        decreases names@.len() - k,
    {
        let j = perm[k];
        assert(p[k as int] < names@.len());
        let t = names[j].clone();
        assert(t@ == ns[j as int]);
        assert(swap_targets(ns, seed, preset_index)[k as int] == ns[p[k as int] as int]);
        let ghost before = targets@;
        targets.push(t);
        k = k + 1;
        assert(targets@ == before.push(t));
        assert(texts(targets@) =~= texts(before).push(t@));
        assert(texts(targets@) =~= swap_targets(ns, seed, preset_index).take(k as int));
    }
    let ghost tv = swap_targets(ns, seed, preset_index);
    assert(tv.take(k as int) =~= tv);
    let r = SystemSwaps { names: copy, targets };
    assert forall|x: int| 0 <= x < names@.len() implies #[trigger] ns.contains(texts(r.targets@)[x]) by {
        assert(texts(r.targets@)[x] == ns[p[x] as int]);
    }
    assert forall|x: int| 0 <= x < names@.len() implies #[trigger] texts(r.targets@).contains(ns[x]) by {
        assert(p.contains(x as usize));
        let y = choose|y: int| 0 <= y < p.len() && p[y] == x as usize;
        assert(texts(r.targets@)[y] == ns[x]);
    }
    r
}

/// The lines of the plugin's description.
pub open spec fn about_lines(cfg: SystemShufflerConfig) -> Seq<Seq<char>> {
    seq![
        "An Endless Sky \"no logic\" location randomizer."@,
        if cfg.shuffle_once_on_install {
            "In addition to shuffling once immediately upon installation, this plugin was generated with the following settings:"@
        } else {
            "This plugin was generated with the following settings:"@
        },
        "- PRNG seed: "@ + decimal(cfg.seed as nat),
        "- "@ + decimal(cfg.max_presets as nat) + " possible universe presets"@,
    ] + (if cfg.shuffle_chance > 0 {
        seq![
            "- A "@ + decimal(cfg.shuffle_chance as nat)
                + "% chance to shuffle to a different preset every time you land"@,
        ]
    } else {
        Seq::empty()
    }) + (if cfg.fixed_shuffle_days > 0 {
        seq![
            "- A guaranteed shuffle roughly once every "@ + decimal(cfg.fixed_shuffle_days as nat)
                + " days"@,
        ]
    } else {
        Seq::empty()
    })
}

/// One `about <line>` declaration per line.
pub open spec fn about_nodes(ls: Seq<Seq<char>>) -> Seq<Tree>
    decreases ls.len(),
{
    if ls.len() == 0 {
        Seq::empty()
    } else {
        about_nodes(ls.drop_last()).push(leaf_tree(seq!["about"@, ls.last()]))
    }
}

/// The declarations of `plugin.txt`: the name, one `about` per description line, and the
/// version.
pub open spec fn plugin_roots(cfg: SystemShufflerConfig) -> Seq<Tree> {
    seq![leaf_tree(seq!["name"@, "System Shuffler"@])] + about_nodes(about_lines(cfg)) + seq![
        leaf_tree(seq!["version"@, "0.4.0"@]),
    ]
}

fn joined(a: &str, b: &String, c: &str) -> (r: String)
    ensures
        r@ == a@ + b@ + c@,
{
    let mut r = text(a);
    r.append(b.as_str());
    r.append(c);
    r
}

/// The declarations of `plugin.txt`.
pub fn description(cfg: &SystemShufflerConfig) -> (r: Vec<DataNode>)
    ensures
        trees(r@) == plugin_roots(*cfg),
{
    let mut lines: Vec<String> = Vec::new();
    lines.push(text("An Endless Sky \"no logic\" location randomizer."));
    if cfg.shuffle_once_on_install {
        lines.push(
            text(
                "In addition to shuffling once immediately upon installation, this plugin was generated with the following settings:",
            ),
        );
    } else {
        lines.push(text("This plugin was generated with the following settings:"));
    }
    lines.push(joined("- PRNG seed: ", &decimal_text(cfg.seed as u64), ""));
    lines.push(joined("- ", &decimal_text(cfg.max_presets as u64), " possible universe presets"));
    if cfg.shuffle_chance > 0 {
        lines.push(
            joined(
                "- A ",
                &decimal_text(cfg.shuffle_chance as u64),
                "% chance to shuffle to a different preset every time you land",
            ),
        );
    }
    if cfg.fixed_shuffle_days > 0 {
        lines.push(
            joined(
                "- A guaranteed shuffle roughly once every ",
                &decimal_text(cfg.fixed_shuffle_days as u64),
                " days",
            ),
        );
    }
    proof {
        reveal_strlit("");
    }
    assert(texts(lines@) =~= about_lines(*cfg));
    let mut r: Vec<DataNode> = Vec::new();
    r.push(leaf(toks2(text("name"), text("System Shuffler"))));
    let ghost ls = about_lines(*cfg);
    let mut i: usize = 0;
    while i < lines.len()
        invariant
            i <= lines@.len(),
            texts(lines@) == ls,
            trees(r@) == seq![leaf_tree(seq!["name"@, "System Shuffler"@])] + about_nodes(
                ls.take(i as int),
            ),
        decreases lines@.len() - i,
    {
        let x = leaf(toks2(text("about"), lines[i].clone()));
        assert(lines@[i as int]@ == ls[i as int]);
        assert(x@ == leaf_tree(seq!["about"@, ls[i as int]]));
        let ghost before = r@;
        r.push(x);
        i = i + 1;
        assert(r@ == before.push(x));
        assert(ls.take(i as int).drop_last() =~= ls.take(i - 1));
        assert(ls.take(i as int).last() == ls[i - 1]);
        assert(trees(r@) =~= trees(before).push(x@));
        assert(trees(r@) =~= seq![leaf_tree(seq!["name"@, "System Shuffler"@])] + about_nodes(
            ls.take(i as int),
        ));
    }
    assert(ls.take(i as int) =~= ls);
    let v = leaf(toks2(text("version"), text("0.4.0")));
    let ghost before = r@;
    r.push(v);
    assert(trees(r@) =~= plugin_roots(*cfg));
    r
}

/// The directory of preset `i`.
pub open spec fn preset_path(i: nat) -> Seq<char> {
    "data/presets/universe_preset_"@ + decimal(i)
}

/// The name map of preset `i`.
pub open spec fn swaps_of(names: Seq<Seq<char>>, seed: usize, i: usize) -> SwapView {
    SwapView { names, targets: swap_targets(names, seed, i) }
}

/// The names of the story events, in order.
pub open spec fn event_names(evs: Seq<(Seq<char>, Seq<EntityView>)>) -> Seq<Seq<char>>
    decreases evs.len(),
{
    if evs.len() == 0 {
        Seq::empty()
    } else {
        event_names(evs.drop_last()).push(evs.last().0)
    }
}

/// The side-delta events of every story event in one preset.
pub open spec fn event_file(
    evs: Seq<(Seq<char>, Seq<EntityView>)>,
    restore_name: Seq<char>,
    activate_name: Seq<char>,
    swaps: SwapView,
) -> Seq<Tree>
    decreases evs.len(),
{
    if evs.len() == 0 {
        Seq::empty()
    } else {
        let e = evs.last();
        event_file(evs.drop_last(), restore_name, activate_name, swaps) + preset_events(
            scoped(restore_name, e.0),
            scoped(activate_name, e.0),
            e.1,
            swaps,
        )
    }
}

/// The backpatch missions of every story event in one preset.
pub open spec fn mission_file(
    evs: Seq<(Seq<char>, Seq<EntityView>)>,
    i: nat,
    restore_name: Seq<char>,
    activate_name: Seq<char>,
) -> Seq<Tree>
    decreases evs.len(),
{
    if evs.len() == 0 {
        Seq::empty()
    } else {
        mission_file(evs.drop_last(), i, restore_name, activate_name) + backpatch_missions(
            i,
            evs.last().0,
            restore_name,
            activate_name,
        )
    }
}

/// The entries of preset `i`: its directory, its `main.txt` with the events of the
/// baseline entities, its `events.txt` with the side deltas, and its `missions.txt` with
/// the backpatch missions.
pub open spec fn preset_entries(b: BaselineView, cfg: SystemShufflerConfig, i: nat) -> Seq<EntryView> {
    let sw = swaps_of(b.names, cfg.seed, i as usize);
    let rn = numbered(restore_prefix(), i);
    let an = numbered(activate_prefix(), i);
    let path = preset_path(i);
    seq![
        EntryView::Directory(path + "/"@),
        EntryView::File(path + "/main.txt"@, preset_events(rn, an, b.records, sw)),
        EntryView::File(path + "/events.txt"@, event_file(b.events, rn, an, sw)),
        EntryView::File(path + "/missions.txt"@, mission_file(b.events, i, rn, an)),
    ]
}

/// The entries of presets `0..n`, in order.
pub open spec fn all_presets(b: BaselineView, cfg: SystemShufflerConfig, n: nat) -> Seq<EntryView>
    decreases n,
{
    if n == 0 {
        Seq::empty()
    } else {
        all_presets(b, cfg, (n - 1) as nat) + preset_entries(b, cfg, (n - 1) as nat)
    }
}

/// The package built from a scanned baseline: `plugin.txt`, `data/main.txt` with the
/// reshuffle mission and the two jobs, and the entries of presets `0..=max_presets`.
pub open spec fn package(b: BaselineView, cfg: SystemShufflerConfig) -> Seq<EntryView> {
    let keys = event_names(b.events);
    seq![
        EntryView::File("plugin.txt"@, plugin_roots(cfg)),
        EntryView::Directory("data/"@),
        EntryView::File(
            "data/main.txt"@,
            seq![
                main_mission_tree(cfg, keys),
                restore_job_tree(cfg, keys),
                manual_trigger_tree(cfg, keys),
            ],
        ),
        EntryView::Directory("data/presets/"@),
    ] + all_presets(b, cfg, cfg.max_presets as nat + 1)
}

/// The package generated from the baseline declarations `roots`.
pub open spec fn shuffler_package(roots: Seq<Tree>, cfg: SystemShufflerConfig) -> Seq<EntryView> {
    package(baseline(roots), cfg)
}

fn names_of_events(events: &Vec<EventRecords>) -> (r: Vec<String>)
    ensures
        texts(r@) == event_names(event_views(events@)),
{
    let ghost evs = event_views(events@);
    let mut r: Vec<String> = Vec::new();
    let mut i: usize = 0;
    while i < events.len()
        invariant
            i <= events@.len(),
            evs == event_views(events@),
            texts(r@) == event_names(evs.take(i as int)),
        decreases events@.len() - i,
    {
        let n = events[i].name.clone();
        assert(evs[i as int].0 == n@);
        let ghost before = r@;
        r.push(n);
        i = i + 1;
        assert(evs.take(i as int).drop_last() =~= evs.take(i - 1));
        assert(texts(r@) =~= texts(before).push(n@));
    }
    assert(evs.take(i as int) =~= evs);
    r
}

fn path_with(path: &String, tail: &str) -> (r: String)
    ensures
        r@ == path@ + tail@,
{
    let mut r = path.clone();
    r.append(tail);
    r
}

fn preset(b: &Baseline, cfg: &SystemShufflerConfig, i: u8, out: &mut Vec<PackageEntry>)
    ensures
        entry_views(final(out)@) == entry_views(old(out)@) + preset_entries(b@, *cfg, i as nat),
{
    let swaps = get_system_swaps(&b.system_names, cfg.seed, i as usize);
    assert(swaps@ == swaps_of(b@.names, cfg.seed, i as usize));
    let restore_name = numbered_text(&text("System Shuffler: Restore Preset"), i as u64);
    let activate_name = numbered_text(&text("System Shuffler: Activate Preset"), i as u64);
    let mut path = text("data/presets/universe_preset_");
    let d = decimal_text(i as u64);
    path.append(d.as_str());
    let ghost o0 = entry_views(out@);
    let ghost want = preset_entries(b@, *cfg, i as nat);
    out.push(PackageEntry::Directory(path_with(&path, "/")));
    let main = preset_event(&restore_name, &activate_name, &b.records, &swaps);
    out.push(PackageEntry::File(path_with(&path, "/main.txt"), main));
    let ghost evs = event_views(b.events@);
    let mut events: Vec<DataNode> = Vec::new();
    let mut missions: Vec<DataNode> = Vec::new();
    let mut k: usize = 0;
    assert(trees(events@) =~= event_file(evs.take(0), restore_name@, activate_name@, swaps@));
    assert(trees(missions@) =~= mission_file(evs.take(0), i as nat, restore_name@, activate_name@));
    while k < b.events.len()
        invariant
            k <= b.events@.len(),
            evs == event_views(b.events@),
            swaps.wf(),
            trees(events@) == event_file(evs.take(k as int), restore_name@, activate_name@, swaps@),
            trees(missions@) == mission_file(evs.take(k as int), i as nat, restore_name@, activate_name@),
        decreases b.events@.len() - k,
    {
        let e = &b.events[k];
        assert(evs[k as int] == (e.name@, entity_views(e.records@)));
        let rn = scoped_text(&restore_name, &e.name);
        let an = scoped_text(&activate_name, &e.name);
        let pair = preset_event(&rn, &an, &e.records, &swaps);
        events.append(&mut { pair });
        let patches = backpatch_mission(i, &e.name, &restore_name, &activate_name);
        missions.append(&mut { patches });
        k = k + 1;
        proof {
            assert(evs.take(k as int).drop_last() =~= evs.take(k - 1));
            assert(evs.take(k as int).last() == evs[k - 1]);
        }
        assert(trees(events@) =~= event_file(evs.take(k as int), restore_name@, activate_name@, swaps@));
        assert(trees(missions@) =~= mission_file(evs.take(k as int), i as nat, restore_name@, activate_name@));
    }
    assert(evs.take(k as int) =~= evs);
    out.push(PackageEntry::File(path_with(&path, "/events.txt"), events));
    out.push(PackageEntry::File(path_with(&path, "/missions.txt"), missions));
    assert(entry_views(out@) =~= o0 + want);
}

/// Generates the package from the baseline declarations `roots`.
pub fn process(roots: &Vec<DataNode>, settings: SystemShufflerConfig) -> (r: Vec<PackageEntry>)
    ensures
        entry_views(r@) == shuffler_package(trees(roots@), settings),
{
    let b = extract_baseline(roots);
    let ghost bv = b@;
    let keys = names_of_events(&b.events);
    let plugin = description(&settings);
    let main = vec![main_mission(&settings, &keys), restore_job(&settings, &keys), manual_trigger(&settings, &keys)];
    let ghost kv = event_names(bv.events);
    assert(trees(main@) =~= seq![
        main_mission_tree(settings, kv),
        restore_job_tree(settings, kv),
        manual_trigger_tree(settings, kv),
    ]);
    let mut out: Vec<PackageEntry> = vec![
        PackageEntry::File(text("plugin.txt"), plugin),
        PackageEntry::Directory(text("data/")),
        PackageEntry::File(text("data/main.txt"), main),
        PackageEntry::Directory(text("data/presets/")),
    ];
    let ghost head = entry_views(out@);
    assert(head + all_presets(bv, settings, 0) =~= head);
    let mut i: u16 = 0;
    while i <= settings.max_presets as u16
        invariant
            i <= settings.max_presets as u16 + 1,
            bv == b@,
            entry_views(out@) == head + all_presets(bv, settings, i as nat),
        decreases settings.max_presets as u16 + 1 - i,
    {
        preset(&b, &settings, i as u8, &mut out);
        assert(head + all_presets(bv, settings, i as nat + 1) =~= head + all_presets(bv, settings, i as nat) + preset_entries(bv, settings, i as nat));
        i = i + 1;
    }
    assert(head =~= seq![
        EntryView::File("plugin.txt"@, plugin_roots(settings)),
        EntryView::Directory("data/"@),
        EntryView::File(
            "data/main.txt"@,
            seq![
                main_mission_tree(settings, kv),
                restore_job_tree(settings, kv),
                manual_trigger_tree(settings, kv),
            ],
        ),
        EntryView::Directory("data/presets/"@),
    ]);
    out
}

} // verus!
