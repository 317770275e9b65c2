use es_plugin_generators::extract::extract_baseline;
use es_plugin_generators::missions::SystemShufflerConfig;
use es_plugin_generators::records::NodeAction;
use es_plugin_generators::system_shuffler::{get_system_swaps, process, PackageEntry};
use es_plugin_generators::tree::{copy_node, decimal_text, DataNode};
use es_plugin_generators::extract::classify;
use es_plugin_generators::order::text_lt;

fn n(tokens: &[&str], children: Vec<DataNode>) -> DataNode {
    DataNode { tokens: tokens.iter().map(|t| t.to_string()).collect(), children }
}

fn toks(d: &DataNode) -> Vec<&str> {
    d.tokens.iter().map(|t| t.as_str()).collect()
}

fn file<'a>(package: &'a [PackageEntry], path: &str) -> &'a Vec<DataNode> {
    for entry in package {
        if let PackageEntry::File(p, roots) = entry {
            if p == path {
                return roots;
            }
        }
    }
    panic!("no file {path}");
}

fn two_linked_systems() -> Vec<DataNode> {
    vec![
        n(&["system", "Sol"], vec![n(&["pos", "10", "10"], vec![]), n(&["link", "Rutilicus"], vec![])]),
        n(&["system", "Rutilicus"], vec![n(&["pos", "0", "0"], vec![]), n(&["link", "Sol"], vec![])]),
    ]
}

#[test]
fn scenario_two_linked_systems_preset_one() {
    let package = process(&two_linked_systems(), SystemShufflerConfig::new(42, 1, 0, 0, false));
    let main = file(&package, "data/presets/universe_preset_1/main.txt");
    assert_eq!(main.len(), 2);
    assert_eq!(toks(&main[0]), vec!["event", "System Shuffler: Restore Preset 1"]);
    assert_eq!(toks(&main[1]), vec!["event", "System Shuffler: Activate Preset 1"]);
    // seed 42 + preset 1 swaps the two sorted names
    let activation = &main[1].children;
    assert_eq!(activation.iter().filter(|b| toks(b) == vec!["system", "Sol"]).count(), 1);
    assert_eq!(activation.iter().filter(|b| toks(b) == vec!["system", "Rutilicus"]).count(), 1);
    let sol = activation.iter().find(|b| toks(b) == vec!["system", "Sol"]).unwrap();
    assert_eq!(toks(&sol.children[0]), vec!["pos", "0", "0"]);
    assert_eq!(toks(&sol.children[1]), vec!["add", "link", "Rutilicus"]);
    let restoration = &main[0].children;
    let sol = restoration.iter().find(|b| toks(b) == vec!["system", "Sol"]).unwrap();
    assert_eq!(toks(&sol.children[1]), vec!["remove", "link", "Rutilicus"]);
}

#[test]
fn scenario_two_linked_systems_preset_zero_keeps_names() {
    let package = process(&two_linked_systems(), SystemShufflerConfig::new(42, 1, 0, 0, false));
    let main = file(&package, "data/presets/universe_preset_0/main.txt");
    let restoration = &main[0].children;
    assert_eq!(toks(&restoration[0]), vec!["system", "Rutilicus"]);
    assert_eq!(toks(&restoration[0].children[0]), vec!["pos", "0", "0"]);
    assert_eq!(toks(&restoration[0].children[1]), vec!["remove", "link", "Sol"]);
    let activation = &main[1].children;
    assert_eq!(toks(&activation[1]), vec!["system", "Sol"]);
    assert_eq!(toks(&activation[1].children[1]), vec!["add", "link", "Rutilicus"]);
}

#[test]
fn scenario_jump_range_restores_to_zero() {
    let roots = vec![n(&["system", "Vega"], vec![n(&["jump range", "50"], vec![])])];
    let package = process(&roots, SystemShufflerConfig::new(3, 2, 0, 0, false));
    for i in 0..3 {
        let main = file(&package, &format!("data/presets/universe_preset_{i}/main.txt"));
        let restore = &main[0].children[0];
        assert_eq!(restore.children.len(), 1);
        assert_eq!(toks(&restore.children[0]), vec!["jump range", "0"]);
        let activate = &main[1].children[0];
        assert_eq!(toks(&activate.children[0]), vec!["jump range", "50"]);
    }
}

#[test]
fn scenario_disabled_reshuffle_is_never() {
    let package = process(&two_linked_systems(), SystemShufflerConfig::new(1, 3, 0, 0, false));
    let main = file(&package, "data/main.txt");
    let to_offer = &main[0].children[5];
    assert_eq!(toks(to_offer), vec!["to", "offer"]);
    assert_eq!(to_offer.children.len(), 1);
    assert_eq!(toks(&to_offer.children[0]), vec!["never"]);
}

#[test]
fn reshuffle_offer_lists_enabled_triggers() {
    let package = process(&two_linked_systems(), SystemShufflerConfig::new(1, 3, 25, 7, true));
    let main = file(&package, "data/main.txt");
    let or = &main[0].children[5].children[0];
    assert_eq!(toks(or), vec!["or"]);
    assert_eq!(toks(&or.children[0]), vec!["random", "<", "25"]);
    assert_eq!(
        toks(&or.children[1]),
        vec!["days since epoch", ">=", "(", "System Shuffler: Last Shuffle Day", "+", "7", ")"]
    );
    assert_eq!(toks(&or.children[2]), vec!["not", "System Shuffler: Installed"]);
}

#[test]
fn wormhole_detection_by_owner() {
    let roots = vec![
        n(&["planet", "Gate"], vec![n(&["wormhole", "Gate"], vec![])]),
        n(&["system", "A"], vec![n(&["object", "Earth"], vec![])]),
        n(&["system", "B"], vec![n(&["object", "Mars"], vec![])]),
        n(&["system", "C"], vec![n(&["object", "Mars"], vec![n(&["object", "Phobos"], vec![])])]),
        n(&["system", "D"], vec![n(&["object", "Gate"], vec![])]),
    ];
    let b = extract_baseline(&roots);
    assert_eq!(b.wormholes, vec!["Gate".to_string(), "Mars".to_string()]);
    assert_eq!(b.system_names, vec!["A", "B", "C", "D"].iter().map(|s| s.to_string()).collect::<Vec<_>>());
    // the second owner of Mars and the owner of Gate record their wormhole objects
    let keys: Vec<(&str, &str)> = b.records.iter().map(|e| (e.kind.as_str(), e.name.as_str())).collect();
    assert_eq!(keys, vec![("system", "C"), ("system", "D")]);
    assert_eq!(b.records[0].attributes[0].kind, "object");
    assert_eq!(toks(&b.records[0].attributes[0].records[0].node), vec!["object", "Mars"]);
}

#[test]
fn story_event_side_deltas_and_backpatch() {
    let roots = vec![
        n(&["system", "A"], vec![n(&["pos", "1", "2"], vec![])]),
        n(&["system", "B"], vec![n(&["pos", "3", "4"], vec![])]),
        n(&["event", "Opening"], vec![n(&["link", "A", "B"], vec![])]),
    ];
    let package = process(&roots, SystemShufflerConfig::new(0, 1, 0, 0, false));
    let events = file(&package, "data/presets/universe_preset_0/events.txt");
    assert_eq!(toks(&events[0]), vec!["event", "System Shuffler: Restore Preset 0: Opening"]);
    assert_eq!(toks(&events[1]), vec!["event", "System Shuffler: Activate Preset 0: Opening"]);
    assert_eq!(toks(&events[0].children[0]), vec!["unlink", "A", "B"]);
    assert_eq!(toks(&events[1].children[0]), vec!["link", "A", "B"]);
    let missions = file(&package, "data/presets/universe_preset_0/missions.txt");
    assert_eq!(missions.len(), 2);
    assert_eq!(toks(&missions[0]), vec!["mission", "zzzzz System Shuffler: Restore Preset 0: Opening"]);
    let to_offer = &missions[1].children[5];
    assert_eq!(toks(&to_offer.children[1]), vec!["System Shuffler: Current Preset", "==", "0"]);
    assert_eq!(
        toks(&to_offer.children[3]),
        vec!["event: System Shuffler: Activate Preset 0: Opening", "!=", "event: Opening"]
    );
    let on_offer = &missions[1].children[6];
    assert_eq!(
        toks(&on_offer.children[1]),
        vec!["event: System Shuffler: Activate Preset 0: Opening", "=", "event: Opening"]
    );
    let restoring = &missions[0].children[6];
    assert_eq!(
        toks(&restoring.children[1]),
        vec!["event: System Shuffler: Activate Preset 0: Opening", "=", "0"]
    );
}

#[test]
fn dispatcher_blocks_per_preset() {
    let package = process(&two_linked_systems(), SystemShufflerConfig::new(0, 2, 10, 0, false));
    let main = file(&package, "data/main.txt");
    let conversation = &main[0].children[6].children[0];
    assert_eq!(toks(conversation), vec!["conversation"]);
    // text, 3 restore blocks of 3 lines and a blank action, the selection, the same again
    assert_eq!(conversation.children.len(), 1 + 10 + 1 + 10);
    assert_eq!(toks(&conversation.children[1]), vec!["branch", "not 0 restore"]);
    assert_eq!(toks(&conversation.children[1].children[0]), vec!["System Shuffler: Current Preset", "!=", "0"]);
    assert_eq!(toks(&conversation.children[2].children[0]), vec!["event", "System Shuffler: Restore Preset 0", "0"]);
    assert_eq!(toks(&conversation.children[3]), vec!["label", "not 0 restore"]);
    assert_eq!(toks(&conversation.children[10].children[0]), vec!["System Shuffler: Current Preset", "=", "System Shuffler: Current Preset"]);
    let selection = &conversation.children[11];
    assert_eq!(
        toks(&selection.children[1]),
        vec!["System Shuffler: Current Preset", "=", "(", "roll: 2", "+", "1", ")"]
    );
    assert_eq!(toks(&conversation.children[12]), vec!["branch", "not 0 activate"]);
    assert_eq!(toks(&conversation.children[13].children[0]), vec!["event", "System Shuffler: Activate Preset 0", "0"]);
    let restore_job = &main[1];
    let selection = &restore_job.children[5].children[0].children[11];
    assert_eq!(toks(&selection.children[1]), vec!["System Shuffler: Current Preset", "=", "0"]);
    let manual = &main[2];
    assert_eq!(
        toks(&manual.children[1]),
        vec!["description", "Shuffle all systems in the universe to one of 2 presets."]
    );
}

#[test]
fn plugin_description_lines() {
    let package = process(&two_linked_systems(), SystemShufflerConfig::new(99, 4, 5, 0, true));
    let plugin = file(&package, "plugin.txt");
    let lines: Vec<Vec<&str>> = plugin.iter().map(toks).collect();
    assert_eq!(lines[0], vec!["name", "System Shuffler"]);
    assert_eq!(lines[1], vec!["about", "An Endless Sky \"no logic\" location randomizer."]);
    assert_eq!(lines[3], vec!["about", "- PRNG seed: 99"]);
    assert_eq!(lines[4], vec!["about", "- 4 possible universe presets"]);
    assert_eq!(lines[5], vec!["about", "- A 5% chance to shuffle to a different preset every time you land"]);
    assert_eq!(lines[6], vec!["version", "0.4.0"]);
    assert_eq!(plugin.len(), 7);
}

#[test]
fn package_layout() {
    let package = process(&two_linked_systems(), SystemShufflerConfig::new(0, 1, 0, 0, false));
    let paths: Vec<String> = package
        .iter()
        .map(|e| match e {
            PackageEntry::Directory(p) => p.clone(),
            PackageEntry::File(p, _) => p.clone(),
        })
        .collect();
    assert_eq!(
        paths,
        vec![
            "plugin.txt",
            "data/",
            "data/main.txt",
            "data/presets/",
            "data/presets/universe_preset_0/",
            "data/presets/universe_preset_0/main.txt",
            "data/presets/universe_preset_0/events.txt",
            "data/presets/universe_preset_0/missions.txt",
            "data/presets/universe_preset_1/",
            "data/presets/universe_preset_1/main.txt",
            "data/presets/universe_preset_1/events.txt",
            "data/presets/universe_preset_1/missions.txt",
        ]
    );
}

#[test]
fn generation_is_deterministic() {
    let cfg = SystemShufflerConfig::new(1234, 5, 20, 3, true);
    assert_eq!(process(&two_linked_systems(), cfg), process(&two_linked_systems(), cfg));
}

#[test]
fn preset_zero_is_identity_and_others_permute() {
    let names: Vec<String> = ["A", "B", "C", "D", "E"].iter().map(|s| s.to_string()).collect();
    let zero = get_system_swaps(&names, 17, 0);
    assert_eq!(zero.targets, names);
    for i in 1..6 {
        let swaps = get_system_swaps(&names, 17, i);
        let mut targets = swaps.targets.clone();
        targets.sort();
        assert_eq!(targets, names);
    }
}

#[test]
fn wormhole_links_clear_once_on_restore() {
    let roots = vec![
        n(&["system", "A"], vec![]),
        n(&["system", "B"], vec![]),
        n(&["wormhole", "W"], vec![n(&["link", "A", "B"], vec![]), n(&["link", "B", "A"], vec![])]),
    ];
    let package = process(&roots, SystemShufflerConfig::new(0, 0, 0, 0, false));
    let main = file(&package, "data/presets/universe_preset_0/main.txt");
    let restore = &main[0].children[0];
    assert_eq!(toks(restore), vec!["wormhole", "W"]);
    assert_eq!(restore.children.len(), 1);
    assert_eq!(toks(&restore.children[0]), vec!["remove", "link"]);
    let activate = &main[1].children[0];
    assert_eq!(activate.children.len(), 2);
    assert_eq!(toks(&activate.children[1]), vec!["add", "link", "B", "A"]);
}

#[test]
fn flags_and_removals_order_first() {
    let roots = vec![n(
        &["system", "S"],
        vec![n(&["hidden"], vec![]), n(&["remove", "shrouded"], vec![]), n(&["pos", "1", "1"], vec![])],
    )];
    let package = process(&roots, SystemShufflerConfig::new(0, 0, 0, 0, false));
    let main = file(&package, "data/presets/universe_preset_0/main.txt");
    let activate: Vec<Vec<&str>> = main[1].children[0].children.iter().map(toks).collect();
    // positions and removals first, each group in discovery order
    assert_eq!(activate, vec![vec!["pos", "1", "1"], vec!["remove", "shrouded"], vec!["hidden"]]);
    let restore: Vec<Vec<&str>> = main[0].children[0].children.iter().map(toks).collect();
    assert_eq!(restore, vec![vec!["pos", "1", "1"], vec!["remove", "hidden"], vec!["shrouded"]]);
}

#[test]
fn classify_actions() {
    assert_eq!(classify(&n(&["remove", "link", "A"], vec![])), NodeAction::Remove);
    assert_eq!(classify(&n(&["remove", "hidden"], vec![])), NodeAction::ClearRemove);
    assert_eq!(classify(&n(&["remove"], vec![])), NodeAction::ClearRemove);
    assert_eq!(classify(&n(&["remove"], vec![n(&["x"], vec![])])), NodeAction::Remove);
    assert_eq!(classify(&n(&["add", "link", "A"], vec![])), NodeAction::Add);
    assert_eq!(classify(&n(&["link", "A"], vec![])), NodeAction::ClearAdd);
}

#[test]
fn copy_drops_nested_objects_and_links() {
    let object = n(
        &["object", "Earth"],
        vec![n(&["object", "Moon"], vec![]), n(&["link", "X"], vec![]), n(&[], vec![]), n(&["sprite", "p"], vec![])],
    );
    let copy = copy_node(&object, true, true).unwrap();
    assert_eq!(copy.children.len(), 1);
    assert_eq!(toks(&copy.children[0]), vec!["sprite", "p"]);
    let copy = copy_node(&object, false, false).unwrap();
    assert!(copy_node(&n(&[], vec![]), false, false).is_none());
    assert_eq!(copy.children.len(), 3);
}

#[test]
fn decimal_and_order() {
    assert_eq!(decimal_text(0), "0");
    assert_eq!(decimal_text(1_000_207), "1000207");
    assert!(text_lt(&"Alpha".to_string(), &"Beta".to_string()));
    assert!(text_lt(&"Sol".to_string(), &"Solace".to_string()));
    assert!(!text_lt(&"b".to_string(), &"B".to_string()));
    assert!(!text_lt(&"same".to_string(), &"same".to_string()));
}

#[test]
fn link_deltas_follow_other_attributes() {
    let roots = vec![
        n(&["system", "A"], vec![n(&["link", "B"], vec![]), n(&["hidden"], vec![]), n(&["jump range", "5"], vec![])]),
        n(&["system", "B"], vec![n(&["pos", "1", "1"], vec![])]),
    ];
    let package = process(&roots, SystemShufflerConfig::new(0, 0, 0, 0, false));
    let main = file(&package, "data/presets/universe_preset_0/main.txt");
    let activate: Vec<Vec<&str>> = main[1].children[0].children.iter().map(toks).collect();
    assert_eq!(activate, vec![vec!["jump range", "5"], vec!["hidden"], vec!["add", "link", "B"]]);
}

#[test]
fn childless_system_is_not_scanned() {
    let roots = vec![
        n(&["system", "Lone"], vec![]),
        n(&["system", "Real"], vec![n(&["pos", "0", "0"], vec![])]),
    ];
    let b = extract_baseline(&roots);
    assert_eq!(b.system_names, vec!["Real".to_string()]);
}

#[test]
fn side_gate_skips_when_either_condition_holds() {
    let roots = vec![
        n(&["system", "A"], vec![n(&["pos", "1", "2"], vec![])]),
        n(&["event", "Opening"], vec![n(&["link", "A", "A"], vec![])]),
    ];
    let package = process(&roots, SystemShufflerConfig::new(0, 0, 0, 0, false));
    let main = file(&package, "data/main.txt");
    let conversation = &main[0].children[6].children[0];
    // text, then the restoring block of preset 0: branch, side branch, side action, side label
    let side = &conversation.children[2];
    assert_eq!(toks(side), vec!["branch", "not 0 restore Opening"]);
    assert_eq!(side.children.len(), 1);
    let or = &side.children[0];
    assert_eq!(toks(or), vec!["or"]);
    assert_eq!(toks(&or.children[0]), vec!["not", "event: Opening"]);
    assert_eq!(toks(&or.children[1]), vec!["not", "event: System Shuffler: Activate Preset 0: Opening"]);
    assert_eq!(toks(&conversation.children[3]), vec!["action"]);
    assert_eq!(
        toks(&conversation.children[3].children[0]),
        vec!["event", "System Shuffler: Restore Preset 0: Opening", "0"]
    );
}

#[test]
fn equal_declarations_are_recorded_once() {
    let roots = vec![
        n(&["system", "A"], vec![n(&["link", "B"], vec![]), n(&["link", "B"], vec![]), n(&["remove", "link", "B"], vec![])]),
        n(&["system", "B"], vec![n(&["pos", "0", "0"], vec![])]),
        n(&["event", "Opening"], vec![n(&["link", "A", "B"], vec![]), n(&["link", "A", "B"], vec![])]),
    ];
    let b = extract_baseline(&roots);
    let a = b.records.iter().find(|e| e.name == "A").unwrap();
    let links = a.attributes.iter().find(|l| l.kind == "link").unwrap();
    assert_eq!(links.records.len(), 2);
    assert_eq!(links.records[0].action, NodeAction::ClearAdd);
    assert_eq!(links.records[1].action, NodeAction::Remove);
    let opening = &b.events[0].records;
    assert_eq!(opening.len(), 1);
    assert_eq!(opening[0].attributes[0].records.len(), 1);
}
