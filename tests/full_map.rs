use es_plugin_generators::full_map::process;
use es_plugin_generators::system_shuffler::PackageEntry;
use es_plugin_generators::tree::DataNode;

fn n(tokens: &[&str], children: Vec<DataNode>) -> DataNode {
    DataNode { tokens: tokens.iter().map(|t| t.to_string()).collect(), children }
}

fn toks(d: &DataNode) -> Vec<&str> {
    d.tokens.iter().map(|t| t.as_str()).collect()
}

#[test]
fn full_map_visits_systems_then_planets() {
    let roots = vec![
        n(&["system", "Sol"], vec![
            n(&["object", "Earth"], vec![n(&["object", "Luna"], vec![])]),
            n(&["object"], vec![n(&["object", "Ring"], vec![])]),
            n(&["pos", "0", "0"], vec![]),
        ]),
        n(&["planet", "Earth"], vec![]),
        n(&["system", "Vega"], vec![n(&["object", "Vega I"], vec![])]),
        n(&["system"], vec![n(&["object", "Nowhere"], vec![])]),
    ];
    let package = process(&roots);
    assert_eq!(package.len(), 4);
    match &package[3] {
        PackageEntry::File(path, roots) => {
            assert_eq!(path, "data/full_map_event.txt");
            let event = &roots[0];
            assert_eq!(toks(event), vec!["event", "Full Map: I know where everything is now"]);
            let lines: Vec<Vec<&str>> = event.children.iter().map(toks).collect();
            assert_eq!(
                lines,
                vec![
                    vec!["visit", "Sol"],
                    vec!["visit", "Vega"],
                    vec!["visit planet", "Earth"],
                    vec!["visit planet", "Luna"],
                    vec!["visit planet", "Ring"],
                    vec!["visit planet", "Vega I"],
                ]
            );
        }
        _ => panic!("the event file is missing"),
    }
    match &package[2] {
        PackageEntry::File(path, roots) => {
            assert_eq!(path, "data/full_map_mission.txt");
            let on_accept = &roots[0].children[4];
            assert_eq!(toks(&on_accept.children[0]), vec!["event", "Full Map: I know where everything is now", "0"]);
        }
        _ => panic!("the mission file is missing"),
    }
    assert_eq!(package[1], PackageEntry::Directory("data/".to_string()));
}
