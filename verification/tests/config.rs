use metrosim::Config;

fn args(words: &[&str]) -> Vec<String> {
    words.iter().map(|w| w.to_string()).collect()
}

#[test]
fn config_without_stations_file() {
    assert_eq!(Config::new(args(&[])).err(), Some("No stations file provided"));
    assert_eq!(Config::new(args(&["metrosim"])).err(), Some("No stations file provided"));
}

#[test]
fn config_without_output_file() {
    assert_eq!(
        Config::new(args(&["metrosim", "stations.txt"])).err(),
        Some("No outfile provided")
    );
}

#[test]
fn config_for_typed_commands() {
    let cfg = Config::new(args(&["metrosim", "stations.txt", "out.txt"])).unwrap();
    assert_eq!(cfg.stations_file, "stations.txt");
    assert_eq!(cfg.output_file, "out.txt");
    assert_eq!(cfg.commands_file, "");
    assert!(!cfg.commands_file_incl);
}

#[test]
fn config_with_commands_file() {
    let cfg = Config::new(args(&["metrosim", "stations.txt", "out.txt", "cmds.txt"])).unwrap();
    assert_eq!(cfg.stations_file, "stations.txt");
    assert_eq!(cfg.output_file, "out.txt");
    assert_eq!(cfg.commands_file, "cmds.txt");
    assert!(cfg.commands_file_incl);
}

#[test]
fn config_ignores_further_arguments() {
    let cfg =
        Config::new(args(&["metrosim", "s", "o", "c", "more", "and more"])).unwrap();
    assert_eq!(cfg.stations_file, "s");
    assert_eq!(cfg.output_file, "o");
    assert_eq!(cfg.commands_file, "c");
    assert!(cfg.commands_file_incl);
}
