use steno_lookup::output::OutputFormat;
use steno_lookup::paths::{dictionary_list, expand_tilde, expansion, tilde_form, TildeForm};
use steno_lookup::plover_config::{
    dictionaries_entry, dictionaries_json, plover_config_path, DictionaryConfig,
};
use steno_lookup::LoadError;

const CONFIG: &str = "[Plover]\nname = value\n\n[System: English Stenotype]\ndictionaries = [{\"enabled\": true, \"path\": \"~/dictionaries/custom.json\"}, {\"enabled\": false, \"path\": \"main.json\"}]\nkeymap=x\n\n[System: Other]\ndictionaries = []\n";

fn entry(enabled: bool, path: &str) -> DictionaryConfig {
    DictionaryConfig { enabled, path: path.to_string() }
}

fn strings(paths: &[&str]) -> Vec<String> {
    paths.iter().map(|p| p.to_string()).collect()
}

#[test]
fn the_dictionary_list_of_a_section_is_found() {
    let json = dictionaries_json(CONFIG, "System: English Stenotype").unwrap();
    assert_eq!(
        json,
        "[{\"enabled\": true, \"path\": \"~/dictionaries/custom.json\"}, {\"enabled\": false, \"path\": \"main.json\"}]"
    );
    assert_eq!(dictionaries_json(CONFIG, "System: Other").unwrap(), "[]");
}

#[test]
fn a_missing_section_or_value_is_reported() {
    assert!(matches!(dictionaries_json(CONFIG, "System: Absent"), Err(LoadError::SectionMissing)));
    assert!(matches!(dictionaries_json(CONFIG, "Plover"), Err(LoadError::SectionMissing)));
    assert!(matches!(dictionaries_json(CONFIG, "system: english stenotype"), Err(LoadError::SectionMissing)));
    assert!(matches!(dictionaries_json("", "Plover"), Err(LoadError::SectionMissing)));
}

#[test]
fn a_text_that_is_no_configuration_is_reported() {
    assert!(matches!(dictionaries_json("[Plover\nname = value\n", "Plover"), Err(LoadError::Ini(_))));
    assert!(matches!(dictionaries_json("= value\n", "Plover"), Err(LoadError::Ini(_))));
}

#[test]
fn the_entry_of_a_parsed_configuration_is_found() {
    let document = ini::Ini::load_from_str(CONFIG).unwrap();
    assert_eq!(dictionaries_entry(&document, "System: Other").unwrap(), "[]");
    assert!(matches!(dictionaries_entry(&document, "Plover"), Err(LoadError::SectionMissing)));
    let twice = ini::Ini::load_from_str("[a]\ndictionaries = 1\ndictionaries = 2\n[a]\ndictionaries = 3\n").unwrap();
    assert_eq!(dictionaries_entry(&twice, "a").unwrap(), "1");
}

#[test]
fn the_given_configuration_path_comes_first() {
    let given = Some("given.cfg".to_string());
    let default = Some("default.cfg".to_string());
    assert_eq!(plover_config_path(given.clone(), default.clone()).unwrap(), "given.cfg");
    assert_eq!(plover_config_path(given, None).unwrap(), "given.cfg");
    assert_eq!(plover_config_path(None, default).unwrap(), "default.cfg");
    assert!(matches!(plover_config_path(None, None), Err(LoadError::HomeNotFound)));
}

#[test]
fn tilde_form_follows_the_three_answers() {
    assert_eq!(tilde_form(false, false, false), TildeForm::Plain);
    assert_eq!(tilde_form(false, true, true), TildeForm::Plain);
    assert_eq!(tilde_form(true, true, false), TildeForm::Home);
    assert_eq!(tilde_form(true, true, true), TildeForm::Home);
    assert_eq!(tilde_form(true, false, true), TildeForm::UnderRoot);
    assert_eq!(tilde_form(true, false, false), TildeForm::UnderHome);
}

#[test]
fn a_leading_tilde_is_the_home_directory() {
    assert_eq!(expand_tilde("/home/user", "~".to_string()), "/home/user");
    assert_eq!(expand_tilde("/home/user", "~/steno/main.json".to_string()), "/home/user/steno/main.json");
    assert_eq!(expand_tilde("/", "~/steno/main.json".to_string()), "/steno/main.json");
    assert_eq!(expand_tilde("/", "~/x".to_string()), "/x");
    assert_eq!(expand_tilde("//", "~/x".to_string()), "/x");
    assert_eq!(expand_tilde("/", "~".to_string()), "/");
}

#[test]
fn other_paths_stay_as_they_are() {
    assert_eq!(expand_tilde("/home/user", "/etc/main.json".to_string()), "/etc/main.json");
    assert_eq!(expand_tilde("/home/user", "main.json".to_string()), "main.json");
    assert_eq!(expand_tilde("/home/user", "~user/main.json".to_string()), "~user/main.json");
    assert_eq!(expand_tilde("/home/user", "a/~/main.json".to_string()), "a/~/main.json");
    assert_eq!(expand_tilde("/home/user", String::new()), "");
}

#[test]
fn configured_paths_come_before_the_extra_ones() {
    let configured = vec![
        entry(true, "~/a.json"),
        entry(false, "~/b.json"),
        entry(true, "/c.json"),
        entry(true, "~/a.json"),
    ];
    let paths = dictionary_list(
        Some(configured),
        Some("/home/user".to_string()),
        strings(&["x.json", "~/a.json", "x.json"]),
    )
    .unwrap();
    assert_eq!(
        paths,
        strings(&["/home/user/a.json", "/c.json", "/home/user/a.json", "x.json", "~/a.json", "x.json"])
    );
}

#[test]
fn without_a_configuration_the_extra_paths_are_all() {
    let paths = dictionary_list(None, None, strings(&["x.json", "y.json"])).unwrap();
    assert_eq!(paths, strings(&["x.json", "y.json"]));
    let paths = dictionary_list(None, Some("/home/user".to_string()), Vec::new()).unwrap();
    assert!(paths.is_empty());
}

#[test]
fn a_configuration_needs_the_home_directory() {
    let outcome = dictionary_list(Some(vec![entry(true, "/c.json")]), None, strings(&["x.json"]));
    assert!(matches!(outcome, Err(LoadError::HomeNotFound)));
    let outcome = dictionary_list(Some(Vec::new()), None, Vec::new());
    assert!(matches!(outcome, Err(LoadError::HomeNotFound)));
}

#[test]
fn output_formats_go_by_their_names() {
    assert_eq!(OutputFormat::from_name("text"), Some(OutputFormat::Text));
    assert_eq!(OutputFormat::from_name("json"), Some(OutputFormat::Json));
    assert_eq!(OutputFormat::from_name("alfred"), Some(OutputFormat::Alfred));
    assert_eq!(OutputFormat::from_name("Text"), None);
    assert_eq!(OutputFormat::from_name(""), None);
    assert_eq!(OutputFormat::from_name("xml"), None);
}

#[test]
fn errors_wrap_what_went_wrong() {
    let json = serde_json::from_str::<bool>("x").unwrap_err();
    assert!(matches!(LoadError::from(json), LoadError::Json(_)));
    let missing = std::io::Error::new(std::io::ErrorKind::Other, "broken");
    assert!(matches!(LoadError::from(missing), LoadError::Io(_)));
    let ini = ini::Ini::load_from_str("[x").unwrap_err();
    assert!(matches!(LoadError::from(ini), LoadError::Ini(_)));
}

#[test]
fn a_missing_file_is_reported_by_its_path() {
    let missing = std::io::Error::new(std::io::ErrorKind::NotFound, "gone");
    match LoadError::from_read("dict.json".to_string(), missing) {
        LoadError::FileNotFound(path) => assert_eq!(path, "dict.json"),
        other => panic!("{:?}", other),
    }
    let denied = std::io::Error::new(std::io::ErrorKind::PermissionDenied, "locked");
    match LoadError::from_read("dict.json".to_string(), denied) {
        LoadError::Io(error) => assert_eq!(error.kind(), std::io::ErrorKind::PermissionDenied),
        other => panic!("{:?}", other),
    }
}

#[test]
fn a_read_failure_is_what_it_was_found_to_be() {
    let error = std::io::Error::new(std::io::ErrorKind::Other, "broken");
    assert!(matches!(
        LoadError::read_failure("dict.json".to_string(), error, true),
        LoadError::FileNotFound(path) if path == "dict.json"
    ));
    let error = std::io::Error::new(std::io::ErrorKind::NotFound, "gone");
    assert!(matches!(
        LoadError::read_failure("dict.json".to_string(), error, false),
        LoadError::Io(error) if error.kind() == std::io::ErrorKind::NotFound
    ));
}

#[test]
fn expansion_follows_the_form() {
    let path = || "~/a.json".to_string();
    let joined = || Some("/home/user/a.json".to_string());
    assert_eq!(expansion(TildeForm::Plain, "/home/user", path(), joined()), "~/a.json");
    assert_eq!(expansion(TildeForm::Home, "/home/user", path(), joined()), "/home/user");
    assert_eq!(expansion(TildeForm::UnderRoot, "/", path(), Some("/a.json".to_string())), "/a.json");
    assert_eq!(expansion(TildeForm::UnderRoot, "/", path(), None), "~/a.json");
    assert_eq!(expansion(TildeForm::UnderHome, "/home/user", path(), joined()), "/home/user/a.json");
    assert_eq!(expansion(TildeForm::UnderHome, "/home/user", path(), None), "~/a.json");
}

#[test]
fn a_second_expansion_changes_nothing() {
    for home in ["/", "/home/user", "home", "/home/user/"] {
        for path in ["~", "~/x", "~/~/x", "~/a/b.json", "/x", "x", "~x", "", "~//x"] {
            let once = expand_tilde(home, path.to_string());
            let twice = expand_tilde(home, once.clone());
            assert_eq!(once, twice);
        }
    }
    assert_eq!(expand_tilde("/", "~/~/x".to_string()), "/~/x");
}

#[test]
fn configured_paths_under_a_root_home_stay_absolute() {
    let configured = vec![entry(true, "~/a.json"), entry(false, "~/b.json"), entry(true, "~")];
    let paths = dictionary_list(Some(configured), Some("/".to_string()), strings(&["x.json"]));
    assert_eq!(paths.unwrap(), strings(&["/a.json", "/", "x.json"]));
}

#[test]
fn a_form_is_had_from_its_name() {
    assert_eq!(OutputFormat::from("text"), OutputFormat::Text);
    assert_eq!(OutputFormat::from("json"), OutputFormat::Json);
    assert_eq!(OutputFormat::from("alfred"), OutputFormat::Alfred);
}
