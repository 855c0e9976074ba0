use steno_lookup::plover_config::{dictionaries_json, DictionaryConfig};
use steno_lookup::Dictionary;

const TEST_JSON: &str = r##"{
"#*EUPLT": "{^ism}",
"-T": "the",
"TEFT": "test",
"TEF": "test",
"KPA": "{}{-|}",
"S-P": "{^ ^}"
}
"##;

const PLOVER_CFG: &str = r#"[Machine Configuration]
machine_type = Gemini PR
auto_start = True

[Output Configuration]
undo_levels = 100

[System: English Stenotype]
dictionaries = [{"enabled": true, "path": "~/dropbox-personal/projects/personal-dictionaries/dictionaries/custom-uncategorised.json"}, {"enabled": true, "path": "~/dropbox-personal/projects/steno-dictionaries/dictionaries/fingerspelling-RBGS.json"}]

[Startup]
Start Minimized = False
"#;

#[test]
fn test_dictionary_load() {
    let dict = Dictionary::parse(TEST_JSON.as_bytes());
    assert!(dict.is_ok())
}

#[test]
fn test_plover_dictionaries() {
    let json = dictionaries_json(PLOVER_CFG, "System: English Stenotype").unwrap();
    let list: serde_json::Value = serde_json::from_str(&json).unwrap();
    let actual: Vec<DictionaryConfig> = list
        .as_array()
        .unwrap()
        .iter()
        .map(|entry| DictionaryConfig {
            enabled: entry["enabled"].as_bool().unwrap(),
            path: entry["path"].as_str().unwrap().to_string(),
        })
        .collect();
    let expected = vec![
        DictionaryConfig {
            enabled: true,
            path: "~/dropbox-personal/projects/personal-dictionaries/dictionaries/custom-uncategorised.json".to_string()
        },
        DictionaryConfig {
            enabled: true,
            path: "~/dropbox-personal/projects/steno-dictionaries/dictionaries/fingerspelling-RBGS.json".to_string()
        }
    ];
    assert_eq!(expected, actual);
}
