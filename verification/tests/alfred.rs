use steno_lookup::alfred::{results_to_alfred, ItemType, ScriptFilterItem};
use steno_lookup::Stroke;

#[test]
fn each_stroke_becomes_a_valid_item() {
    let strokes = vec![Stroke::new("TEF".to_string()), Stroke::new("TEFT".to_string())];
    let borrowed: Vec<&Stroke> = strokes.iter().collect();
    let results = results_to_alfred(&borrowed);
    assert_eq!(results.items.len(), 2);
    assert_eq!(results.items[0].title, "TEF");
    assert_eq!(results.items[1].title, "TEFT");
    for item in results.items.iter() {
        assert!(item.valid);
        assert!(item.uid.is_none());
        assert!(item.type_.is_none());
        assert!(item.subtitle.is_none());
        assert!(item.arg.is_none());
        assert!(item.icon.is_none());
        assert!(item.match_.is_none());
        assert!(item.autocomplete.is_none());
    }
}

#[test]
fn no_strokes_give_no_items() {
    assert!(results_to_alfred(&[]).items.is_empty());
}

#[test]
fn defaults_are_bare() {
    let item = ScriptFilterItem::default();
    assert_eq!(item.title, "");
    assert!(!item.valid);
    assert!(item.uid.is_none() && item.icon.is_none() && item.type_.is_none());
    assert!(matches!(ItemType::default(), ItemType::Default));
}
