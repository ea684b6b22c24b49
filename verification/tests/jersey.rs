use pila::jersey::{get, picker_groups, JerseyOption, JerseyPreset, JerseyVariant};

fn preset(name: &str, group: &str, variant: JerseyVariant) -> JerseyPreset {
    JerseyPreset {
        body: "#ffffff".into(),
        accent: "#000000".into(),
        pattern: "plain".into(),
        name: name.into(),
        group: group.into(),
        variant,
    }
}

fn option(key: &str, display: &str, group: &str, variant: JerseyVariant) -> JerseyOption {
    JerseyOption { key: key.into(), preset: preset(display, group, variant), display_name: display.into() }
}

#[test]
fn get_falls_back_to_classic() {
    let presets = vec![
        ("classic".to_string(), preset("Classic", "Pila", JerseyVariant::Home)),
        ("ger-home".to_string(), preset("Germany", "Europe", JerseyVariant::Home)),
    ];
    assert_eq!(get(&presets, "ger-home").name, "Germany");
    assert_eq!(get(&presets, "nope").name, "Classic");
}

#[test]
fn picker_groups_by_variant_and_sorts() {
    let opts = vec![
        option("bra-home", "Brasilien", "Südamerika", JerseyVariant::Home),
        option("ger-away", "Deutschland", "Europa", JerseyVariant::Away),
        option("classic", "Klassisch", "Pila", JerseyVariant::Home),
        option("arg-home", "Argentinien", "Südamerika", JerseyVariant::Home),
        option("ger-home", "Deutschland", "Europa", JerseyVariant::Home),
        option("scarf", "Schal", "Pila", JerseyVariant::Fan),
        option("night", "Nacht", "Pila", JerseyVariant::Home),
    ];
    let (home, away, fan) = picker_groups(&opts);
    let keys = |v: &Vec<JerseyOption>| v.iter().map(|o| o.key.clone()).collect::<Vec<_>>();
    assert_eq!(keys(&home), vec!["classic", "night", "ger-home", "arg-home", "bra-home"]);
    assert_eq!(keys(&away), vec!["ger-away"]);
    assert_eq!(keys(&fan), vec!["scarf"]);
}

#[test]
fn picker_keeps_catalogue_order_on_ties() {
    let opts = vec![
        option("b", "Gleich", "Europa", JerseyVariant::Away),
        option("a", "Gleich", "Europa", JerseyVariant::Away),
    ];
    let (home, away, fan) = picker_groups(&opts);
    assert!(home.is_empty() && fan.is_empty());
    assert_eq!(away[0].key, "b");
    assert_eq!(away[1].key, "a");
}
