use webwallpaper::builtin::{builtin_channels, list_builtins};

#[test]
fn builtin_names_sorted() {
    let config = r#"{"starnest": {"scale": 1.0}, "clouds": {"channel0": "noise_rgba.png"}, "Zeta": {}, "aurora": {}}"#;
    assert_eq!(list_builtins(config), vec!["Zeta", "aurora", "clouds", "starnest"]);
}

#[test]
fn builtin_names_of_bad_config() {
    assert!(list_builtins("not json").is_empty());
    assert!(list_builtins("[1, 2]").is_empty());
    assert!(list_builtins("{}").is_empty());
}

/// The built-in configuration: one entry per embedded shader (the names the
/// program embeds), with the texture channels of those that use textures.
fn builtin_config() -> String {
    let names = [
        "2dclouds", "accretion", "ascend", "auroras", "chillywave", "chillywave2",
        "classic4colors", "clouds", "crumpledwave", "darktransit", "forknixietubeclock",
        "hexagonalgrid", "hexneonlove", "hieroglyphs", "iceandfire", "linuxwallpaper",
        "mandelbrot", "montereywannabe", "patternminimax", "pinkvoid", "plasma", "plasmawaves",
        "polyhedrons", "proteanclouds", "ps3xmb", "seventymelt", "singularity", "spiralgalaxy",
        "starnest", "starshipreentry", "synthwavecanyon", "tilewarppt3", "tumblerock",
        "undulatingurchin", "voronoigradient", "wadongmo759", "waveymc",
    ];
    let entries: Vec<String> = names
        .iter()
        .map(|n| {
            if *n == "clouds" {
                format!("\"{}\": {{\"scale\": 1.0, \"channel0\": \"noise_rgba.png\"}}", n)
            } else {
                format!("\"{}\": {{\"scale\": 1.0}}", n)
            }
        })
        .collect();
    format!("{{{}}}", entries.join(", "))
}

#[test]
fn test_list_builtins() {
    let list = list_builtins(&builtin_config());
    assert!(list.contains(&"clouds".to_string()));
    assert!(list.contains(&"starnest".to_string()));
    assert!(!list.is_empty());
    assert_eq!(list.len(), 37);
    assert!(list.windows(2).all(|w| w[0] < w[1]));
}

#[test]
fn builtin_names_once_each() {
    let config = r#"{"clouds": {}, "starnest": {}, "clouds": {"scale": 0.5}}"#;
    assert_eq!(list_builtins(config), vec!["clouds", "starnest"]);
}

#[test]
fn test_parse_config_with_channels() {
    let channels = builtin_channels(&builtin_config(), "clouds");
    assert_eq!(channels[0].as_deref(), Some("noise_rgba.png"));
    // channel3 not set
    assert!(channels[3].is_none());
}

#[test]
fn test_parse_config_no_channels() {
    let channels = builtin_channels(&builtin_config(), "starnest");
    assert!(channels[0].is_none());
}

#[test]
fn channels_read_exactly() {
    let config = r#"{"a": {"channel1": "wood.jpg", "channel2": 3, "channel3": "urchin.bin"}}"#;
    assert_eq!(
        builtin_channels(config, "a"),
        vec![None, Some("wood.jpg".to_string()), None, Some("urchin.bin".to_string())]
    );
    assert_eq!(builtin_channels(config, "b"), vec![None, None, None, None]);
    assert_eq!(builtin_channels("not json", "a"), vec![None, None, None, None]);
}
