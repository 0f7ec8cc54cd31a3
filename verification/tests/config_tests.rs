use mofi::config::{load_color_config, load_mofi_config, parse_legacy_colors, parse_mofi_config};

fn colors_tuple(c: &mofi::config::ColorConfig) -> (String, String, String, String, String) {
    (
        c.background.clone(),
        c.border.clone(),
        c.text.clone(),
        c.selected_bg.clone(),
        c.selected_text.clone(),
    )
}

#[test]
fn no_files_gives_builtin_default() {
    let c = load_color_config(None, None);
    assert_eq!(c.background, "#1e1e2e");
    assert_eq!(c.border, "#fab387");
    assert_eq!(c.text, "#fab387");
    assert_eq!(c.selected_bg, "#fab387");
    assert_eq!(c.selected_text, "#1e1e2e");
}

const LEGACY: &str = r##"
background = "#111111"
border = "#222222"
text = "#333333"
selected_bg = "#444444"
selected_text = "#555555"
"##;

#[test]
fn legacy_file_alone_supplies_colors() {
    let legacy = LEGACY.to_string();
    let c = load_color_config(None, Some(&legacy));
    assert_eq!(
        colors_tuple(&c),
        (
            "#111111".to_string(),
            "#222222".to_string(),
            "#333333".to_string(),
            "#444444".to_string(),
            "#555555".to_string()
        )
    );
}

const PRIMARY_WITH_COLORS: &str = r##"
[colors]
background = "#aaaaaa"
border = "#bbbbbb"
text = "#cccccc"
selected_bg = "#dddddd"
selected_text = "#eeeeee"
"##;

#[test]
fn embedded_colors_ignore_legacy_file() {
    let primary = PRIMARY_WITH_COLORS.to_string();
    let legacy = LEGACY.to_string();
    let c = load_color_config(Some(&primary), Some(&legacy));
    assert_eq!(c.background, "#aaaaaa");
    assert_eq!(c.selected_text, "#eeeeee");
}

#[test]
fn primary_without_colors_falls_back_to_legacy() {
    let primary = "[aliases]\nterm = \"echo hi\"\n".to_string();
    let legacy = LEGACY.to_string();
    let config = load_mofi_config(Some(&primary), Some(&legacy));
    let c = config.colors.expect("legacy colors expected");
    assert_eq!(c.background, "#111111");
    let aliases = config.aliases.expect("aliases expected");
    assert_eq!(aliases.len(), 1);
    assert_eq!(aliases[0].0, "term");
    assert_eq!(aliases[0].1, "echo hi");
}

#[test]
fn unparsable_primary_gives_default() {
    let primary = "this is { not toml".to_string();
    let c = load_color_config(Some(&primary), None);
    assert_eq!(c.background, "#1e1e2e");
}

#[test]
fn incomplete_color_table_discards_whole_primary() {
    // the colors table misses selected_text, so the whole file degrades,
    // aliases included
    let primary = "[colors]\nbackground = \"#aaaaaa\"\nborder = \"#bbbbbb\"\ntext = \"#cccccc\"\nselected_bg = \"#dddddd\"\n\n[aliases]\nterm = \"echo hi\"\n".to_string();
    let config = load_mofi_config(Some(&primary), None);
    assert!(config.colors.is_none());
    assert!(config.aliases.is_none());
}

#[test]
fn non_string_alias_value_discards_whole_primary() {
    let primary = format!("{}\n[aliases]\ncount = 3\n", PRIMARY_WITH_COLORS);
    let config = load_mofi_config(Some(&primary), None);
    assert!(config.colors.is_none());
    assert!(config.aliases.is_none());
}

#[test]
fn aliases_parsed_from_primary() {
    let primary = "[aliases]\nterm = \"open -a Terminal\"\nedit = \"code .\"\n".to_string();
    let config = load_mofi_config(Some(&primary), None);
    assert!(config.colors.is_none());
    let mut aliases = config.aliases.expect("aliases expected");
    aliases.sort();
    assert_eq!(
        aliases,
        vec![
            ("edit".to_string(), "code .".to_string()),
            ("term".to_string(), "open -a Terminal".to_string())
        ]
    );
}

#[test]
fn extra_color_fields_ignored() {
    let primary = format!("{}accent = \"#123456\"\n", PRIMARY_WITH_COLORS);
    let config = parse_mofi_config(&primary);
    let c = config.colors.expect("colors expected");
    assert_eq!(c.border, "#bbbbbb");
}

#[test]
fn invalid_legacy_yields_no_colors() {
    let legacy = "background = 7\n".to_string();
    assert!(parse_legacy_colors(&legacy).is_none());
    let c = load_color_config(None, Some(&legacy));
    assert_eq!(c.background, "#1e1e2e");
}

#[test]
fn legacy_missing_field_rejected() {
    let legacy = "background = \"#111111\"\n";
    assert!(parse_legacy_colors(legacy).is_none());
}

#[test]
fn default_config_is_empty() {
    let config = mofi::config::MofiConfig::default();
    assert!(config.colors.is_none());
    assert!(config.aliases.is_none());
}
