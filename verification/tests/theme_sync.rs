use apexdaemon::config::ThemeSyncConfig;
use apexdaemon::plugins::theme_sync::{
    converter_args, converter_paths, palette_read_attempts, palette_retry_delay_ms,
    retry_palette_read, state_theme_dir, sync_step, synced_body, theme_gen_input, theme_name,
    OmarchyColors, SyncStep, ThemeSyncPlugin,
};

fn colors(pairs: &[(&str, &str)], cursor: Option<&str>) -> OmarchyColors {
    OmarchyColors {
        background: "#0e091d".to_string(),
        foreground: "#14B9B5".to_string(),
        cursor: cursor.map(String::from),
        extra: pairs.iter().map(|(k, v)| (k.to_string(), v.to_string())).collect(),
    }
}

#[test]
fn parses_omarchy_colors_toml_into_theme_gen_input() {
    let c = colors(
        &[
            ("accent", "#BE3F50"),
            ("selection_foreground", "#0e091d"),
            ("selection_background", "#14B9B5"),
            ("color0", "#000000"),
            ("color1", "#c8e967"),
            ("color2", "#111111"),
            ("color3", "#222222"),
            ("color4", "#333333"),
            ("color5", "#444444"),
            ("color6", "#555555"),
            ("color7", "#666666"),
            ("color8", "#777777"),
            ("color9", "#888888"),
            ("color10", "#999999"),
            ("color11", "#aaaaaa"),
            ("color12", "#bbbbbb"),
            ("color13", "#cccccc"),
            ("color14", "#dddddd"),
            ("color15", "#11AEB3"),
        ],
        Some("#ff7f41"),
    );
    assert_eq!(c.background, "#0e091d");
    assert_eq!(c.foreground, "#14B9B5");
    let ansi = c.ansi16().unwrap();
    assert_eq!(ansi.len(), 16);
    assert_eq!(ansi[0], "#000000");
    assert_eq!(ansi[15], "#11AEB3");
    let input = theme_gen_input("cyber", &c).unwrap();
    assert_eq!(input.name, "cyber");
    assert_eq!(input.cursor, "#ff7f41");
    assert_eq!(input.colors, ansi);
}

#[test]
fn missing_ansi_slot_is_an_error_not_a_panic() {
    let c = colors(&[("color0", "#000000")], Some("#ff7f41"));
    assert!(c.ansi16().is_err());
    assert_eq!(c.ansi16().unwrap_err(), "colors.toml missing color1");
}

#[test]
fn semantic_names_fill_missing_slots() {
    let c = colors(
        &[
            ("red", "#r"),
            ("green", "#g"),
            ("yellow", "#y"),
            ("blue", "#b"),
            ("magenta", "#m"),
            ("cyan", "#c"),
            ("bright_red", "#R"),
        ],
        None,
    );
    let ansi = c.ansi16().unwrap();
    assert_eq!(ansi[0], "#0e091d");
    assert_eq!(ansi[1], "#r");
    assert_eq!(ansi[7], "#14B9B5");
    assert_eq!(ansi[8], "#0e091d");
    assert_eq!(ansi[9], "#R");
    assert_eq!(ansi[10], "#g");
    assert_eq!(ansi[15], "#14B9B5");
    assert_eq!(c.cursor_or_foreground(), "#14B9B5");
}

#[test]
fn theme_sync_steps() {
    assert_eq!(theme_name(Some("  neon\n")), "neon");
    assert_eq!(theme_name(None), "omarchy-live");
    assert_eq!(state_theme_dir(Some("/h")), "/h/.local/state/omarchy/current");
    assert_eq!(state_theme_dir(None), "~/.local/state/omarchy/current");
    assert_eq!(palette_read_attempts(), 12);
    assert_eq!(palette_retry_delay_ms(), 100);
    assert!(retry_palette_read(1));
    assert!(retry_palette_read(11));
    assert!(!retry_palette_read(12));
    assert!(matches!(sync_step(Some("f"), "f", "t", "x", false), SyncStep::Unchanged));
    assert!(matches!(sync_step(None, "f", "t", "x", false), SyncStep::Convert));
    match sync_step(Some("g"), "f", "neon", "cyberdeck", true) {
        SyncStep::DryRun { line } => assert_eq!(
            line,
            "[theme-sync] (dry-run) would sync theme 'neon' -> cybercore family 'cyberdeck'"
        ),
        _ => panic!("expected a dry-run line"),
    }
    assert_eq!(
        synced_body("neon", "cyberdeck"),
        "'neon' -> cybercore/schema/themes/cyberdeck/neon.json (rebuild consumers to pick it up)"
    );
    assert_eq!(ThemeSyncPlugin.name(), "theme-sync");
}

#[test]
fn converter_paths_and_args() {
    let mut cfg = ThemeSyncConfig::default();
    cfg.cybercore_root = "~/src/cybercore".to_string();
    cfg.family = "cyberdeck".to_string();
    let p = converter_paths(&cfg, Some("/h"));
    assert_eq!(p.script, "/h/src/cybercore/tools/ansi2cybergrid.py");
    assert_eq!(p.target_dir, "/h/src/cybercore/schema/themes/cyberdeck");
    assert_eq!(
        converter_args("s.py", "in.json", "neon", "/out"),
        vec!["s.py", "in.json", "--slug", "neon", "--write", "/out", "--force"]
            .into_iter()
            .map(String::from)
            .collect::<Vec<_>>()
    );
}
