//! Regenerates a cybercore theme file from Omarchy's active palette.
//!
//! Omarchy palettes come in two shapes: generated ones with explicit
//! `color0`..`color15` slots, and semantic-only ones naming hues (`red`,
//! `bright_red`, ...). Explicit slots win; missing ones are derived from the
//! semantic colors, and a missing cursor from the foreground. A palette
//! that lacks both is an error. While Omarchy replaces the theme directory
//! the file can be briefly incomplete, so reads are retried for a bounded
//! window before an error is reported.

use vstd::prelude::*;
use crate::config::ThemeSyncConfig;
use crate::paths::{expand_home, expand_home_spec, join_path, join_spec};
use crate::text::{concat, decimal, push_str, str_eq, trim, trim_spec, usize_to_string, views};

verus! {

pub struct ThemeSyncPlugin;

impl ThemeSyncPlugin {
    pub fn name(&self) -> (r: &'static str)
        ensures
            r@ == "theme-sync"@,
    {
        "theme-sync"
    }
}

/// Omarchy's `colors.toml`: the three main colors and every other key.
#[derive(Debug)]
pub struct OmarchyColors {
    pub background: String,
    pub foreground: String,
    pub cursor: Option<String>,
    /// All other keys and their values (`colorN`, hues, accents, ...).
    pub extra: Vec<(String, String)>,
}

/// The input of cybercore's `ansi2cybergrid.py` converter.
#[derive(Debug)]
pub struct ThemeGenInput {
    pub name: String,
    pub background: String,
    pub foreground: String,
    pub cursor: String,
    pub colors: Vec<String>,
}

/// The value of `key` among the extra keys (the first entry with that key).
pub open spec fn lookup(extra: Seq<(String, String)>, key: Seq<char>) -> Option<Seq<char>>
    decreases extra.len(),
{
    if extra.len() == 0 {
        None
    } else if extra[0].0@ == key {
        Some(extra[0].1@)
    } else {
        lookup(extra.drop_first(), key)
    }
}

pub open spec fn or_else(a: Option<Seq<char>>, b: Option<Seq<char>>) -> Option<Seq<char>> {
    if a is Some {
        a
    } else {
        b
    }
}

/// The semantic hue behind ANSI slots 1..=6 (and, brightened, 9..=14).
pub open spec fn hue(k: nat) -> Seq<char> {
    if k == 1 {
        "red"@
    } else if k == 2 {
        "green"@
    } else if k == 3 {
        "yellow"@
    } else if k == 4 {
        "blue"@
    } else if k == 5 {
        "magenta"@
    } else {
        "cyan"@
    }
}

/// ANSI slot `i`: the explicit `color<i>` key, else its semantic fallback.
pub open spec fn slot_spec(c: OmarchyColors, i: nat) -> Option<Seq<char>> {
    let extra = c.extra@;
    let explicit = lookup(extra, "color"@ + decimal(i));
    let fallback = if i == 0 {
        Some(c.background@)
    } else if i <= 6 {
        lookup(extra, hue(i))
    } else if i == 7 {
        Some(c.foreground@)
    } else if i == 8 {
        or_else(
            lookup(extra, "dark_foreground"@),
            or_else(lookup(extra, "muted"@), Some(c.background@)),
        )
    } else if i <= 14 {
        or_else(lookup(extra, "bright_"@ + hue((i - 8) as nat)), lookup(extra, hue((i - 8) as nat)))
    } else {
        or_else(lookup(extra, "bright_foreground"@), Some(c.foreground@))
    };
    or_else(explicit, fallback)
}

/// All sixteen slots are available.
pub open spec fn palette_complete(c: OmarchyColors) -> bool {
    forall|i: nat| i < 16 ==> (#[trigger] slot_spec(c, i)) is Some
}

/// The first slot that cannot be filled.
pub open spec fn first_missing(c: OmarchyColors, i: nat) -> bool {
    i < 16 && slot_spec(c, i) is None && forall|j: nat| j < i ==> (#[trigger] slot_spec(c, j)) is Some
}

fn lookup_key(extra: &Vec<(String, String)>, key: &str) -> (r: Option<String>)
    ensures
        match r {
            Some(v) => lookup(extra@, key@) == Some(v@),
            None => lookup(extra@, key@) is None,
        },
{
    let mut i: usize = 0;
    assert(extra@.skip(0) =~= extra@);
    while i < extra.len()
        invariant
            i <= extra.len(),
            lookup(extra@, key@) == lookup(extra@.skip(i as int), key@),
        decreases extra.len() - i,
    {
        proof {
            let t = extra@.skip(i as int);
            assert(t.drop_first() =~= extra@.skip(i + 1));
            assert(t[0] == extra@[i as int]);
        }
        if str_eq(extra[i].0.as_str(), key) {
            return Some(extra[i].1.clone());
        }
        i = i + 1;
    }
    assert(extra@.skip(extra@.len() as int).len() == 0);
    None
}

fn hue_name(k: usize) -> (r: &'static str)
    requires
        1 <= k <= 6,
    ensures
        r@ == hue(k as nat),
{
    if k == 1 {
        "red"
    } else if k == 2 {
        "green"
    } else if k == 3 {
        "yellow"
    } else if k == 4 {
        "blue"
    } else if k == 5 {
        "magenta"
    } else {
        "cyan"
    }
}

fn first_of(a: Option<String>, b: Option<String>) -> (r: Option<String>)
    ensures
        match r {
            Some(v) => or_else(
                match a {
                    Some(x) => Some(x@),
                    None => None,
                },
                match b {
                    Some(x) => Some(x@),
                    None => None,
                },
            ) == Some(v@),
            None => a is None && b is None,
        },
{
    match a {
        Some(x) => Some(x),
        None => b,
    }
}

fn slot(c: &OmarchyColors, i: usize) -> (r: Option<String>)
    requires
        i < 16,
    ensures
        match r {
            Some(v) => slot_spec(*c, i as nat) == Some(v@),
            None => slot_spec(*c, i as nat) is None,
        },
{
    let key = concat("color", usize_to_string(i).as_str());
    let explicit = lookup_key(&c.extra, key.as_str());
    let fallback = if i == 0 {
        Some(c.background.clone())
    } else if i <= 6 {
        lookup_key(&c.extra, hue_name(i))
    } else if i == 7 {
        Some(c.foreground.clone())
    } else if i == 8 {
        let muted = first_of(lookup_key(&c.extra, "muted"), Some(c.background.clone()));
        first_of(lookup_key(&c.extra, "dark_foreground"), muted)
    } else if i <= 14 {
        let bright = concat("bright_", hue_name(i - 8));
        first_of(lookup_key(&c.extra, bright.as_str()), lookup_key(&c.extra, hue_name(i - 8)))
    } else {
        first_of(lookup_key(&c.extra, "bright_foreground"), Some(c.foreground.clone()))
    };
    first_of(explicit, fallback)
}

impl OmarchyColors {
    /// The sixteen ANSI colors, or the error naming the first slot that can
    /// be neither read nor derived.
    pub fn ansi16(&self) -> (r: Result<Vec<String>, String>)
        ensures
            match r {
                Ok(v) => palette_complete(*self) && v@.len() == 16 && forall|i: int|
                    0 <= i < 16 ==> slot_spec(*self, i as nat) == Some(#[trigger] v@[i]@),
                Err(e) => exists|i: nat|
                    first_missing(*self, i) && e@ == "colors.toml missing color"@ + decimal(i),
            },
    {
        let mut out: Vec<String> = Vec::new();
        let mut i: usize = 0;
        while i < 16
            invariant
                i <= 16,
                out@.len() == i,
                forall|j: int| 0 <= j < i ==> slot_spec(*self, j as nat) == Some(#[trigger] out@[j]@),
            decreases 16 - i,
        {
            match slot(self, i) {
                Some(v) => {
                    out.push(v);
                },
                None => {
                    let e = concat("colors.toml missing color", usize_to_string(i).as_str());
                    proof {
                        assert forall|j: nat| j < i implies (#[trigger] slot_spec(*self, j)) is Some by {
                            assert(slot_spec(*self, j as int as nat) == Some(out@[j as int]@));
                        }
                        assert(first_missing(*self, i as nat));
                    }
                    return Err(e);
                },
            }
            i = i + 1;
        }
        proof {
            assert forall|j: nat| j < 16 implies (#[trigger] slot_spec(*self, j)) is Some by {
                assert(slot_spec(*self, j as int as nat) == Some(out@[j as int]@));
            }
        }
        Ok(out)
    }

    /// The cursor color, the foreground when none is given.
    pub fn cursor_or_foreground(&self) -> (r: String)
        ensures
            r@ == match self.cursor {
                Some(c) => c@,
                None => self.foreground@,
            },
    {
        match &self.cursor {
            Some(c) => c.clone(),
            None => self.foreground.clone(),
        }
    }
}

/// The converter input for theme `name` with palette `colors`.
pub fn theme_gen_input(name: &str, colors: &OmarchyColors) -> (r: Result<ThemeGenInput, String>)
    ensures
        match r {
            Ok(t) => palette_complete(*colors) && t.name@ == name@ && t.background@
                == colors.background@ && t.foreground@ == colors.foreground@ && t.cursor@ == (
            match colors.cursor {
                Some(c) => c@,
                None => colors.foreground@,
            }) && t.colors@.len() == 16 && forall|i: int|
                0 <= i < 16 ==> slot_spec(*colors, i as nat) == Some(#[trigger] t.colors@[i]@),
            Err(e) => exists|i: nat|
                first_missing(*colors, i) && e@ == "colors.toml missing color"@ + decimal(i),
        },
{
    let palette = colors.ansi16()?;
    Ok(
        ThemeGenInput {
            name: name.to_owned(),
            background: colors.background.clone(),
            foreground: colors.foreground.clone(),
            cursor: colors.cursor_or_foreground(),
            colors: palette,
        },
    )
}

/// The theme's name: the trimmed contents of `theme.name`, or
/// `omarchy-live` when it could not be read.
pub fn theme_name(contents: Option<&str>) -> (r: String)
    ensures
        r@ == match contents {
            Some(c) => trim_spec(c@),
            None => "omarchy-live"@,
        },
{
    match contents {
        Some(c) => trim(c),
        None => "omarchy-live".to_owned(),
    }
}

/// The directory holding Omarchy's active theme state.
pub fn state_theme_dir(home: Option<&str>) -> (r: String)
    ensures
        r@ == expand_home_spec(
            "~/.local/state/omarchy/current"@,
            match home {
                Some(h) => Some(h@),
                None => None,
            },
        ),
{
    expand_home("~/.local/state/omarchy/current", home)
}

/// How many times the palette is read before a failure is reported, and
/// the pause between two reads: 12 reads 100 ms apart, 1.2 s in all.
pub fn palette_read_attempts() -> (n: u32)
    ensures
        n == 12,
{
    12
}

pub fn palette_retry_delay_ms() -> (n: u64)
    ensures
        n == 100,
{
    100
}

/// After failed read number `attempt` (counting from 1), whether to try
/// again.
pub fn retry_palette_read(attempt: u32) -> (b: bool)
    ensures
        b == (attempt < 12),
{
    attempt < palette_read_attempts()
}

/// What a sync does once the converter input is known.
pub enum SyncStep {
    /// Same input as the last successful sync: nothing to do.
    Unchanged,
    /// A dry run: print this line and record the input as synced.
    DryRun { line: String },
    /// Run the converter.
    Convert,
}

pub fn sync_step(previous: Option<&str>, fingerprint: &str, theme: &str, family: &str, dry_run: bool) -> (s:
    SyncStep)
    ensures
        match previous {
            Some(p) if p@ == fingerprint@ => s is Unchanged,
            _ => if dry_run {
                s matches SyncStep::DryRun { line } && line@
                    == "[theme-sync] (dry-run) would sync theme '"@ + theme@
                    + "' -> cybercore family '"@ + family@ + "'"@
            } else {
                s is Convert
            },
        },
{
    if let Some(p) = previous {
        if str_eq(p, fingerprint) {
            return SyncStep::Unchanged;
        }
    }
    if dry_run {
        let mut line = concat("[theme-sync] (dry-run) would sync theme '", theme);
        push_str(&mut line, "' -> cybercore family '");
        push_str(&mut line, family);
        push_str(&mut line, "'");
        SyncStep::DryRun { line }
    } else {
        SyncStep::Convert
    }
}

/// Where the converter script lives and where its output goes.
pub struct ConverterPaths {
    pub script: String,
    pub target_dir: String,
}

pub fn converter_paths(cfg: &ThemeSyncConfig, home: Option<&str>) -> (r: ConverterPaths)
    ensures
        ({
            let root = expand_home_spec(
                cfg.cybercore_root@,
                match home {
                    Some(h) => Some(h@),
                    None => None,
                },
            );
            &&& r.script@ == join_spec(join_spec(root, "tools"@), "ansi2cybergrid.py"@)
            &&& r.target_dir@ == join_spec(
                join_spec(join_spec(root, "schema"@), "themes"@),
                cfg.family@,
            )
        }),
{
    let root = expand_home(cfg.cybercore_root.as_str(), home);
    let tools = join_path(root.as_str(), "tools");
    let script = join_path(tools.as_str(), "ansi2cybergrid.py");
    let schema = join_path(root.as_str(), "schema");
    let themes = join_path(schema.as_str(), "themes");
    let target_dir = join_path(themes.as_str(), cfg.family.as_str());
    ConverterPaths { script, target_dir }
}

/// The converter's command line after `python3`.
pub fn converter_args(script: &str, input: &str, theme: &str, target_dir: &str) -> (r: Vec<String>)
    ensures
        views(r@) == seq![script@, input@, "--slug"@, theme@, "--write"@, target_dir@, "--force"@],
{
    let mut r: Vec<String> = Vec::new();
    r.push(script.to_owned());
    r.push(input.to_owned());
    r.push("--slug".to_owned());
    r.push(theme.to_owned());
    r.push("--write".to_owned());
    r.push(target_dir.to_owned());
    r.push("--force".to_owned());
    assert(views(r@) =~= seq![
        script@,
        input@,
        "--slug"@,
        theme@,
        "--write"@,
        target_dir@,
        "--force"@,
    ]);
    r
}

/// The body of the "theme synced" notification.
pub fn synced_body(theme: &str, family: &str) -> (r: String)
    ensures
        r@ == "'"@ + theme@ + "' -> cybercore/schema/themes/"@ + family@ + "/"@ + theme@
            + ".json (rebuild consumers to pick it up)"@,
{
    let mut r = concat("'", theme);
    push_str(&mut r, "' -> cybercore/schema/themes/");
    push_str(&mut r, family);
    push_str(&mut r, "/");
    push_str(&mut r, theme);
    push_str(&mut r, ".json (rebuild consumers to pick it up)");
    r
}

/// Without an explicit `color<k>` key, ANSI slot `k` (1 to 6) takes the
/// `k`-th of `red`, `green`, `yellow`, `blue`, `magenta`, `cyan`, and slot
/// `k + 8` the `bright_` form of that key, else the plain one.
pub proof fn law_semantic_slots_follow_ansi_order(c: OmarchyColors, k: nat)
    requires
        1 <= k <= 6,
    ensures
        lookup(c.extra@, "color"@ + decimal(k)) is None ==> slot_spec(c, k) == lookup(
            c.extra@,
            seq!["red"@, "green"@, "yellow"@, "blue"@, "magenta"@, "cyan"@][k - 1],
        ),
        lookup(c.extra@, "color"@ + decimal(k + 8)) is None ==> slot_spec(c, k + 8) == match lookup(
            c.extra@,
            "bright_"@ + seq!["red"@, "green"@, "yellow"@, "blue"@, "magenta"@, "cyan"@][k - 1],
        ) {
            Some(v) => Some(v),
            None => lookup(c.extra@, seq!["red"@, "green"@, "yellow"@, "blue"@, "magenta"@, "cyan"@][k - 1]),
        },
{
    let keys = seq!["red"@, "green"@, "yellow"@, "blue"@, "magenta"@, "cyan"@];
    assert(hue(k) == keys[k - 1]);
    assert(((k + 8) - 8) as nat == k);
}


/// An explicit `color<i>` key always wins; without one, slot 0 is the
/// background, slot 7 the foreground, slot 8 `dark_foreground`, else
/// `muted`, else the background, and slot 15 `bright_foreground`, else the
/// foreground.
pub proof fn law_fixed_slots(c: OmarchyColors, i: nat)
    requires
        i < 16,
    ensures
        lookup(c.extra@, "color"@ + decimal(i)) matches Some(v) ==> slot_spec(c, i) == Some(v),
        lookup(c.extra@, "color"@ + decimal(i)) is None ==> {
            let extra = c.extra@;
            &&& i == 0 ==> slot_spec(c, i) == Some(c.background@)
            &&& i == 7 ==> slot_spec(c, i) == Some(c.foreground@)
            &&& i == 8 ==> slot_spec(c, i) == match lookup(extra, "dark_foreground"@) {
                Some(v) => Some(v),
                None => match lookup(extra, "muted"@) {
                    Some(v) => Some(v),
                    None => Some(c.background@),
                },
            }
            &&& i == 15 ==> slot_spec(c, i) == match lookup(extra, "bright_foreground"@) {
                Some(v) => Some(v),
                None => Some(c.foreground@),
            }
        },
{
}

} // verus!
