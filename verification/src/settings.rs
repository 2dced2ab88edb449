//! The desktop app's settings.
use crate::csv::strip_bom;
use crate::json::{as_text, get, parse_json, Json};
use crate::text::copy_text;
use crate::trim::{trim, trim_end_of};
use vstd::prelude::*;

verus! {

use crate::csv::without_bom;
use crate::json::{json_of_text, member, opt_json, text_of, JsonView};
use crate::text::{opt_str_view, opt_view, white_space};
use crate::trim::{
    all_blank,
    exactly,
    law_outer_blanks_are_trimmed,
    lemma_strip_back_unique,
    strip_back,
    trimmed,
};

/// A button of the editor: what it puts before and behind the selection.
#[derive(Debug, Clone)]
pub struct FormatRule {
    pub label: String,
    pub prefix: String,
    pub suffix: String,
}

/// What a button holds.
pub struct FormatRuleView {
    pub label: Seq<char>,
    pub prefix: Seq<char>,
    pub suffix: Seq<char>,
}

impl View for FormatRule {
    type V = FormatRuleView;

    open spec fn view(&self) -> FormatRuleView {
        FormatRuleView { label: self.label@, prefix: self.prefix@, suffix: self.suffix@ }
    }
}

/// What a list of buttons holds.
pub open spec fn rule_views(l: Seq<FormatRule>) -> Seq<FormatRuleView> {
    Seq::new(l.len(), |i: int| l[i]@)
}

/// The buttons of the editor where none were chosen.
pub open spec fn standard_rules() -> Seq<FormatRuleView> {
    seq![
        FormatRuleView { label: "Bold"@, prefix: "**"@, suffix: "**"@ },
        FormatRuleView { label: "Italic"@, prefix: "*"@, suffix: "*"@ },
        FormatRuleView { label: "Code"@, prefix: "`"@, suffix: "`"@ },
        FormatRuleView { label: "Link"@, prefix: "["@, suffix: "](https://)"@ },
    ]
}

fn rule(label: &str, prefix: &str, suffix: &str) -> (r: FormatRule)
    ensures
        r@ == (FormatRuleView { label: label@, prefix: prefix@, suffix: suffix@ }),
{
    FormatRule { label: copy_text(label), prefix: copy_text(prefix), suffix: copy_text(suffix) }
}

/// The buttons of the editor where none were chosen.
pub fn default_format_rules() -> (r: Vec<FormatRule>)
    ensures
        rule_views(r@) == standard_rules(),
{
    let mut out: Vec<FormatRule> = Vec::new();
    out.push(rule("Bold", "**", "**"));
    out.push(rule("Italic", "*", "*"));
    out.push(rule("Code", "`", "`"));
    out.push(rule("Link", "[", "](https://)"));
    assert(rule_views(out@) =~= standard_rules());
    out
}

/// The settings of the desktop app, but for the hourly wage: that is no whole number,
/// and nothing here reads it.
#[derive(Debug, Clone)]
pub struct Settings {
    /// The chord that opens the launcher.
    pub hotkey: String,
    /// `clipboard` or `auto_paste`.
    pub paste_mode: String,
    /// How long to wait before pasting, so that the window can close.
    pub auto_paste_delay_ms: u64,
    pub close_on_paste: bool,
    pub sort_by_usage: bool,
    pub start_with_windows: bool,
    pub close_to_tray: bool,
    pub minimize_to_tray: bool,
    /// Whether the launcher starts hidden.
    pub start_in_tray: bool,
    pub hide_on_blur: bool,
    pub always_on_top: bool,
    /// `dark`, `light` or `system`.
    pub theme: String,
    /// A colour such as `#4c9aff`; empty for that of the theme.
    pub accent_color: String,
    pub compact: bool,
    pub show_usage_count: bool,
    pub show_savings_estimate: bool,
    /// Words per minute that the estimate of time saved assumes.
    pub typing_speed_wpm: u32,
    pub wage_currency: String,
    pub onboarding_completed: bool,
    /// Whether new releases are looked for at launch.
    pub auto_check_updates: bool,
    /// The chord that makes a snippet of the selection; empty for none.
    pub quick_add_hotkey: String,
    /// Where a team library is pulled from; empty for none.
    pub team_library_url: String,
    pub team_library_sync_interval_mins: u32,
    pub team_library_sync_on_startup: bool,
    pub team_library_folder_name: String,
    /// Whether team snippets are listed among the personal ones.
    pub show_team_snippets_inline: bool,
    /// The server that snippets are synced with; empty for none.
    pub server_url: String,
    /// Whether single sign-on is the only way in that is offered.
    pub prefer_sso_signin: bool,
    /// The buttons of the editor.
    pub format_rules: Vec<FormatRule>,
    pub backup_retention_days: u32,
    pub log_retention_days: u32,
    /// How long deleted snippets are kept; zero for ever.
    pub local_trash_retention_days: u32,
}

/// A server's URL as it is kept: without white space around it and without slashes
/// behind it.
pub open spec fn tidy_url(s: Seq<char>) -> Seq<char> {
    strip_back(trimmed(s), exactly('/'))
}

fn tidy(s: &str) -> (r: String)
    ensures
        r@ == tidy_url(s@),
{
    let t = trim(s);
    trim_end_of(t.as_str(), '/')
}

/// The URL that a build comes with: that of its brand, or else that of the build's
/// environment; empty where neither names one.
pub open spec fn built_in_url(brand: Seq<char>, environment: Seq<char>) -> Seq<char> {
    tidy_url(
        if brand.len() == 0 {
            environment
        } else {
            brand
        },
    )
}

/// The URL that a build comes with.
pub fn default_server_url(brand: &str, environment: &str) -> (r: String)
    ensures
        r@ == built_in_url(brand@, environment@),
{
    if brand.unicode_len() == 0 {
        tidy(environment)
    } else {
        tidy(brand)
    }
}

impl Settings {
    /// Whether these are the settings of a fresh install that comes with a URL.
    pub open spec fn is_fresh(self, url: Seq<char>) -> bool {
        &&& self.hotkey@ == "Alt+Space"@
        &&& self.paste_mode@ == "auto_paste"@
        &&& self.auto_paste_delay_ms == 120
        &&& self.close_on_paste
        &&& self.sort_by_usage
        &&& self.start_with_windows
        &&& self.close_to_tray
        &&& self.minimize_to_tray
        &&& self.start_in_tray
        &&& !self.hide_on_blur
        &&& !self.always_on_top
        &&& self.theme@ == "dark"@
        &&& self.accent_color@ == ""@
        &&& !self.compact
        &&& self.show_usage_count
        &&& !self.show_savings_estimate
        &&& self.typing_speed_wpm == 40
        &&& self.wage_currency@ == "$"@
        &&& !self.onboarding_completed
        &&& self.auto_check_updates
        &&& self.quick_add_hotkey@ == "Alt+Shift+Space"@
        &&& self.team_library_url@ == ""@
        &&& self.team_library_sync_interval_mins == 60
        &&& self.team_library_sync_on_startup
        &&& self.team_library_folder_name@ == "Team Library"@
        &&& self.show_team_snippets_inline
        &&& self.server_url@ == url
        &&& !self.prefer_sso_signin
        &&& rule_views(self.format_rules@) == standard_rules()
        &&& self.backup_retention_days == 14
        &&& self.log_retention_days == 7
        &&& self.local_trash_retention_days == 30
    }

    /// The settings of a fresh install that comes with a URL.
    pub fn fresh(server_url: String) -> (r: Settings)
        ensures
            r.is_fresh(server_url@),
    {
        Settings {
            hotkey: "Alt+Space".to_owned(),
            paste_mode: "auto_paste".to_owned(),
            auto_paste_delay_ms: 120,
            close_on_paste: true,
            sort_by_usage: true,
            start_with_windows: true,
            close_to_tray: true,
            minimize_to_tray: true,
            start_in_tray: true,
            hide_on_blur: false,
            always_on_top: false,
            theme: "dark".to_owned(),
            accent_color: "".to_owned(),
            compact: false,
            show_usage_count: true,
            show_savings_estimate: false,
            typing_speed_wpm: 40,
            wage_currency: "$".to_owned(),
            onboarding_completed: false,
            auto_check_updates: true,
            quick_add_hotkey: "Alt+Shift+Space".to_owned(),
            team_library_url: "".to_owned(),
            team_library_sync_interval_mins: 60,
            team_library_sync_on_startup: true,
            team_library_folder_name: "Team Library".to_owned(),
            show_team_snippets_inline: true,
            server_url,
            prefer_sso_signin: false,
            format_rules: default_format_rules(),
            backup_retention_days: 14,
            log_retention_days: 7,
            local_trash_retention_days: 30,
        }
    }
}

impl Default for Settings {
    fn default() -> (r: Settings)
        ensures
            r.is_fresh(""@),
    {
        Settings::fresh("".to_owned())
    }
}

/// The URL that a value names; none where nothing is left of it.
pub open spec fn named_url(s: Seq<char>) -> Option<Seq<char>> {
    if tidy_url(s).len() == 0 {
        None
    } else {
        Some(tidy_url(s))
    }
}

fn named(s: &str) -> (r: Option<String>)
    ensures
        opt_view(r) == named_url(s@),
{
    let t = tidy(s);
    if t.as_str().unicode_len() == 0 {
        None
    } else {
        Some(t)
    }
}

/// The URL that the machine's configuration names.
pub open spec fn configured_url(parsed: Option<JsonView>) -> Option<Seq<char>> {
    match parsed {
        Some(j) => match text_of(member(j, "server_url"@)) {
            Some(s) => named_url(s),
            None => None,
        },
        None => None,
    }
}

/// The URL that the machine's configuration names.
pub fn url_of_config(parsed: Option<&Json>) -> (r: Option<String>)
    ensures
        opt_view(r) == configured_url(opt_json(parsed)),
{
    match parsed {
        Some(j) => match as_text(get(j, "server_url")) {
            Some(s) => named(s),
            None => None,
        },
        None => None,
    }
}

/// The URL that the machine's administrator has set: in the environment, or else in
/// the machine's configuration file. None where it is not managed.
pub open spec fn managed_url(environment: Option<Seq<char>>, file: Option<Seq<char>>) -> Option<
    Seq<char>,
> {
    if environment is Some && named_url(environment->0) is Some {
        named_url(environment->0)
    } else {
        match file {
            Some(raw) => configured_url(json_of_text(without_bom(raw))),
            None => None,
        }
    }
}

/// The URL that the machine's administrator has set, by what the environment holds and
/// by what the configuration file holds.
pub fn managed_server_url(environment: Option<&str>, file: Option<&str>) -> (r: Option<String>)
    ensures
        opt_view(r) == managed_url(opt_str_view(environment), opt_str_view(file)),
{
    if let Some(v) = environment {
        if let Some(url) = named(v) {
            return Some(url);
        }
    }
    match file {
        Some(raw) => {
            let text = strip_bom(raw);
            match parse_json(text.as_str()) {
                Some(j) => url_of_config(Some(&j)),
                None => None,
            }
        },
        None => None,
    }
}

/// Where the settings are kept.
#[derive(Debug)]
pub struct SettingsPath(pub String);

/// A URL is kept without the blanks around it and without the slashes behind it.
pub proof fn law_urls_are_tidied(
    a: Seq<char>,
    url: Seq<char>,
    slashes: Seq<char>,
    b: Seq<char>,
    file: Option<Seq<char>>,
)
    requires
        all_blank(a),
        all_blank(b),
        forall|i: int| 0 <= i < slashes.len() ==> #[trigger] slashes[i] == '/',
        url.len() > 0,
        !white_space(url[0]),
        !white_space(url.last()),
        url.last() != '/',
    ensures
        tidy_url(a + (url + slashes) + b) == url,
        managed_url(Some(a + (url + slashes) + b), file) == Some(url),
        built_in_url(a + (url + slashes) + b, b) == url,
        built_in_url(Seq::empty(), a + (url + slashes) + b) == url,
{
    let s = url + slashes;
    assert(s.last() == url.last() || s.last() == '/') by {
        if slashes.len() > 0 {
            assert(s.last() == slashes[slashes.len() - 1]);
        }
    }
    assert(s[0] == url[0]);
    law_outer_blanks_are_trimmed(a, s, b);
    assert forall|i: int| url.len() <= i < s.len() implies exactly('/')(#[trigger] s[i]) by {
        assert(s[i] == slashes[i - url.len()]);
    }
    assert(s[url.len() - 1] == url.last());
    lemma_strip_back_unique(s, exactly('/'), url.len() as int);
    assert(s.take(url.len() as int) =~= url);
}

/// Where the environment names no URL, the machine's configuration decides: its member of
/// that name, tidied, where it holds a text with anything in it.
pub proof fn law_configuration_names_the_url(raw: Seq<char>, j: JsonView, url: Seq<char>)
    requires
        json_of_text(without_bom(raw)) == Some(j),
        member(j, "server_url"@) == Some(JsonView::Text(url)),
        tidy_url(url).len() > 0,
    ensures
        managed_url(None, Some(raw)) == Some(tidy_url(url)),
        managed_url(None, None) is None,
{
}

} // verus!
