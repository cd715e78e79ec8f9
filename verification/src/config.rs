//! The launcher's settings, and how a user's settings are laid over the
//! built-in ones.

use crate::text::{opt_view, strings_view};
use vstd::prelude::*;

verus! {

/// How many results are listed at most unless configured otherwise.
pub fn default_max_results() -> (n: usize)
    ensures
        n == 8,
{
    8
}

/// How many results are listed before anything is typed unless configured otherwise.
pub fn default_initial_results() -> (n: usize)
    ensures
        n == 8,
{
    8
}

/// The terminal emulator that terminal applications run in unless configured otherwise.
pub fn default_terminal() -> (terminal: String)
    ensures
        terminal@ == "alacritty"@,
{
    "alacritty".to_owned()
}

/// The window's width unless configured otherwise.
pub fn default_width() -> (width: i32)
    ensures
        width == 500,
{
    500
}

/// The window's distance from the top of the screen unless configured otherwise.
pub fn default_anchor_top() -> (top: i32)
    ensures
        top == 200,
{
    200
}

/// The lowest score that a match may have unless configured otherwise.
pub fn default_min_score() -> (score: i64)
    ensures
        score == 30,
{
    30
}

/// The score threshold unless configured otherwise: the bits of the double
/// precision number 0.6.
pub fn default_score_threshold_bits() -> (bits: u64)
    ensures
        bits == 0x3FE3_3333_3333_3333,
{
    0x3FE3_3333_3333_3333
}

/// What a switch is set to unless configured otherwise.
pub fn default_true() -> (on: bool)
    ensures
        on,
{
    true
}

/// General settings.
#[derive(Debug)]
pub struct GeneralConfig {
    pub monitor: u32,
    pub max_results: usize,
    pub initial_results: usize,
    pub terminal: String,
}

/// General settings as specifications see them.
pub struct GeneralConfigView {
    pub monitor: u32,
    pub max_results: usize,
    pub initial_results: usize,
    pub terminal: Seq<char>,
}

impl View for GeneralConfig {
    type V = GeneralConfigView;

    open spec fn view(&self) -> GeneralConfigView {
        GeneralConfigView {
            monitor: self.monitor,
            max_results: self.max_results,
            initial_results: self.initial_results,
            terminal: self.terminal@,
        }
    }
}

impl Default for GeneralConfig {
    fn default() -> (general: GeneralConfig)
        ensures
            general@ == (GeneralConfigView {
                monitor: 0,
                max_results: 8,
                initial_results: 8,
                terminal: "alacritty"@,
            }),
    {
        GeneralConfig {
            monitor: 0,
            max_results: default_max_results(),
            initial_results: default_initial_results(),
            terminal: default_terminal(),
        }
    }
}

/// Settings of the window.
#[derive(Debug, Clone, Copy, PartialEq, Eq)]
pub struct AppearanceConfig {
    pub width: i32,
    pub anchor_top: i32,
}

impl Default for AppearanceConfig {
    fn default() -> (appearance: AppearanceConfig)
        ensures
            appearance == (AppearanceConfig { width: 500, anchor_top: 200 }),
    {
        AppearanceConfig { width: default_width(), anchor_top: default_anchor_top() }
    }
}

/// Settings of the search. The score threshold is a double precision number;
/// it is held here by its bits, which this library hands on and never reads.
#[derive(Debug, Clone, Copy, PartialEq, Eq)]
pub struct SearchConfig {
    pub min_score: i64,
    pub score_threshold_bits: u64,
    pub prefer_prefix: bool,
}

impl Default for SearchConfig {
    fn default() -> (search: SearchConfig)
        ensures
            search == (SearchConfig {
                min_score: 30,
                score_threshold_bits: 0x3FE3_3333_3333_3333,
                prefer_prefix: true,
            }),
    {
        SearchConfig {
            min_score: default_min_score(),
            score_threshold_bits: default_score_threshold_bits(),
            prefer_prefix: default_true(),
        }
    }
}

/// An application that the user configured by hand.
#[derive(Debug)]
pub struct CustomApp {
    pub name: String,
    pub command: String,
    pub icon: Option<String>,
    pub keywords: Vec<String>,
}

/// A configured application as specifications see it.
pub struct CustomAppView {
    pub name: Seq<char>,
    pub command: Seq<char>,
    pub icon: Option<Seq<char>>,
    pub keywords: Seq<Seq<char>>,
}

impl View for CustomApp {
    type V = CustomAppView;

    open spec fn view(&self) -> CustomAppView {
        CustomAppView {
            name: self.name@,
            command: self.command@,
            icon: opt_view(self.icon),
            keywords: strings_view(self.keywords@),
        }
    }
}

/// The configured applications of a list, as specifications see them.
pub open spec fn customs_view(customs: Seq<CustomApp>) -> Seq<CustomAppView> {
    Seq::new(customs.len(), |i: int| customs[i]@)
}

/// Settings of the catalog. Directories are held as text.
#[derive(Debug)]
pub struct AppsConfig {
    pub extra_dirs: Vec<String>,
    pub exclude: Vec<String>,
    pub favorites: Vec<String>,
    pub custom: Vec<CustomApp>,
}

/// The catalog's settings as specifications see them.
pub struct AppsConfigView {
    pub extra_dirs: Seq<Seq<char>>,
    pub exclude: Seq<Seq<char>>,
    pub favorites: Seq<Seq<char>>,
    pub custom: Seq<CustomAppView>,
}

impl View for AppsConfig {
    type V = AppsConfigView;

    open spec fn view(&self) -> AppsConfigView {
        AppsConfigView {
            extra_dirs: strings_view(self.extra_dirs@),
            exclude: strings_view(self.exclude@),
            favorites: strings_view(self.favorites@),
            custom: customs_view(self.custom@),
        }
    }
}

impl Default for AppsConfig {
    fn default() -> (apps: AppsConfig)
        ensures
            apps@ == (AppsConfigView {
                extra_dirs: Seq::empty(),
                exclude: Seq::empty(),
                favorites: Seq::empty(),
                custom: Seq::empty(),
            }),
    {
        let apps = AppsConfig {
            extra_dirs: Vec::new(),
            exclude: Vec::new(),
            favorites: Vec::new(),
            custom: Vec::new(),
        };
        assert(apps@.extra_dirs =~= Seq::empty());
        assert(apps@.exclude =~= Seq::empty());
        assert(apps@.favorites =~= Seq::empty());
        assert(apps@.custom =~= Seq::empty());
        apps
    }
}

/// All the settings.
#[derive(Debug)]
pub struct Config {
    pub general: GeneralConfig,
    pub appearance: AppearanceConfig,
    pub search: SearchConfig,
    pub apps: AppsConfig,
}

/// All the settings as specifications see them.
pub struct ConfigView {
    pub general: GeneralConfigView,
    pub appearance: AppearanceConfig,
    pub search: SearchConfig,
    pub apps: AppsConfigView,
}

impl View for Config {
    type V = ConfigView;

    open spec fn view(&self) -> ConfigView {
        ConfigView {
            general: self.general@,
            appearance: self.appearance,
            search: self.search,
            apps: self.apps@,
        }
    }
}

/// One list laid over another: the upper list wins unless it is empty.
pub open spec fn overlaid<T>(base: Seq<T>, upper: Seq<T>) -> Seq<T> {
    if upper.len() > 0 {
        upper
    } else {
        base
    }
}

/// The user's settings laid over the built-in ones. General, window and
/// search settings are the user's. A list of directories, exclusions or
/// favorites is the user's unless that is empty. Configured applications add
/// up: the built-in ones first, then the user's.
pub open spec fn merged(base: ConfigView, user: ConfigView) -> ConfigView {
    ConfigView {
        general: user.general,
        appearance: user.appearance,
        search: user.search,
        apps: AppsConfigView {
            extra_dirs: overlaid(base.apps.extra_dirs, user.apps.extra_dirs),
            exclude: overlaid(base.apps.exclude, user.apps.exclude),
            favorites: overlaid(base.apps.favorites, user.apps.favorites),
            custom: base.apps.custom + user.apps.custom,
        },
    }
}

impl Config {
    /// Lays the user's settings over these.
    pub fn merge(&mut self, user: Config)
        ensures
            final(self)@ == merged(old(self)@, user@),
    {
        let Config { general, appearance, search, apps } = user;
        let AppsConfig { extra_dirs, exclude, favorites, custom } = apps;
        self.general = general;
        self.appearance = appearance;
        self.search = search;
        if !extra_dirs.is_empty() {
            self.apps.extra_dirs = extra_dirs;
        }
        if !exclude.is_empty() {
            self.apps.exclude = exclude;
        }
        if !favorites.is_empty() {
            self.apps.favorites = favorites;
        }
        let mut custom = custom;
        let ghost added = customs_view(custom@);
        let ghost before = customs_view(self.apps.custom@);
        self.apps.custom.append(&mut custom);
        assert(customs_view(self.apps.custom@) =~= before + added);
        assert(final(self)@.apps.extra_dirs =~= overlaid(
            old(self)@.apps.extra_dirs,
            user@.apps.extra_dirs,
        ));
    }
}

} // verus!
