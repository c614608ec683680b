use vstd::prelude::*;

verus! {

/// The launcher's look, read from `config.toml`; keys missing from the file take their default.
#[derive(Clone, Debug)]
pub struct Config {
    pub width: i32,
    pub height: i32,
    pub background: String,
    pub text_color: String,
    pub comment_color: String,
    pub selected_color: String,
    pub hover_color: String,
    pub border_color: String,
    pub border_radius: i32,
    pub border_width: i32,
    pub font: String,
    pub app_font_size: i32,
    pub comment_font_size: i32,
    pub search_font_size: i32,
    pub search_placeholder: String,
    pub show_icons: bool,
    pub show_comments: bool,
    pub icon_size: i32,
    pub row_radius: i32,
    pub row_margin: i32,
    pub search_background: String,
    pub search_border_color: String,
    pub search_focus_border_color: String,
    /// The most rows the result list shows (the best-ranked results); every result where unset.
    pub max_results: Option<usize>,
    /// The terminal emulator tried first for applications that need one; where unset, only the
    /// built-in list is tried.
    pub terminal: Option<String>,
}

/// The default configuration.
pub open spec fn default_config(c: Config) -> bool {
    &&& c.width == 760
    &&& c.height == 520
    &&& c.background@ == "rgba(20, 20, 28, 0.97)"@
    &&& c.text_color@ == "#eeeeee"@
    &&& c.comment_color@ == "#858591"@
    &&& c.selected_color@ == "rgba(110, 140, 255, 0.22)"@
    &&& c.hover_color@ == "rgba(255, 255, 255, 0.07)"@
    &&& c.border_color@ == "rgba(255, 255, 255, 0.10)"@
    &&& c.border_radius == 18
    &&& c.border_width == 1
    &&& c.font@ == "JetBrainsMono Nerd Font"@
    &&& c.app_font_size == 15
    &&& c.comment_font_size == 11
    &&& c.search_font_size == 17
    &&& c.search_placeholder@ == "Search applications..."@
    &&& c.show_icons
    &&& c.show_comments
    &&& c.icon_size == 42
    &&& c.row_radius == 12
    &&& c.row_margin == 2
    &&& c.search_background@ == "rgba(255, 255, 255, 0.07)"@
    &&& c.search_border_color@ == "rgba(255, 255, 255, 0.08)"@
    &&& c.search_focus_border_color@ == "rgba(130, 170, 255, 0.65)"@
    &&& c.max_results is None
    &&& c.terminal is None
}

impl Default for Config {
    fn default() -> (r: Config)
        ensures
            default_config(r),
    {
        Config {
            width: 760,
            height: 520,
            background: String::from_str("rgba(20, 20, 28, 0.97)"),
            text_color: String::from_str("#eeeeee"),
            comment_color: String::from_str("#858591"),
            selected_color: String::from_str("rgba(110, 140, 255, 0.22)"),
            hover_color: String::from_str("rgba(255, 255, 255, 0.07)"),
            border_color: String::from_str("rgba(255, 255, 255, 0.10)"),
            border_radius: 18,
            border_width: 1,
            font: String::from_str("JetBrainsMono Nerd Font"),
            app_font_size: 15,
            comment_font_size: 11,
            search_font_size: 17,
            search_placeholder: String::from_str("Search applications..."),
            show_icons: true,
            show_comments: true,
            icon_size: 42,
            row_radius: 12,
            row_margin: 2,
            search_background: String::from_str("rgba(255, 255, 255, 0.07)"),
            search_border_color: String::from_str("rgba(255, 255, 255, 0.08)"),
            search_focus_border_color: String::from_str("rgba(130, 170, 255, 0.65)"),
            max_results: None,
            terminal: None,
        }
    }
}

} // verus!
