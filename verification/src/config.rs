//! User settings that are not secret: hotkeys, output, AI service and user
//! interface preferences, with their defaults.

use vstd::prelude::*;

verus! {

#[derive(Debug, Clone)]
pub struct HotkeyConfig {
    pub screenshot: String,
    pub pin: String,
    pub color_picker: String,
    pub longshot: String,
}

impl Default for HotkeyConfig {
    /// F1 screenshot, F2 pin, F3 colour picker, Ctrl+Alt+S long screenshot.
    fn default() -> (c: Self)
        ensures
            c.screenshot@ == "F1"@,
            c.pin@ == "F2"@,
            c.color_picker@ == "F3"@,
            c.longshot@ == "Ctrl+Alt+S"@,
    {
        HotkeyConfig {
            screenshot: "F1".to_owned(),
            pin: "F2".to_owned(),
            color_picker: "F3".to_owned(),
            longshot: "Ctrl+Alt+S".to_owned(),
        }
    }
}

#[derive(Debug, Clone)]
pub struct OutputConfig {
    pub default_save_dir: String,
    pub default_format: String,
    pub filename_template: String,
    pub jpeg_quality: u8,
}

/// The folder `name` inside the user's pictures folder, as text, if the
/// platform has a pictures folder.
/// Calls `dirs::picture_dir`, appends `name` with `Path::join` and converts
/// the path with `to_string_lossy`. Whether there is a pictures folder, and
/// where, depends on the user's environment; what is stated is that a
/// folder found ends in `name` (the join puts `name` last, and the lossy
/// conversion keeps valid text as it is).
#[verifier::external_body]
fn picture_subdir(name: &str) -> (r: Option<String>)
    ensures
        r matches Some(d) ==> ends_with(d@, name@),
{
    dirs::picture_dir().map(|p| p.join(name).to_string_lossy().to_string())
}

/// `s` ends with `suffix`.
pub open spec fn ends_with(s: Seq<char>, suffix: Seq<char>) -> bool {
    s.len() >= suffix.len() && s.subrange(s.len() - suffix.len(), s.len() as int) == suffix
}

impl Default for OutputConfig {
    /// PNG files named `Screenshot_{yyyy-MM-dd}_{HH-mm-ss}`, JPEG quality 90,
    /// saved in a `Snipe` folder of the user's pictures folder (or the
    /// current folder where there is none).
    fn default() -> (c: Self)
        ensures
            c.default_format@ == "png"@,
            c.filename_template@ == "Screenshot_{yyyy-MM-dd}_{HH-mm-ss}"@,
            c.jpeg_quality == 90,
            c.default_save_dir@ == "."@ || ends_with(c.default_save_dir@, "Snipe"@),
    {
        let default_save_dir = match picture_subdir("Snipe") {
            Some(d) => d,
            None => ".".to_owned(),
        };
        OutputConfig {
            default_save_dir,
            default_format: "png".to_owned(),
            filename_template: "Screenshot_{yyyy-MM-dd}_{HH-mm-ss}".to_owned(),
            jpeg_quality: 90,
        }
    }
}

#[derive(Debug, Clone)]
pub struct AiConfig {
    pub provider: String,
    pub base_url: String,
    pub model: String,
    pub timeout_seconds: u64,
    pub max_retries: u32,
    pub target_language: String,
}

impl Default for AiConfig {
    /// An OpenAI-compatible service at api.openai.com with `gpt-4o-mini`,
    /// 60 second timeout, 2 retries, translating into simplified Chinese.
    fn default() -> (c: Self)
        ensures
            c.provider@ == "openai-compatible"@,
            c.base_url@ == "https://api.openai.com/v1"@,
            c.model@ == "gpt-4o-mini"@,
            c.timeout_seconds == 60,
            c.max_retries == 2,
            c.target_language@ == "zh-CN"@,
    {
        AiConfig {
            provider: "openai-compatible".to_owned(),
            base_url: "https://api.openai.com/v1".to_owned(),
            model: "gpt-4o-mini".to_owned(),
            timeout_seconds: 60,
            max_retries: 2,
            target_language: "zh-CN".to_owned(),
        }
    }
}

#[derive(Debug, Clone)]
pub struct UiConfig {
    pub theme: String,
    pub language: String,
    pub auto_start: bool,
    pub magnifier_zoom: u32,
}

impl Default for UiConfig {
    /// System theme, simplified Chinese, no auto start, magnifier zoom 8.
    fn default() -> (c: Self)
        ensures
            c.theme@ == "system"@,
            c.language@ == "zh-CN"@,
            !c.auto_start,
            c.magnifier_zoom == 8,
    {
        UiConfig {
            theme: "system".to_owned(),
            language: "zh-CN".to_owned(),
            auto_start: false,
            magnifier_zoom: 8,
        }
    }
}

#[derive(Debug, Clone)]
pub struct AppConfig {
    pub schema_version: u32,
    pub hotkeys: HotkeyConfig,
    pub output: OutputConfig,
    pub ai: AiConfig,
    pub ui: UiConfig,
}

/// The settings schema version written by this build.
pub fn default_version() -> (v: u32)
    ensures
        v == 1,
{
    1
}

impl Default for AppConfig {
    /// The current schema version and every section's defaults.
    fn default() -> (c: Self)
        ensures
            c.schema_version == 1,
            c.hotkeys.screenshot@ == "F1"@,
            c.hotkeys.pin@ == "F2"@,
            c.hotkeys.color_picker@ == "F3"@,
            c.hotkeys.longshot@ == "Ctrl+Alt+S"@,
            c.output.default_format@ == "png"@,
            c.output.filename_template@ == "Screenshot_{yyyy-MM-dd}_{HH-mm-ss}"@,
            c.output.jpeg_quality == 90,
            c.output.default_save_dir@ == "."@ || ends_with(c.output.default_save_dir@, "Snipe"@),
            c.ai.provider@ == "openai-compatible"@,
            c.ai.base_url@ == "https://api.openai.com/v1"@,
            c.ai.model@ == "gpt-4o-mini"@,
            c.ai.timeout_seconds == 60,
            c.ai.max_retries == 2,
            c.ai.target_language@ == "zh-CN"@,
            c.ui.theme@ == "system"@,
            c.ui.language@ == "zh-CN"@,
            !c.ui.auto_start,
            c.ui.magnifier_zoom == 8,
    {
        AppConfig {
            schema_version: default_version(),
            hotkeys: HotkeyConfig::default(),
            output: OutputConfig::default(),
            ai: AiConfig::default(),
            ui: UiConfig::default(),
        }
    }
}

} // verus!
