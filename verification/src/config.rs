//! The relay's configuration: settings as they are given, as text under
//! fixed keys, and the typed configuration that is made of them once.

use vstd::prelude::*;
use vstd::string::*;
use crate::numeral::{decimal_of, natural_of, parse_natural};
use crate::rate::{fraction_of, get_fraction, representable, FrameRate, RationalFrameRate};
use crate::text::same_text;

verus! {

/// The settings that the relay knows.
#[derive(Clone, Copy, Debug, PartialEq, Eq, Structural)]
pub enum Key {
    ImageCols,
    ImageRows,
    SourceFps,
    PixelFormat,
    Pattern,
    AnimationMode,
    Motion,
    BackgroundColor,
    ForegroundColor,
    Flip,
    IsLive,
    OverlayTimestamp,
}

impl Key {
    /// The name under which the setting is given.
    pub open spec fn name_of(self) -> Seq<char> {
        match self {
            Key::ImageCols => "IMAGE_COLS"@,
            Key::ImageRows => "IMAGE_ROWS"@,
            Key::SourceFps => "SOURCE_FPS"@,
            Key::PixelFormat => "PIXEL_FORMAT"@,
            Key::Pattern => "PATTERN"@,
            Key::AnimationMode => "ANIMATION_MODE"@,
            Key::Motion => "MOTION"@,
            Key::BackgroundColor => "BACKGROUND_COLOR"@,
            Key::ForegroundColor => "FOREGROUND_COLOR"@,
            Key::Flip => "FLIP"@,
            Key::IsLive => "IS_LIVE"@,
            Key::OverlayTimestamp => "OVERLAY_TIMESTAMP"@,
        }
    }

    /// The value that stands in for a setting that is not given.
    pub open spec fn default_of(self) -> Seq<char> {
        match self {
            Key::ImageCols => "640"@,
            Key::ImageRows => "480"@,
            Key::SourceFps => "30"@,
            Key::PixelFormat => "RGB8"@,
            Key::Pattern => "0"@,
            Key::AnimationMode => "0"@,
            Key::Motion => "0"@,
            Key::BackgroundColor => "0xff000000"@,
            Key::ForegroundColor => "0xffffffff"@,
            Key::Flip => "false"@,
            Key::IsLive => "true"@,
            Key::OverlayTimestamp => "false"@,
        }
    }

    /// Every key, in the order in which the settings are examined.
    pub open spec fn order() -> Seq<Key> {
        seq![
            Key::ImageCols,
            Key::ImageRows,
            Key::SourceFps,
            Key::PixelFormat,
            Key::Pattern,
            Key::AnimationMode,
            Key::Motion,
            Key::BackgroundColor,
            Key::ForegroundColor,
            Key::Flip,
            Key::IsLive,
            Key::OverlayTimestamp,
        ]
    }

    /// Every key, in the order in which the settings are examined.
    pub fn all() -> (keys: Vec<Key>)
        ensures
            keys@ == Key::order(),
    {
        let keys = vec![
            Key::ImageCols,
            Key::ImageRows,
            Key::SourceFps,
            Key::PixelFormat,
            Key::Pattern,
            Key::AnimationMode,
            Key::Motion,
            Key::BackgroundColor,
            Key::ForegroundColor,
            Key::Flip,
            Key::IsLive,
            Key::OverlayTimestamp,
        ];
        assert(keys@ =~= Key::order());
        keys
    }

    /// The name under which the setting is given.
    pub fn name(self) -> (text: &'static str)
        ensures
            text@ == self.name_of(),
    {
        match self {
            Key::ImageCols => "IMAGE_COLS",
            Key::ImageRows => "IMAGE_ROWS",
            Key::SourceFps => "SOURCE_FPS",
            Key::PixelFormat => "PIXEL_FORMAT",
            Key::Pattern => "PATTERN",
            Key::AnimationMode => "ANIMATION_MODE",
            Key::Motion => "MOTION",
            Key::BackgroundColor => "BACKGROUND_COLOR",
            Key::ForegroundColor => "FOREGROUND_COLOR",
            Key::Flip => "FLIP",
            Key::IsLive => "IS_LIVE",
            Key::OverlayTimestamp => "OVERLAY_TIMESTAMP",
        }
    }

    /// The value that stands in for a setting that is not given.
    pub fn default_text(self) -> (text: &'static str)
        ensures
            text@ == self.default_of(),
    {
        match self {
            Key::ImageCols => "640",
            Key::ImageRows => "480",
            Key::SourceFps => "30",
            Key::PixelFormat => "RGB8",
            Key::Pattern => "0",
            Key::AnimationMode => "0",
            Key::Motion => "0",
            Key::BackgroundColor => "0xff000000",
            Key::ForegroundColor => "0xffffffff",
            Key::Flip => "false",
            Key::IsLive => "true",
            Key::OverlayTimestamp => "false",
        }
    }
}

/// The settings as they were given: the text under each key, if any.
#[derive(Clone, Debug)]
pub struct Settings {
    pub image_cols: Option<String>,
    pub image_rows: Option<String>,
    pub source_fps: Option<String>,
    pub pixel_format: Option<String>,
    pub pattern: Option<String>,
    pub animation_mode: Option<String>,
    pub motion: Option<String>,
    pub background_color: Option<String>,
    pub foreground_color: Option<String>,
    pub flip: Option<String>,
    pub is_live: Option<String>,
    pub overlay_timestamp: Option<String>,
}

/// The characters of a text that may be absent.
pub open spec fn shown(text: Option<String>) -> Option<Seq<char>> {
    match text {
        Some(t) => Some(t@),
        None => None,
    }
}

fn borrowed(text: &Option<String>) -> (r: Option<&str>)
    ensures
        match r {
            Some(t) => shown(*text) == Some(t@),
            None => shown(*text) is None,
        },
{
    match text {
        Some(t) => Some(t.as_str()),
        None => None,
    }
}

impl Settings {
    /// The text given under `key`, if any.
    pub open spec fn given(&self, key: Key) -> Option<Seq<char>> {
        match key {
            Key::ImageCols => shown(self.image_cols),
            Key::ImageRows => shown(self.image_rows),
            Key::SourceFps => shown(self.source_fps),
            Key::PixelFormat => shown(self.pixel_format),
            Key::Pattern => shown(self.pattern),
            Key::AnimationMode => shown(self.animation_mode),
            Key::Motion => shown(self.motion),
            Key::BackgroundColor => shown(self.background_color),
            Key::ForegroundColor => shown(self.foreground_color),
            Key::Flip => shown(self.flip),
            Key::IsLive => shown(self.is_live),
            Key::OverlayTimestamp => shown(self.overlay_timestamp),
        }
    }

    /// The text that counts for `key`: what was given, else the default.
    pub open spec fn effective(&self, key: Key) -> Seq<char> {
        match self.given(key) {
            Some(text) => text,
            None => key.default_of(),
        }
    }

    /// Settings of which none is given.
    pub fn empty() -> (settings: Settings)
        ensures
            forall|key: Key| settings.given(key) is None,
    {
        Settings {
            image_cols: None,
            image_rows: None,
            source_fps: None,
            pixel_format: None,
            pattern: None,
            animation_mode: None,
            motion: None,
            background_color: None,
            foreground_color: None,
            flip: None,
            is_live: None,
            overlay_timestamp: None,
        }
    }

    /// The text given under `key`, if any.
    pub fn get(&self, key: Key) -> (text: Option<&str>)
        ensures
            match text {
                Some(t) => self.given(key) == Some(t@),
                None => self.given(key) is None,
            },
    {
        match key {
            Key::ImageCols => borrowed(&self.image_cols),
            Key::ImageRows => borrowed(&self.image_rows),
            Key::SourceFps => borrowed(&self.source_fps),
            Key::PixelFormat => borrowed(&self.pixel_format),
            Key::Pattern => borrowed(&self.pattern),
            Key::AnimationMode => borrowed(&self.animation_mode),
            Key::Motion => borrowed(&self.motion),
            Key::BackgroundColor => borrowed(&self.background_color),
            Key::ForegroundColor => borrowed(&self.foreground_color),
            Key::Flip => borrowed(&self.flip),
            Key::IsLive => borrowed(&self.is_live),
            Key::OverlayTimestamp => borrowed(&self.overlay_timestamp),
        }
    }

    /// Gives `text` under `key`, in place of what was given there before.
    pub fn set(&mut self, key: Key, text: String)
        ensures
            final(self).given(key) == Some(text@),
            forall|other: Key| other != key ==> final(self).given(other) == old(self).given(other),
    {
        match key {
            Key::ImageCols => self.image_cols = Some(text),
            Key::ImageRows => self.image_rows = Some(text),
            Key::SourceFps => self.source_fps = Some(text),
            Key::PixelFormat => self.pixel_format = Some(text),
            Key::Pattern => self.pattern = Some(text),
            Key::AnimationMode => self.animation_mode = Some(text),
            Key::Motion => self.motion = Some(text),
            Key::BackgroundColor => self.background_color = Some(text),
            Key::ForegroundColor => self.foreground_color = Some(text),
            Key::Flip => self.flip = Some(text),
            Key::IsLive => self.is_live = Some(text),
            Key::OverlayTimestamp => self.overlay_timestamp = Some(text),
        }
    }
}

/// What is wrong with the settings.
#[derive(Clone, Copy, Debug, PartialEq, Eq, Structural)]
pub enum ConfigError {
    /// A setting that must be given is not.
    Missing(Key),
    /// The text of a setting cannot be read as a value of its type.
    Invalid(Key),
}

impl ConfigError {
    /// The key that the problem is about.
    pub open spec fn key(self) -> Key {
        match self {
            ConfigError::Missing(key) => key,
            ConfigError::Invalid(key) => key,
        }
    }

    /// The words that describe the problem; the name of the setting
    /// follows them.
    pub open spec fn complaint(self) -> Seq<char> {
        match self {
            ConfigError::Missing(_) => "missing required setting "@,
            ConfigError::Invalid(_) => "invalid value for setting "@,
        }
    }

    /// A description of the problem that names the setting.
    pub fn message(&self) -> (text: String)
        ensures
            text@ == self.complaint() + self.key().name_of(),
    {
        match self {
            ConfigError::Missing(key) => {
                let mut text = String::from_str("missing required setting ");
                text.append(key.name());
                text
            },
            ConfigError::Invalid(key) => {
                let mut text = String::from_str("invalid value for setting ");
                text.append(key.name());
                text
            },
        }
    }
}

/// The typed configuration of the relay.  It is made once and not changed.
#[derive(Clone, Debug)]
pub struct Config {
    /// Image width in pixels.
    pub width: usize,
    /// Image height in pixels.
    pub height: usize,
    /// The frame rate of the source.
    pub fps: RationalFrameRate,
    /// The tag of the pixel format, such as `RGB8`.
    pub format: String,
    /// The test pattern, by its code.
    pub pattern: String,
    /// What drives the animation: frames, wall time or running time.
    pub animation_mode: String,
    /// How much the pattern moves.
    pub motion: String,
    pub background_color: String,
    pub foreground_color: String,
    /// Whether the pattern is flipped.
    pub flip: String,
    /// Whether the source paces itself like a live one.
    pub is_live: String,
    /// Whether the running time is drawn over each frame.
    pub overlay_timestamp: bool,
}

/// The image dimension that a text spells: a natural number that fits the
/// machine's word.
pub open spec fn size_of(text: Seq<char>) -> Option<nat> {
    match natural_of(text) {
        Some(n) => if n <= usize::MAX {
            Some(n)
        } else {
            None
        },
        None => None,
    }
}

/// The rational frame rate that a text spells: a decimal number within the
/// range of [`FrameRate`] whose rational fits a [`RationalFrameRate`].
pub open spec fn rate_of(text: Seq<char>) -> Option<(nat, nat)> {
    match decimal_of(text) {
        Some((digits, scale)) => if digits <= u64::MAX && scale <= u32::MAX && representable(
            fraction_of(digits, scale),
        ) {
            Some(fraction_of(digits, scale))
        } else {
            None
        },
        None => None,
    }
}

/// A flag is on when its text is `true` or `1`, and off on any other text.
pub open spec fn flag_of(text: Seq<char>) -> bool {
    text == "true"@ || text == "1"@
}

/// The text can be read as a value of the type that `key` has.
pub open spec fn readable(key: Key, text: Seq<char>) -> bool {
    match key {
        Key::ImageCols | Key::ImageRows => size_of(text) is Some,
        Key::SourceFps => rate_of(text) is Some,
        _ => true,
    }
}

/// What is wrong with the setting `key`, if anything: it is required and
/// not given, or the text that counts for it cannot be read.
pub open spec fn problem_at(settings: &Settings, required: Seq<Key>, key: Key) -> Option<
    ConfigError,
> {
    if required.contains(key) && settings.given(key) is None {
        Some(ConfigError::Missing(key))
    } else if !readable(key, settings.effective(key)) {
        Some(ConfigError::Invalid(key))
    } else {
        None
    }
}

/// The first problem among the keys from position `from` on.
pub open spec fn first_problem_from(settings: &Settings, required: Seq<Key>, from: nat) -> Option<
    ConfigError,
>
    decreases Key::order().len() - from,
{
    if from >= Key::order().len() {
        None
    } else {
        match problem_at(settings, required, Key::order()[from as int]) {
            Some(problem) => Some(problem),
            None => first_problem_from(settings, required, from + 1),
        }
    }
}

/// The problem that is reported for the settings: that of the first key, in
/// the order of [`Key::order`], that has one.
pub open spec fn first_problem(settings: &Settings, required: Seq<Key>) -> Option<ConfigError> {
    first_problem_from(settings, required, 0)
}

fn is_required(required: &[Key], key: Key) -> (found: bool)
    ensures
        found == required@.contains(key),
{
    let mut i: usize = 0;
    while i < required.len()
        invariant
            i <= required.len(),
            forall|j: int| 0 <= j < i ==> required@[j] != key,
        decreases required.len() - i,
    {
        if required[i] == key {
            return true;
        }
        i = i + 1;
    }
    false
}

/// The text that counts for `key`, unless the key is required and not given.
fn text_for<'a>(settings: &'a Settings, required: &[Key], key: Key) -> (r: Result<
    &'a str,
    ConfigError,
>)
    ensures
        match r {
            Ok(text) => text@ == settings.effective(key) && !(required@.contains(key)
                && settings.given(key) is None),
            Err(problem) => problem == ConfigError::Missing(key) && required@.contains(key)
                && settings.given(key) is None,
        },
{
    match settings.get(key) {
        Some(text) => Ok(text),
        None => {
            if is_required(required, key) {
                Err(ConfigError::Missing(key))
            } else {
                Ok(key.default_text())
            }
        },
    }
}

fn read_size(settings: &Settings, required: &[Key], key: Key) -> (r: Result<usize, ConfigError>)
    requires
        key == Key::ImageCols || key == Key::ImageRows,
    ensures
        match r {
            Ok(n) => problem_at(settings, required@, key) is None && size_of(
                settings.effective(key),
            ) == Some(n as nat),
            Err(problem) => problem_at(settings, required@, key) == Some(problem),
        },
{
    let text = text_for(settings, required, key)?;
    match parse_natural(text, usize::MAX as u64) {
        Ok(n) => Ok(n as usize),
        Err(_) => Err(ConfigError::Invalid(key)),
    }
}

fn read_rate(settings: &Settings, required: &[Key]) -> (r: Result<RationalFrameRate, ConfigError>)
    ensures
        match r {
            Ok(q) => problem_at(settings, required@, Key::SourceFps) is None && rate_of(
                settings.effective(Key::SourceFps),
            ) == Some((q.numerator as nat, q.denominator as nat)),
            Err(problem) => problem_at(settings, required@, Key::SourceFps) == Some(problem),
        },
{
    let text = text_for(settings, required, Key::SourceFps)?;
    match FrameRate::parse(text) {
        Ok(rate) => match get_fraction(rate) {
            Some(q) => Ok(q),
            None => Err(ConfigError::Invalid(Key::SourceFps)),
        },
        Err(_) => Err(ConfigError::Invalid(Key::SourceFps)),
    }
}

fn read_text(settings: &Settings, required: &[Key], key: Key) -> (r: Result<String, ConfigError>)
    requires
        readable(key, settings.effective(key)),
    ensures
        match r {
            Ok(text) => problem_at(settings, required@, key) is None && text@
                == settings.effective(key),
            Err(problem) => problem_at(settings, required@, key) == Some(problem),
        },
{
    let text = text_for(settings, required, key)?;
    Ok(String::from_str(text))
}

fn read_flag(settings: &Settings, required: &[Key], key: Key) -> (r: Result<bool, ConfigError>)
    requires
        readable(key, settings.effective(key)),
    ensures
        match r {
            Ok(on) => problem_at(settings, required@, key) is None && on == flag_of(
                settings.effective(key),
            ),
            Err(problem) => problem_at(settings, required@, key) == Some(problem),
        },
{
    let text = text_for(settings, required, key)?;
    Ok(same_text(text, "true") || same_text(text, "1"))
}

impl Config {
    /// Each field holds what the settings say for it, or the default.
    pub open spec fn reflects(&self, settings: &Settings) -> bool {
        &&& size_of(settings.effective(Key::ImageCols)) == Some(self.width as nat)
        &&& size_of(settings.effective(Key::ImageRows)) == Some(self.height as nat)
        &&& rate_of(settings.effective(Key::SourceFps)) == Some(
            (self.fps.numerator as nat, self.fps.denominator as nat),
        )
        &&& self.format@ == settings.effective(Key::PixelFormat)
        &&& self.pattern@ == settings.effective(Key::Pattern)
        &&& self.animation_mode@ == settings.effective(Key::AnimationMode)
        &&& self.motion@ == settings.effective(Key::Motion)
        &&& self.background_color@ == settings.effective(Key::BackgroundColor)
        &&& self.foreground_color@ == settings.effective(Key::ForegroundColor)
        &&& self.flip@ == settings.effective(Key::Flip)
        &&& self.is_live@ == settings.effective(Key::IsLive)
        &&& self.overlay_timestamp == flag_of(settings.effective(Key::OverlayTimestamp))
    }

    /// Makes the configuration from the settings.
    ///
    /// A setting that is not given takes its default, unless it is listed
    /// in `required`: then it is reported as missing.  The image size is
    /// read as two natural numbers, the frame rate as a decimal number and
    /// converted to a rational, the overlay flag is on for `true` and
    /// `1`; a text that cannot be read so is reported as invalid.  All
    /// other settings are taken as they stand.  Of several problems the one
    /// of the first key in the order of [`Key::order`] is reported.
    pub fn from_settings(settings: &Settings, required: &[Key]) -> (result: Result<
        Config,
        ConfigError,
    >)
        ensures
            match result {
                Ok(config) => first_problem(settings, required@) is None && config.reflects(
                    settings,
                ),
                Err(problem) => first_problem(settings, required@) == Some(problem),
            },
    {
        reveal_with_fuel(first_problem_from, 13);
        let width = read_size(settings, required, Key::ImageCols)?;
        let height = read_size(settings, required, Key::ImageRows)?;
        let fps = read_rate(settings, required)?;
        let format = read_text(settings, required, Key::PixelFormat)?;
        let pattern = read_text(settings, required, Key::Pattern)?;
        let animation_mode = read_text(settings, required, Key::AnimationMode)?;
        let motion = read_text(settings, required, Key::Motion)?;
        let background_color = read_text(settings, required, Key::BackgroundColor)?;
        let foreground_color = read_text(settings, required, Key::ForegroundColor)?;
        let flip = read_text(settings, required, Key::Flip)?;
        let is_live = read_text(settings, required, Key::IsLive)?;
        let overlay_timestamp = read_flag(settings, required, Key::OverlayTimestamp)?;
        Ok(
            Config {
                width,
                height,
                fps,
                format,
                pattern,
                animation_mode,
                motion,
                background_color,
                foreground_color,
                flip,
                is_live,
                overlay_timestamp,
            },
        )
    }
}

} // verus!
