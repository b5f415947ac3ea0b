//! The description of the capture pipeline: a test-pattern source, its
//! size and rate, an optional time overlay, a conversion to the pixel
//! format, and the sink named `sink` from which frames are taken.

use vstd::prelude::*;
use vstd::string::*;
use crate::config::Config;
use crate::numeral::{format_natural, numeral_of};

verus! {

/// The stage that produces the test pattern, with its properties.
pub open spec fn source_stage(config: &Config) -> Seq<char> {
    "videotestsrc pattern="@ + config.pattern@ + " animation-mode="@ + config.animation_mode@
        + " motion="@ + config.motion@ + " background-color="@ + config.background_color@
        + " foreground-color="@ + config.foreground_color@ + " flip="@ + config.flip@
        + " is-live="@ + config.is_live@
}

/// The constraint on what the source produces: image size, and the frame
/// rate as `numerator/denominator`.
pub open spec fn size_and_rate(config: &Config) -> Seq<char> {
    "video/x-raw,width="@ + numeral_of(config.width as nat) + ",height="@ + numeral_of(
        config.height as nat,
    ) + ",framerate="@ + numeral_of(config.fps.numerator as nat) + "/"@ + numeral_of(
        config.fps.denominator as nat,
    )
}

/// The whole description: the stages in order, joined by ` ! `.  The time
/// overlay stands between the source's constraint and the conversion, and
/// only where the configuration asks for it.
pub open spec fn description_of(config: &Config) -> Seq<char> {
    let produced = source_stage(config) + " ! "@ + size_and_rate(config) + " ! "@;
    let shown = if config.overlay_timestamp {
        produced + "timeoverlay ! "@
    } else {
        produced
    };
    shown + "videoconvert ! video/x-raw,format="@ + config.format@ + " ! appsink name=sink"@
}

fn append_source_stage(text: &mut String, config: &Config)
    ensures
        final(text)@ == old(text)@ + source_stage(config),
{
    let ghost before = text@;
    text.append("videotestsrc pattern=");
    text.append(config.pattern.as_str());
    text.append(" animation-mode=");
    text.append(config.animation_mode.as_str());
    text.append(" motion=");
    text.append(config.motion.as_str());
    text.append(" background-color=");
    text.append(config.background_color.as_str());
    text.append(" foreground-color=");
    text.append(config.foreground_color.as_str());
    text.append(" flip=");
    text.append(config.flip.as_str());
    text.append(" is-live=");
    text.append(config.is_live.as_str());
    assert(text@ =~= before + source_stage(config));
}

fn append_size_and_rate(text: &mut String, config: &Config)
    ensures
        final(text)@ == old(text)@ + size_and_rate(config),
{
    let ghost before = text@;
    text.append("video/x-raw,width=");
    text.append(format_natural(config.width as u64).as_str());
    text.append(",height=");
    text.append(format_natural(config.height as u64).as_str());
    text.append(",framerate=");
    text.append(format_natural(config.fps.numerator as u64).as_str());
    text.append("/");
    text.append(format_natural(config.fps.denominator as u64).as_str());
    assert(text@ =~= before + size_and_rate(config));
}

/// Writes the description of the pipeline that the configuration asks for.
pub fn pipeline_description(config: &Config) -> (text: String)
    ensures
        text@ == description_of(config),
{
    let mut text = String::new();
    append_source_stage(&mut text, config);
    text.append(" ! ");
    append_size_and_rate(&mut text, config);
    text.append(" ! ");
    if config.overlay_timestamp {
        text.append("timeoverlay ! ");
    }
    text.append("videoconvert ! video/x-raw,format=");
    text.append(config.format.as_str());
    text.append(" ! appsink name=sink");
    assert(text@ =~= description_of(config));
    text
}

} // verus!
