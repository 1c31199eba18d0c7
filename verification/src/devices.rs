//! Renderer profiles and User-Agent identification.

use vstd::prelude::*;

verus! {

/// Whether the regular expression `pat` matches somewhere in `text`.
/// The answer depends on the two strings alone.
pub uninterp spec fn regex_match(pat: Seq<char>, text: Seq<char>) -> bool;

/// Relies on regex::Regex::is_match: whether the pattern matches the
/// text, a function of the two strings alone. An unparsable pattern
/// matches nothing; the empty pattern matches every text.
#[verifier::external_body]
fn ua_matches(pattern: &str, text: &str) -> (r: bool)
    ensures
        r == regex_match(pattern@, text@),
        pattern@.len() == 0 ==> r,
{
    match regex::Regex::new(pattern) {
        Ok(re) => re.is_match(text),
        Err(_) => false,
    }
}

/// The fallback profile: plain MKV with H264, and MP3 or AAC audio.
pub open spec fn is_safe_device(d: crate::ffmpeg::Device) -> bool {
    &&& d.container@ == seq![crate::ffmpeg::ContainerFormat::MKV]
    &&& d.video@ == seq![crate::ffmpeg::VideoFormat::H264]
    &&& d.audio@ == seq![crate::ffmpeg::AudioFormat::MP3, crate::ffmpeg::AudioFormat::AAC]
}

/// The Chromecast profile.
pub open spec fn is_chromecast_device(d: crate::ffmpeg::Device) -> bool {
    &&& d.container@ == seq![crate::ffmpeg::ContainerFormat::MKV]
    &&& d.video@ == seq![crate::ffmpeg::VideoFormat::H264, crate::ffmpeg::VideoFormat::VP8]
    &&& d.audio@ == seq![
        crate::ffmpeg::AudioFormat::Vorbis,
        crate::ffmpeg::AudioFormat::AAC,
        crate::ffmpeg::AudioFormat::FLAC,
        crate::ffmpeg::AudioFormat::MP3,
        crate::ffmpeg::AudioFormat::Opus,
    ]
}

/// The Chromecast Ultra profile.
pub open spec fn is_chromecast_ultra_device(d: crate::ffmpeg::Device) -> bool {
    &&& d.container@ == seq![crate::ffmpeg::ContainerFormat::MKV]
    &&& d.video@ == seq![
        crate::ffmpeg::VideoFormat::H264,
        crate::ffmpeg::VideoFormat::HEVC,
        crate::ffmpeg::VideoFormat::VP8,
    ]
    &&& d.audio@ == seq![
        crate::ffmpeg::AudioFormat::Vorbis,
        crate::ffmpeg::AudioFormat::FLAC,
        crate::ffmpeg::AudioFormat::MP3,
    ]
}

/// The anything-goes profile: empty allow-lists accept every format.
pub open spec fn is_all_device(d: crate::ffmpeg::Device) -> bool {
    &&& d.container@.len() == 0
    &&& d.video@.len() == 0
    &&& d.audio@.len() == 0
}

/// The fallback profile, used when a request carries no User-Agent.
#[allow(non_snake_case)]
pub fn SAFE() -> (r: crate::ffmpeg::Device)
    ensures
        is_safe_device(r),
{
    let mut container: Vec<crate::ffmpeg::ContainerFormat> = Vec::new();
    container.push(crate::ffmpeg::ContainerFormat::MKV);
    let mut video: Vec<crate::ffmpeg::VideoFormat> = Vec::new();
    video.push(crate::ffmpeg::VideoFormat::H264);
    let mut audio: Vec<crate::ffmpeg::AudioFormat> = Vec::new();
    audio.push(crate::ffmpeg::AudioFormat::MP3);
    audio.push(crate::ffmpeg::AudioFormat::AAC);
    proof {
        assert(container@ =~= seq![crate::ffmpeg::ContainerFormat::MKV]);
        assert(video@ =~= seq![crate::ffmpeg::VideoFormat::H264]);
        assert(audio@ =~= seq![
            crate::ffmpeg::AudioFormat::MP3,
            crate::ffmpeg::AudioFormat::AAC,
        ]);
    }
    crate::ffmpeg::Device { container, video, audio }
}

/// The Chromecast profile.
#[allow(non_snake_case)]
pub fn CHROMECAST() -> (r: crate::ffmpeg::Device)
    ensures
        is_chromecast_device(r),
{
    let mut container: Vec<crate::ffmpeg::ContainerFormat> = Vec::new();
    container.push(crate::ffmpeg::ContainerFormat::MKV);
    let mut video: Vec<crate::ffmpeg::VideoFormat> = Vec::new();
    video.push(crate::ffmpeg::VideoFormat::H264);
    video.push(crate::ffmpeg::VideoFormat::VP8);
    let mut audio: Vec<crate::ffmpeg::AudioFormat> = Vec::new();
    audio.push(crate::ffmpeg::AudioFormat::Vorbis);
    audio.push(crate::ffmpeg::AudioFormat::AAC);
    audio.push(crate::ffmpeg::AudioFormat::FLAC);
    audio.push(crate::ffmpeg::AudioFormat::MP3);
    audio.push(crate::ffmpeg::AudioFormat::Opus);
    proof {
        assert(container@ =~= seq![crate::ffmpeg::ContainerFormat::MKV]);
        assert(video@ =~= seq![
            crate::ffmpeg::VideoFormat::H264,
            crate::ffmpeg::VideoFormat::VP8,
        ]);
        assert(audio@ =~= seq![
            crate::ffmpeg::AudioFormat::Vorbis,
            crate::ffmpeg::AudioFormat::AAC,
            crate::ffmpeg::AudioFormat::FLAC,
            crate::ffmpeg::AudioFormat::MP3,
            crate::ffmpeg::AudioFormat::Opus,
        ]);
    }
    crate::ffmpeg::Device { container, video, audio }
}

/// The Chromecast Ultra profile.
#[allow(non_snake_case)]
pub fn CHROMECAST_ULTRA() -> (r: crate::ffmpeg::Device)
    ensures
        is_chromecast_ultra_device(r),
{
    let mut container: Vec<crate::ffmpeg::ContainerFormat> = Vec::new();
    container.push(crate::ffmpeg::ContainerFormat::MKV);
    let mut video: Vec<crate::ffmpeg::VideoFormat> = Vec::new();
    video.push(crate::ffmpeg::VideoFormat::H264);
    video.push(crate::ffmpeg::VideoFormat::HEVC);
    video.push(crate::ffmpeg::VideoFormat::VP8);
    let mut audio: Vec<crate::ffmpeg::AudioFormat> = Vec::new();
    audio.push(crate::ffmpeg::AudioFormat::Vorbis);
    audio.push(crate::ffmpeg::AudioFormat::FLAC);
    audio.push(crate::ffmpeg::AudioFormat::MP3);
    proof {
        assert(container@ =~= seq![crate::ffmpeg::ContainerFormat::MKV]);
        assert(video@ =~= seq![
            crate::ffmpeg::VideoFormat::H264,
            crate::ffmpeg::VideoFormat::HEVC,
            crate::ffmpeg::VideoFormat::VP8,
        ]);
        assert(audio@ =~= seq![
            crate::ffmpeg::AudioFormat::Vorbis,
            crate::ffmpeg::AudioFormat::FLAC,
            crate::ffmpeg::AudioFormat::MP3,
        ]);
    }
    crate::ffmpeg::Device { container, video, audio }
}

/// The anything-goes profile.
#[allow(non_snake_case)]
pub fn ALL() -> (r: crate::ffmpeg::Device)
    ensures
        is_all_device(r),
{
    crate::ffmpeg::Device { container: Vec::new(), video: Vec::new(), audio: Vec::new() }
}

/// Every built-in profile is encodable: whatever `identify` returns, an
/// incompatible source plans to a target the encoder command line can be
/// built for (see `lemma_plan_is_valid_target`).
pub proof fn lemma_profiles_encodable(d: crate::ffmpeg::Device)
    requires
        is_safe_device(d) || is_chromecast_device(d) || is_chromecast_ultra_device(d)
            || is_all_device(d),
    ensures
        crate::ffmpeg::spec_device_encodable(d),
{
    if is_safe_device(d) {
        assert(d.container@[0] == crate::ffmpeg::ContainerFormat::MKV);
        assert(d.video@[0] == crate::ffmpeg::VideoFormat::H264);
        assert(forall|i: int|
            0 <= i < d.audio@.len() ==> !((#[trigger] d.audio@[i]) is Other));
    } else if is_chromecast_device(d) {
        assert(d.container@[0] == crate::ffmpeg::ContainerFormat::MKV);
        assert(forall|i: int|
            0 <= i < d.video@.len() ==> !((#[trigger] d.video@[i]) is Other));
        assert(forall|i: int|
            0 <= i < d.audio@.len() ==> !((#[trigger] d.audio@[i]) is Other));
    } else if is_chromecast_ultra_device(d) {
        assert(d.container@[0] == crate::ffmpeg::ContainerFormat::MKV);
        assert(forall|i: int|
            0 <= i < d.video@.len() ==> !((#[trigger] d.video@[i]) is Other));
        assert(forall|i: int|
            0 <= i < d.audio@.len() ==> !((#[trigger] d.audio@[i]) is Other));
    }
}

/// Picks the profile of the renderer behind a request from its User-Agent
/// header: the first matching pattern wins, and a request without the
/// header gets the safe fallback.
pub fn identify(user_agent: Option<&str>) -> (r: crate::ffmpeg::Device)
    ensures
        match user_agent {
            None => is_safe_device(r),
            Some(ua) => {
                if regex_match(" aarch64\\).* CrKey/"@, ua@) {
                    is_chromecast_ultra_device(r)
                } else if regex_match(" CrKey/"@, ua@) {
                    is_chromecast_device(r)
                } else if regex_match("^VLC/"@, ua@) {
                    is_all_device(r)
                } else {
                    is_safe_device(r)
                }
            },
        },
{
    match user_agent {
        None => SAFE(),
        Some(ua) => {
            if ua_matches(" aarch64\\).* CrKey/", ua) {
                CHROMECAST_ULTRA()
            } else if ua_matches(" CrKey/", ua) {
                CHROMECAST()
            } else if ua_matches("^VLC/", ua) {
                ALL()
            } else {
                SAFE()
            }
        },
    }
}

} // verus!
