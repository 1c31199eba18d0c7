use rustymedia::devices;
use rustymedia::ffmpeg::{
    format_from_probe, input_args, is_valid_target, transcode_args, AudioFormat, ContainerFormat,
    Device, Format, Input, VideoFormat,
};

fn fmt(c: ContainerFormat, v: Option<VideoFormat>, a: Option<AudioFormat>) -> Format {
    Format { container: c, audio: a, video: v }
}

#[test]
fn test_compatible_passthrough_plan() {
    // A format the device accepts plans to itself.
    let f = fmt(
        ContainerFormat::MKV,
        Some(VideoFormat::H264),
        Some(AudioFormat::AAC),
    );
    let d = devices::SAFE();
    assert!(f.compatible_with(&d));
    assert_eq!(f.transcode_for(&d), f);
}

#[test]
fn test_wildcard_device_accepts_everything() {
    let f = fmt(
        ContainerFormat::Other("flv".to_string()),
        Some(VideoFormat::Other("wmv3".to_string())),
        Some(AudioFormat::Opus),
    );
    let d = devices::ALL();
    assert!(f.compatible_with(&d));
    assert_eq!(f.transcode_for(&d), f);
}

#[test]
fn test_plan_is_compatible_after_transcode() {
    // An incompatible source plans to a target the device accepts.
    let f = fmt(
        ContainerFormat::MOV,
        Some(VideoFormat::Other("wmv3".to_string())),
        Some(AudioFormat::Other("wma".to_string())),
    );
    let d = devices::SAFE();
    assert!(!f.compatible_with(&d));
    let t = f.transcode_for(&d);
    assert!(t.compatible_with(&d));
    assert_eq!(
        t,
        fmt(
            ContainerFormat::MKV,
            Some(VideoFormat::H264),
            Some(AudioFormat::MP3)
        )
    );
}

#[test]
fn test_transcode_cold_target() {
    // Source MOV/H264/Opus against the Chromecast Ultra profile: the plan
    // keeps the video, remuxes to MKV and re-encodes the audio to the
    // device's first choice.
    let f = fmt(
        ContainerFormat::MOV,
        Some(VideoFormat::H264),
        Some(AudioFormat::Opus),
    );
    let d = devices::CHROMECAST_ULTRA();
    assert!(!f.compatible_with(&d));
    let t = f.transcode_for(&d);
    assert_eq!(t.container, ContainerFormat::MKV);
    assert_eq!(t.video, Some(VideoFormat::H264));
    assert!(
        t.audio == Some(AudioFormat::Vorbis)
            || t.audio == Some(AudioFormat::FLAC)
            || t.audio == Some(AudioFormat::MP3)
    );
    assert_eq!(t.audio, Some(AudioFormat::Vorbis));
}

#[test]
fn test_transcode_args_copy_and_encode() {
    let source = fmt(
        ContainerFormat::MOV,
        Some(VideoFormat::H264),
        Some(AudioFormat::Opus),
    );
    let target = fmt(
        ContainerFormat::MKV,
        Some(VideoFormat::H264),
        Some(AudioFormat::Vorbis),
    );
    let args = transcode_args(&source, &target);
    assert_eq!(
        args,
        vec![
            "-c:v",
            "copy",
            "-c:a",
            "libvorbis",
            "-f",
            "matroska",
            "-y",
            "/dev/stdout"
        ]
    );
}

#[test]
fn test_transcode_args_full_encode() {
    let source = fmt(
        ContainerFormat::MPEGTS,
        Some(VideoFormat::Other("wmv3".to_string())),
        Some(AudioFormat::Other("wma".to_string())),
    );
    let target = fmt(
        ContainerFormat::MP4,
        Some(VideoFormat::HEVC),
        Some(AudioFormat::Opus),
    );
    let args = transcode_args(&source, &target);
    assert_eq!(
        args,
        vec![
            "-c:v",
            "libx265",
            "-preset",
            "ultrafast",
            "-c:a",
            "opus",
            "-strict",
            "-2",
            "-f",
            "ismv",
            "-movflags",
            "+frag_keyframe",
            "-y",
            "/dev/stdout"
        ]
    );
}

#[test]
fn test_valid_target_check() {
    let source = fmt(
        ContainerFormat::MOV,
        Some(VideoFormat::Other("wmv3".to_string())),
        Some(AudioFormat::Opus),
    );
    // A plan against a built-in profile is always a buildable target.
    let target = source.transcode_for(&devices::SAFE());
    assert!(is_valid_target(&source, &target));
    // A copied stream may keep an unknown codec; a re-encoded one may not.
    let copy_target = fmt(
        ContainerFormat::MKV,
        Some(VideoFormat::Other("wmv3".to_string())),
        Some(AudioFormat::AAC),
    );
    assert!(is_valid_target(&source, &copy_target));
    let bad_video = fmt(
        ContainerFormat::MKV,
        Some(VideoFormat::Other("theora".to_string())),
        Some(AudioFormat::AAC),
    );
    assert!(!is_valid_target(&source, &bad_video));
    let bad_container = fmt(
        ContainerFormat::WAV,
        None,
        Some(AudioFormat::AAC),
    );
    assert!(!is_valid_target(&source, &bad_container));
}

#[test]
fn test_input_args() {
    assert_eq!(
        input_args(&Input::Uri("/media/clip.mkv".to_string())),
        vec!["-i", "/media/clip.mkv"]
    );
    assert_eq!(input_args(&Input::Stream), vec!["-i", "pipe:0"]);
}

#[test]
fn test_format_from_probe_known() {
    let streams = vec![
        ("video".to_string(), "h264".to_string()),
        ("audio".to_string(), "aac".to_string()),
        ("subtitle".to_string(), "srt".to_string()),
    ];
    let f = format_from_probe("matroska,webm", &streams);
    assert_eq!(f.container, ContainerFormat::MKV);
    assert_eq!(f.video, Some(VideoFormat::H264));
    assert_eq!(f.audio, Some(AudioFormat::AAC));
}

#[test]
fn test_format_from_probe_unknown_names_kept() {
    let streams = vec![
        ("video".to_string(), "wmv3".to_string()),
        ("audio".to_string(), "opus".to_string()),
    ];
    let f = format_from_probe("asf", &streams);
    assert_eq!(f.container, ContainerFormat::Other("asf".to_string()));
    assert_eq!(f.video, Some(VideoFormat::Other("wmv3".to_string())));
    assert_eq!(f.audio, Some(AudioFormat::Other("opus".to_string())));
}

#[test]
fn test_format_from_probe_first_stream_wins() {
    let streams = vec![
        ("video".to_string(), "h264".to_string()),
        ("video".to_string(), "hevc".to_string()),
    ];
    let f = format_from_probe("mpegts", &streams);
    assert_eq!(f.container, ContainerFormat::MPEGTS);
    assert_eq!(f.video, Some(VideoFormat::H264));
    assert_eq!(f.audio, None);
}

#[test]
fn test_useragents() {
    let crkey = "Mozilla/5.0 (X11; Linux armv7l) AppleWebKit/537.36 (KHTML, like Gecko) Chrome/66.0.3359.120 Safari/537.36 CrKey/1.32.124602";
    let ultra = "Mozilla/5.0 (X11; Linux aarch64) AppleWebKit/537.36 (KHTML, like Gecko) Chrome/66.0.3359.120 Safari/537.36 CrKey/1.32.124602";
    assert_eq!(devices::identify(Some(crkey)), devices::CHROMECAST());
    assert_eq!(devices::identify(Some(ultra)), devices::CHROMECAST_ULTRA());
    assert_eq!(devices::identify(None), devices::SAFE());
    assert_eq!(devices::identify(Some("VLC/3.0.16 LibVLC/3.0.16")), devices::ALL());
    assert_eq!(devices::identify(Some("SomeTV/1.0")), devices::SAFE());
}

#[test]
fn test_device_allow_lists() {
    let d: Device = devices::CHROMECAST();
    assert_eq!(d.container, vec![ContainerFormat::MKV]);
    assert_eq!(d.video, vec![VideoFormat::H264, VideoFormat::VP8]);
    assert_eq!(
        d.audio,
        vec![
            AudioFormat::Vorbis,
            AudioFormat::AAC,
            AudioFormat::FLAC,
            AudioFormat::MP3,
            AudioFormat::Opus
        ]
    );
}
