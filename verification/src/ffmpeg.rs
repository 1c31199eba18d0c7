//! Media formats, device capability matching and transcode planning.

use vstd::prelude::*;

verus! {

/// Container of a media file.
#[derive(Debug)]
pub enum ContainerFormat {
    MKV,
    MOV,
    MP4,
    MPEGTS,
    WAV,
    WEBM,
    Other(String),
}

/// Audio codec of a media stream.
#[derive(Debug)]
pub enum AudioFormat {
    AAC,
    FLAC,
    MP3,
    Opus,
    Vorbis,
    Other(String),
}

/// Video codec of a media stream.
#[derive(Debug)]
pub enum VideoFormat {
    H264,
    HEVC,
    VP8,
    Other(String),
}

/// Equality of containers; `Other` names compare by their characters.
pub open spec fn ceq(a: ContainerFormat, b: ContainerFormat) -> bool {
    match (a, b) {
        (ContainerFormat::MKV, ContainerFormat::MKV) => true,
        (ContainerFormat::MOV, ContainerFormat::MOV) => true,
        (ContainerFormat::MP4, ContainerFormat::MP4) => true,
        (ContainerFormat::MPEGTS, ContainerFormat::MPEGTS) => true,
        (ContainerFormat::WAV, ContainerFormat::WAV) => true,
        (ContainerFormat::WEBM, ContainerFormat::WEBM) => true,
        (ContainerFormat::Other(x), ContainerFormat::Other(y)) => x@ == y@,
        _ => false,
    }
}

/// Equality of audio codecs; `Other` names compare by their characters.
pub open spec fn aeq(a: AudioFormat, b: AudioFormat) -> bool {
    match (a, b) {
        (AudioFormat::AAC, AudioFormat::AAC) => true,
        (AudioFormat::FLAC, AudioFormat::FLAC) => true,
        (AudioFormat::MP3, AudioFormat::MP3) => true,
        (AudioFormat::Opus, AudioFormat::Opus) => true,
        (AudioFormat::Vorbis, AudioFormat::Vorbis) => true,
        (AudioFormat::Other(x), AudioFormat::Other(y)) => x@ == y@,
        _ => false,
    }
}

/// Equality of video codecs; `Other` names compare by their characters.
pub open spec fn veq(a: VideoFormat, b: VideoFormat) -> bool {
    match (a, b) {
        (VideoFormat::H264, VideoFormat::H264) => true,
        (VideoFormat::HEVC, VideoFormat::HEVC) => true,
        (VideoFormat::VP8, VideoFormat::VP8) => true,
        (VideoFormat::Other(x), VideoFormat::Other(y)) => x@ == y@,
        _ => false,
    }
}

impl Clone for ContainerFormat {
    fn clone(&self) -> (r: Self)
        ensures
            r == *self,
    {
        match self {
            ContainerFormat::MKV => ContainerFormat::MKV,
            ContainerFormat::MOV => ContainerFormat::MOV,
            ContainerFormat::MP4 => ContainerFormat::MP4,
            ContainerFormat::MPEGTS => ContainerFormat::MPEGTS,
            ContainerFormat::WAV => ContainerFormat::WAV,
            ContainerFormat::WEBM => ContainerFormat::WEBM,
            ContainerFormat::Other(s) => ContainerFormat::Other(s.clone()),
        }
    }
}

impl Clone for AudioFormat {
    fn clone(&self) -> (r: Self)
        ensures
            r == *self,
    {
        match self {
            AudioFormat::AAC => AudioFormat::AAC,
            AudioFormat::FLAC => AudioFormat::FLAC,
            AudioFormat::MP3 => AudioFormat::MP3,
            AudioFormat::Opus => AudioFormat::Opus,
            AudioFormat::Vorbis => AudioFormat::Vorbis,
            AudioFormat::Other(s) => AudioFormat::Other(s.clone()),
        }
    }
}

impl Clone for VideoFormat {
    fn clone(&self) -> (r: Self)
        ensures
            r == *self,
    {
        match self {
            VideoFormat::H264 => VideoFormat::H264,
            VideoFormat::HEVC => VideoFormat::HEVC,
            VideoFormat::VP8 => VideoFormat::VP8,
            VideoFormat::Other(s) => VideoFormat::Other(s.clone()),
        }
    }
}

impl PartialEq for ContainerFormat {
    fn eq(&self, o: &Self) -> (r: bool) {
        match (self, o) {
            (ContainerFormat::MKV, ContainerFormat::MKV) => true,
            (ContainerFormat::MOV, ContainerFormat::MOV) => true,
            (ContainerFormat::MP4, ContainerFormat::MP4) => true,
            (ContainerFormat::MPEGTS, ContainerFormat::MPEGTS) => true,
            (ContainerFormat::WAV, ContainerFormat::WAV) => true,
            (ContainerFormat::WEBM, ContainerFormat::WEBM) => true,
            (ContainerFormat::Other(x), ContainerFormat::Other(y)) => *x == *y,
            _ => false,
        }
    }
}

impl vstd::std_specs::cmp::PartialEqSpecImpl for ContainerFormat {
    open spec fn obeys_eq_spec() -> bool {
        true
    }

    open spec fn eq_spec(&self, o: &Self) -> bool {
        ceq(*self, *o)
    }
}

impl PartialEq for AudioFormat {
    fn eq(&self, o: &Self) -> (r: bool) {
        match (self, o) {
            (AudioFormat::AAC, AudioFormat::AAC) => true,
            (AudioFormat::FLAC, AudioFormat::FLAC) => true,
            (AudioFormat::MP3, AudioFormat::MP3) => true,
            (AudioFormat::Opus, AudioFormat::Opus) => true,
            (AudioFormat::Vorbis, AudioFormat::Vorbis) => true,
            (AudioFormat::Other(x), AudioFormat::Other(y)) => *x == *y,
            _ => false,
        }
    }
}

impl vstd::std_specs::cmp::PartialEqSpecImpl for AudioFormat {
    open spec fn obeys_eq_spec() -> bool {
        true
    }

    open spec fn eq_spec(&self, o: &Self) -> bool {
        aeq(*self, *o)
    }
}

impl PartialEq for VideoFormat {
    fn eq(&self, o: &Self) -> (r: bool) {
        match (self, o) {
            (VideoFormat::H264, VideoFormat::H264) => true,
            (VideoFormat::HEVC, VideoFormat::HEVC) => true,
            (VideoFormat::VP8, VideoFormat::VP8) => true,
            (VideoFormat::Other(x), VideoFormat::Other(y)) => *x == *y,
            _ => false,
        }
    }
}

impl vstd::std_specs::cmp::PartialEqSpecImpl for VideoFormat {
    open spec fn obeys_eq_spec() -> bool {
        true
    }

    open spec fn eq_spec(&self, o: &Self) -> bool {
        veq(*self, *o)
    }
}

/// The detected or planned shape of a media file: container plus the
/// codecs of its (at most one) video and audio streams.
#[derive(Debug)]
pub struct Format {
    pub container: ContainerFormat,
    pub audio: Option<AudioFormat>,
    pub video: Option<VideoFormat>,
}

/// Equality of formats, componentwise.
pub open spec fn feq(a: Format, b: Format) -> bool {
    &&& ceq(a.container, b.container)
    &&& match (a.audio, b.audio) {
        (Some(x), Some(y)) => aeq(x, y),
        (None, None) => true,
        _ => false,
    }
    &&& match (a.video, b.video) {
        (Some(x), Some(y)) => veq(x, y),
        (None, None) => true,
        _ => false,
    }
}

impl Clone for Format {
    fn clone(&self) -> (r: Self)
        ensures
            r == *self,
    {
        let audio = match &self.audio {
            Some(a) => Some(a.clone()),
            None => None,
        };
        let video = match &self.video {
            Some(v) => Some(v.clone()),
            None => None,
        };
        Format { container: self.container.clone(), audio, video }
    }
}

impl PartialEq for Format {
    fn eq(&self, o: &Self) -> (r: bool) {
        let ac = match (&self.audio, &o.audio) {
            (Some(x), Some(y)) => x == y,
            (None, None) => true,
            _ => false,
        };
        let vc = match (&self.video, &o.video) {
            (Some(x), Some(y)) => x == y,
            (None, None) => true,
            _ => false,
        };
        self.container == o.container && ac && vc
    }
}

impl vstd::std_specs::cmp::PartialEqSpecImpl for Format {
    open spec fn obeys_eq_spec() -> bool {
        true
    }

    open spec fn eq_spec(&self, o: &Self) -> bool {
        feq(*self, *o)
    }
}

/// The capabilities of a renderer: allow-lists of containers and codecs.
/// An empty container list means the device accepts any format.
#[derive(Debug)]
pub struct Device {
    pub container: Vec<ContainerFormat>,
    pub video: Vec<VideoFormat>,
    pub audio: Vec<AudioFormat>,
}

/// Equality of devices: the three allow-lists match pointwise.
pub open spec fn deq(a: Device, b: Device) -> bool {
    &&& a.container@.len() == b.container@.len()
    &&& forall|i: int| 0 <= i < a.container@.len() ==> ceq(a.container@[i], b.container@[i])
    &&& a.video@.len() == b.video@.len()
    &&& forall|i: int| 0 <= i < a.video@.len() ==> veq(a.video@[i], b.video@[i])
    &&& a.audio@.len() == b.audio@.len()
    &&& forall|i: int| 0 <= i < a.audio@.len() ==> aeq(a.audio@[i], b.audio@[i])
}

impl PartialEq for Device {
    fn eq(&self, o: &Self) -> (r: bool) {
        if self.container.len() != o.container.len() || self.video.len() != o.video.len()
            || self.audio.len() != o.audio.len() {
            return false;
        }
        let mut i: usize = 0;
        while i < self.container.len()
            invariant
                0 <= i <= self.container@.len(),
                self.container@.len() == o.container@.len(),
                forall|j: int| 0 <= j < i ==> ceq(self.container@[j], o.container@[j]),
            decreases self.container@.len() - i,
        {
            if !(self.container[i] == o.container[i]) {
                return false;
            }
            i = i + 1;
        }
        let mut i: usize = 0;
        while i < self.video.len()
            invariant
                0 <= i <= self.video@.len(),
                self.video@.len() == o.video@.len(),
                forall|j: int| 0 <= j < i ==> veq(self.video@[j], o.video@[j]),
            decreases self.video@.len() - i,
        {
            if !(self.video[i] == o.video[i]) {
                return false;
            }
            i = i + 1;
        }
        let mut i: usize = 0;
        while i < self.audio.len()
            invariant
                0 <= i <= self.audio@.len(),
                self.audio@.len() == o.audio@.len(),
                forall|j: int| 0 <= j < i ==> aeq(self.audio@[j], o.audio@[j]),
            decreases self.audio@.len() - i,
        {
            if !(self.audio[i] == o.audio[i]) {
                return false;
            }
            i = i + 1;
        }
        true
    }
}

impl vstd::std_specs::cmp::PartialEqSpecImpl for Device {
    open spec fn obeys_eq_spec() -> bool {
        true
    }

    open spec fn eq_spec(&self, o: &Self) -> bool {
        deq(*self, *o)
    }
}

/// Membership of a container in an allow-list.
pub open spec fn has_container(s: Seq<ContainerFormat>, x: ContainerFormat) -> bool {
    exists|i: int| 0 <= i < s.len() && ceq(s[i], x)
}

/// Membership of an audio codec in an allow-list.
pub open spec fn has_audio(s: Seq<AudioFormat>, x: AudioFormat) -> bool {
    exists|i: int| 0 <= i < s.len() && aeq(s[i], x)
}

/// Membership of a video codec in an allow-list.
pub open spec fn has_video(s: Seq<VideoFormat>, x: VideoFormat) -> bool {
    exists|i: int| 0 <= i < s.len() && veq(s[i], x)
}

fn contains_container(s: &Vec<ContainerFormat>, x: &ContainerFormat) -> (r: bool)
    ensures
        r == has_container(s@, *x),
{
    let mut i: usize = 0;
    while i < s.len()
        invariant
            0 <= i <= s@.len(),
            forall|j: int| 0 <= j < i ==> !ceq(s@[j], *x),
        decreases s@.len() - i,
    {
        if &s[i] == x {
            return true;
        }
        i = i + 1;
    }
    false
}

fn contains_audio(s: &Vec<AudioFormat>, x: &AudioFormat) -> (r: bool)
    ensures
        r == has_audio(s@, *x),
{
    let mut i: usize = 0;
    while i < s.len()
        invariant
            0 <= i <= s@.len(),
            forall|j: int| 0 <= j < i ==> !aeq(s@[j], *x),
        decreases s@.len() - i,
    {
        if &s[i] == x {
            return true;
        }
        i = i + 1;
    }
    false
}

fn contains_video(s: &Vec<VideoFormat>, x: &VideoFormat) -> (r: bool)
    ensures
        r == has_video(s@, *x),
{
    let mut i: usize = 0;
    while i < s.len()
        invariant
            0 <= i <= s@.len(),
            forall|j: int| 0 <= j < i ==> !veq(s@[j], *x),
        decreases s@.len() - i,
    {
        if &s[i] == x {
            return true;
        }
        i = i + 1;
    }
    false
}

/// A format fits a device: either the device accepts anything (empty
/// container list), or its container is allowed and each present stream's
/// codec is allowed.
pub open spec fn spec_compatible(f: Format, d: Device) -> bool {
    ||| d.container@.len() == 0
    ||| {
        &&& has_container(d.container@, f.container)
        &&& match f.video {
            Some(v) => has_video(d.video@, v),
            None => true,
        }
        &&& match f.audio {
            Some(a) => has_audio(d.audio@, a),
            None => true,
        }
    }
}

/// The planned transcode target: a compatible source is kept unchanged;
/// otherwise each component is kept when the device allows it and replaced
/// by the device's first choice when it does not.
pub open spec fn spec_plan(f: Format, d: Device) -> Format {
    if spec_compatible(f, d) {
        f
    } else {
        Format {
            container: if d.container@.len() == 0 || has_container(d.container@, f.container) {
                f.container
            } else {
                d.container@[0]
            },
            video: match f.video {
                None => None,
                Some(v) => if d.video@.len() == 0 || has_video(d.video@, v) {
                    Some(v)
                } else {
                    Some(d.video@[0])
                },
            },
            audio: match f.audio {
                None => None,
                Some(a) => if d.audio@.len() == 0 || has_audio(d.audio@, a) {
                    Some(a)
                } else {
                    Some(d.audio@[0])
                },
            },
        }
    }
}

impl Format {
    /// Whether this format can be streamed to the device verbatim.
    pub fn compatible_with(&self, device: &Device) -> (r: bool)
        ensures
            r == spec_compatible(*self, *device),
    {
        if device.container.len() == 0 {
            return true;
        }
        if !contains_container(&device.container, &self.container) {
            return false;
        }
        let vok = match &self.video {
            Some(v) => contains_video(&device.video, v),
            None => true,
        };
        if !vok {
            return false;
        }
        match &self.audio {
            Some(a) => contains_audio(&device.audio, a),
            None => true,
        }
    }

    /// The target format a transcode for this device must produce.
    pub fn transcode_for(&self, device: &Device) -> (r: Format)
        ensures
            r == spec_plan(*self, *device),
    {
        if self.compatible_with(device) {
            return self.clone();
        }
        let container = if device.container.len() == 0
            || contains_container(&device.container, &self.container) {
            self.container.clone()
        } else {
            device.container[0].clone()
        };
        let video = match &self.video {
            None => None,
            Some(v) => if device.video.len() == 0 || contains_video(&device.video, v) {
                Some(v.clone())
            } else {
                Some(device.video[0].clone())
            },
        };
        let audio = match &self.audio {
            None => None,
            Some(a) => if device.audio.len() == 0 || contains_audio(&device.audio, a) {
                Some(a.clone())
            } else {
                Some(device.audio[0].clone())
            },
        };
        Format { container, audio, video }
    }
}

/// A format that already fits the device plans to itself: no transcode.
pub proof fn lemma_plan_keeps_compatible_format(f: Format, d: Device)
    requires
        spec_compatible(f, d),
    ensures
        spec_plan(f, d) == f,
{
}

/// The planned target fits the device, provided the device either accepts
/// anything or names at least one allowed codec for each stream the source
/// carries.
pub proof fn lemma_plan_is_compatible(f: Format, d: Device)
    requires
        d.container@.len() > 0 ==> {
            &&& f.video is Some ==> d.video@.len() > 0
            &&& f.audio is Some ==> d.audio@.len() > 0
        },
    ensures
        spec_compatible(spec_plan(f, d), d),
{
    if !spec_compatible(f, d) {
        let t = spec_plan(f, d);
        if d.container@.len() > 0 {
            if has_container(d.container@, f.container) {
                assert(has_container(d.container@, t.container));
            } else {
                assert(ceq(d.container@[0], t.container)) by {
                    lemma_eq_reflexive();
                }
                assert(has_container(d.container@, t.container));
            }
            match f.video {
                None => {}
                Some(v) => {
                    if !has_video(d.video@, v) {
                        assert(veq(d.video@[0], d.video@[0])) by {
                            lemma_eq_reflexive();
                        }
                        assert(has_video(d.video@, d.video@[0]));
                    }
                }
            }
            match f.audio {
                None => {}
                Some(a) => {
                    if !has_audio(d.audio@, a) {
                        assert(aeq(d.audio@[0], d.audio@[0])) by {
                            lemma_eq_reflexive();
                        }
                        assert(has_audio(d.audio@, d.audio@[0]));
                    }
                }
            }
        }
    }
}

/// Every format equals itself.
pub proof fn lemma_feq_reflexive(f: Format)
    ensures
        feq(f, f),
{
    lemma_eq_reflexive();
}

/// Codec equality is transitive.
pub proof fn lemma_eq_transitive()
    ensures
        forall|a: ContainerFormat, b: ContainerFormat, c: ContainerFormat|
            ceq(a, b) && #[trigger] ceq(b, c) ==> #[trigger] ceq(a, c),
        forall|a: AudioFormat, b: AudioFormat, c: AudioFormat|
            aeq(a, b) && #[trigger] aeq(b, c) ==> #[trigger] aeq(a, c),
        forall|a: VideoFormat, b: VideoFormat, c: VideoFormat|
            veq(a, b) && #[trigger] veq(b, c) ==> #[trigger] veq(a, c),
{
}

/// Equal formats fit the same devices.
pub proof fn lemma_feq_same_compatibility(a: Format, b: Format, d: Device)
    requires
        feq(a, b),
    ensures
        spec_compatible(a, d) == spec_compatible(b, d),
{
    lemma_eq_transitive();
    if d.container@.len() > 0 {
        if has_container(d.container@, a.container) {
            let i = choose|i: int|
                0 <= i < d.container@.len() && ceq(d.container@[i], a.container);
            assert(ceq(a.container, b.container));
            assert(ceq(d.container@[i], b.container));
        }
        if has_container(d.container@, b.container) {
            let i = choose|i: int|
                0 <= i < d.container@.len() && ceq(d.container@[i], b.container);
            assert(ceq(b.container, a.container));
            assert(ceq(d.container@[i], a.container));
        }
        match (a.video, b.video) {
            (Some(x), Some(y)) => {
                if has_video(d.video@, x) {
                    let i = choose|i: int| 0 <= i < d.video@.len() && veq(d.video@[i], x);
                    assert(veq(d.video@[i], y));
                }
                if has_video(d.video@, y) {
                    let i = choose|i: int| 0 <= i < d.video@.len() && veq(d.video@[i], y);
                    assert(veq(y, x));
                    assert(veq(d.video@[i], x));
                }
            },
            _ => {},
        }
        match (a.audio, b.audio) {
            (Some(x), Some(y)) => {
                if has_audio(d.audio@, x) {
                    let i = choose|i: int| 0 <= i < d.audio@.len() && aeq(d.audio@[i], x);
                    assert(aeq(d.audio@[i], y));
                }
                if has_audio(d.audio@, y) {
                    let i = choose|i: int| 0 <= i < d.audio@.len() && aeq(d.audio@[i], y);
                    assert(aeq(y, x));
                    assert(aeq(d.audio@[i], x));
                }
            },
            _ => {},
        }
    }
}

/// Every container, audio and video codec equals itself.
pub proof fn lemma_eq_reflexive()
    ensures
        forall|c: ContainerFormat| #[trigger] ceq(c, c),
        forall|a: AudioFormat| #[trigger] aeq(a, a),
        forall|v: VideoFormat| #[trigger] veq(v, v),
{
}

/// The character sequences of a list of argument strings.
pub open spec fn views(v: Seq<String>) -> Seq<Seq<char>> {
    v.map_values(|s: String| s@)
}

/// Equality of optional video codecs.
pub open spec fn oveq(a: Option<VideoFormat>, b: Option<VideoFormat>) -> bool {
    match (a, b) {
        (Some(x), Some(y)) => veq(x, y),
        (None, None) => true,
        _ => false,
    }
}

/// Equality of optional audio codecs.
pub open spec fn oaeq(a: Option<AudioFormat>, b: Option<AudioFormat>) -> bool {
    match (a, b) {
        (Some(x), Some(y)) => aeq(x, y),
        (None, None) => true,
        _ => false,
    }
}

/// The muxer name and flags the encoder takes for a target container.
pub open spec fn spec_container_flags(c: ContainerFormat) -> Seq<Seq<char>> {
    match c {
        ContainerFormat::MKV => seq!["matroska"@],
        ContainerFormat::MPEGTS => seq!["mpegts"@],
        ContainerFormat::MOV => seq!["mov"@, "-movflags"@, "+frag_keyframe"@],
        ContainerFormat::MP4 => seq!["ismv"@, "-movflags"@, "+frag_keyframe"@],
        ContainerFormat::WEBM => seq!["webm"@],
        _ => Seq::empty(),
    }
}

/// The encoder id and flags for a target audio codec.
pub open spec fn spec_audio_flags(a: AudioFormat) -> Seq<Seq<char>> {
    match a {
        AudioFormat::AAC => seq!["aac"@],
        AudioFormat::FLAC => seq!["flac"@],
        AudioFormat::MP3 => seq!["mp3"@],
        AudioFormat::Opus => seq!["opus"@, "-strict"@, "-2"@],
        AudioFormat::Vorbis => seq!["libvorbis"@],
        _ => Seq::empty(),
    }
}

/// The encoder id and flags for a target video codec.
pub open spec fn spec_video_flags(v: VideoFormat) -> Seq<Seq<char>> {
    match v {
        VideoFormat::H264 => seq![
            "h264"@,
            "-preset"@,
            "ultrafast"@,
            "-bsf:v"@,
            "h264_mp4toannexb"@,
        ],
        VideoFormat::HEVC => seq!["libx265"@, "-preset"@, "ultrafast"@],
        VideoFormat::VP8 => seq!["vp8"@],
        _ => Seq::empty(),
    }
}

impl ContainerFormat {
    /// The muxer arguments for this container. `WAV` is excluded because
    /// the encoder writes broken files for it; `Other` is never a target.
    pub fn ffmpeg_encoder_and_flags(&self) -> (r: Vec<String>)
        requires
            !(self is WAV),
            !(self is Other),
        ensures
            views(r@) == spec_container_flags(*self),
    {
        let mut r: Vec<String> = Vec::new();
        match self {
            ContainerFormat::MKV => {
                r.push(String::from_str("matroska"));
            }
            ContainerFormat::MPEGTS => {
                r.push(String::from_str("mpegts"));
            }
            ContainerFormat::MOV => {
                r.push(String::from_str("mov"));
                r.push(String::from_str("-movflags"));
                r.push(String::from_str("+frag_keyframe"));
            }
            ContainerFormat::MP4 => {
                r.push(String::from_str("ismv"));
                r.push(String::from_str("-movflags"));
                r.push(String::from_str("+frag_keyframe"));
            }
            _ => {
                r.push(String::from_str("webm"));
            }
        }
        proof {
            assert(views(r@) =~= spec_container_flags(*self));
        }
        r
    }
}

impl AudioFormat {
    /// The encoder arguments for this audio codec; `Other` is never a target.
    pub fn ffmpeg_id(&self) -> (r: Vec<String>)
        requires
            !(self is Other),
        ensures
            views(r@) == spec_audio_flags(*self),
    {
        let mut r: Vec<String> = Vec::new();
        match self {
            AudioFormat::AAC => {
                r.push(String::from_str("aac"));
            }
            AudioFormat::FLAC => {
                r.push(String::from_str("flac"));
            }
            AudioFormat::MP3 => {
                r.push(String::from_str("mp3"));
            }
            AudioFormat::Opus => {
                r.push(String::from_str("opus"));
                r.push(String::from_str("-strict"));
                r.push(String::from_str("-2"));
            }
            _ => {
                r.push(String::from_str("libvorbis"));
            }
        }
        proof {
            assert(views(r@) =~= spec_audio_flags(*self));
        }
        r
    }
}

impl VideoFormat {
    /// The encoder arguments for this video codec; `Other` is never a target.
    pub fn ffmpeg_encoder_and_flags(&self) -> (r: Vec<String>)
        requires
            !(self is Other),
        ensures
            views(r@) == spec_video_flags(*self),
    {
        let mut r: Vec<String> = Vec::new();
        match self {
            VideoFormat::H264 => {
                r.push(String::from_str("h264"));
                r.push(String::from_str("-preset"));
                r.push(String::from_str("ultrafast"));
                r.push(String::from_str("-bsf:v"));
                r.push(String::from_str("h264_mp4toannexb"));
            }
            VideoFormat::HEVC => {
                r.push(String::from_str("libx265"));
                r.push(String::from_str("-preset"));
                r.push(String::from_str("ultrafast"));
            }
            _ => {
                r.push(String::from_str("vp8"));
            }
        }
        proof {
            assert(views(r@) =~= spec_video_flags(*self));
        }
        r
    }
}

/// A target is fit for the encoder command line: its container has a muxer
/// and any stream that is not copied verbatim has a real encoder.
pub open spec fn spec_valid_target(source: Format, target: Format) -> bool {
    &&& !(target.container is WAV)
    &&& !(target.container is Other)
    &&& match target.video {
        Some(v) => oveq(target.video, source.video) || !(v is Other),
        None => true,
    }
    &&& match target.audio {
        Some(a) => oaeq(target.audio, source.audio) || !(a is Other),
        None => true,
    }
}

/// The codec part of the encoder command line for one video stream.
pub open spec fn spec_video_part(source: Format, target: Format) -> Seq<Seq<char>> {
    match target.video {
        None => Seq::empty(),
        Some(v) => seq!["-c:v"@] + if oveq(target.video, source.video) {
            seq!["copy"@]
        } else {
            spec_video_flags(v)
        },
    }
}

/// The codec part of the encoder command line for one audio stream.
pub open spec fn spec_audio_part(source: Format, target: Format) -> Seq<Seq<char>> {
    match target.audio {
        None => Seq::empty(),
        Some(a) => seq!["-c:a"@] + if oaeq(target.audio, source.audio) {
            seq!["copy"@]
        } else {
            spec_audio_flags(a)
        },
    }
}

/// The full encoder argument list after the input arguments: codec choices
/// (a stream kept by the plan is copied, a changed one is re-encoded), the
/// muxer for the target container, and the overwrite-to-stdout tail.
pub open spec fn spec_transcode_args(source: Format, target: Format) -> Seq<Seq<char>> {
    spec_video_part(source, target) + spec_audio_part(source, target) + seq!["-f"@]
        + spec_container_flags(target.container) + seq!["-y"@, "/dev/stdout"@]
}

/// Decides whether a target is fit for the encoder command line, so the
/// surrounding process can test it before building the arguments.
pub fn is_valid_target(source: &Format, target: &Format) -> (r: bool)
    ensures
        r == spec_valid_target(*source, *target),
{
    let cok = !matches!(target.container, ContainerFormat::WAV)
        && !matches!(target.container, ContainerFormat::Other(_));
    let vok = match &target.video {
        None => true,
        Some(v) => target.video == source.video || !matches!(v, VideoFormat::Other(_)),
    };
    let aok = match &target.audio {
        None => true,
        Some(a) => target.audio == source.audio || !matches!(a, AudioFormat::Other(_)),
    };
    cok && vok && aok
}

/// A device every entry of whose allow-lists can be an encoder target:
/// no unknown codec and no container the encoder writes badly.
pub open spec fn spec_device_encodable(d: Device) -> bool {
    &&& forall|i: int|
        0 <= i < d.container@.len() ==> !((#[trigger] d.container@[i]) is WAV) && !(
        d.container@[i] is Other)
    &&& forall|i: int| 0 <= i < d.video@.len() ==> !((#[trigger] d.video@[i]) is Other)
    &&& forall|i: int| 0 <= i < d.audio@.len() ==> !((#[trigger] d.audio@[i]) is Other)
}

/// For an incompatible source and a device whose allow-lists are
/// encodable, the planned target is always fit for the encoder command
/// line: every changed component comes from the device's lists and every
/// kept one is copied.
pub proof fn lemma_plan_is_valid_target(s: Format, d: Device)
    requires
        !spec_compatible(s, d),
        spec_device_encodable(d),
    ensures
        spec_valid_target(s, spec_plan(s, d)),
{
    lemma_eq_reflexive();
    let t = spec_plan(s, d);
    assert(d.container@.len() > 0);
    if has_container(d.container@, s.container) {
        let i = choose|i: int| 0 <= i < d.container@.len() && ceq(d.container@[i], s.container);
        assert(!(d.container@[i] is WAV) && !(d.container@[i] is Other));
    }
    match s.video {
        None => {},
        Some(v) => {
            if d.video@.len() == 0 || has_video(d.video@, v) {
                assert(oveq(t.video, s.video));
            }
        },
    }
    match s.audio {
        None => {},
        Some(a) => {
            if d.audio@.len() == 0 || has_audio(d.audio@, a) {
                assert(oaeq(t.audio, s.audio));
            }
        },
    }
}

/// Builds the encoder arguments that turn `source` into `target`.
pub fn transcode_args(source: &Format, target: &Format) -> (r: Vec<String>)
    requires
        spec_valid_target(*source, *target),
    ensures
        views(r@) == spec_transcode_args(*source, *target),
{
    let mut r: Vec<String> = Vec::new();
    match &target.video {
        None => {}
        Some(v) => {
            r.push(String::from_str("-c:v"));
            if target.video == source.video {
                r.push(String::from_str("copy"));
            } else {
                let mut flags = v.ffmpeg_encoder_and_flags();
                r.append(&mut flags);
            }
        }
    }
    match &target.audio {
        None => {}
        Some(a) => {
            r.push(String::from_str("-c:a"));
            if target.audio == source.audio {
                r.push(String::from_str("copy"));
            } else {
                let mut flags = a.ffmpeg_id();
                r.append(&mut flags);
            }
        }
    }
    r.push(String::from_str("-f"));
    let mut cflags = target.container.ffmpeg_encoder_and_flags();
    r.append(&mut cflags);
    r.push(String::from_str("-y"));
    r.push(String::from_str("/dev/stdout"));
    proof {
        assert(views(r@) =~= spec_transcode_args(*source, *target));
    }
    r
}

/// The source an encoder or probe run reads: a filesystem path, or bytes
/// fed to its standard input.
pub enum Input {
    Uri(String),
    Stream,
}

/// The input part of an encoder or probe command line.
pub open spec fn spec_input_args(i: Input) -> Seq<Seq<char>> {
    match i {
        Input::Uri(p) => seq!["-i"@, p@],
        Input::Stream => seq!["-i"@, "pipe:0"@],
    }
}

/// Builds the input arguments; a byte-stream input reads from stdin.
pub fn input_args(input: &Input) -> (r: Vec<String>)
    ensures
        views(r@) == spec_input_args(*input),
{
    let mut r: Vec<String> = Vec::new();
    r.push(String::from_str("-i"));
    match input {
        Input::Uri(p) => {
            r.push(p.clone());
        }
        Input::Stream => {
            r.push(String::from_str("pipe:0"));
        }
    }
    proof {
        assert(views(r@) =~= spec_input_args(*input));
    }
    r
}

/// Character-wise equality of two string slices.
pub fn str_eq(a: &str, b: &str) -> (r: bool)
    ensures
        r == (a@ == b@),
{
    let sa = String::from_str(a);
    let sb = String::from_str(b);
    sa == sb
}

/// The pairs of (stream kind, codec name) views of a probed stream list.
pub open spec fn stream_views(s: Seq<(String, String)>) -> Seq<(Seq<char>, Seq<char>)> {
    s.map_values(|p: (String, String)| (p.0@, p.1@))
}

/// The codec name of the first stream of the given kind, if any.
pub open spec fn spec_first_codec(s: Seq<(Seq<char>, Seq<char>)>, kind: Seq<char>) -> Option<
    Seq<char>,
>
    decreases s.len(),
{
    if s.len() == 0 {
        None
    } else if s[0].0 == kind {
        Some(s[0].1)
    } else {
        spec_first_codec(s.drop_first(), kind)
    }
}

proof fn lemma_first_codec_step(s: Seq<(Seq<char>, Seq<char>)>, kind: Seq<char>, i: int)
    requires
        0 <= i < s.len(),
    ensures
        spec_first_codec(s.skip(i), kind) == if s[i].0 == kind {
            Some(s[i].1)
        } else {
            spec_first_codec(s.skip(i + 1), kind)
        },
{
    assert(s.skip(i)[0] == s[i]);
    assert(s.skip(i).drop_first() =~= s.skip(i + 1));
}

/// Finds the codec name of the first stream of the given kind.
fn first_codec(streams: &Vec<(String, String)>, kind: &str) -> (r: Option<String>)
    ensures
        match r {
            None => spec_first_codec(stream_views(streams@), kind@) is None,
            Some(c) => spec_first_codec(stream_views(streams@), kind@) == Some(c@),
        },
{
    let ghost sv = stream_views(streams@);
    proof {
        assert(sv.skip(0) =~= sv);
    }
    let mut i: usize = 0;
    while i < streams.len()
        invariant
            0 <= i <= streams@.len(),
            sv == stream_views(streams@),
            sv.len() == streams@.len(),
            forall|j: int| 0 <= j < streams@.len() ==> sv[j] == (streams@[j].0@, streams@[j].1@),
            spec_first_codec(sv, kind@) == spec_first_codec(sv.skip(i as int), kind@),
        decreases streams@.len() - i,
    {
        proof {
            lemma_first_codec_step(sv, kind@, i as int);
        }
        if str_eq(streams[i].0.as_str(), kind) {
            return Some(streams[i].1.clone());
        }
        i = i + 1;
    }
    proof {
        assert(sv.skip(i as int) =~= Seq::empty());
    }
    None
}

/// The container the probe's format name denotes; an unknown name is kept
/// under `Other`.
pub open spec fn matches_container_of_name(c: ContainerFormat, name: Seq<char>) -> bool {
    if name == "matroska"@ || name == "matroska,webm"@ {
        c is MKV
    } else if name == "mov"@ || name == "mov,mp4,m4a,3gp,3g2,mj2"@ {
        c is MOV
    } else if name == "mpegts"@ {
        c is MPEGTS
    } else if name == "wav"@ {
        c is WAV
    } else {
        c matches ContainerFormat::Other(s) && s@ == name
    }
}

/// The video codec a probed codec name denotes.
pub open spec fn matches_video_of_name(v: VideoFormat, name: Seq<char>) -> bool {
    if name == "h264"@ {
        v is H264
    } else if name == "hevc"@ {
        v is HEVC
    } else {
        v matches VideoFormat::Other(s) && s@ == name
    }
}

/// The audio codec a probed codec name denotes.
pub open spec fn matches_audio_of_name(a: AudioFormat, name: Seq<char>) -> bool {
    if name == "aac"@ {
        a is AAC
    } else {
        a matches AudioFormat::Other(s) && s@ == name
    }
}

/// Maps the probe's container name to a container.
pub fn container_from_name(name: &str) -> (r: ContainerFormat)
    ensures
        matches_container_of_name(r, name@),
{
    if str_eq(name, "matroska") || str_eq(name, "matroska,webm") {
        ContainerFormat::MKV
    } else if str_eq(name, "mov") || str_eq(name, "mov,mp4,m4a,3gp,3g2,mj2") {
        ContainerFormat::MOV
    } else if str_eq(name, "mpegts") {
        ContainerFormat::MPEGTS
    } else if str_eq(name, "wav") {
        ContainerFormat::WAV
    } else {
        ContainerFormat::Other(String::from_str(name))
    }
}

/// The format a probe run reports: the container from the format name, and
/// for each stream kind the codec of its first stream.
///
/// `format_name` and `streams` are what the probe printed, already split
/// into plain values: each stream as its (kind, codec name) pair, in the
/// probe's order.
pub fn format_from_probe(format_name: &str, streams: &Vec<(String, String)>) -> (r: Format)
    ensures
        matches_container_of_name(r.container, format_name@),
        match spec_first_codec(stream_views(streams@), "video"@) {
            None => r.video is None,
            Some(name) => r.video matches Some(v) && matches_video_of_name(v, name),
        },
        match spec_first_codec(stream_views(streams@), "audio"@) {
            None => r.audio is None,
            Some(name) => r.audio matches Some(a) && matches_audio_of_name(a, name),
        },
{
    let container = container_from_name(format_name);
    let video = match first_codec(streams, "video") {
        None => None,
        Some(name) => Some(
            if str_eq(name.as_str(), "h264") {
                VideoFormat::H264
            } else if str_eq(name.as_str(), "hevc") {
                VideoFormat::HEVC
            } else {
                VideoFormat::Other(name)
            },
        ),
    };
    let audio = match first_codec(streams, "audio") {
        None => None,
        Some(name) => Some(
            if str_eq(name.as_str(), "aac") {
                AudioFormat::AAC
            } else {
                AudioFormat::Other(name)
            },
        ),
    };
    Format { container, audio, video }
}

/// Progress of a transcode writing into a growing file: how many bytes the
/// file holds and whether the encoder has exited. The server keeps one of
/// these per in-progress file, under that file's lock.
#[derive(Clone, Copy, Debug)]
pub struct MediaProgress {
    pub size: u64,
    pub complete: bool,
}

/// Any update the monitor may apply to a progress record: after completion
/// nothing changes, and the size never shrinks.
pub open spec fn progress_step(pre: MediaProgress, post: MediaProgress) -> bool {
    &&& pre.complete ==> post == pre
    &&& post.size >= pre.size
    &&& pre.complete ==> post.complete
}

impl MediaProgress {
    /// What a reader of the body is told: the bytes written so far, and the
    /// final length once the encoder has exited.
    pub open spec fn spec_size(self) -> crate::MediaSize {
        crate::MediaSize {
            available: self.size,
            total: if self.complete {
                Some(self.size)
            } else {
                None
            },
        }
    }

    /// A fresh record: nothing written, encoder still running.
    pub fn new() -> (r: Self)
        ensures
            r.size == 0,
            !r.complete,
    {
        MediaProgress { size: 0, complete: false }
    }

    /// One monitor tick: adopts the observed file length. A shorter
    /// observation is ignored, so the size never moves backwards.
    pub fn advance_to(&mut self, observed: u64)
        requires
            !old(self).complete,
        ensures
            progress_step(*old(self), *final(self)),
            !final(self).complete,
            final(self).size == if observed >= old(self).size {
                observed
            } else {
                old(self).size
            },
    {
        if observed >= self.size {
            self.size = observed;
        }
    }

    /// The monitor's last act: adopts the final file length and marks the
    /// record complete.
    pub fn finish(&mut self, observed: u64)
        requires
            !old(self).complete,
        ensures
            progress_step(*old(self), *final(self)),
            final(self).complete,
            final(self).size == if observed >= old(self).size {
                observed
            } else {
                old(self).size
            },
    {
        if observed >= self.size {
            self.size = observed;
        }
        self.complete = true;
    }

    /// The size pair a reader observes now.
    pub fn size(&self) -> (r: crate::MediaSize)
        ensures
            r == self.spec_size(),
    {
        crate::MediaSize {
            available: self.size,
            total: if self.complete {
                Some(self.size)
            } else {
                None
            },
        }
    }
}

/// Permitted updates compose: whatever a chain of monitor ticks does is
/// itself a permitted update, so the two lemmas below speak of any two
/// observations, however far apart.
pub proof fn lemma_progress_step_transitive(a: MediaProgress, b: MediaProgress, c: MediaProgress)
    requires
        progress_step(a, b),
        progress_step(b, c),
    ensures
        progress_step(a, c),
{
}

/// Across any permitted update the available size never shrinks.
pub proof fn lemma_available_monotonic(pre: MediaProgress, post: MediaProgress)
    requires
        progress_step(pre, post),
    ensures
        post.spec_size().available >= pre.spec_size().available,
{
}

/// Once the total is known it equals the available size, and any permitted
/// update returns the same pair.
pub proof fn lemma_total_is_final(pre: MediaProgress, post: MediaProgress)
    requires
        progress_step(pre, post),
        pre.spec_size().total is Some,
    ensures
        pre.spec_size().total == Some(pre.spec_size().available),
        post.spec_size() == pre.spec_size(),
{
}

/// A reader of a possibly still-growing body: the next byte it wants and
/// the first byte it will not take.
#[derive(Clone, Copy, Debug)]
pub struct MediaStream {
    pub offset: u64,
    pub end: u64,
}

/// What a reader does after a positional read at its offset returned no
/// bytes.
#[derive(Clone, Copy, Debug, PartialEq, Eq, Structural)]
pub enum EofAction {
    /// The encoder is still running: register for a wake-up and suspend.
    Wait,
    /// Bytes are recorded beyond the offset: read once more; a second
    /// empty read is a hard error.
    Retry,
    /// The body is complete and exhausted: end of stream.
    Done,
}

impl MediaStream {
    /// A reader for the byte range `start..end`.
    pub fn new(start: u64, end: u64) -> (r: Self)
        ensures
            r.offset == start,
            r.end == end,
    {
        MediaStream { offset: start, end }
    }

    /// How many bytes the next positional read asks for: a chunk, capped by
    /// what is left of the range. Zero means the range is exhausted.
    pub fn next_read_len(&self) -> (r: usize)
        requires
            self.offset <= self.end,
        ensures
            r == if self.end - self.offset >= crate::CHUNK_SIZE {
                crate::CHUNK_SIZE as int
            } else {
                self.end - self.offset
            },
            r == 0 <==> self.offset >= self.end,
    {
        let left = self.end - self.offset;
        if left >= crate::CHUNK_SIZE as u64 {
            crate::CHUNK_SIZE
        } else {
            left as usize
        }
    }

    /// Accounts for a read that returned bytes: the reader moves past them
    /// and yields them as the next chunk.
    pub fn advance(&mut self, read_len: usize)
        requires
            read_len > 0,
            old(self).offset + read_len <= old(self).end,
        ensures
            final(self).offset == old(self).offset + read_len,
            final(self).end == old(self).end,
    {
        self.offset = self.offset + read_len as u64;
    }

    /// What an empty read means, from the producer's progress: wait while
    /// the encoder runs, retry when bytes are already recorded beyond the
    /// offset, and otherwise end of stream.
    pub open spec fn spec_eof_action(self, progress: MediaProgress) -> EofAction {
        if !progress.complete {
            EofAction::Wait
        } else if (if progress.size <= self.end {
            progress.size
        } else {
            self.end
        }) > self.offset {
            EofAction::Retry
        } else {
            EofAction::Done
        }
    }

    /// Decides what a reader does after an empty read, from the producer's
    /// progress: wait while the encoder runs, retry when bytes are already
    /// recorded beyond the offset, and otherwise end the stream.
    pub fn on_eof(&self, progress: &MediaProgress) -> (r: EofAction)
        ensures
            r == self.spec_eof_action(*progress),
    {
        if !progress.complete {
            return EofAction::Wait;
        }
        let final_size = if progress.size <= self.end {
            progress.size
        } else {
            self.end
        };
        if final_size > self.offset {
            EofAction::Retry
        } else {
            EofAction::Done
        }
    }
}

/// Once the producer is complete, a reader of `0..n` (with `n` the final
/// size) is never told to wait: while bytes are left it is told to read
/// on, and the stream ends exactly when its offset reaches `n`. Since
/// every yielded chunk advances the offset by its own length, the chunks
/// of such a reader sum to exactly `n` bytes.
pub proof fn lemma_complete_stream_ends_at_total(s: MediaStream, p: MediaProgress)
    requires
        p.complete,
        s.end == p.size,
        s.offset <= s.end,
    ensures
        s.spec_eof_action(p) != EofAction::Wait,
        s.offset < s.end ==> s.spec_eof_action(p) == EofAction::Retry,
        s.offset == s.end ==> s.spec_eof_action(p) == EofAction::Done,
{
}

} // verus!
