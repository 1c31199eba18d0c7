use rustymedia::cache::TranscodeCache;
use rustymedia::ffmpeg::{
    AudioFormat, ContainerFormat, Format, MediaProgress, MediaStream, EofAction, VideoFormat,
};
use rustymedia::CHUNK_SIZE;

fn mkv_h264_vorbis() -> Format {
    Format {
        container: ContainerFormat::MKV,
        audio: Some(AudioFormat::Vorbis),
        video: Some(VideoFormat::H264),
    }
}

#[test]
fn test_cache_hit_shares_media() {
    // Two requests for the same (id, target) share one handle: the second
    // insert returns the first token and stores nothing new.
    let mut cache: TranscodeCache<u64> = TranscodeCache::new();
    let first = cache.insert("Local/clip.mkv", mkv_h264_vorbis(), 1);
    assert_eq!(first, 1);
    let second = cache.insert("Local/clip.mkv", mkv_h264_vorbis(), 2);
    assert_eq!(second, 1);
    let d = rustymedia::devices::CHROMECAST();
    assert_eq!(cache.lookup("Local/clip.mkv", &d), Some(1));
}

#[test]
fn test_cache_miss_on_other_device() {
    let mut cache: TranscodeCache<u64> = TranscodeCache::new();
    cache.insert(
        "Local/clip.mkv",
        Format {
            container: ContainerFormat::MOV,
            audio: Some(AudioFormat::MP3),
            video: Some(VideoFormat::HEVC),
        },
        7,
    );
    // The cached MOV/HEVC target does not fit the safe profile.
    let d = rustymedia::devices::SAFE();
    assert_eq!(cache.lookup("Local/clip.mkv", &d), None);
    assert_eq!(cache.lookup("Local/other.mkv", &d), None);
}

#[test]
fn test_cache_evicts_oldest_key() {
    let mut cache: TranscodeCache<u64> = TranscodeCache::new();
    for i in 0..11u64 {
        let id = format!("Local/clip{}.mkv", i);
        cache.insert(&id, mkv_h264_vorbis(), i);
    }
    let d = rustymedia::devices::CHROMECAST();
    // The first id was the least recently used of ten and is gone.
    assert_eq!(cache.lookup("Local/clip0.mkv", &d), None);
    assert_eq!(cache.lookup("Local/clip10.mkv", &d), Some(10));
    assert_eq!(cache.lookup("Local/clip1.mkv", &d), Some(1));
}

#[test]
fn test_cache_eviction_respects_recency() {
    let mut cache: TranscodeCache<u64> = TranscodeCache::new();
    cache.insert("Local/a.mkv", mkv_h264_vorbis(), 100);
    cache.insert("Local/b.mkv", mkv_h264_vorbis(), 101);
    let d = rustymedia::devices::CHROMECAST();
    // Touching `a` makes `b` the least recently used.
    assert_eq!(cache.lookup("Local/a.mkv", &d), Some(100));
    for i in 0..8u64 {
        let id = format!("Local/c{}.mkv", i);
        cache.insert(&id, mkv_h264_vorbis(), i);
    }
    // The eleventh key evicts `b`, not the recently used `a`.
    cache.insert("Local/last.mkv", mkv_h264_vorbis(), 200);
    assert_eq!(cache.lookup("Local/b.mkv", &d), None);
    assert_eq!(cache.lookup("Local/a.mkv", &d), Some(100));
    assert_eq!(cache.lookup("Local/last.mkv", &d), Some(200));
}

#[test]
fn test_cache_tokens_track_contents() {
    let mut cache: TranscodeCache<u64> = TranscodeCache::new();
    cache.insert("Local/a.mkv", mkv_h264_vorbis(), 1);
    cache.insert("Local/b.mkv", mkv_h264_vorbis(), 2);
    let mut tokens = cache.tokens();
    tokens.sort();
    assert_eq!(tokens, vec![1, 2]);
    for i in 10..19u64 {
        let id = format!("Local/c{}.mkv", i);
        cache.insert(&id, mkv_h264_vorbis(), i);
    }
    // `a` was evicted: its token is gone from the cache.
    assert!(!cache.tokens().contains(&1));
    assert!(cache.tokens().contains(&2));
}

#[test]
fn test_progress_monotonic_and_final() {
    let mut p = MediaProgress::new();
    assert_eq!(p.size().available, 0);
    assert_eq!(p.size().total, None);
    p.advance_to(100);
    assert_eq!(p.size().available, 100);
    // An observation that shrank is ignored: availability never drops.
    p.advance_to(40);
    assert_eq!(p.size().available, 100);
    p.advance_to(250);
    assert_eq!(p.size().available, 250);
    p.finish(300);
    assert_eq!(p.size().available, 300);
    assert_eq!(p.size().total, Some(300));
    // Every subsequent observation returns the same pair.
    assert_eq!(p.size(), p.size());
}

#[test]
fn test_stream_reads_whole_completed_body() {
    // Once total == Some(n), a reader of 0..n takes exactly n bytes.
    let mut p = MediaProgress::new();
    p.finish(CHUNK_SIZE as u64 * 2 + 100);
    let n = p.size().total.unwrap();
    let mut s = MediaStream::new(0, n);
    let mut yielded: u64 = 0;
    loop {
        let want = s.next_read_len();
        if want == 0 {
            break;
        }
        // The body is complete, so the file holds every byte: a positional
        // read returns the full chunk.
        s.advance(want);
        yielded += want as u64;
    }
    assert_eq!(yielded, n);
    assert_eq!(s.on_eof(&p), EofAction::Done);
}

#[test]
fn test_stream_waits_then_retries() {
    let mut p = MediaProgress::new();
    let s = MediaStream::new(0, u64::MAX);
    // Nothing written and still running: an empty read suspends.
    assert_eq!(s.on_eof(&p), EofAction::Wait);
    p.advance_to(10);
    assert_eq!(s.on_eof(&p), EofAction::Wait);
    p.finish(10);
    // Complete with bytes beyond the offset: read once more.
    assert_eq!(s.on_eof(&p), EofAction::Retry);
    let done = MediaStream::new(10, u64::MAX);
    assert_eq!(done.on_eof(&p), EofAction::Done);
}
