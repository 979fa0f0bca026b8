use tmus::audio::{
    decode_failure_message, ffmpeg_exe_name, ffmpeg_search_order, is_audio_extension,
    is_audio_path, parse_wav16_stereo, wave_frame, wave_window, window_start, PlayData, PlayState,
};
use std::sync::Arc;

#[test]
fn audio_paths() {
    assert!(is_audio_path("/music/a.MP3"));
    assert!(is_audio_path("song.flac"));
    assert!(is_audio_path("dir/x.Mp4"));
    assert!(is_audio_path("a/b.c.opus"));
    assert!(is_audio_path("/a/b.ogg/"));
    assert!(!is_audio_path(".mp3"));
    assert!(!is_audio_path("a.txt"));
    assert!(!is_audio_path("noext"));
    assert!(!is_audio_path("a.mp3/.."));
    assert!(!is_audio_path("a."));
    assert!(is_audio_extension("mka"));
    assert!(!is_audio_extension("MKA"));
}

#[test]
fn ffmpeg_names_and_order() {
    assert_eq!(ffmpeg_exe_name(true), "ffmpeg.exe");
    assert_eq!(ffmpeg_exe_name(false), "ffmpeg");
    let order = ffmpeg_search_order(Some("/env/ffmpeg".into()), None);
    assert_eq!(
        order,
        vec![
            "/env/ffmpeg",
            "/opt/homebrew/bin/ffmpeg",
            "/usr/local/bin/ffmpeg",
            "/opt/local/bin/ffmpeg",
            "/usr/bin/ffmpeg"
        ]
    );
    let order = ffmpeg_search_order(Some("e".into()), Some("x".into()));
    assert_eq!(&order[..2], &["e".to_string(), "x".to_string()]);
    assert_eq!(ffmpeg_search_order(None, None).len(), 4);
}

#[test]
fn decode_failure_messages() {
    assert_eq!(
        decode_failure_message("warning\nError opening input\n\n"),
        "ffmpeg 解码失败：Error opening input"
    );
    assert_eq!(decode_failure_message("  \n "), "ffmpeg 解码失败：未知错误");
    assert_eq!(decode_failure_message("one line"), "ffmpeg 解码失败：one line");
}

fn chunk(id: &[u8; 4], body: &[u8]) -> Vec<u8> {
    let mut v = id.to_vec();
    v.extend_from_slice(&(body.len() as u32).to_le_bytes());
    v.extend_from_slice(body);
    if body.len() % 2 == 1 {
        v.push(0);
    }
    v
}

fn fmt_body(format: u16, channels: u16, bits: u16) -> Vec<u8> {
    let mut b = Vec::new();
    b.extend_from_slice(&format.to_le_bytes());
    b.extend_from_slice(&channels.to_le_bytes());
    b.extend_from_slice(&44100u32.to_le_bytes());
    b.extend_from_slice(&(44100u32 * 4).to_le_bytes());
    b.extend_from_slice(&4u16.to_le_bytes());
    b.extend_from_slice(&bits.to_le_bytes());
    b
}

fn wav(chunks: &[Vec<u8>]) -> Vec<u8> {
    let mut body: Vec<u8> = b"WAVE".to_vec();
    for c in chunks {
        body.extend_from_slice(c);
    }
    let mut v = b"RIFF".to_vec();
    v.extend_from_slice(&(body.len() as u32).to_le_bytes());
    v.extend_from_slice(&body);
    v
}

fn pcm(samples: &[i16]) -> Vec<u8> {
    samples.iter().flat_map(|s| s.to_le_bytes()).collect()
}

#[test]
fn wav_pcm_stereo() {
    let samples = [0i16, -1, 32767, -32768, 1234, -4321];
    let bytes = wav(&[chunk(b"fmt ", &fmt_body(1, 2, 16)), chunk(b"data", &pcm(&samples))]);
    assert_eq!(parse_wav16_stereo(&bytes), Ok(samples.to_vec()));
}

#[test]
fn wav_skips_other_chunks_and_padding() {
    let samples = [7i16, 8, 9, 10];
    let bytes = wav(&[
        chunk(b"LIST", b"abc"),
        chunk(b"fmt ", &fmt_body(1, 2, 16)),
        chunk(b"junk", &[1, 2, 3, 4, 5]),
        chunk(b"data", &pcm(&samples)),
    ]);
    assert_eq!(parse_wav16_stereo(&bytes), Ok(samples.to_vec()));
}

#[test]
fn wav_extensible_pcm() {
    let mut f = fmt_body(0xfffe, 2, 16);
    f.extend_from_slice(&22u16.to_le_bytes());
    f.extend_from_slice(&16u16.to_le_bytes());
    f.extend_from_slice(&3u32.to_le_bytes());
    f.extend_from_slice(&1u16.to_le_bytes());
    f.extend_from_slice(&[0u8; 14]);
    assert_eq!(f.len(), 40);
    let bytes = wav(&[chunk(b"fmt ", &f), chunk(b"data", &pcm(&[5, 6]))]);
    assert_eq!(parse_wav16_stereo(&bytes), Ok(vec![5, 6]));
}

#[test]
fn wav_errors() {
    assert_eq!(parse_wav16_stereo(b"RIFF"), Err("ffmpeg 输出不是合法 WAV".to_string()));
    let mut not_wave = wav(&[chunk(b"fmt ", &fmt_body(1, 2, 16)), chunk(b"data", &pcm(&[1, 2, 3, 4]))]);
    not_wave[8] = b'X';
    assert_eq!(parse_wav16_stereo(&not_wave), Err("ffmpeg 输出不是合法 WAV".to_string()));
    let float = wav(&[chunk(b"fmt ", &fmt_body(3, 2, 32)), chunk(b"data", &pcm(&[1, 2, 3, 4]))]);
    assert_eq!(parse_wav16_stereo(&float), Err("ffmpeg 输出非 PCM（format=3）".to_string()));
    let mono = wav(&[chunk(b"fmt ", &fmt_body(1, 1, 16)), chunk(b"data", &pcm(&[1, 2, 3, 4]))]);
    assert_eq!(
        parse_wav16_stereo(&mono),
        Err("预期立体声16bit，实际 1ch/16bit（请检查 ffmpeg 参数）".to_string())
    );
    let no_fmt = wav(&[chunk(b"data", &pcm(&[1, 2, 3, 4, 5, 6, 7, 8, 9, 10, 11, 12]))]);
    assert_eq!(parse_wav16_stereo(&no_fmt), Err("ffmpeg 输出非 PCM（format=0）".to_string()));
}

#[test]
fn wav_without_data_is_empty() {
    let bytes = wav(&[chunk(b"fmt ", &fmt_body(1, 2, 16)), chunk(b"LIST", &[0u8; 20])]);
    assert_eq!(parse_wav16_stereo(&bytes), Ok(vec![]));
}

#[test]
fn play_data_from_samples() {
    assert_eq!(PlayData::from_samples(vec![]).err(), Some("解码结果为空".to_string()));
    assert!(PlayData::from_samples(vec![1]).is_err());
    let d = PlayData::from_samples(vec![1, 2, 3, 4, 5]).ok().unwrap();
    assert_eq!(d.frames, 2);
    assert_eq!(*d.samples, vec![1, 2, 3, 4, 5]);
}

fn loaded(samples: Vec<i16>) -> PlayState {
    let mut s = PlayState::new();
    let d = PlayData::from_samples(samples).ok().unwrap();
    s.play(d, "/m/a.mp3".to_string());
    s
}

#[test]
fn playback_plays_frames_in_order_and_stops() {
    let mut s = loaded(vec![1, 2, 3, 4, 5, 6]);
    assert_eq!(s.snapshot(), ("/m/a.mp3".to_string(), true, 0, 3));
    assert_eq!(s.next_frame(), Some((1, 2)));
    assert_eq!(s.next_frame(), Some((3, 4)));
    assert_eq!(s.next_frame(), Some((5, 6)));
    assert!(!s.playing);
    assert_eq!(s.pos, 3);
    assert_eq!(s.next_frame(), None);
    // Resuming a finished track plays it from the start.
    assert!(s.toggle());
    assert_eq!(s.pos, 0);
    assert_eq!(s.next_frame(), Some((1, 2)));
}

#[test]
fn playback_pause_resume_stop() {
    let mut s = loaded(vec![1, 2, 3, 4, 5, 6, 7, 8]);
    s.next_frame();
    assert!(!s.toggle());
    assert_eq!(s.next_frame(), None);
    assert_eq!(s.pos, 1);
    assert!(s.toggle());
    assert_eq!(s.next_frame(), Some((3, 4)));
    s.stop();
    assert_eq!((s.pos, s.playing), (0, false));
    let mut empty = PlayState::new();
    assert!(!empty.toggle());
    assert!(empty.viz_frame().is_none());
}

#[test]
fn playback_seek_clamps() {
    let mut s = loaded((0..200).collect());
    s.seek_frames(30);
    assert_eq!((s.pos, s.playing), (30, true));
    s.seek_frames(-50);
    assert_eq!((s.pos, s.playing), (0, true));
    s.seek_frames(1000);
    assert_eq!((s.pos, s.playing), (99, false));
    s.seek_frames(-10);
    assert_eq!((s.pos, s.playing), (89, true));
    s.seek_frames(i64::MIN);
    assert_eq!(s.pos, 0);
    let (samples, pos) = s.viz_frame().unwrap();
    assert_eq!(pos, 0);
    assert_eq!(samples.len(), 200);
    assert!(Arc::ptr_eq(&samples, &s.samples));
}

#[test]
fn analysis_window() {
    assert_eq!(window_start(10000, 5000, 2048), 2952);
    assert_eq!(window_start(10000, 100, 2048), 0);
    assert_eq!(window_start(10000, 9999, 2048), 7951);
    assert_eq!(window_start(3000, 2999, 2048), 951);
    assert_eq!(window_start(2048, 5000, 2048), 0);
}

#[test]
fn waveform_window_and_columns() {
    assert_eq!(wave_window(48000, 100000), 4000);
    assert_eq!(wave_window(48000, 1000), 1000);
    assert_eq!(wave_window(600, 1000), 64);
    assert_eq!(wave_frame(10, 4000, 0, 80), 10);
    assert_eq!(wave_frame(10, 4000, 79, 80), 10 + 79 * 3999 / 80);
    assert_eq!(wave_frame(0, 64, 40, 80), 40 * 63 / 80);
}
