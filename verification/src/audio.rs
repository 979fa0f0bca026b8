//! The audio core: which files are audio, where ffmpeg is looked for, the
//! 16-bit stereo WAV that ffmpeg writes, and the playback state that the
//! output stream and the interface share.
//!
//! Running ffmpeg, reading its output file and driving the sound device are
//! left to the caller; this module decides everything in between.
use vstd::prelude::*;

use std::sync::Arc;

use crate::text::{
    ascii_lowercase, chars_of, decimal, owned, push_decimal, same_text, string_of,
    string_of_range, text_option, to_ascii_lowercase, trim, trim_bounds,
};

verus! {

// ---------------------------------------------------------------------------
// Audio files
// ---------------------------------------------------------------------------

/// The file extensions that the player lists, in lower case.
pub open spec fn audio_extensions() -> Seq<Seq<char>> {
    seq![
        "mp3"@, "flac"@, "wav"@, "m4a"@, "aac"@, "aiff"@, "aif"@, "ogg"@, "oga"@, "opus"@,
        "mp4"@, "wma"@, "ape"@, "mka"@,
    ]
}

/// The listed extensions are exactly these fourteen, each once.
pub proof fn lemma_audio_extensions()
    ensures
        audio_extensions().len() == 14,
        audio_extensions().contains("mp3"@),
        audio_extensions().contains("flac"@),
        audio_extensions().contains("wav"@),
        audio_extensions().contains("m4a"@),
        audio_extensions().contains("aac"@),
        audio_extensions().contains("aiff"@),
        audio_extensions().contains("aif"@),
        audio_extensions().contains("ogg"@),
        audio_extensions().contains("oga"@),
        audio_extensions().contains("opus"@),
        audio_extensions().contains("mp4"@),
        audio_extensions().contains("wma"@),
        audio_extensions().contains("ape"@),
        audio_extensions().contains("mka"@),
{
    let l = audio_extensions();
    assert(l[0] == "mp3"@);
    assert(l[1] == "flac"@);
    assert(l[2] == "wav"@);
    assert(l[3] == "m4a"@);
    assert(l[4] == "aac"@);
    assert(l[5] == "aiff"@);
    assert(l[6] == "aif"@);
    assert(l[7] == "ogg"@);
    assert(l[8] == "oga"@);
    assert(l[9] == "opus"@);
    assert(l[10] == "mp4"@);
    assert(l[11] == "wma"@);
    assert(l[12] == "ape"@);
    assert(l[13] == "mka"@);
}

/// Whether `e` is one of the listed extensions (compared as written).
pub fn is_audio_extension(e: &str) -> (r: bool)
    ensures
        r == audio_extensions().contains(e@),
{
    let r = same_text(e, "mp3") || same_text(e, "flac") || same_text(e, "wav") || same_text(
        e,
        "m4a",
    ) || same_text(e, "aac") || same_text(e, "aiff") || same_text(e, "aif") || same_text(e, "ogg")
        || same_text(e, "oga") || same_text(e, "opus") || same_text(e, "mp4") || same_text(e, "wma")
        || same_text(e, "ape") || same_text(e, "mka");
    proof {
        let l = audio_extensions();
        if r {
            if e@ == "mp3"@ {
                assert(l[0] == e@);
            } else if e@ == "flac"@ {
                assert(l[1] == e@);
            } else if e@ == "wav"@ {
                assert(l[2] == e@);
            } else if e@ == "m4a"@ {
                assert(l[3] == e@);
            } else if e@ == "aac"@ {
                assert(l[4] == e@);
            } else if e@ == "aiff"@ {
                assert(l[5] == e@);
            } else if e@ == "aif"@ {
                assert(l[6] == e@);
            } else if e@ == "ogg"@ {
                assert(l[7] == e@);
            } else if e@ == "oga"@ {
                assert(l[8] == e@);
            } else if e@ == "opus"@ {
                assert(l[9] == e@);
            } else if e@ == "mp4"@ {
                assert(l[10] == e@);
            } else if e@ == "wma"@ {
                assert(l[11] == e@);
            } else if e@ == "ape"@ {
                assert(l[12] == e@);
            } else {
                assert(l[13] == e@);
            }
        }
    }
    r
}

/// The final component of the path `p` as `std::path::Path::file_name`
/// finds it: none for a path that ends in `..` or has no normal component.
pub uninterp spec fn path_file_name_of(p: Seq<char>) -> Option<Seq<char>>;

/// `Path::new(p).file_name()`, as text.  The contract names the result; it
/// does not write out how `std` splits a path into components.
#[verifier::external_body]
pub(crate) fn path_file_name(p: &str) -> (r: Option<String>)
    ensures
        match r {
            Some(n) => path_file_name_of(p@) == Some(n@),
            None => path_file_name_of(p@) is None,
        },
{
    match std::path::Path::new(p).file_name() {
        Some(n) => Some(n.to_string_lossy().into_owned()),
        None => None,
    }
}

/// Whether the paths `a` and `b`, of different text, are equal as
/// `std::path::Path` compares paths: component by component, so that
/// `/m//b.mp3` and `/m/b.mp3` are the same path.
pub uninterp spec fn path_eq_of(a: Seq<char>, b: Seq<char>) -> bool;

/// Path equality over texts: the same text, or texts that `std` reads as
/// the same path.
pub open spec fn same_path(a: Seq<char>, b: Seq<char>) -> bool {
    a == b || path_eq_of(a, b)
}

/// `Path::new(a) == Path::new(b)`.  `Path` implements `Eq`, so equal texts
/// are equal paths; for other texts the contract names the result and does
/// not write out how `std` splits and compares components.
#[verifier::external_body]
pub(crate) fn paths_equal(a: &str, b: &str) -> (r: bool)
    ensures
        r == (a@ == b@ || path_eq_of(a@, b@)),
{
    std::path::Path::new(a) == std::path::Path::new(b)
}

/// The index of the last `c` in `s`, or -1.
pub open spec fn last_index_of(s: Seq<char>, c: char) -> int
    decreases s.len(),
{
    if s.len() == 0 {
        -1
    } else if s.last() == c {
        s.len() - 1
    } else {
        last_index_of(s.drop_last(), c)
    }
}

/// The extension of the file name `f`, as `Path::extension` defines it:
/// the part after the final `'.'`; none where there is no `'.'` or the only
/// one begins the name.
pub open spec fn file_extension(f: Seq<char>) -> Option<Seq<char>> {
    let i = last_index_of(f, '.');
    if i <= 0 {
        None
    } else {
        Some(f.skip(i + 1))
    }
}

/// Whether the path names an audio file: its file name has an extension
/// that, lower-cased in ASCII, is one of the listed ones.
pub open spec fn is_audio_path_spec(p: Seq<char>) -> bool {
    match path_file_name_of(p) {
        Some(f) => match file_extension(f) {
            Some(e) => audio_extensions().contains(ascii_lowercase(e)),
            None => false,
        },
        None => false,
    }
}

/// Finds the last `c` in `cs`.
pub fn find_last(cs: &Vec<char>, c: char) -> (r: Option<usize>)
    ensures
        match r {
            Some(i) => i < cs.len() && last_index_of(cs@, c) == i,
            None => last_index_of(cs@, c) == -1,
        },
{
    let mut k = cs.len();
    assert(cs@.take(k as int) == cs@);
    while k > 0
        invariant
            k <= cs.len(),
            last_index_of(cs@, c) == last_index_of(cs@.take(k as int), c),
        decreases k,
    {
        assert(cs@.take(k as int).last() == cs@[k - 1]);
        assert(cs@.take(k as int).drop_last() == cs@.take(k - 1));
        if cs[k - 1] == c {
            return Some(k - 1);
        }
        k = k - 1;
    }
    None
}

/// Whether the path names an audio file (`is_audio_path` on the path's
/// text).
pub fn is_audio_path(p: &str) -> (r: bool)
    ensures
        r == is_audio_path_spec(p@),
{
    match path_file_name(p) {
        None => false,
        Some(f) => {
            let cs = chars_of(f.as_str());
            match find_last(&cs, '.') {
                None => false,
                Some(i) => {
                    if i == 0 {
                        return false;
                    }
                    let ext = string_of_range(&cs, i + 1, cs.len());
                    let ext_chars = chars_of(ext.as_str());
                    let lower = to_ascii_lowercase(&ext_chars);
                    let lower_text = string_of(&lower);
                    assert(ext@ == f@.skip(i + 1));
                    is_audio_extension(lower_text.as_str())
                },
            }
        },
    }
}

// ---------------------------------------------------------------------------
// Locating ffmpeg
// ---------------------------------------------------------------------------

/// The name of the ffmpeg executable on the given platform.
pub fn ffmpeg_exe_name(windows: bool) -> (r: &'static str)
    ensures
        r@ == (if windows {
            "ffmpeg.exe"@
        } else {
            "ffmpeg"@
        }),
{
    if windows {
        "ffmpeg.exe"
    } else {
        "ffmpeg"
    }
}

/// The usual install places of ffmpeg, tried last.
pub open spec fn ffmpeg_install_places() -> Seq<Seq<char>> {
    seq![
        "/opt/homebrew/bin/ffmpeg"@,
        "/usr/local/bin/ffmpeg"@,
        "/opt/local/bin/ffmpeg"@,
        "/usr/bin/ffmpeg"@,
    ]
}

/// The order in which ffmpeg is looked for: the path that the environment
/// names, then the file beside the player's executable, then the usual
/// install places.
pub open spec fn ffmpeg_search_order_spec(
    from_env: Option<Seq<char>>,
    beside_exe: Option<Seq<char>>,
) -> Seq<Seq<char>> {
    let a: Seq<Seq<char>> = match from_env {
        Some(p) => seq![p],
        None => seq![],
    };
    let b: Seq<Seq<char>> = match beside_exe {
        Some(p) => seq![p],
        None => seq![],
    };
    a + b + ffmpeg_install_places()
}

/// Every candidate given is tried, each on its own: the path that the
/// environment names first, then the file beside the executable (whether
/// or not the environment names one), then the four install places.
pub proof fn lemma_ffmpeg_search_order(from_env: Option<Seq<char>>, beside_exe: Option<Seq<char>>)
    ensures
        ({
            let r = ffmpeg_search_order_spec(from_env, beside_exe);
            let e: int = if from_env is Some { 1 } else { 0 };
            let b: int = if beside_exe is Some { 1 } else { 0 };
            &&& r.len() == e + b + 4
            &&& from_env matches Some(p) ==> r[0] == p
            &&& beside_exe matches Some(p) ==> r[e] == p
            &&& r[e + b] == "/opt/homebrew/bin/ffmpeg"@
            &&& r[e + b + 1] == "/usr/local/bin/ffmpeg"@
            &&& r[e + b + 2] == "/opt/local/bin/ffmpeg"@
            &&& r[e + b + 3] == "/usr/bin/ffmpeg"@
        }),
{
}

/// The candidate paths of ffmpeg, in the order they are tried; the caller
/// takes the first that is a file, and falls back to `ffmpeg` on the
/// search path.
pub fn ffmpeg_search_order(from_env: Option<String>, beside_exe: Option<String>) -> (r: Vec<String>)
    ensures
        r@.map_values(|s: String| s@) == ffmpeg_search_order_spec(
            text_option(from_env),
            text_option(beside_exe),
        ),
{
    let mut r: Vec<String> = Vec::new();
    let ghost fe = text_option(from_env);
    let ghost be = text_option(beside_exe);
    if let Some(p) = from_env {
        r.push(p);
    }
    if let Some(p) = beside_exe {
        r.push(p);
    }
    let ghost k = r@.len();
    r.push(owned("/opt/homebrew/bin/ffmpeg"));
    r.push(owned("/usr/local/bin/ffmpeg"));
    r.push(owned("/opt/local/bin/ffmpeg"));
    r.push(owned("/usr/bin/ffmpeg"));
    assert(r@.map_values(|s: String| s@) =~= ffmpeg_search_order_spec(fe, be));
    r
}

/// The message for a failed ffmpeg run: the last line of its trimmed error
/// output, or a fixed text where there is none.
pub open spec fn decode_failure_text(stderr: Seq<char>) -> Seq<char> {
    let t = trim(stderr);
    "ffmpeg 解码失败："@ + if t.len() == 0 {
        "未知错误"@
    } else {
        t.skip(last_index_of(t, '\n') + 1)
    }
}

/// The message for a failed ffmpeg run, from its error output.  Trimming
/// leaves no line break at either end, so the last of `lines()` is what
/// follows the last line feed.
pub fn decode_failure_message(stderr: &str) -> (r: String)
    ensures
        r@ == decode_failure_text(stderr@),
{
    let cs = chars_of(stderr);
    let (lo, hi) = trim_bounds(&cs);
    let t = string_of_range(&cs, lo, hi);
    let tc = chars_of(t.as_str());
    let mut r = owned("ffmpeg 解码失败：");
    if tc.len() == 0 {
        r.append("未知错误");
    } else {
        let start = match find_last(&tc, '\n') {
            Some(i) => i + 1,
            None => 0,
        };
        let last = string_of_range(&tc, start, tc.len());
        r.append(last.as_str());
    }
    r
}

// ---------------------------------------------------------------------------
// Decoded sound
// ---------------------------------------------------------------------------

/// A whole track, decoded to interleaved stereo 16-bit samples at the
/// device's rate.
pub struct PlayData {
    pub samples: Arc<Vec<i16>>,
    pub frames: usize,
}

impl PlayData {
    /// The frame count is the number of whole stereo pairs, and there is at
    /// least one.
    pub open spec fn wf(&self) -> bool {
        &&& self.frames == self.samples@.len() / 2
        &&& self.frames > 0
    }

    /// A track from its decoded samples; empty output is an error.
    pub fn from_samples(samples: Vec<i16>) -> (r: Result<PlayData, String>)
        ensures
            match r {
                Ok(d) => d.wf() && d.samples@ == samples@ && samples@.len() >= 2,
                Err(e) => samples@.len() < 2 && e@ == "解码结果为空"@,
            },
    {
        let frames = samples.len() / 2;
        if frames == 0 {
            return Err(owned("解码结果为空"));
        }
        Ok(PlayData { samples: Arc::new(samples), frames })
    }
}

/// The little-endian 16-bit value at `i`.
pub open spec fn le16(b: Seq<u8>, i: int) -> nat {
    (b[i] + 256 * b[i + 1]) as nat
}

/// The little-endian 32-bit value at `i`.
pub open spec fn le32(b: Seq<u8>, i: int) -> nat {
    (b[i] + 256 * b[i + 1] + 65536 * b[i + 2] + 16777216 * b[i + 3]) as nat
}

/// The little-endian bytes of a 32-bit value read back as that value: all
/// four bytes count, the last one most.
pub proof fn lemma_le32_reads_back(b: Seq<u8>, i: int, x: u32)
    requires
        0 <= i,
        i + 3 < b.len(),
        b[i] == x % 256,
        b[i + 1] == (x / 256) % 256,
        b[i + 2] == (x / 65536) % 256,
        b[i + 3] == x / 16777216,
    ensures
        le32(b, i) == x,
{
}

/// The little-endian bytes of a 16-bit value read back as that value.
pub proof fn lemma_le16_reads_back(b: Seq<u8>, i: int, x: u16)
    requires
        0 <= i,
        i + 1 < b.len(),
        b[i] == x % 256,
        b[i + 1] == x / 256,
    ensures
        le16(b, i) == x,
{
}

/// What the chunk walk of a WAV file has found so far.
pub struct WavFacts {
    pub format: nat,
    pub channels: nat,
    pub bits: nat,
    pub data_off: nat,
    pub data_size: nat,
}

/// Nothing found yet.
pub open spec fn no_wav_facts() -> WavFacts {
    WavFacts { format: 0, channels: 0, bits: 0, data_off: 0, data_size: 0 }
}

/// Whether the four bytes at `i` are `a b c d`.
pub open spec fn tag_at(b: Seq<u8>, i: int, a: u8, c1: u8, c2: u8, c3: u8) -> bool {
    b[i] == a && b[i + 1] == c1 && b[i + 2] == c2 && b[i + 3] == c3
}

/// What a `fmt ` chunk of `size` bytes at `body` says: the format, channel
/// count and sample width, where the chunk holds at least 16 bytes; an
/// extensible format whose sub-format is PCM counts as PCM.
pub open spec fn fmt_facts(b: Seq<u8>, body: int, size: nat, f: WavFacts) -> WavFacts {
    if size >= 16 {
        let format = le16(b, body);
        let format = if format == 0xfffe && size >= 40 && le16(b, body + 24) == 1 {
            1
        } else {
            format
        };
        WavFacts { format: format, channels: le16(b, body + 2), bits: le16(b, body + 14), ..f }
    } else {
        f
    }
}

/// The walk over the chunks from `off`: each chunk is an id, a 32-bit size
/// and a body padded to even length; it stops at the first `data` chunk, at
/// a chunk that runs past the end, or where no chunk header fits.
pub open spec fn wav_walk(b: Seq<u8>, off: nat, f: WavFacts) -> WavFacts
    decreases b.len() - off,
{
    if off + 8 <= b.len() {
        let size = le32(b, off + 4 as int);
        let body = off + 8;
        if body + size > b.len() {
            f
        } else if tag_at(b, off as int, 0x64, 0x61, 0x74, 0x61) {
            WavFacts { data_off: body, data_size: size, ..f }
        } else {
            let f2 = if tag_at(b, off as int, 0x66, 0x6d, 0x74, 0x20) {
                fmt_facts(b, body as int, size, f)
            } else {
                f
            };
            let next = body + size + size % 2;
            if next <= b.len() {
                wav_walk(b, next, f2)
            } else {
                f2
            }
        }
    } else {
        f
    }
}

/// The sample whose little-endian bytes are `lo` and `hi`.
pub open spec fn sample_of(lo: u8, hi: u8) -> i16 {
    (if hi < 128 {
        hi * 256 + lo
    } else {
        (hi - 256) * 256 + lo
    }) as i16
}

/// The samples of `d`, two bytes each (a trailing odd byte is dropped).
pub open spec fn samples_of(d: Seq<u8>) -> Seq<i16> {
    Seq::new(d.len() / 2, |k: int| sample_of(d[2 * k], d[2 * k + 1]))
}

/// The largest amount of sample data accepted, about ninety minutes.
pub const MAX_DATA_BYTES: usize = 480_000_000;

/// What reading ffmpeg's output gives: the samples of a PCM, stereo,
/// 16-bit RIFF/WAVE file, or the reason it is refused.
pub open spec fn wav_samples(b: Seq<u8>) -> Result<Seq<i16>, Seq<char>> {
    if b.len() < 44 || !tag_at(b, 0, 0x52, 0x49, 0x46, 0x46) || !tag_at(b, 8, 0x57, 0x41, 0x56, 0x45) {
        Err("ffmpeg 输出不是合法 WAV"@)
    } else {
        let f = wav_walk(b, 12, no_wav_facts());
        if f.format != 1 {
            Err("ffmpeg 输出非 PCM（format="@ + decimal(f.format) + "）"@)
        } else if f.channels != 2 || f.bits != 16 {
            Err(
                "预期立体声16bit，实际 "@ + decimal(f.channels) + "ch/"@ + decimal(f.bits)
                    + "bit（请检查 ffmpeg 参数）"@,
            )
        } else {
            let end = if f.data_off + f.data_size < b.len() {
                f.data_off + f.data_size
            } else {
                b.len() as nat
            };
            let d = b.subrange(f.data_off as int, end as int);
            if d.len() > MAX_DATA_BYTES {
                Err("解码后数据过大（>约90分钟），当前 TUI 版本暂不支持"@)
            } else {
                Ok(samples_of(d))
            }
        }
    }
}

/// The little-endian 16-bit value at `i`.
fn read_le16(b: &[u8], i: usize) -> (r: u16)
    requires
        i + 1 < b@.len(),
    ensures
        r == le16(b@, i as int),
{
    (b[i] as u16) + (b[i + 1] as u16) * 256
}

/// The little-endian 32-bit value at `i`.
fn read_le32(b: &[u8], i: usize) -> (r: u32)
    requires
        i + 3 < b@.len(),
    ensures
        r == le32(b@, i as int),
{
    (b[i] as u32) + (b[i + 1] as u32) * 256 + (b[i + 2] as u32) * 65536 + (b[i + 3] as u32)
        * 16777216
}

/// Whether the four bytes at `i` are the given tag.
fn has_tag(b: &[u8], i: usize, a: u8, c1: u8, c2: u8, c3: u8) -> (r: bool)
    requires
        i + 3 < b@.len(),
    ensures
        r == tag_at(b@, i as int, a, c1, c2, c3),
{
    b[i] == a && b[i + 1] == c1 && b[i + 2] == c2 && b[i + 3] == c3
}

/// The sample whose little-endian bytes are `lo` and `hi`.
fn to_sample(lo: u8, hi: u8) -> (r: i16)
    ensures
        r == sample_of(lo, hi),
{
    if hi < 128 {
        (hi as i16) * 256 + (lo as i16)
    } else {
        ((hi as i16) - 256) * 256 + (lo as i16)
    }
}

/// Reads the interleaved samples of a 16-bit stereo PCM WAV file (format 1,
/// or the extensible format with a PCM sub-format).
pub fn parse_wav16_stereo(bytes: &[u8]) -> (r: Result<Vec<i16>, String>)
    ensures
        match r {
            Ok(v) => wav_samples(bytes@) == Ok::<Seq<i16>, Seq<char>>(v@),
            Err(e) => wav_samples(bytes@) == Err::<Seq<i16>, Seq<char>>(e@),
        },
{
    let n = bytes.len();
    if n < 44 || !has_tag(bytes, 0, 0x52, 0x49, 0x46, 0x46) || !has_tag(
        bytes,
        8,
        0x57,
        0x41,
        0x56,
        0x45,
    ) {
        return Err(owned("ffmpeg 输出不是合法 WAV"));
    }
    let mut audio_format: u16 = 0;
    let mut channels: u16 = 0;
    let mut bits: u16 = 0;
    let mut data_off: usize = 0;
    let mut data_size: u32 = 0;
    let mut off: usize = 12;
    let ghost b = bytes@;
    loop
        invariant
            n == b.len() == bytes@.len(),
            b == bytes@,
            n >= 44,
            off <= n + 1,
            data_off <= n,
            data_off + data_size <= n,
            wav_walk(b, 12, no_wav_facts()) == wav_walk(
                b,
                off as nat,
                WavFacts {
                    format: audio_format as nat,
                    channels: channels as nat,
                    bits: bits as nat,
                    data_off: data_off as nat,
                    data_size: data_size as nat,
                },
            ),
        ensures
            data_off <= n,
            data_off + data_size <= n,
            wav_walk(b, 12, no_wav_facts()) == (WavFacts {
                format: audio_format as nat,
                channels: channels as nat,
                bits: bits as nat,
                data_off: data_off as nat,
                data_size: data_size as nat,
            }),
        decreases n + 1 - off,
    {
        if off > n || n - off < 8 {
            break;
        }
        let size32 = read_le32(bytes, off + 4);
        let size = size32 as usize;
        let body = off + 8;
        if size > n - body {
            break;
        }
        if has_tag(bytes, off, 0x64, 0x61, 0x74, 0x61) {
            data_size = size32;
            data_off = body;
            break;
        }
        if has_tag(bytes, off, 0x66, 0x6d, 0x74, 0x20) {
            if size >= 16 {
                audio_format = read_le16(bytes, body);
                channels = read_le16(bytes, body + 2);
                bits = read_le16(bytes, body + 14);
                if audio_format == 0xfffe && size >= 40 {
                    let sub = read_le16(bytes, body + 24);
                    if sub == 1 {
                        audio_format = 1;
                    }
                }
            }
        }
        let next_gap = size % 2;
        if size + next_gap > n - body {
            break;
        }
        off = body + size + next_gap;
    }
    if audio_format != 1 {
        let mut e = owned("ffmpeg 输出非 PCM（format=");
        push_decimal(&mut e, audio_format as u64);
        e.append("）");
        return Err(e);
    }
    if channels != 2 || bits != 16 {
        let mut e = owned("预期立体声16bit，实际 ");
        push_decimal(&mut e, channels as u64);
        e.append("ch/");
        push_decimal(&mut e, bits as u64);
        e.append("bit（请检查 ffmpeg 参数）");
        return Err(e);
    }
    let end = data_off + data_size as usize;
    let len = end - data_off;
    if len > MAX_DATA_BYTES {
        return Err(owned("解码后数据过大（>约90分钟），当前 TUI 版本暂不支持"));
    }
    let ghost d = b.subrange(data_off as int, end as int);
    let mut out: Vec<i16> = Vec::with_capacity(len / 2);
    let mut k: usize = 0;
    while k < len / 2
        invariant
            d == b.subrange(data_off as int, end as int),
            b == bytes@,
            data_off <= end <= n == b.len(),
            len == end - data_off,
            k <= len / 2,
            out@ == samples_of(d).take(k as int),
        decreases len / 2 - k,
    {
        let s = to_sample(bytes[data_off + 2 * k], bytes[data_off + 2 * k + 1]);
        out.push(s);
        assert(samples_of(d).take(k + 1) == samples_of(d).take(k as int).push(s));
        k = k + 1;
    }
    assert(samples_of(d).take((len / 2) as int) == samples_of(d));
    Ok(out)
}

// ---------------------------------------------------------------------------
// Playback state
// ---------------------------------------------------------------------------

/// An `Arc::clone` of the samples: the same allocation, so the same
/// contents.
#[verifier::external_body]
fn share_samples(a: &Arc<Vec<i16>>) -> (r: Arc<Vec<i16>>)
    ensures
        r@ == a@,
{
    Arc::clone(a)
}

/// The playback state shared by the output stream and the interface.
pub struct PlayState {
    pub samples: Arc<Vec<i16>>,
    pub frames: usize,
    /// The frame being played next.
    pub pos: usize,
    pub playing: bool,
    pub track_path: String,
}

impl PlayState {
    /// The frames lie within the samples, the position within the frames,
    /// and the state plays only where a frame is left.
    pub open spec fn wf(&self) -> bool {
        &&& self.frames <= self.samples@.len() / 2
        &&& self.pos <= self.frames
        &&& self.playing ==> self.pos < self.frames
    }

    /// The state after `toggle`: with no track nothing changes; a finished
    /// or nearly finished track that is resumed starts over; otherwise
    /// playing and pause swap.
    pub open spec fn toggled(self) -> PlayState {
        if self.frames == 0 {
            self
        } else if !self.playing && self.pos >= self.frames - 1 {
            PlayState { pos: 0, playing: true, ..self }
        } else {
            PlayState { playing: !self.playing, ..self }
        }
    }

    /// The state after `stop`.
    pub open spec fn stopped(self) -> PlayState {
        PlayState { pos: 0, playing: false, ..self }
    }

    /// The position after moving by `delta` frames, kept within the track.
    pub open spec fn seek_target(self, delta: int) -> int {
        let t = self.pos + delta;
        if t < 0 {
            0
        } else if t > self.frames - 1 {
            self.frames - 1
        } else {
            t
        }
    }

    /// The state after `seek_frames(delta)`: the clamped position, playing
    /// unless the last frame is reached.
    pub open spec fn seeked(self, delta: int) -> PlayState {
        if self.frames == 0 {
            self
        } else {
            let p = self.seek_target(delta);
            PlayState { pos: p as usize, playing: p < self.frames - 1, ..self }
        }
    }

    /// The state after the output stream takes one frame.
    pub open spec fn advanced(self) -> PlayState {
        if self.playing && self.pos < self.frames {
            PlayState {
                pos: (self.pos + 1) as usize,
                playing: self.pos + 1 < self.frames,
                ..self
            }
        } else {
            self
        }
    }

    /// The frame that the output stream plays next, if any.
    pub open spec fn current_frame(self) -> Option<(i16, i16)> {
        if self.playing && self.pos < self.frames {
            Some((self.samples@[2 * self.pos], self.samples@[2 * self.pos + 1]))
        } else {
            None
        }
    }

    /// No track, nothing playing.
    pub fn new() -> (s: PlayState)
        ensures
            s.wf(),
            s.frames == 0,
            s.pos == 0,
            !s.playing,
            s.samples@.len() == 0,
            s.track_path@.len() == 0,
    {
        PlayState {
            samples: Arc::new(Vec::new()),
            frames: 0,
            pos: 0,
            playing: false,
            track_path: String::new(),
        }
    }

    /// Loads a new track and starts playing it from the beginning.
    pub fn play(&mut self, data: PlayData, path: String)
        requires
            data.wf(),
        ensures
            final(self).wf(),
            final(self).samples@ == data.samples@,
            final(self).frames == data.frames,
            final(self).pos == 0,
            final(self).playing,
            final(self).track_path == path,
    {
        self.samples = data.samples;
        self.frames = data.frames;
        self.pos = 0;
        self.playing = true;
        self.track_path = path;
    }

    /// Pauses or resumes; returns whether it plays now.
    pub fn toggle(&mut self) -> (r: bool)
        requires
            old(self).wf(),
        ensures
            *final(self) == old(self).toggled(),
            final(self).wf(),
            r == final(self).playing,
    {
        if self.frames == 0 {
            return false;
        }
        if !self.playing && self.pos >= self.frames - 1 {
            self.pos = 0;
        }
        self.playing = !self.playing;
        self.playing
    }

    /// Stops and rewinds.
    pub fn stop(&mut self)
        requires
            old(self).wf(),
        ensures
            *final(self) == old(self).stopped(),
            final(self).wf(),
    {
        self.playing = false;
        self.pos = 0;
    }

    /// Moves the position by `delta` frames (negative is back), kept within
    /// the track; playing resumes unless the last frame is reached.
    pub fn seek_frames(&mut self, delta: i64)
        requires
            old(self).wf(),
        ensures
            *final(self) == old(self).seeked(delta as int),
            final(self).wf(),
    {
        if self.frames == 0 {
            return;
        }
        let max = (self.frames - 1) as i128;
        let t = self.pos as i128 + delta as i128;
        let p: i128 = if t < 0 {
            0
        } else if t > max {
            max
        } else {
            t
        };
        self.pos = p as usize;
        self.playing = self.pos < self.frames - 1;
    }

    /// The output stream's step: the left and right sample of the current
    /// frame and a move to the next one, or silence where nothing plays.
    /// Playing stops after the last frame.
    pub fn next_frame(&mut self) -> (r: Option<(i16, i16)>)
        requires
            old(self).wf(),
        ensures
            r == old(self).current_frame(),
            *final(self) == old(self).advanced(),
            final(self).wf(),
    {
        if self.playing && self.pos < self.frames {
            let count = self.samples.len();
            assert(count == self.samples@.len());
            let s = 2 * self.pos;
            let l = self.samples[s];
            let rr = self.samples[s + 1];
            self.pos = self.pos + 1;
            if self.pos >= self.frames {
                self.playing = false;
            }
            Some((l, rr))
        } else {
            None
        }
    }

    /// What the interface shows: the track's path, whether it plays, the
    /// position and the length in frames.
    pub fn snapshot(&self) -> (r: (String, bool, usize, usize))
        ensures
            r.0@ == self.track_path@,
            r.1 == self.playing,
            r.2 == self.pos,
            r.3 == self.frames,
    {
        (self.track_path.clone(), self.playing, self.pos, self.frames)
    }

    /// The samples and position for drawing, where a track is loaded.
    pub fn viz_frame(&self) -> (r: Option<(Arc<Vec<i16>>, usize)>)
        ensures
            match r {
                Some((s, p)) => self.frames > 0 && s@ == self.samples@ && p == self.pos,
                None => self.frames == 0,
            },
    {
        if self.frames == 0 {
            None
        } else {
            Some((share_samples(&self.samples), self.pos))
        }
    }
}

/// Pausing a playing track and resuming it continues where it was, unless
/// the pause falls on the last frame (then resuming starts over).
pub proof fn lemma_pause_resume(s: PlayState)
    requires
        s.wf(),
        s.playing,
        s.pos + 1 < s.frames,
    ensures
        s.toggled().toggled() == s,
        !s.toggled().playing,
        s.toggled().pos == s.pos,
{
}

/// Resuming a finished track plays it from the start.
pub proof fn lemma_resume_after_end(s: PlayState)
    requires
        s.wf(),
        s.frames > 0,
        !s.playing,
        s.pos >= s.frames - 1,
    ensures
        s.toggled().pos == 0,
        s.toggled().playing,
{
}

/// Seeking back by what was sought forward returns to the same frame,
/// where neither move is clamped (a finished track sits one past its last
/// frame, where a seek cannot return).
pub proof fn lemma_seek_inverse(s: PlayState, delta: int)
    requires
        s.wf(),
        s.pos < s.frames,
        0 <= s.pos + delta <= s.frames - 1,
    ensures
        s.seeked(delta).seeked(-delta).pos == s.pos,
        s.seeked(delta).pos == s.pos + delta,
{
    let t = s.seeked(delta);
    assert(s.seek_target(delta) == s.pos + delta);
    assert(t.pos == s.pos + delta);
    assert(t.frames == s.frames);
    assert(t.seek_target(-delta) == s.pos);
}

/// The state after the output stream has taken `n` frames.
pub open spec fn advanced_n(s: PlayState, n: nat) -> PlayState
    decreases n,
{
    if n == 0 {
        s
    } else {
        advanced_n(s.advanced(), (n - 1) as nat)
    }
}

/// A playing track moves one frame per step and keeps playing until it
/// reaches its end: after `frames - pos` steps it has stopped there.
pub proof fn lemma_plays_to_end(s: PlayState, k: nat)
    requires
        s.wf(),
        s.playing,
        k <= s.frames - s.pos,
    ensures
        advanced_n(s, k).pos == s.pos + k,
        advanced_n(s, k).playing == (s.pos + k < s.frames),
        advanced_n(s, k).samples == s.samples,
        advanced_n(s, k).frames == s.frames,
    decreases k,
{
    if k > 0 {
        let t = s.advanced();
        if t.playing {
            lemma_plays_to_end(t, (k - 1) as nat);
        } else {
            assert(k == 1);
            assert(advanced_n(t, 0) == t);
        }
    }
}

/// Every operation keeps the state well formed.
pub proof fn lemma_operations_keep_wf(s: PlayState, delta: int)
    requires
        s.wf(),
    ensures
        s.toggled().wf(),
        s.stopped().wf(),
        s.seeked(delta).wf(),
        s.advanced().wf(),
{
}

// ---------------------------------------------------------------------------
// Analysis window
// ---------------------------------------------------------------------------

/// The first frame of the `n`-frame window that ends at the position,
/// moved back where it would run past the end of the track.
pub open spec fn window_start_spec(frames: nat, pos: nat, n: nat) -> nat {
    let s = if pos >= n {
        (pos - n) as nat
    } else {
        0
    };
    if s + n <= frames {
        s
    } else {
        (frames - n) as nat
    }
}

/// The first frame of the window that the spectrum and the waveform read.
pub fn window_start(frames: usize, pos: usize, n: usize) -> (r: usize)
    requires
        n <= frames,
    ensures
        r == window_start_spec(frames as nat, pos as nat, n as nat),
        r + n <= frames,
{
    let s = pos.saturating_sub(n);
    if s + n <= frames {
        s
    } else {
        frames - n
    }
}

/// The number of frames the waveform shows at `rate` frames a second: a
/// twelfth of a second, no more than the track and no fewer than 64.
pub fn wave_window(rate: u32, frames: usize) -> (r: usize)
    requires
        frames >= 64,
    ensures
        r == (if rate / 12 <= frames {
            if rate / 12 >= 64 {
                (rate / 12) as int
            } else {
                64
            }
        } else {
            frames as int
        }),
        64 <= r <= frames,
{
    let raw = (rate / 12) as usize;
    let r = if raw <= frames {
        raw
    } else {
        frames
    };
    if r >= 64 {
        r
    } else {
        64
    }
}

/// The frame that column `c` of a waveform `width` columns wide shows, in
/// the window of `n` frames from `start`.
pub fn wave_frame(start: usize, n: usize, c: usize, width: usize) -> (r: usize)
    requires
        c < width,
        1 <= n,
        start + n <= usize::MAX,
    ensures
        r == start + c * (n - 1) / (width as int),
        start <= r < start + n,
{
    let m: usize = n - 1;
    assert((c as u128) * (m as u128) < 0x1_0000_0000_0000_0000_0000_0000_0000_0000)
        by (nonlinear_arith)
        requires
            c <= usize::MAX,
            m <= usize::MAX,
            usize::MAX <= 0xffff_ffff_ffff_ffffu64,
    ;
    let p = (c as u128) * (m as u128);
    let q = p / (width as u128);
    assert(q < n) by (nonlinear_arith)
        requires
            q == (p as int) / (width as int),
            p == c * m,
            m == n - 1,
            c < width,
            1 <= n,
    {
        assert(c * (n - 1) <= (width - 1) * (n - 1));
        assert((width - 1) * (n - 1) < width * n);
        assert(q * width <= p);
    }
    start + (q as usize)
}

} // verus!
