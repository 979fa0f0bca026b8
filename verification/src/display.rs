//! What the interface shows, short of drawing it: sizes and times as text,
//! colour ramps, the visible part of the list and the playback mark.
use vstd::prelude::*;

use crate::browser::{row_name, row_path, Row, RowView};
use crate::text::{
    decimal, decimal_text, join2, push_char, push_decimal, push_two_digits, same_text, two_digits,
};

verus! {

// ---------------------------------------------------------------------------
// Sizes
// ---------------------------------------------------------------------------

/// `2^k`.
pub open spec fn pow_two(k: nat) -> nat
    decreases k,
{
    if k == 0 {
        1
    } else {
        2 * pow_two((k - 1) as nat)
    }
}

/// How many halvings bring `n` below `2^53`, the precision of an `f64`.
pub open spec fn halvings(n: nat) -> nat
    decreases n,
{
    if n < 9007199254740992 {
        0
    } else {
        1 + halvings(n / 2)
    }
}

/// `n / d` rounded to the nearest integer, ties to even.
pub open spec fn round_half_even(n: nat, d: nat) -> nat {
    let q = n / d;
    let r = n % d;
    if 2 * r > d || (2 * r == d && q % 2 == 1) {
        q + 1
    } else {
        q
    }
}

/// The value of `n as f64`: `n` rounded to 53 significant bits, ties to
/// even.
pub open spec fn as_f64(n: nat) -> nat {
    let p = pow_two(halvings(n));
    round_half_even(n, p) * p
}

/// A file size as the listing shows it: bytes below 1 KiB, else the size as
/// a float in KB, MB or GB (the largest unit that keeps it at least 1,
/// up to GB), printed with no decimals (`{:.0}`, ties to even).
pub open spec fn size_text(n: nat) -> Seq<char> {
    if n < 1024 {
        decimal(n) + " B"@
    } else {
        let m = as_f64(n);
        if m < 1048576 {
            decimal(round_half_even(m, 1024)) + " KB"@
        } else if m < 1073741824 {
            decimal(round_half_even(m, 1048576)) + " MB"@
        } else {
            decimal(round_half_even(m, 1073741824)) + " GB"@
        }
    }
}

/// `n as f64`, as an integer.
fn f64_value(n: u64) -> (m: u128)
    ensures
        m == as_f64(n as nat),
        m <= n + 2048,
{
    let mut t: u64 = n;
    let mut p: u64 = 1;
    let ghost mut s: nat = 0;
    while t >= 9007199254740992
        invariant
            p > 0,
            p <= 2048,
            t == n / p,
            p == pow_two(s),
            s <= 11,
            halvings(n as nat) == s + halvings(t as nat),
        decreases t,
    {
        proof {
            reveal_with_fuel(pow_two, 12);
            if s == 11 {
                assert(n / 2048 < 9007199254740992);
            }
            assert(s <= 10);
            lemma_pow_two_mono(s, 10);
            vstd::arithmetic::div_mod::lemma_div_denominator(n as int, p as int, 2);
            reveal_with_fuel(pow_two, 2);
        }
        t = t / 2;
        p = p * 2;
        proof {
            s = s + 1;
        }
    }
    assert(halvings(n as nat) == s);
    let q = n / p;
    let r = n % p;
    let rq: u128 = if 2 * r > p || (2 * r == p && q % 2 == 1) {
        q as u128 + 1
    } else {
        q as u128
    };
    proof {
        vstd::arithmetic::div_mod::lemma_fundamental_div_mod(n as int, p as int);
        assert(rq * p <= n + p) by (nonlinear_arith)
            requires
                rq <= q + 1,
                n == p * q + r,
                r >= 0,
                p > 0,
        ;
    }
    rq * (p as u128)
}

/// `pow_two` grows with its exponent.
proof fn lemma_pow_two_mono(a: nat, b: nat)
    requires
        a <= b,
    ensures
        pow_two(a) <= pow_two(b),
    decreases b,
{
    if a < b {
        lemma_pow_two_mono(a, (b - 1) as nat);
    }
}

/// `m / d` rounded half to even.
fn round_div(m: u128, d: u128) -> (r: u128)
    requires
        d > 0,
        m < 0x1_0000_0000_0000_0000_0000,
    ensures
        r == round_half_even(m as nat, d as nat),
        r <= m / d + 1,
{
    let q = m / d;
    let rem = m % d;
    if rem > d - rem || (rem == d - rem && q % 2 == 1) {
        q + 1
    } else {
        q
    }
}

/// A file size as the listing shows it (`fmt_size`).
pub fn fmt_size(n: u64) -> (s: String)
    ensures
        s@ == size_text(n as nat),
{
    if n < 1024 {
        let mut s = decimal_text(n);
        s.append(" B");
        return s;
    }
    let m = f64_value(n);
    let (d, unit): (u128, &str) = if m < 1048576 {
        (1024, " KB")
    } else if m < 1073741824 {
        (1048576, " MB")
    } else {
        (1073741824, " GB")
    };
    let q = round_div(m, d);
    assert(q <= m / 1024 + 1) by {
        vstd::arithmetic::div_mod::lemma_div_is_ordered_by_denominator(m as int, 1024, d as int);
    }
    let mut s = decimal_text(q as u64);
    s.append(unit);
    s
}

// ---------------------------------------------------------------------------
// Times
// ---------------------------------------------------------------------------

/// A play time in whole seconds as `m:ss`, or `h:mm:ss` from an hour on.
pub open spec fn time_text(s: nat) -> Seq<char> {
    let m = s / 60;
    let ss = s % 60;
    let h = m / 60;
    if h > 0 {
        decimal(h) + ":"@ + two_digits(m % 60) + ":"@ + two_digits(ss)
    } else {
        decimal(m) + ":"@ + two_digits(ss)
    }
}

/// A play time in whole seconds as text.
pub fn fmt_time_secs(s: u64) -> (r: String)
    ensures
        r@ == time_text(s as nat),
{
    let m = s / 60;
    let ss = s % 60;
    let h = m / 60;
    proof {
        reveal_strlit(":");
    }
    let mut r = String::new();
    if h > 0 {
        push_decimal(&mut r, h);
        push_char(&mut r, ':');
        push_two_digits(&mut r, m % 60);
        push_char(&mut r, ':');
        push_two_digits(&mut r, ss);
        assert(r@ =~= decimal(h as nat) + ":"@ + two_digits((m % 60) as nat) + ":"@ + two_digits(
            ss as nat,
        ));
    } else {
        push_decimal(&mut r, m);
        push_char(&mut r, ':');
        push_two_digits(&mut r, ss);
        assert(r@ =~= decimal(m as nat) + ":"@ + two_digits(ss as nat));
    }
    r
}

// ---------------------------------------------------------------------------
// Colours
// ---------------------------------------------------------------------------

/// The colour stops of the built-in presets, each running from dark to
/// light and ending with its brightest stop.
pub open spec fn preset_stops_spec(k: nat) -> Seq<(u8, u8, u8)> {
    if k == 0 {
        seq![
            (34u8, 211u8, 238u8),
            (45, 212, 191),
            (74, 222, 128),
            (163, 230, 53),
            (253, 224, 71),
            (251, 146, 60),
            (251, 113, 133),
            (253, 186, 200),
        ]
    } else if k == 1 {
        seq![
            (96u8, 165u8, 250u8),
            (129, 140, 248),
            (168, 85, 247),
            (192, 38, 211),
            (217, 70, 239),
            (244, 114, 182),
            (255, 121, 221),
        ]
    } else if k == 2 {
        seq![
            (20u8, 83u8, 45u8),
            (22, 101, 52),
            (22, 163, 74),
            (34, 197, 94),
            (74, 222, 128),
            (134, 239, 172),
            (187, 247, 208),
        ]
    } else if k == 3 {
        seq![
            (194u8, 65u8, 12u8),
            (234, 88, 12),
            (249, 115, 22),
            (250, 204, 21),
            (253, 224, 71),
            (254, 240, 138),
        ]
    } else if k == 4 {
        seq![
            (7u8, 89u8, 133u8),
            (3, 105, 161),
            (14, 165, 233),
            (56, 189, 248),
            (125, 211, 252),
            (186, 230, 253),
            (224, 242, 254),
        ]
    } else {
        seq![
            (100u8, 116u8, 139u8),
            (148, 163, 184),
            (203, 213, 225),
            (226, 232, 240),
            (241, 245, 249),
            (255, 255, 255),
        ]
    }
}

/// The colour stops of preset `i` (taken modulo the number of presets).
pub fn preset_stops(i: usize) -> (r: Vec<(u8, u8, u8)>)
    ensures
        r@ == preset_stops_spec((i % 6) as nat),
{
    let k = i % 6;
    if k == 0 {
        vec![
            (34, 211, 238),
            (45, 212, 191),
            (74, 222, 128),
            (163, 230, 53),
            (253, 224, 71),
            (251, 146, 60),
            (251, 113, 133),
            (253, 186, 200),
        ]
    } else if k == 1 {
        vec![
            (96, 165, 250),
            (129, 140, 248),
            (168, 85, 247),
            (192, 38, 211),
            (217, 70, 239),
            (244, 114, 182),
            (255, 121, 221),
        ]
    } else if k == 2 {
        vec![
            (20, 83, 45),
            (22, 101, 52),
            (22, 163, 74),
            (34, 197, 94),
            (74, 222, 128),
            (134, 239, 172),
            (187, 247, 208),
        ]
    } else if k == 3 {
        vec![
            (194, 65, 12),
            (234, 88, 12),
            (249, 115, 22),
            (250, 204, 21),
            (253, 224, 71),
            (254, 240, 138),
        ]
    } else if k == 4 {
        vec![
            (7, 89, 133),
            (3, 105, 161),
            (14, 165, 233),
            (56, 189, 248),
            (125, 211, 252),
            (186, 230, 253),
            (224, 242, 254),
        ]
    } else {
        vec![
            (100, 116, 139),
            (148, 163, 184),
            (203, 213, 225),
            (226, 232, 240),
            (241, 245, 249),
            (255, 255, 255),
        ]
    }
}

/// The colour drawn where there is no ramp.
pub open spec fn fallback_color() -> (u8, u8, u8) {
    (34, 211, 238)
}

/// `n` colours spread evenly over the stops `raw`, first to last.
/// Where there are no stops, every colour is the fallback colour.
pub open spec fn palette_spec(raw: Seq<(u8, u8, u8)>, n: nat) -> Seq<(u8, u8, u8)> {
    Seq::new(
        n,
        |i: int|
            if raw.len() == 0 {
                fallback_color()
            } else {
                raw[if n == 1 {
                    0
                } else {
                    i * (raw.len() - 1) / (n - 1)
                }]
            },
    )
}

/// `n` colours spread evenly over the stops `raw` (`palette_for`, before
/// the colours become terminal colours).
pub fn palette_rgb(raw: &Vec<(u8, u8, u8)>, n: usize) -> (r: Vec<(u8, u8, u8)>)
    ensures
        r@.len() == n,
        r@ == palette_spec(raw@, n as nat),
{
    if raw.len() == 0 {
        let mut r: Vec<(u8, u8, u8)> = Vec::new();
        for i in 0..n
            invariant
                raw@.len() == 0,
                r@ == palette_spec(raw@, n as nat).take(i as int),
        {
            r.push((34, 211, 238));
            assert(palette_spec(raw@, n as nat).take(i + 1) == palette_spec(
                raw@,
                n as nat,
            ).take(i as int).push(fallback_color()));
        }
        assert(palette_spec(raw@, n as nat).take(n as int) == palette_spec(raw@, n as nat));
        return r;
    }
    let last = raw.len() - 1;
    let mut r: Vec<(u8, u8, u8)> = Vec::new();
    for i in 0..n
        invariant
            raw.len() > 0,
            last == raw.len() - 1,
            r@ == palette_spec(raw@, n as nat).take(i as int),
    {
        let idx: usize = if n == 1 {
            0
        } else {
            assert((i as u128) * (last as u128) < 0x1_0000_0000_0000_0000_0000_0000_0000_0000)
                by (nonlinear_arith)
                requires
                    i <= usize::MAX,
                    last <= usize::MAX,
                    usize::MAX <= 0xffff_ffff_ffff_ffffu64,
            ;
            let p = (i as u128) * (last as u128);
            let q = p / ((n - 1) as u128);
            proof {
                assert(p <= (n - 1) * last) by (nonlinear_arith)
                    requires
                        p == i * last,
                        i <= n - 1,
                ;
                vstd::arithmetic::div_mod::lemma_div_is_ordered(
                    p as int,
                    ((n - 1) * last) as int,
                    (n - 1) as int,
                );
                vstd::arithmetic::div_mod::lemma_div_by_multiple(last as int, (n - 1) as int);
                assert(((n - 1) * last) as int == (last * (n - 1)) as int) by (nonlinear_arith);
            }
            q as usize
        };
        r.push(raw[idx]);
        assert(palette_spec(raw@, n as nat).take(i + 1) == palette_spec(raw@, n as nat).take(
            i as int,
        ).push(raw@[idx as int]));
    }
    assert(palette_spec(raw@, n as nat).take(n as int) == palette_spec(raw@, n as nat));
    r
}

/// `x` held within `[lo, hi]`.
pub open spec fn clamp_spec(x: int, lo: int, hi: int) -> int {
    if x > hi {
        hi
    } else if x < lo {
        lo
    } else {
        x
    }
}

/// The number of spectrum bands the bar view analyses for a view `width`
/// columns wide: one a column, from 8 to 96.
pub fn bar_bands(width: usize) -> (r: usize)
    ensures
        r == clamp_spec(width as int, 8, 96),
{
    if width > 96 {
        96
    } else if width < 8 {
        8
    } else {
        width
    }
}

/// The number of spectrum bands the ring view analyses for a view `width`
/// columns wide: one a column, from 16 to 64.
pub fn ring_bands(width: usize) -> (r: usize)
    ensures
        r == clamp_spec(width as int, 16, 64),
{
    if width > 64 {
        64
    } else if width < 16 {
        16
    } else {
        width
    }
}

/// How bright a colour is: the sum of its channels.
pub open spec fn brightness(c: (u8, u8, u8)) -> int {
    c.0 + c.1 + c.2
}

/// Every built-in preset ends with its brightest stop, so the accent of a
/// preset, its last stop, is at least as bright as any stop of it.
pub proof fn lemma_preset_ends_brightest(k: nat, j: int)
    requires
        k < 6,
        0 <= j < preset_stops_spec(k).len(),
    ensures
        preset_stops_spec(k).len() > 0,
        brightness(preset_stops_spec(k)[j]) <= brightness(preset_stops_spec(k).last()),
{
}

/// The accent colour: the last, brightest stop of a ramp that runs from
/// dark to light (`accent_for`).
pub fn accent_rgb(raw: &Vec<(u8, u8, u8)>) -> (r: (u8, u8, u8))
    ensures
        r == (if raw@.len() == 0 {
            fallback_color()
        } else {
            raw@.last()
        }),
{
    if raw.len() == 0 {
        (34, 211, 238)
    } else {
        raw[raw.len() - 1]
    }
}

// ---------------------------------------------------------------------------
// The visible part of the list
// ---------------------------------------------------------------------------

/// The rows `[top, end)` shown in a list area of `viewport` lines: the
/// selection (held within the list) is the last line once it passes the
/// first screen, and the window never starts later than needed to fill it.
pub open spec fn list_window_spec(sel: nat, len: nat, viewport: nat) -> (nat, nat) {
    let s = if sel < len {
        sel
    } else {
        (len - 1) as nat
    };
    let top0 = if s >= viewport {
        (s - viewport + 1) as nat
    } else {
        0
    };
    let limit = if len >= viewport {
        (len - viewport) as nat
    } else {
        0
    };
    let top = if top0 < limit {
        top0
    } else {
        limit
    };
    let end = if top + viewport < len {
        top + viewport
    } else {
        len
    };
    (top, end)
}

/// The rows shown in the list area.
pub fn list_window(sel: usize, len: usize, viewport: usize) -> (r: (usize, usize))
    requires
        len > 0,
    ensures
        (r.0 as nat, r.1 as nat) == list_window_spec(sel as nat, len as nat, viewport as nat),
        r.0 <= r.1 <= len,
        viewport > 0 ==> r.0 <= (if sel < len {
            sel
        } else {
            (len - 1) as usize
        }) < r.1,
{
    let s = if sel < len {
        sel
    } else {
        len - 1
    };
    let top0 = if s >= viewport {
        s - viewport + 1
    } else {
        0
    };
    let limit = len.saturating_sub(viewport);
    let top = if top0 < limit {
        top0
    } else {
        limit
    };
    let end = if viewport < len - top {
        top + viewport
    } else {
        len
    };
    (top, end)
}

/// The playback mark: decoding, ready (nothing loaded), playing or paused.
pub open spec fn status_mark_spec(loading: bool, has_track: bool, playing: bool) -> Seq<char> {
    if loading {
        "解码中…"@
    } else if !has_track {
        "就绪"@
    } else if playing {
        "▶ 播放中"@
    } else {
        "⏸ 已暂停"@
    }
}

/// The playback mark shown in the status line.
pub fn status_mark(loading: bool, has_track: bool, playing: bool) -> (r: &'static str)
    ensures
        r@ == status_mark_spec(loading, has_track, playing),
{
    if loading {
        "解码中…"
    } else if !has_track {
        "就绪"
    } else if playing {
        "▶ 播放中"
    } else {
        "⏸ 已暂停"
    }
}

// ---------------------------------------------------------------------------
// How a row of the list is marked
// ---------------------------------------------------------------------------

/// What a line of the list shows besides its colours.
pub struct RowDecor {
    /// The line is the selection.
    pub selected: bool,
    /// The line leads to the loaded track.
    pub is_now: bool,
    /// `● ` before the loaded track, blank otherwise.
    pub marker: &'static str,
    /// `↑` for the parent directory, `D ` for a directory, `♪ ` for a file.
    pub prefix: &'static str,
    pub name: String,
    /// The size of a file, after two spaces.
    pub detail: Option<String>,
}

/// Whether the row leads to the loaded track `cur_path`.
pub open spec fn is_now_spec(r: RowView, cur_path: Seq<char>) -> bool {
    row_path(r) == Some(cur_path)
}

/// The prefix of a row.
pub open spec fn prefix_spec(r: RowView) -> Seq<char> {
    match r {
        RowView::Parent => "↑"@,
        RowView::Dir { .. } => "D "@,
        RowView::File { .. } => "♪ "@,
    }
}

/// `d` marks the row `row`: the selection flag, whether it leads to the
/// loaded track `cur_path`, the marker, the prefix, the name and, for a
/// file, its size.
pub open spec fn decor_of(d: RowDecor, row: RowView, selected: bool, cur_path: Seq<char>) -> bool {
    &&& d.selected == selected
    &&& d.is_now == is_now_spec(row, cur_path)
    &&& d.marker@ == (if d.is_now {
        "● "@
    } else {
        "  "@
    })
    &&& d.prefix@ == prefix_spec(row)
    &&& d.name@ == row_name(row)
    &&& match row {
        RowView::File { size, .. } => match d.detail {
            Some(t) => t@ == "  "@ + size_text(size as nat),
            None => false,
        },
        _ => d.detail is None,
    }
}

/// How line `index` of the list is marked; none past the last row.
pub fn row_decor(rows: &Vec<Row>, index: usize, sel: usize, cur_path: &str) -> (r: Option<RowDecor>)
    ensures
        match r {
            Some(d) => index < rows.len() && decor_of(d, rows@[index as int]@, index == sel, cur_path@),
            None => index >= rows.len(),
        },
{
    if index >= rows.len() {
        return None;
    }
    let row = &rows[index];
    let is_now = match row.path() {
        Some(p) => same_text(p.as_str(), cur_path),
        None => false,
    };
    let prefix = match row {
        Row::Parent => "↑",
        Row::Dir { .. } => "D ",
        Row::File { .. } => "♪ ",
    };
    let detail = match row {
        Row::File { size, .. } => {
            let t = fmt_size(*size);
            Some(join2("  ", t.as_str()))
        },
        _ => None,
    };
    Some(
        RowDecor {
            selected: index == sel,
            is_now,
            marker: if is_now {
                "● "
            } else {
                "  "
            },
            prefix,
            name: row.name(),
            detail,
        },
    )
}

} // verus!
