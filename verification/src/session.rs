//! The player's interface state and what each key does to it.
//!
//! The state is the current directory and its rows, the selection, the
//! visualisation settings, the colour prompt, and the notice line.  A key
//! changes the state and asks the caller for at most one piece of outside
//! work (listing a directory, decoding a file, driving playback, saving the
//! settings); the caller reports back through `enter_dir`, `set_rows` and
//! `decode_finished`.
use vstd::prelude::*;

use crate::audio::{path_file_name, path_file_name_of, paths_equal, same_path};
use crate::browser::{row_path, views, Row, RowView};
use crate::settings::{
    color_label, color_label_text, following_color, next_color, parse_hex, parse_hex_spec,
    ColorPref, Settings,
};
use crate::text::{
    chars_of, hex_digit, is_hex_digit, join2, owned, pop_char, push_char, text_option,
};

verus! {

/// A key, as far as the player tells keys apart.
#[derive(Debug, Clone, Copy, PartialEq, Eq, Structural)]
pub enum Key {
    Char(char),
    Enter,
    Esc,
    Backspace,
    Up,
    Down,
    Left,
    Right,
    Home,
    End,
    Other,
}

/// The outside work a key asks for.
#[derive(Debug)]
pub enum Command {
    Nothing,
    /// Enter the directory at the path.
    ChangeDir(String),
    /// Enter the parent of the current directory, if it has one.
    GoUp,
    /// Decode the file at the path and play it when done.
    Decode(String),
    TogglePause,
    Stop,
    /// List the current directory again.
    Refresh,
    /// Seek five seconds back.
    SeekBack,
    /// Seek five seconds forward.
    SeekForward,
    /// Store the settings.
    SaveSettings,
}

/// A command as text.
pub enum CommandView {
    Nothing,
    ChangeDir(Seq<char>),
    GoUp,
    Decode(Seq<char>),
    TogglePause,
    Stop,
    Refresh,
    SeekBack,
    SeekForward,
    SaveSettings,
}

impl View for Command {
    type V = CommandView;

    open spec fn view(&self) -> CommandView {
        match self {
            Command::Nothing => CommandView::Nothing,
            Command::ChangeDir(p) => CommandView::ChangeDir(p@),
            Command::GoUp => CommandView::GoUp,
            Command::Decode(p) => CommandView::Decode(p@),
            Command::TogglePause => CommandView::TogglePause,
            Command::Stop => CommandView::Stop,
            Command::Refresh => CommandView::Refresh,
            Command::SeekBack => CommandView::SeekBack,
            Command::SeekForward => CommandView::SeekForward,
            Command::SaveSettings => CommandView::SaveSettings,
        }
    }
}

/// The small input box for a custom colour.
#[derive(Debug)]
pub struct Prompt {
    pub label: String,
    pub buf: String,
}

/// The interface state.
pub struct Browser {
    pub cwd: String,
    pub rows: Vec<Row>,
    pub sel: usize,
    pub settings: Settings,
    pub prompt: Option<Prompt>,
    pub loading: bool,
    pub notice: Option<String>,
    pub quit: bool,
}

/// The interface state as text.
pub struct BrowserView {
    pub cwd: Seq<char>,
    pub rows: Seq<RowView>,
    pub sel: nat,
    pub settings: Settings,
    /// The prompt's label and what has been typed.
    pub prompt: Option<(Seq<char>, Seq<char>)>,
    pub loading: bool,
    pub notice: Option<Seq<char>>,
    pub quit: bool,
}

impl View for Browser {
    type V = BrowserView;

    open spec fn view(&self) -> BrowserView {
        BrowserView {
            cwd: self.cwd@,
            rows: views(self.rows@),
            sel: self.sel as nat,
            settings: self.settings,
            prompt: match self.prompt {
                Some(p) => Some((p.label@, p.buf@)),
                None => None,
            },
            loading: self.loading,
            notice: match self.notice {
                Some(n) => Some(n@),
                None => None,
            },
            quit: self.quit,
        }
    }
}

// ---------------------------------------------------------------------------
// The transitions, stated on the view
// ---------------------------------------------------------------------------

/// A character the colour prompt takes: a hexadecimal digit, or `'#'` as
/// the first character.
pub open spec fn prompt_char(c: char) -> bool {
    is_hex_digit(c) || c == '#'
}

/// The selection is within the rows (or 0 where there are none), and the
/// prompt holds at most seven characters, each `'#'` or a hexadecimal
/// digit.
pub open spec fn view_wf(v: BrowserView) -> bool {
    &&& (v.sel == 0 || v.sel < v.rows.len())
    &&& match v.prompt {
        Some((_, b)) => b.len() <= 7 && forall|i: int| 0 <= i < b.len() ==> prompt_char(
            #[trigger] b[i],
        ),
        None => true,
    }
}

/// `base + delta` taken cyclically over `n` places.
pub open spec fn wrap_index(base: int, delta: int, n: int) -> int {
    (base + delta) % n
}

/// The selection moved by `d` rows, cyclically.
pub open spec fn moved(v: BrowserView, d: int) -> BrowserView {
    if v.rows.len() == 0 {
        v
    } else {
        BrowserView { sel: wrap_index(v.sel as int, d, v.rows.len() as int) as nat, ..v }
    }
}

/// The state with fresh rows: the notice is cleared and the selection
/// held within the rows.
pub open spec fn with_rows(v: BrowserView, rows: Seq<RowView>) -> BrowserView {
    let sel = if v.sel >= rows.len() {
        if rows.len() == 0 {
            0
        } else {
            (rows.len() - 1) as nat
        }
    } else {
        v.sel
    };
    BrowserView { rows: rows, notice: None, sel: sel, ..v }
}

/// The state after entering the directory `cwd` with the rows `rows`.
pub open spec fn entered(v: BrowserView, cwd: Seq<char>, rows: Seq<RowView>) -> BrowserView {
    with_rows(BrowserView { cwd: cwd, sel: 0, ..v }, rows)
}

/// Asking to play the file at `path`: refused while a decode runs,
/// otherwise the decode starts and the notice names the file.
pub open spec fn play_path_step(v: BrowserView, path: Seq<char>) -> (BrowserView, CommandView) {
    if v.loading {
        (BrowserView { notice: Some("正在解码上一首，请稍候…"@), ..v }, CommandView::Nothing)
    } else {
        let name = match path_file_name_of(path) {
            Some(n) => n,
            None => seq![],
        };
        (
            BrowserView { loading: true, notice: Some("正在解码: "@ + name), ..v },
            CommandView::Decode(path),
        )
    }
}

/// Activating the selected row: enter a directory, play a file, or go up.
pub open spec fn play_selected_step(v: BrowserView) -> (BrowserView, CommandView) {
    if v.sel < v.rows.len() {
        match v.rows[v.sel as int] {
            RowView::Dir { path, .. } => (v, CommandView::ChangeDir(path)),
            RowView::File { path, .. } => play_path_step(v, path),
            RowView::Parent => (v, CommandView::GoUp),
        }
    } else {
        (v, CommandView::Nothing)
    }
}

/// Without a prompt, `k` and Up move the selection one row up and `j` and
/// Down one row down, wrapping round at either end; `g`/Home select the
/// first row and `G`/End the last.  Nothing else changes and nothing is
/// asked of the caller.
pub proof fn lemma_selection_keys(v: BrowserView, track: Seq<char>, has_track: bool)
    requires
        view_wf(v),
        v.prompt is None,
    ensures
        ({
            let len = v.rows.len();
            let up = if len == 0 {
                v
            } else {
                BrowserView { sel: if v.sel == 0 { (len - 1) as nat } else { (v.sel - 1) as nat }, ..v }
            };
            let down = if len == 0 {
                v
            } else {
                BrowserView { sel: if v.sel + 1 == len { 0 } else { v.sel + 1 }, ..v }
            };
            let first = BrowserView { sel: 0, ..v };
            let last = BrowserView { sel: if len == 0 { 0 } else { (len - 1) as nat }, ..v };
            &&& key_step(v, Key::Char('k'), track, has_track) == (up, CommandView::Nothing)
            &&& key_step(v, Key::Up, track, has_track) == (up, CommandView::Nothing)
            &&& key_step(v, Key::Char('j'), track, has_track) == (down, CommandView::Nothing)
            &&& key_step(v, Key::Down, track, has_track) == (down, CommandView::Nothing)
            &&& key_step(v, Key::Char('g'), track, has_track) == (first, CommandView::Nothing)
            &&& key_step(v, Key::Home, track, has_track) == (first, CommandView::Nothing)
            &&& key_step(v, Key::Char('G'), track, has_track) == (last, CommandView::Nothing)
            &&& key_step(v, Key::End, track, has_track) == (last, CommandView::Nothing)
        }),
{
    let len = v.rows.len() as int;
    if len > 0 {
        let s = v.sel as int;
        assert(0 <= s < len);
        if s == 0 {
            vstd::arithmetic::div_mod::lemma_fundamental_div_mod_converse(s - 1, len, -1, len - 1);
        } else {
            vstd::arithmetic::div_mod::lemma_small_mod((s - 1) as nat, len as nat);
        }
        if s + 1 == len {
            vstd::arithmetic::div_mod::lemma_mod_self_0(len);
        } else {
            vstd::arithmetic::div_mod::lemma_small_mod((s + 1) as nat, len as nat);
        }
    }
}

/// The places of the file rows, in order.
pub open spec fn file_positions(rows: Seq<RowView>) -> Seq<usize>
    decreases rows.len(),
{
    if rows.len() == 0 {
        seq![]
    } else {
        let rest = file_positions(rows.drop_last());
        if rows.last() is File {
            rest.push((rows.len() - 1) as usize)
        } else {
            rest
        }
    }
}

/// Whether the row `r` leads to a path equal, as a path, to `track`.
pub open spec fn row_leads_to(r: RowView, track: Seq<char>) -> bool {
    match row_path(r) {
        Some(p) => same_path(p, track),
        None => false,
    }
}

/// The first place in `files` whose row leads to `track`, or -1.
pub open spec fn track_index(rows: Seq<RowView>, files: Seq<usize>, track: Seq<char>) -> int
    decreases files.len(),
{
    if files.len() == 0 {
        -1
    } else {
        let k = track_index(rows, files.drop_last(), track);
        if k >= 0 {
            k
        } else if row_leads_to(rows[files.last() as int], track) {
            files.len() - 1
        } else {
            -1
        }
    }
}

/// Playing the file `delta` places after the one playing now (or after
/// the first file where the playing track is not listed).
pub open spec fn step_play_step(v: BrowserView, delta: int, track: Seq<char>) -> (
    BrowserView,
    CommandView,
) {
    let files = file_positions(v.rows);
    if files.len() == 0 {
        (v, CommandView::Nothing)
    } else {
        let k = track_index(v.rows, files, track);
        let base = if k >= 0 {
            k
        } else {
            0
        };
        let target = files[wrap_index(base, delta, files.len() as int)];
        play_selected_step(BrowserView { sel: target as nat, ..v })
    }
}

/// What a finished decode does: on success the selected row's path is the
/// track to play; without such a row, or on failure, the notice says why.
pub open spec fn decode_finished_step(v: BrowserView, result: Result<(), Seq<char>>) -> (
    BrowserView,
    Option<Seq<char>>,
) {
    let v = BrowserView { loading: false, ..v };
    match result {
        Ok(_) => {
            let path = if v.sel < v.rows.len() {
                row_path(v.rows[v.sel as int])
            } else {
                None
            };
            match path {
                Some(p) => (BrowserView { notice: None, ..v }, Some(p)),
                None => (BrowserView { notice: Some("没有可播放的曲目"@), ..v }, None),
            }
        },
        Err(e) => (BrowserView { notice: Some("解码失败: "@ + e), ..v }, None),
    }
}

/// The next visualisation, stored.
pub open spec fn cycle_viz_step(v: BrowserView) -> (BrowserView, CommandView) {
    let viz = v.settings.viz.following();
    (
        BrowserView {
            settings: Settings { viz: viz, ..v.settings },
            notice: Some("可视化方式: "@ + viz.label_text()),
            ..v
        },
        CommandView::SaveSettings,
    )
}

/// The next colour preset, stored.
pub open spec fn cycle_color_step(v: BrowserView) -> (BrowserView, CommandView) {
    let c = following_color(v.settings.color);
    (
        BrowserView {
            settings: Settings { color: c, ..v.settings },
            notice: Some("配色: "@ + color_label_text(c)),
            ..v
        },
        CommandView::SaveSettings,
    )
}

/// The label of the colour prompt.
pub open spec fn prompt_label() -> Seq<char> {
    "输入自定义颜色 #rrggbb（Enter 确认 · Esc 取消）"@
}

/// Opening the colour prompt with `#` typed.
pub open spec fn open_prompt_step(v: BrowserView) -> BrowserView {
    BrowserView { prompt: Some((prompt_label(), "#"@)), ..v }
}

/// Confirming the prompt: a colour that `parse_hex` reads becomes the
/// custom colour and is stored; otherwise the notice shows what was typed.
pub open spec fn commit_step(v: BrowserView) -> (BrowserView, CommandView) {
    let buf = match v.prompt {
        Some((_, b)) => b,
        None => seq![],
    };
    let v = BrowserView { prompt: None, ..v };
    match parse_hex_spec(buf) {
        Some((r, g, b)) => {
            let c = ColorPref::Custom { r, g, b };
            (
                BrowserView {
                    settings: Settings { color: c, ..v.settings },
                    notice: Some("自定义颜色: "@ + color_label_text(c)),
                    ..v
                },
                CommandView::SaveSettings,
            )
        },
        None => (
            BrowserView { notice: Some("无效颜色「"@ + buf + "」，应形如 #00ff88"@), ..v },
            CommandView::Nothing,
        ),
    }
}

/// Closing the prompt without a change.
pub open spec fn cancel_step(v: BrowserView) -> BrowserView {
    BrowserView { prompt: None, notice: None, ..v }
}

/// A key while the prompt is open: Esc cancels, Enter confirms, Backspace
/// deletes, and a hexadecimal digit (or `'#'` into an empty box) is typed
/// while fewer than seven characters are there.
pub open spec fn prompt_key_step(v: BrowserView, key: Key) -> (BrowserView, CommandView) {
    match key {
        Key::Esc => (cancel_step(v), CommandView::Nothing),
        Key::Enter => commit_step(v),
        Key::Backspace => match v.prompt {
            Some((l, b)) => (
                BrowserView {
                    prompt: Some(
                        (
                            l,
                            if b.len() > 0 {
                                b.drop_last()
                            } else {
                                b
                            },
                        ),
                    ),
                    ..v
                },
                CommandView::Nothing,
            ),
            None => (v, CommandView::Nothing),
        },
        Key::Char(c) => match v.prompt {
            Some((l, b)) => {
                if (is_hex_digit(c) || (c == '#' && b.len() == 0)) && b.len() < 7 {
                    (BrowserView { prompt: Some((l, b.push(c))), ..v }, CommandView::Nothing)
                } else {
                    (v, CommandView::Nothing)
                }
            },
            None => (v, CommandView::Nothing),
        },
        _ => (v, CommandView::Nothing),
    }
}

/// What a key does: with the prompt open it goes to the prompt; otherwise
/// q/Esc quit, j/k and the arrows move, g/G and Home/End jump, Enter
/// activates, h/Backspace go up, Space pauses (or activates where nothing
/// is loaded), n/p step through the files, x stops, r refreshes, v and c
/// cycle the visualisation and the colours, C opens the prompt, and
/// Left/Right seek.
pub open spec fn key_step(v: BrowserView, key: Key, track: Seq<char>, has_track: bool) -> (
    BrowserView,
    CommandView,
) {
    if v.prompt is Some {
        prompt_key_step(v, key)
    } else {
        match key {
            Key::Char(c) => {
                if c == 'q' {
                    (BrowserView { quit: true, ..v }, CommandView::Nothing)
                } else if c == 'j' {
                    (moved(v, 1), CommandView::Nothing)
                } else if c == 'k' {
                    (moved(v, -1), CommandView::Nothing)
                } else if c == 'g' {
                    (BrowserView { sel: 0, ..v }, CommandView::Nothing)
                } else if c == 'G' {
                    (
                        BrowserView {
                            sel: if v.rows.len() > 0 {
                                (v.rows.len() - 1) as nat
                            } else {
                                0
                            },
                            ..v
                        },
                        CommandView::Nothing,
                    )
                } else if c == 'h' {
                    (v, CommandView::GoUp)
                } else if c == ' ' {
                    if has_track {
                        (v, CommandView::TogglePause)
                    } else {
                        play_selected_step(v)
                    }
                } else if c == 'n' {
                    step_play_step(v, 1, track)
                } else if c == 'p' {
                    step_play_step(v, -1, track)
                } else if c == 'x' {
                    (v, CommandView::Stop)
                } else if c == 'r' {
                    (v, CommandView::Refresh)
                } else if c == 'v' {
                    cycle_viz_step(v)
                } else if c == 'c' {
                    cycle_color_step(v)
                } else if c == 'C' {
                    (open_prompt_step(v), CommandView::Nothing)
                } else {
                    (v, CommandView::Nothing)
                }
            },
            Key::Esc => (BrowserView { quit: true, ..v }, CommandView::Nothing),
            Key::Down => (moved(v, 1), CommandView::Nothing),
            Key::Up => (moved(v, -1), CommandView::Nothing),
            Key::Home => (BrowserView { sel: 0, ..v }, CommandView::Nothing),
            Key::End => (
                BrowserView {
                    sel: if v.rows.len() > 0 {
                        (v.rows.len() - 1) as nat
                    } else {
                        0
                    },
                    ..v
                },
                CommandView::Nothing,
            ),
            Key::Enter => play_selected_step(v),
            Key::Backspace => (v, CommandView::GoUp),
            Key::Left => (v, CommandView::SeekBack),
            Key::Right => (v, CommandView::SeekForward),
            Key::Other => (v, CommandView::Nothing),
        }
    }
}

// ---------------------------------------------------------------------------
// Cyclic indices
// ---------------------------------------------------------------------------

/// `base + delta` taken cyclically over `n` places.
pub fn cycle_index(base: usize, delta: i32, n: usize) -> (r: usize)
    requires
        base < n,
    ensures
        r as int == wrap_index(base as int, delta as int, n as int),
        r < n,
{
    let d: usize = if delta >= 0 {
        (delta as usize) % n
    } else {
        let a = (0 - (delta as i64)) as usize;
        let k = a % n;
        proof {
            vstd::arithmetic::div_mod::lemma_fundamental_div_mod(a as int, n as int);
            let q = a as int / n as int;
            assert(delta as int == (-q) * (n as int) - k) by (nonlinear_arith)
                requires
                    a as int == n * q + k,
                    delta as int == -(a as int),
            ;
            assert(delta as int == (-q - 1) * (n as int) + (n - k)) by (nonlinear_arith)
                requires
                    delta as int == (-q) * (n as int) - k,
            ;
            if k == 0 {
                vstd::arithmetic::div_mod::lemma_fundamental_div_mod_converse(
                    delta as int,
                    n as int,
                    -q,
                    0,
                );
            } else {
                vstd::arithmetic::div_mod::lemma_fundamental_div_mod_converse(
                    delta as int,
                    n as int,
                    -q - 1,
                    n - k,
                );
            }
        }
        if k == 0 {
            0
        } else {
            n - k
        }
    };
    assert(d as int == (delta as int) % (n as int));
    proof {
        vstd::arithmetic::div_mod::lemma_fundamental_div_mod(delta as int, n as int);
        let q = delta as int / n as int;
        assert(base + delta == (q + 1) * (n as int) + (base + d - n)) by (nonlinear_arith)
            requires
                delta as int == n * q + d,
        ;
        assert(base + delta == q * (n as int) + (base + d)) by (nonlinear_arith)
            requires
                delta as int == n * q + d,
        ;
        if base + d >= n {
            vstd::arithmetic::div_mod::lemma_fundamental_div_mod_converse(
                base + delta,
                n as int,
                q + 1,
                base + d - n,
            );
        } else {
            vstd::arithmetic::div_mod::lemma_fundamental_div_mod_converse(
                base + delta,
                n as int,
                q,
                base + d,
            );
        }
    }
    if base >= n - d {
        base - (n - d)
    } else {
        base + d
    }
}

/// Stepping forward and then back by the same amount returns to the start.
pub proof fn lemma_wrap_back(base: int, delta: int, n: int)
    requires
        0 <= base < n,
    ensures
        wrap_index(wrap_index(base, delta, n), -delta, n) == base,
{
    let w = wrap_index(base, delta, n);
    vstd::arithmetic::div_mod::lemma_fundamental_div_mod(base + delta, n);
    let q = (base + delta) / n;
    assert(w - delta == (-q) * n + base) by (nonlinear_arith)
        requires
            base + delta == n * q + w,
    ;
    vstd::arithmetic::div_mod::lemma_fundamental_div_mod_converse(w - delta, n, -q, base);
}

/// Moving down and then up (or up and then down) keeps the selection.
pub proof fn lemma_move_back(v: BrowserView, d: int)
    requires
        view_wf(v),
    ensures
        moved(moved(v, d), -d).sel == v.sel,
{
    if v.rows.len() > 0 {
        lemma_wrap_back(v.sel as int, d, v.rows.len() as int);
        vstd::arithmetic::div_mod::lemma_mod_bound(v.sel + d, v.rows.len() as int);
    }
}

/// The first place found in a prefix of the files is the first place in
/// all of them.
proof fn lemma_track_index_prefix(rows: Seq<RowView>, files: Seq<usize>, track: Seq<char>, m: int)
    requires
        0 <= m <= files.len(),
        track_index(rows, files.take(m), track) >= 0,
    ensures
        track_index(rows, files, track) == track_index(rows, files.take(m), track),
    decreases files.len(),
{
    if m < files.len() {
        assert(files.drop_last().take(m) == files.take(m));
        lemma_track_index_prefix(rows, files.drop_last(), track, m);
    } else {
        assert(files.take(m) == files);
    }
}

/// The places of the file rows are increasing and within the rows.
proof fn lemma_file_positions(rows: Seq<RowView>)
    requires
        rows.len() <= usize::MAX,
    ensures
        forall|j: int|
            0 <= j < file_positions(rows).len() ==> (#[trigger] file_positions(rows)[j]) < rows.len()
                && rows[file_positions(rows)[j] as int] is File,
    decreases rows.len(),
{
    if rows.len() > 0 {
        lemma_file_positions(rows.drop_last());
        let fp = file_positions(rows);
        let rest = file_positions(rows.drop_last());
        assert forall|j: int| 0 <= j < fp.len() implies (#[trigger] fp[j]) < rows.len() && rows[fp[j] as int] is File by {
            if j < rest.len() {
                assert(fp[j] == rest[j]);
                assert(rows.drop_last()[rest[j] as int] == rows[rest[j] as int]);
            } else {
                assert(rows.last() is File);
                assert(fp[j] == (rows.len() - 1) as usize);
                assert(rows[fp[j] as int] == rows.last());
            }
        }
    }
}

/// No file row leads to the path of a later file row: the listed files are
/// pairwise different paths.
pub open spec fn distinct_file_paths(rows: Seq<RowView>) -> bool {
    let files = file_positions(rows);
    forall|i: int, j: int|
        0 <= i < j < files.len() ==> !row_leads_to(
            rows[#[trigger] files[i] as int],
            row_path(rows[#[trigger] files[j] as int])->0,
        )
}

/// Where no file leads to `track`, it is not found.
proof fn lemma_track_index_absent(rows: Seq<RowView>, files: Seq<usize>, track: Seq<char>)
    requires
        forall|i: int| 0 <= i < files.len() ==> !row_leads_to(rows[#[trigger] files[i] as int], track),
    ensures
        track_index(rows, files, track) == -1,
    decreases files.len(),
{
    if files.len() > 0 {
        assert forall|i: int| 0 <= i < files.drop_last().len() implies !row_leads_to(
            rows[#[trigger] files.drop_last()[i] as int],
            track,
        ) by {
            assert(files.drop_last()[i] == files[i]);
        }
        lemma_track_index_absent(rows, files.drop_last(), track);
    }
}

/// With distinct paths, the file at place `k` is where its own path is found.
proof fn lemma_track_index_unique(rows: Seq<RowView>, files: Seq<usize>, k: int)
    requires
        0 <= k < files.len(),
        row_path(rows[files[k] as int]) is Some,
        forall|i: int, j: int|
            0 <= i < j < files.len() ==> !row_leads_to(
                rows[#[trigger] files[i] as int],
                row_path(rows[#[trigger] files[j] as int])->0,
            ),
    ensures
        track_index(rows, files, row_path(rows[files[k] as int])->0) == k,
    decreases files.len(),
{
    let t = row_path(rows[files[k] as int])->0;
    let d = files.drop_last();
    if k < files.len() - 1 {
        assert forall|i: int, j: int| 0 <= i < j < d.len() implies !row_leads_to(
            rows[#[trigger] d[i] as int],
            row_path(rows[#[trigger] d[j] as int])->0,
        ) by {
            assert(d[i] == files[i] && d[j] == files[j]);
        }
        assert(d[k] == files[k]);
        lemma_track_index_unique(rows, d, k);
    } else {
        assert forall|i: int| 0 <= i < d.len() implies !row_leads_to(rows[#[trigger] d[i] as int], t)
            by {
            assert(d[i] == files[i]);
            assert(files[k] == files[i + (k - i)]);
        }
        lemma_track_index_absent(rows, d, t);
        assert(row_leads_to(rows[files.last() as int], t));
    }
}

/// Pressing `n` and then, once the decode is done, `p` comes back to the
/// file that was playing before (the row whose path equals the playing
/// track as a path), where the listed files are distinct paths.
pub proof fn lemma_next_then_previous(v: BrowserView, track: Seq<char>)
    requires
        view_wf(v),
        !v.loading,
        v.rows.len() <= usize::MAX,
        file_positions(v.rows).len() > 0,
        distinct_file_paths(v.rows),
        track_index(v.rows, file_positions(v.rows), track) >= 0,
    ensures
        ({
            let files = file_positions(v.rows);
            let (v1, c1) = step_play_step(v, 1, track);
            let next = match c1 {
                CommandView::Decode(p) => p,
                _ => seq![],
            };
            let (v2, c2) = step_play_step(BrowserView { loading: false, ..v1 }, -1, next);
            &&& c1 is Decode
            &&& v1.rows == v.rows
            &&& v2.sel == files[track_index(v.rows, files, track)]
            &&& c2 == CommandView::Decode(row_path(v.rows[v2.sel as int])->0)
            &&& same_path(row_path(v.rows[v2.sel as int])->0, track)
        }),
{
    let rows = v.rows;
    let files = file_positions(rows);
    let n = files.len() as int;
    lemma_file_positions(rows);
    let b = track_index(rows, files, track);
    lemma_track_index_found(rows, files, track);
    let k1 = wrap_index(b, 1, n);
    vstd::arithmetic::div_mod::lemma_mod_bound(b + 1, n);
    let s1 = files[k1];
    assert(rows[s1 as int] is File);
    let p1 = row_path(rows[s1 as int])->0;
    lemma_track_index_unique(rows, files, k1);
    lemma_wrap_back(b, 1, n);
    assert(wrap_index(k1, -1, n) == b);
    assert(rows[files[b] as int] is File);
}

/// A place found for `track` is a file leading to it.
proof fn lemma_track_index_found(rows: Seq<RowView>, files: Seq<usize>, track: Seq<char>)
    ensures
        track_index(rows, files, track) >= 0 ==> track_index(rows, files, track) < files.len()
            && row_leads_to(rows[files[track_index(rows, files, track)] as int], track),
    decreases files.len(),
{
    if files.len() > 0 {
        lemma_track_index_found(rows, files.drop_last(), track);
        let k = track_index(rows, files.drop_last(), track);
        if k >= 0 {
            assert(files.drop_last()[k] == files[k]);
        }
    }
}

// ---------------------------------------------------------------------------
// The state
// ---------------------------------------------------------------------------

impl Browser {
    /// The well-formedness of the state.
    pub open spec fn wf(&self) -> bool {
        view_wf(self@)
    }

    /// The state before any directory is entered.
    pub fn new(settings: Settings) -> (b: Browser)
        ensures
            b.wf(),
            b@.cwd.len() == 0,
            b@.rows.len() == 0,
            b@.sel == 0,
            b@.settings == settings,
            b@.prompt is None,
            !b@.loading,
            b@.notice is None,
            !b@.quit,
    {
        let b = Browser {
            cwd: String::new(),
            rows: Vec::new(),
            sel: 0,
            settings,
            prompt: None,
            loading: false,
            notice: None,
            quit: false,
        };
        assert(b@.rows =~= Seq::<RowView>::empty());
        b
    }

    /// Takes fresh rows of the current directory.
    pub fn set_rows(&mut self, rows: Vec<Row>)
        requires
            old(self).wf(),
        ensures
            final(self)@ == with_rows(old(self)@, views(rows@)),
            final(self).wf(),
    {
        let n = rows.len();
        self.rows = rows;
        self.notice = None;
        if self.sel >= n {
            self.sel = if n == 0 {
                0
            } else {
                n - 1
            };
        }
    }

    /// Takes the rows of a directory just entered.
    pub fn enter_dir(&mut self, cwd: String, rows: Vec<Row>)
        requires
            old(self).wf(),
        ensures
            final(self)@ == entered(old(self)@, cwd@, views(rows@)),
            final(self).wf(),
    {
        self.cwd = cwd;
        self.sel = 0;
        self.set_rows(rows);
    }

    /// Moves the selection by `d` rows, cyclically.
    pub fn move_sel(&mut self, d: i32)
        requires
            old(self).wf(),
        ensures
            final(self)@ == moved(old(self)@, d as int),
            final(self).wf(),
    {
        let len = self.rows.len();
        if len == 0 {
            return;
        }
        self.sel = cycle_index(self.sel, d, len);
    }

    /// Asks to play the file at `path`.
    pub fn play_path(&mut self, path: String) -> (c: Command)
        requires
            old(self).wf(),
        ensures
            (final(self)@, c@) == play_path_step(old(self)@, path@),
            final(self).wf(),
    {
        if self.loading {
            self.notice = Some(owned("正在解码上一首，请稍候…"));
            return Command::Nothing;
        }
        let name = match path_file_name(path.as_str()) {
            Some(n) => n,
            None => String::new(),
        };
        self.loading = true;
        self.notice = Some(join2("正在解码: ", name.as_str()));
        Command::Decode(path)
    }

    /// Activates the selected row.
    pub fn play_selected(&mut self) -> (c: Command)
        requires
            old(self).wf(),
        ensures
            (final(self)@, c@) == play_selected_step(old(self)@),
            final(self).wf(),
    {
        if self.sel >= self.rows.len() {
            return Command::Nothing;
        }
        let (kind, path): (u8, Option<String>) = match &self.rows[self.sel] {
            Row::Dir { path, .. } => (0, Some(path.clone())),
            Row::File { path, .. } => (1, Some(path.clone())),
            Row::Parent => (2, None),
        };
        match path {
            Some(p) => {
                if kind == 0 {
                    Command::ChangeDir(p)
                } else {
                    self.play_path(p)
                }
            },
            None => Command::GoUp,
        }
    }

    /// The places of the file rows.
    fn file_places(&self) -> (files: Vec<usize>)
        ensures
            files@ == file_positions(self@.rows),
            forall|j: int| 0 <= j < files.len() ==> (#[trigger] files@[j]) < self.rows.len(),
    {
        let ghost rows = self@.rows;
        let mut files: Vec<usize> = Vec::new();
        for i in 0..self.rows.len()
            invariant
                rows == self@.rows,
                rows.len() == self.rows.len(),
                files@ == file_positions(rows.take(i as int)),
        {
            assert(rows.take(i + 1).drop_last() == rows.take(i as int));
            assert(rows.take(i + 1).last() == rows[i as int]);
            if self.rows[i].is_file() {
                files.push(i);
            }
        }
        assert(rows.take(rows.len() as int) == rows);
        proof {
            lemma_file_positions(rows);
        }
        files
    }

    /// The first place in `files` whose row leads to a path equal, as a
    /// path, to `track`.
    fn find_track(&self, files: &Vec<usize>, track: &str) -> (r: Option<usize>)
        requires
            forall|j: int| 0 <= j < files.len() ==> (#[trigger] files@[j]) < self.rows.len(),
        ensures
            match r {
                Some(f) => f < files.len() && track_index(self@.rows, files@, track@) == f,
                None => track_index(self@.rows, files@, track@) == -1,
            },
    {
        let ghost rows = self@.rows;
        let mut k: usize = 0;
        while k < files.len()
            invariant
                rows == self@.rows,
                rows.len() == self.rows.len(),
                forall|j: int| 0 <= j < files.len() ==> (#[trigger] files@[j]) < rows.len(),
                k <= files.len(),
                track_index(rows, files@.take(k as int), track@) == -1,
            decreases files.len() - k,
        {
            assert(files@.take(k + 1).drop_last() == files@.take(k as int));
            assert(files@.take(k + 1).last() == files@[k as int]);
            let hit = match self.rows[files[k]].path() {
                Some(p) => paths_equal(p.as_str(), track),
                None => false,
            };
            if hit {
                assert(rows[files@[k as int] as int] == self.rows@[files@[k as int] as int]@);
                assert(track_index(rows, files@.take(k + 1), track@) == k);
                proof {
                    lemma_track_index_prefix(rows, files@, track@, k + 1);
                }
                return Some(k);
            }
            k = k + 1;
        }
        assert(files@.take(files.len() as int) == files@);
        None
    }

    /// Plays the file `delta` places after the one playing now.
    pub fn step_play(&mut self, delta: i32, track: &str) -> (c: Command)
        requires
            old(self).wf(),
        ensures
            (final(self)@, c@) == step_play_step(old(self)@, delta as int, track@),
            final(self).wf(),
    {
        let files = self.file_places();
        if files.len() == 0 {
            return Command::Nothing;
        }
        let found = self.find_track(&files, track);
        let base = match found {
            Some(f) => f,
            None => 0,
        };
        let idx = cycle_index(base, delta, files.len());
        self.sel = files[idx];
        self.play_selected()
    }

    /// Reports a finished decode; on success returns the path of the track
    /// to play.
    pub fn decode_finished(&mut self, result: Result<(), String>) -> (r: Option<String>)
        requires
            old(self).wf(),
        ensures
            (final(self)@, text_option(r)) == decode_finished_step(
                old(self)@,
                match result {
                    Ok(_) => Ok(()),
                    Err(e) => Err(e@),
                },
            ),
            final(self).wf(),
    {
        self.loading = false;
        match result {
            Ok(_) => {
                let path = if self.sel < self.rows.len() {
                    self.rows[self.sel].path()
                } else {
                    None
                };
                match path {
                    Some(p) => {
                        self.notice = None;
                        Some(p)
                    },
                    None => {
                        self.notice = Some(owned("没有可播放的曲目"));
                        None
                    },
                }
            },
            Err(e) => {
                self.notice = Some(join2("解码失败: ", e.as_str()));
                None
            },
        }
    }

    /// Switches to the next visualisation.
    pub fn cycle_viz(&mut self) -> (c: Command)
        requires
            old(self).wf(),
        ensures
            (final(self)@, c@) == cycle_viz_step(old(self)@),
            final(self).wf(),
    {
        self.settings.viz = self.settings.viz.next();
        self.notice = Some(join2("可视化方式: ", self.settings.viz.label()));
        Command::SaveSettings
    }

    /// Switches to the next colour preset.
    pub fn cycle_color(&mut self) -> (c: Command)
        requires
            old(self).wf(),
        ensures
            (final(self)@, c@) == cycle_color_step(old(self)@),
            final(self).wf(),
    {
        self.settings.color = next_color(self.settings.color);
        let label = color_label(self.settings.color);
        self.notice = Some(join2("配色: ", label.as_str()));
        Command::SaveSettings
    }

    /// Opens the colour prompt.
    pub fn open_custom_color(&mut self)
        requires
            old(self).wf(),
        ensures
            final(self)@ == open_prompt_step(old(self)@),
            final(self).wf(),
    {
        proof {
            reveal_strlit("#");
        }
        self.prompt = Some(
            Prompt { label: owned("输入自定义颜色 #rrggbb（Enter 确认 · Esc 取消）"), buf: owned("#") },
        );
    }

    /// Confirms the colour prompt.
    pub fn prompt_commit(&mut self) -> (c: Command)
        requires
            old(self).wf(),
        ensures
            (final(self)@, c@) == commit_step(old(self)@),
            final(self).wf(),
    {
        let buf = match self.prompt.take() {
            Some(p) => p.buf,
            None => String::new(),
        };
        match parse_hex(buf.as_str()) {
            Some((r, g, b)) => {
                self.settings.color = ColorPref::Custom { r, g, b };
                let label = color_label(self.settings.color);
                self.notice = Some(join2("自定义颜色: ", label.as_str()));
                Command::SaveSettings
            },
            None => {
                let mut n = join2("无效颜色「", buf.as_str());
                n.append("」，应形如 #00ff88");
                self.notice = Some(n);
                Command::Nothing
            },
        }
    }

    /// Closes the colour prompt without a change.
    pub fn prompt_cancel(&mut self)
        requires
            old(self).wf(),
        ensures
            final(self)@ == cancel_step(old(self)@),
            final(self).wf(),
    {
        self.prompt = None;
        self.notice = None;
    }

    /// A key while the colour prompt is open.
    pub fn handle_prompt_key(&mut self, key: Key) -> (c: Command)
        requires
            old(self).wf(),
        ensures
            (final(self)@, c@) == prompt_key_step(old(self)@, key),
            final(self).wf(),
    {
        match key {
            Key::Esc => {
                self.prompt_cancel();
                Command::Nothing
            },
            Key::Enter => self.prompt_commit(),
            Key::Backspace => {
                if let Some(p) = &mut self.prompt {
                    let _ = pop_char(&mut p.buf);
                }
                Command::Nothing
            },
            Key::Char(c) => {
                if let Some(p) = &mut self.prompt {
                    let count = chars_of(p.buf.as_str()).len();
                    if (hex_digit(c) || (c == '#' && count == 0)) && count < 7 {
                        push_char(&mut p.buf, c);
                    }
                }
                Command::Nothing
            },
            _ => Command::Nothing,
        }
    }

    /// What a key does; `track` is the path of the loaded track and
    /// `has_track` whether one is loaded.
    pub fn handle_key(&mut self, key: Key, track: &str, has_track: bool) -> (c: Command)
        requires
            old(self).wf(),
        ensures
            (final(self)@, c@) == key_step(old(self)@, key, track@, has_track),
            final(self).wf(),
    {
        if self.prompt.is_some() {
            return self.handle_prompt_key(key);
        }
        match key {
            Key::Char(c) => {
                if c == 'q' {
                    self.quit = true;
                    Command::Nothing
                } else if c == 'j' {
                    self.move_sel(1);
                    Command::Nothing
                } else if c == 'k' {
                    self.move_sel(-1);
                    Command::Nothing
                } else if c == 'g' {
                    self.sel = 0;
                    Command::Nothing
                } else if c == 'G' {
                    self.sel = self.rows.len().saturating_sub(1);
                    Command::Nothing
                } else if c == 'h' {
                    Command::GoUp
                } else if c == ' ' {
                    if has_track {
                        Command::TogglePause
                    } else {
                        self.play_selected()
                    }
                } else if c == 'n' {
                    self.step_play(1, track)
                } else if c == 'p' {
                    self.step_play(-1, track)
                } else if c == 'x' {
                    Command::Stop
                } else if c == 'r' {
                    Command::Refresh
                } else if c == 'v' {
                    self.cycle_viz()
                } else if c == 'c' {
                    self.cycle_color()
                } else if c == 'C' {
                    self.open_custom_color();
                    Command::Nothing
                } else {
                    Command::Nothing
                }
            },
            Key::Esc => {
                self.quit = true;
                Command::Nothing
            },
            Key::Down => {
                self.move_sel(1);
                Command::Nothing
            },
            Key::Up => {
                self.move_sel(-1);
                Command::Nothing
            },
            Key::Home => {
                self.sel = 0;
                Command::Nothing
            },
            Key::End => {
                self.sel = self.rows.len().saturating_sub(1);
                Command::Nothing
            },
            Key::Enter => self.play_selected(),
            Key::Backspace => Command::GoUp,
            Key::Left => Command::SeekBack,
            Key::Right => Command::SeekForward,
            Key::Other => Command::Nothing,
        }
    }
}

} // verus!
