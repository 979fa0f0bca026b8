use tmus::browser::Row;
use tmus::session::{cycle_index, Browser, Command, Key};
use tmus::settings::{ColorPref, Settings, VizKind};

fn file(name: &str) -> Row {
    Row::File { name: name.into(), path: format!("/m/{name}"), size: 1 }
}

fn dir(name: &str) -> Row {
    Row::Dir { name: name.into(), path: format!("/m/{name}") }
}

fn browser() -> Browser {
    let mut b = Browser::new(Settings::default());
    b.enter_dir("/m".into(), vec![Row::Parent, dir("d"), file("a.mp3"), file("b.mp3"), file("c.mp3")]);
    b
}

fn decode_path(c: Command) -> String {
    match c {
        Command::Decode(p) => p,
        other => panic!("expected a decode, got {other:?}"),
    }
}

#[test]
fn cyclic_indices() {
    assert_eq!(cycle_index(0, -1, 5), 4);
    assert_eq!(cycle_index(4, 1, 5), 0);
    assert_eq!(cycle_index(2, 7, 5), 4);
    assert_eq!(cycle_index(2, -7, 5), 0);
    assert_eq!(cycle_index(0, i32::MIN, 3), 1);
    assert_eq!(cycle_index(0, i32::MAX, 3), 1);
}

#[test]
fn moving_the_selection() {
    let mut b = browser();
    assert_eq!(b.sel, 0);
    b.handle_key(Key::Up, "", false);
    assert_eq!(b.sel, 4);
    b.handle_key(Key::Char('j'), "", false);
    assert_eq!(b.sel, 0);
    b.handle_key(Key::Char('G'), "", false);
    assert_eq!(b.sel, 4);
    b.handle_key(Key::Home, "", false);
    assert_eq!(b.sel, 0);
    let mut empty = Browser::new(Settings::default());
    empty.handle_key(Key::Down, "", false);
    assert_eq!(empty.sel, 0);
    empty.handle_key(Key::End, "", false);
    assert_eq!(empty.sel, 0);
}

#[test]
fn activating_rows() {
    let mut b = browser();
    assert!(matches!(b.handle_key(Key::Enter, "", false), Command::GoUp));
    b.handle_key(Key::Down, "", false);
    match b.handle_key(Key::Enter, "", false) {
        Command::ChangeDir(p) => assert_eq!(p, "/m/d"),
        other => panic!("{other:?}"),
    }
    b.handle_key(Key::Down, "", false);
    assert_eq!(decode_path(b.handle_key(Key::Enter, "", false)), "/m/a.mp3");
    assert!(b.loading);
    assert_eq!(b.notice.as_deref(), Some("正在解码: a.mp3"));
    assert!(matches!(b.handle_key(Key::Enter, "", false), Command::Nothing));
    assert_eq!(b.notice.as_deref(), Some("正在解码上一首，请稍候…"));
    assert_eq!(b.decode_finished(Ok(())), Some("/m/a.mp3".to_string()));
    assert!(!b.loading);
    assert_eq!(b.notice, None);
    assert_eq!(b.decode_finished(Err("bad".into())), None);
    assert_eq!(b.notice.as_deref(), Some("解码失败: bad"));
    b.sel = 0;
    assert_eq!(b.decode_finished(Ok(())), None);
    assert_eq!(b.notice.as_deref(), Some("没有可播放的曲目"));
}

#[test]
fn stepping_through_files() {
    let mut b = browser();
    assert_eq!(decode_path(b.handle_key(Key::Char('n'), "/m/b.mp3", true)), "/m/c.mp3");
    assert_eq!(b.sel, 4);
    b.decode_finished(Ok(()));
    assert_eq!(decode_path(b.handle_key(Key::Char('n'), "/m/c.mp3", true)), "/m/a.mp3");
    b.decode_finished(Ok(()));
    assert_eq!(decode_path(b.handle_key(Key::Char('p'), "/m/a.mp3", true)), "/m/c.mp3");
    b.decode_finished(Ok(()));
    // An unlisted track counts as the first file.
    assert_eq!(decode_path(b.handle_key(Key::Char('n'), "/elsewhere.mp3", true)), "/m/b.mp3");
    let mut no_files = Browser::new(Settings::default());
    no_files.enter_dir("/x".into(), vec![Row::Parent, dir("d")]);
    assert!(matches!(no_files.handle_key(Key::Char('n'), "", false), Command::Nothing));
}

#[test]
fn stepping_finds_the_track_as_a_path() {
    let mut b = Browser::new(Settings::default());
    b.enter_dir("/m".into(), vec![file("a.mp3"), file("b.mp3")]);
    // `/m//b.mp3` is the same path as `/m/b.mp3`, so the next file is the first.
    assert_eq!(decode_path(b.handle_key(Key::Char('n'), "/m//b.mp3", true)), "/m/a.mp3");
    assert_eq!(b.sel, 0);
    b.decode_finished(Ok(()));
    assert_eq!(decode_path(b.handle_key(Key::Char('p'), "/m/./a.mp3", true)), "/m/b.mp3");
    assert_eq!(b.sel, 1);
}

#[test]
fn playback_keys() {
    let mut b = browser();
    assert!(matches!(b.handle_key(Key::Char(' '), "/m/a.mp3", true), Command::TogglePause));
    assert!(matches!(b.handle_key(Key::Char(' '), "", false), Command::GoUp));
    assert!(matches!(b.handle_key(Key::Char('x'), "", true), Command::Stop));
    assert!(matches!(b.handle_key(Key::Char('r'), "", true), Command::Refresh));
    assert!(matches!(b.handle_key(Key::Left, "", true), Command::SeekBack));
    assert!(matches!(b.handle_key(Key::Right, "", true), Command::SeekForward));
    assert!(matches!(b.handle_key(Key::Char('h'), "", true), Command::GoUp));
    assert!(matches!(b.handle_key(Key::Backspace, "", true), Command::GoUp));
    assert!(!b.quit);
    b.handle_key(Key::Char('q'), "", true);
    assert!(b.quit);
}

#[test]
fn visual_settings_keys() {
    let mut b = browser();
    assert!(matches!(b.handle_key(Key::Char('v'), "", false), Command::SaveSettings));
    assert_eq!(b.settings.viz, VizKind::Wave);
    assert_eq!(b.notice.as_deref(), Some("可视化方式: 波形"));
    assert!(matches!(b.handle_key(Key::Char('c'), "", false), Command::SaveSettings));
    assert_eq!(b.settings.color, ColorPref::Preset(1));
    assert_eq!(b.notice.as_deref(), Some("配色: 霓虹 2/6"));
}

#[test]
fn custom_colour_prompt() {
    let mut b = browser();
    b.handle_key(Key::Char('C'), "", false);
    assert_eq!(b.prompt.as_ref().unwrap().buf, "#");
    for c in "0g0#ff88aa".chars() {
        b.handle_key(Key::Char(c), "", false);
    }
    // 'g' and the second '#' are refused; at most seven characters are kept.
    assert_eq!(b.prompt.as_ref().unwrap().buf, "#00ff88");
    b.handle_key(Key::Backspace, "", false);
    b.handle_key(Key::Char('9'), "", false);
    assert_eq!(b.prompt.as_ref().unwrap().buf, "#00ff89");
    // Keys go to the prompt while it is open.
    b.handle_key(Key::Char('q'), "", false);
    assert!(!b.quit);
    assert!(matches!(b.handle_key(Key::Enter, "", false), Command::SaveSettings));
    assert!(b.prompt.is_none());
    assert_eq!(b.settings.color, ColorPref::Custom { r: 0, g: 0xff, b: 0x89 });
    assert_eq!(b.notice.as_deref(), Some("自定义颜色: #00ff89"));

    b.handle_key(Key::Char('C'), "", false);
    b.handle_key(Key::Char('1'), "", false);
    assert!(matches!(b.handle_key(Key::Enter, "", false), Command::Nothing));
    assert_eq!(b.notice.as_deref(), Some("无效颜色「#1」，应形如 #00ff88"));

    b.handle_key(Key::Char('C'), "", false);
    b.handle_key(Key::Backspace, "", false);
    b.handle_key(Key::Char('#'), "", false);
    assert_eq!(b.prompt.as_ref().unwrap().buf, "#");
    b.handle_key(Key::Esc, "", false);
    assert!(b.prompt.is_none());
    assert_eq!(b.notice, None);
    assert!(!b.quit);
}

#[test]
fn fresh_rows_keep_selection_in_range() {
    let mut b = browser();
    b.sel = 4;
    b.notice = Some("x".into());
    b.set_rows(vec![Row::Parent, file("a.mp3")]);
    assert_eq!(b.sel, 1);
    assert_eq!(b.notice, None);
    b.set_rows(vec![]);
    assert_eq!(b.sel, 0);
    b.enter_dir("/n".into(), vec![file("z.mp3")]);
    assert_eq!((b.cwd.as_str(), b.sel), ("/n", 0));
}
