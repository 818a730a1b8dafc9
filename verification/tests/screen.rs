//! Keys, clicks, the clipboard and windows.

use mimicwx::display::{
    answer_property, answer_selection, client_ids, has_client_list, image_mime, paste_step,
    phase_limit, serve_clipboard, target_list, titled_windows, window_for_title, window_title,
    ClipboardAction, ClipboardAtoms, ClipboardEvent, ClipboardPhase, PasteAction, PasteEvent,
    PasteStage, SelectionAnswer, Window, LINGERING_MS, SERVING_MS,
};
use mimicwx::input::{
    char_to_keysym, key_name_to_keysym, lower_name_to_keysym, DialogFile, InputEngine, InputError,
    Step, CLICK_HOLD_MS, KEY_HOLD_MS, TYPING_DELAY_MS, XK_BACKSPACE, XK_CONTROL_L, XK_ESCAPE,
    XK_F5, XK_RETURN, XK_SHIFT_L, XK_SPACE, XK_TAB,
};

const ATOMS: ClipboardAtoms = ClipboardAtoms {
    targets: 10,
    utf8_string: 11,
    string: 31,
};

/// A keyboard from key 8 on, with two symbols per key.
fn engine() -> InputEngine {
    let keysyms = vec![
        0x61, 0x41, // a A
        0x32, 0x40, // 2 @
        XK_SHIFT_L, 0,
        XK_CONTROL_L, 0,
        0x76, 0x56, // v V
        XK_RETURN, 0,
    ];
    InputEngine::new(8, 13, 2, keysyms)
}

fn window(id: u32, title: &str) -> Window {
    Window {
        id,
        title: title.to_string(),
    }
}

#[test]
fn characters_have_symbols() {
    assert_eq!(char_to_keysym(' '), Some(XK_SPACE));
    assert_eq!(char_to_keysym('\n'), Some(XK_RETURN));
    assert_eq!(char_to_keysym('\t'), Some(XK_TAB));
    assert_eq!(char_to_keysym('@'), Some(0x40));
    assert_eq!(char_to_keysym('\u{7f}'), Some(0x7f));
    assert_eq!(char_to_keysym('你'), None);
    assert_eq!(key_name_to_keysym("ENTER"), Some(XK_RETURN));
    assert_eq!(key_name_to_keysym("Escape"), Some(XK_ESCAPE));
    assert_eq!(key_name_to_keysym("BackSpace"), Some(XK_BACKSPACE));
    assert_eq!(key_name_to_keysym("F5"), Some(XK_F5));
    assert_eq!(key_name_to_keysym("A"), Some(0x61));
    assert_eq!(key_name_to_keysym("你"), None);
    assert_eq!(key_name_to_keysym("foo"), None);
    assert_eq!(key_name_to_keysym(""), None);
    assert_eq!(lower_name_to_keysym("control"), Some(XK_CONTROL_L));
    assert_eq!(lower_name_to_keysym("Control"), None);
}

#[test]
fn symbols_are_found_on_the_keyboard() {
    let keyboard = engine();
    assert_eq!(keyboard.keysym_to_keycode(0x61), Some((8, false)));
    assert_eq!(keyboard.keysym_to_keycode(0x41), Some((8, true)));
    assert_eq!(keyboard.keysym_to_keycode(XK_RETURN), Some((13, false)));
    assert_eq!(keyboard.keysym_to_keycode(0x7a), None);
}

#[test]
fn keys_are_pressed_and_released() {
    let keyboard = engine();
    assert_eq!(
        keyboard.press_enter().unwrap(),
        vec![Step::Press(13), Step::Sleep(KEY_HOLD_MS), Step::Release(13)]
    );
    assert_eq!(
        keyboard.press_key("@").unwrap(),
        vec![
            Step::Press(10),
            Step::Press(9),
            Step::Sleep(30),
            Step::Release(9),
            Step::Release(10)
        ]
    );
    assert_eq!(keyboard.press_key("foo").unwrap_err().message(), "未知按键: foo");
    assert_eq!(keyboard.press_key("z").unwrap_err().message(), "按键无映射: z");
    assert_eq!(
        keyboard.key_combo("ctrl + V").unwrap(),
        vec![
            Step::Press(11),
            Step::Sleep(30),
            Step::Press(12),
            Step::Sleep(30),
            Step::Release(12),
            Step::Release(11)
        ]
    );
    assert_eq!(keyboard.key_combo("ctrl+ foo").unwrap_err().message(), "未知按键:  foo");
    assert_eq!(keyboard.key_combo("alt+v").unwrap_err().message(), "按键无映射: alt");
}

#[test]
fn texts_are_typed_up_to_what_cannot_be_typed() {
    let keyboard = engine();
    let (steps, error) = keyboard.type_text("A");
    assert!(error.is_none());
    assert_eq!(
        steps,
        vec![
            Step::Press(10),
            Step::Press(8),
            Step::Sleep(KEY_HOLD_MS),
            Step::Release(8),
            Step::Release(10),
            Step::Sleep(TYPING_DELAY_MS)
        ]
    );
    let (steps, error) = keyboard.type_text("a你a");
    assert_eq!(steps.len(), 4);
    assert!(matches!(&error, Some(InputError::UnknownChar('你'))));
    assert_eq!(error.unwrap().message(), "字符无映射: '你' — 请用 paste_text");
    let (steps, error) = keyboard.type_text("z");
    assert!(steps.is_empty());
    assert_eq!(error.unwrap().message(), "字符无 keycode: 'z'");
}

#[test]
fn pasting_waits_and_presses() {
    let keyboard = engine();
    let plan = keyboard.paste_text();
    assert_eq!((plan.pause_before_ms, plan.pause_after_ms), (30, 50));
    assert_eq!(plan.keys.unwrap().len(), 6);
    let (mime, plan) = keyboard.paste_image("/tmp/a.jpeg");
    assert_eq!((mime, plan.pause_before_ms, plan.pause_after_ms), ("image/jpeg", 200, 300));
    let named = keyboard
        .select_file_from_dialog(Some(DialogFile {
            is_file: true,
            path: Some("/tmp/a b.txt".to_string()),
        }))
        .unwrap();
    assert_eq!(named.path, "/tmp/a b.txt");
    assert_eq!((named.pause_after_path_ms, named.pause_after_enter_ms), (300, 700));
    let refused = |file| keyboard.select_file_from_dialog(file).unwrap_err().message();
    assert_eq!(refused(None), "发送文件不存在");
    assert_eq!(refused(Some(DialogFile { is_file: false, path: None })), "发送目标不是常规文件");
    assert_eq!(refused(Some(DialogFile { is_file: true, path: None })), "发送文件路径不是有效 UTF-8");
    assert_eq!(image_mime("a.png"), "image/png");
    assert_eq!(image_mime("a.jpg"), "image/jpeg");
    assert_eq!(image_mime("a.gif"), "image/gif");
    assert_eq!(image_mime("a.bmp"), "image/bmp");
    assert_eq!(image_mime("a.PNG"), "image/png");
    assert_eq!(image_mime("a.GIF"), "image/png");
}

#[test]
fn the_mouse_clicks() {
    let mouse = engine();
    assert_eq!(mouse.move_mouse(5, -6), vec![Step::Move { x: 5, y: -6 }]);
    assert_eq!(mouse.move_mouse(65537, 32768), vec![Step::Move { x: 1, y: -32768 }]);
    let click = |button| {
        vec![
            Step::Move { x: 1, y: 2 },
            Step::Sleep(50),
            Step::ButtonPress(button),
            Step::Sleep(CLICK_HOLD_MS),
            Step::ButtonRelease(button),
        ]
    };
    assert_eq!(mouse.click(1, 2), click(1));
    assert_eq!(mouse.right_click(1, 2), click(3));
    let mut twice = click(1);
    twice.push(Step::Sleep(100));
    twice.extend(click(1));
    assert_eq!(mouse.double_click(1, 2), twice);
    let up = mouse.scroll(1, 2, 3);
    assert_eq!(up.clicks, 3);
    assert_eq!(up.start, vec![Step::Move { x: 1, y: 2 }, Step::Sleep(50)]);
    assert_eq!(up.each, vec![Step::ButtonPress(4), Step::ButtonRelease(4), Step::Sleep(50)]);
    let down = mouse.scroll(1, 2, i32::MIN);
    assert_eq!(down.clicks, 1 << 31);
    assert_eq!(down.each[0], Step::ButtonPress(5));
    assert_eq!(mouse.scroll(1, 2, 0).clicks, 0);
}

#[test]
fn the_clipboard_answers() {
    assert_eq!(answer_selection(ATOMS, 10), SelectionAnswer::Targets);
    assert_eq!(answer_selection(ATOMS, 11), SelectionAnswer::Text);
    assert_eq!(answer_selection(ATOMS, 31), SelectionAnswer::Text);
    assert_eq!(answer_selection(ATOMS, 99), SelectionAnswer::Refuse);
    assert_eq!(answer_property(SelectionAnswer::Text, 7), 7);
    assert_eq!(answer_property(SelectionAnswer::Targets, 7), 7);
    assert_eq!(answer_property(SelectionAnswer::Refuse, 7), 0);
    assert_eq!(target_list(ATOMS), vec![10, 11, 31]);
    assert_eq!(phase_limit(ClipboardPhase::Serving), SERVING_MS);
    assert_eq!(phase_limit(ClipboardPhase::Lingering), LINGERING_MS);
    assert_eq!((SERVING_MS, LINGERING_MS), (3000, 200));
}

#[test]
fn the_clipboard_is_served_until_the_text_was_taken() {
    let step = |phase, event| serve_clipboard(ATOMS, phase, event);
    assert_eq!(
        step(ClipboardPhase::Serving, ClipboardEvent::Request(10)),
        (ClipboardPhase::Serving, ClipboardAction::Answer(SelectionAnswer::Targets))
    );
    assert_eq!(
        step(ClipboardPhase::Serving, ClipboardEvent::Request(11)),
        (ClipboardPhase::Lingering, ClipboardAction::Answer(SelectionAnswer::Text))
    );
    assert_eq!(
        step(ClipboardPhase::Serving, ClipboardEvent::Cleared).0,
        ClipboardPhase::Finished
    );
    assert_eq!(
        step(ClipboardPhase::Serving, ClipboardEvent::Idle),
        (ClipboardPhase::Serving, ClipboardAction::Sleep(5))
    );
    assert_eq!(
        step(ClipboardPhase::Serving, ClipboardEvent::Other),
        (ClipboardPhase::Serving, ClipboardAction::Nothing)
    );
    assert_eq!(
        step(ClipboardPhase::Serving, ClipboardEvent::TimedOut).0,
        ClipboardPhase::Finished
    );
    assert_eq!(
        step(ClipboardPhase::Lingering, ClipboardEvent::Request(31)),
        (ClipboardPhase::Lingering, ClipboardAction::Answer(SelectionAnswer::Text))
    );
    assert_eq!(
        step(ClipboardPhase::Lingering, ClipboardEvent::Cleared),
        (ClipboardPhase::Lingering, ClipboardAction::Sleep(10))
    );
    assert_eq!(
        step(ClipboardPhase::Lingering, ClipboardEvent::Idle),
        (ClipboardPhase::Lingering, ClipboardAction::Sleep(10))
    );
    assert_eq!(
        step(ClipboardPhase::Lingering, ClipboardEvent::TimedOut).0,
        ClipboardPhase::Finished
    );
}

#[test]
fn windows_are_found_by_their_titles() {
    let windows = vec![window(1, "微信"), window(2, "Chat 微信"), window(3, "Other")];
    let all = titled_windows(&windows, "微信", false);
    assert_eq!(all.iter().map(|w| w.id).collect::<Vec<u32>>(), vec![1, 2]);
    assert_eq!(titled_windows(&windows, "微信", true).len(), 1);
    assert_eq!(window_for_title(&windows, "Chat", false), Some(2));
    assert_eq!(window_for_title(&windows, "Chat", true), None);
    let keyboard = engine();
    assert_eq!(keyboard.find_windows_by_title(&windows, "微信", false).len(), 2);
    assert_eq!(keyboard.activate_window_by_title(&windows, "Other", true), Some(3));
    assert_eq!(keyboard.close_window_by_title(&windows, "the"), Some(3));
    assert!(has_client_list(32, 4));
    assert!(!has_client_list(32, 0));
    assert!(!has_client_list(8, 4));
}

#[test]
fn titles_are_read() {
    let bytes = |s: &str| Some(s.as_bytes().to_vec());
    assert_eq!(window_title(&bytes("a"), &bytes("b")).unwrap(), "a");
    assert_eq!(window_title(&bytes(""), &bytes("b")).unwrap(), "b");
    assert_eq!(window_title(&Some(vec![0x61, 0xff]), &None).unwrap(), "a\u{fffd}");
    assert!(window_title(&None, &bytes("b")).is_none());
    assert!(window_title(&bytes(""), &None).is_none());
}

#[test]
fn keys_are_the_display_s() {
    assert_eq!(key_name_to_keysym("alt"), Some(0xffe9));
    assert_eq!(key_name_to_keysym("ctrl"), Some(0xffe3));
    assert_eq!(key_name_to_keysym("shift"), Some(0xffe1));
}

#[test]
fn the_first_bad_part_of_a_combination_is_named() {
    let keyboard = engine();
    let error = keyboard.key_combo("ctrl+nothing+tab").unwrap_err();
    assert_eq!(error.message(), "未知按键: nothing");
    let error = keyboard.key_combo("ctrl+tab+nothing").unwrap_err();
    assert_eq!(error.message(), "按键无映射: tab");
    let bare = InputEngine::new(8, 8, 1, vec![0x61]);
    assert_eq!(bare.press_enter().unwrap_err().message(), "按键无映射: Return");
}

#[test]
fn texts_are_pasted_once_the_clipboard_is_owned() {
    let (stage, action) = paste_step(PasteStage::Offering, PasteEvent::Owned);
    assert_eq!((stage, action), (PasteStage::Pressing, PasteAction::Press));
    let (stage, action) = paste_step(stage, PasteEvent::Done);
    assert_eq!((stage, action), (PasteStage::Serving, PasteAction::Await));
    let (stage, action) = paste_step(stage, PasteEvent::Done);
    assert_eq!((stage, action), (PasteStage::Finished, PasteAction::Rest));
    assert_eq!(paste_step(PasteStage::Offering, PasteEvent::Failed).1, PasteAction::GiveUp);
    assert_eq!(paste_step(PasteStage::Pressing, PasteEvent::Failed).1, PasteAction::GiveUp);
    assert_eq!(paste_step(PasteStage::Serving, PasteEvent::Failed).1, PasteAction::GiveUp);
}

#[test]
fn window_lists_are_read_in_the_display_s_order() {
    let bytes = [1u8, 2, 3, 4, 5, 0, 0, 0, 9];
    assert_eq!(client_ids(&bytes, false), vec![0x0403_0201, 5]);
    assert_eq!(client_ids(&bytes, true), vec![0x0102_0304, 0x0500_0000]);
    assert!(client_ids(&[], false).is_empty());
}
