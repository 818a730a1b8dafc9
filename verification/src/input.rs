//! Keyboard and mouse: what is sent to the display for a key, a text or a click.

use vstd::prelude::*;
use vstd::string::*;

use crate::display::{image_mime, titled_windows, window_for_title, Window};
use crate::outside::to_lowercase;
use crate::text::{split, text_eq, to_chars, trim};

verus! {

// ---------------------------------------------------------------------------
// Key symbols
// ---------------------------------------------------------------------------

pub const XK_SPACE: u32 = 0x0020;

pub const XK_RETURN: u32 = 0xff0d;

pub const XK_ESCAPE: u32 = 0xff1b;

pub const XK_TAB: u32 = 0xff09;

pub const XK_BACKSPACE: u32 = 0xff08;

pub const XK_DELETE: u32 = 0xffff;

pub const XK_HOME: u32 = 0xff50;

pub const XK_END: u32 = 0xff57;

pub const XK_LEFT: u32 = 0xff51;

pub const XK_UP: u32 = 0xff52;

pub const XK_RIGHT: u32 = 0xff53;

pub const XK_DOWN: u32 = 0xff54;

pub const XK_SHIFT_L: u32 = 0xffe1;

pub const XK_CONTROL_L: u32 = 0xffe3;

pub const XK_ALT_L: u32 = 0xffe9;

pub const XK_F1: u32 = 0xffbe;

pub const XK_F2: u32 = 0xffbf;

pub const XK_F3: u32 = 0xffc0;

pub const XK_F4: u32 = 0xffc1;

pub const XK_F5: u32 = 0xffc2;

/// How long a key is held down, in milliseconds.
pub const KEY_HOLD_MS: u64 = 30;

/// The pause between two typed characters, in milliseconds.
pub const TYPING_DELAY_MS: u64 = 20;

/// How long a mouse button is held down, in milliseconds.
pub const CLICK_HOLD_MS: u64 = 50;

/// The key symbol of a character that can be typed.
pub open spec fn symbol_of_char(c: char) -> Option<u32> {
    if c == ' ' {
        Some(XK_SPACE)
    } else if c == '\n' {
        Some(XK_RETURN)
    } else if c == '\t' {
        Some(XK_TAB)
    } else if c <= '\u{7f}' {
        Some(c as u32)
    } else {
        None
    }
}

/// The key symbol of a character that can be typed.
pub fn char_to_keysym(c: char) -> (symbol: Option<u32>)
    ensures
        symbol == symbol_of_char(c),
{
    if c == ' ' {
        Some(XK_SPACE)
    } else if c == '\n' {
        Some(XK_RETURN)
    } else if c == '\t' {
        Some(XK_TAB)
    } else if c <= '\u{7f}' {
        Some(c as u32)
    } else {
        None
    }
}

/// The key symbol that a name in small letters stands for.
pub open spec fn symbol_of_name(lower: Seq<char>) -> Option<u32> {
    if lower == "return"@ || lower == "enter"@ {
        Some(XK_RETURN)
    } else if lower == "escape"@ || lower == "esc"@ {
        Some(XK_ESCAPE)
    } else if lower == "tab"@ {
        Some(XK_TAB)
    } else if lower == "backspace"@ {
        Some(XK_BACKSPACE)
    } else if lower == "delete"@ {
        Some(XK_DELETE)
    } else if lower == "space"@ {
        Some(XK_SPACE)
    } else if lower == "home"@ {
        Some(XK_HOME)
    } else if lower == "end"@ {
        Some(XK_END)
    } else if lower == "left"@ {
        Some(XK_LEFT)
    } else if lower == "right"@ {
        Some(XK_RIGHT)
    } else if lower == "up"@ {
        Some(XK_UP)
    } else if lower == "down"@ {
        Some(XK_DOWN)
    } else if lower == "shift"@ {
        Some(XK_SHIFT_L)
    } else if lower == "ctrl"@ || lower == "control"@ {
        Some(XK_CONTROL_L)
    } else if lower == "alt"@ {
        Some(XK_ALT_L)
    } else if lower == "f1"@ {
        Some(XK_F1)
    } else if lower == "f2"@ {
        Some(XK_F2)
    } else if lower == "f3"@ {
        Some(XK_F3)
    } else if lower == "f4"@ {
        Some(XK_F4)
    } else if lower == "f5"@ {
        Some(XK_F5)
    } else if lower.len() == 1 && lower[0] <= '\u{7f}' {
        symbol_of_char(lower[0])
    } else {
        None
    }
}

/// The key symbol that a name in small letters stands for.
pub fn lower_name_to_keysym(lower: &str) -> (symbol: Option<u32>)
    ensures
        symbol == symbol_of_name(lower@),
{
    if text_eq(lower, "return") || text_eq(lower, "enter") {
        Some(XK_RETURN)
    } else if text_eq(lower, "escape") || text_eq(lower, "esc") {
        Some(XK_ESCAPE)
    } else if text_eq(lower, "tab") {
        Some(XK_TAB)
    } else if text_eq(lower, "backspace") {
        Some(XK_BACKSPACE)
    } else if text_eq(lower, "delete") {
        Some(XK_DELETE)
    } else if text_eq(lower, "space") {
        Some(XK_SPACE)
    } else if text_eq(lower, "home") {
        Some(XK_HOME)
    } else if text_eq(lower, "end") {
        Some(XK_END)
    } else if text_eq(lower, "left") {
        Some(XK_LEFT)
    } else if text_eq(lower, "right") {
        Some(XK_RIGHT)
    } else if text_eq(lower, "up") {
        Some(XK_UP)
    } else if text_eq(lower, "down") {
        Some(XK_DOWN)
    } else if text_eq(lower, "shift") {
        Some(XK_SHIFT_L)
    } else if text_eq(lower, "ctrl") || text_eq(lower, "control") {
        Some(XK_CONTROL_L)
    } else if text_eq(lower, "alt") {
        Some(XK_ALT_L)
    } else if text_eq(lower, "f1") {
        Some(XK_F1)
    } else if text_eq(lower, "f2") {
        Some(XK_F2)
    } else if text_eq(lower, "f3") {
        Some(XK_F3)
    } else if text_eq(lower, "f4") {
        Some(XK_F4)
    } else if text_eq(lower, "f5") {
        Some(XK_F5)
    } else {
        let chars = to_chars(lower);
        if chars.len() == 1 && chars[0] <= '\u{7f}' {
            char_to_keysym(chars[0])
        } else {
            None
        }
    }
}

/// The key symbol that a name stands for, whatever its letters' case.
pub open spec fn named_symbol(name: Seq<char>) -> Option<u32> {
    symbol_of_name(crate::outside::unicode_lowercase(name))
}

/// The key symbol that a name stands for, whatever its letters' case.
pub fn key_name_to_keysym(name: &str) -> (symbol: Option<u32>)
    ensures
        symbol == named_symbol(name@),
        vstd::utf8::is_ascii_chars(name@) ==> symbol == symbol_of_name(
            crate::text::ascii_lowered(name@),
        ),
{
    lower_name_to_keysym(to_lowercase(name).as_str())
}

// ---------------------------------------------------------------------------
// The keyboard
// ---------------------------------------------------------------------------

/// Something that is sent to the display, or a pause.
#[derive(Clone, Copy, Debug, PartialEq, Eq, Structural)]
pub enum Step {
    /// A key goes down.
    Press(u8),
    /// A key goes up.
    Release(u8),
    /// The mouse goes to a place.
    Move { x: i16, y: i16 },
    /// A mouse button goes down.
    ButtonPress(u8),
    /// A mouse button goes up.
    ButtonRelease(u8),
    /// A pause, in milliseconds.
    Sleep(u64),
}

/// Why something cannot be typed.
#[derive(Debug)]
pub enum InputError {
    /// No key has that name.
    UnknownKey(String),
    /// The keyboard lacks the key of that name.
    UnmappedKey(String),
    /// The character cannot be typed.
    UnknownChar(char),
    /// The keyboard lacks a key for the character.
    UnmappedChar(char),
}

/// What a path leads to once its links are followed.
#[derive(Debug)]
pub struct DialogFile {
    pub is_file: bool,
    /// The path without links, where it can be written as a text.
    pub path: Option<String>,
}

/// How a file is named in the file dialog.
#[derive(Debug)]
pub struct DialogPlan {
    pub path: String,
    pub pause_after_path_ms: u64,
    pub pause_after_enter_ms: u64,
}

/// Why a file cannot be named in the file dialog.
#[derive(Debug)]
pub enum DialogError {
    Missing,
    NotAFile,
    NotUtf8,
}

/// What keeps a file from being named in the file dialog.
pub open spec fn dialog_fault(file: Option<DialogFile>) -> Option<DialogError> {
    match file {
        None => Some(DialogError::Missing),
        Some(f) => if !f.is_file {
            Some(DialogError::NotAFile)
        } else if f.path is None {
            Some(DialogError::NotUtf8)
        } else {
            None
        },
    }
}

impl DialogError {
    /// The words of the error.
    pub fn message(&self) -> (text: &'static str)
        ensures
            text@ == match self {
                DialogError::Missing => "发送文件不存在"@,
                DialogError::NotAFile => "发送目标不是常规文件"@,
                DialogError::NotUtf8 => "发送文件路径不是有效 UTF-8"@,
            },
    {
        match self {
            DialogError::Missing => "发送文件不存在",
            DialogError::NotAFile => "发送目标不是常规文件",
            DialogError::NotUtf8 => "发送文件路径不是有效 UTF-8",
        }
    }
}

/// The words of an error about a character.
pub open spec fn char_words(before: Seq<char>, c: char, after: Seq<char>) -> Seq<char> {
    before.push(c) + after
}

impl InputError {
    /// The words of the error.
    pub fn message(&self) -> (text: String)
        ensures
            text@ == match self {
                InputError::UnknownKey(name) => "未知按键: "@ + name@,
                InputError::UnmappedKey(name) => "按键无映射: "@ + name@,
                InputError::UnknownChar(c) => char_words(
                    "字符无映射: '"@,
                    *c,
                    "' — 请用 paste_text"@,
                ),
                InputError::UnmappedChar(c) => char_words("字符无 keycode: '"@, *c, "'"@),
            },
    {
        match self {
            InputError::UnknownKey(name) => "未知按键: ".to_owned().concat(name.as_str()),
            InputError::UnmappedKey(name) => "按键无映射: ".to_owned().concat(name.as_str()),
            InputError::UnknownChar(c) => {
                let mut text = "字符无映射: '".to_owned();
                text.push(*c);
                text.concat("' — 请用 paste_text")
            },
            InputError::UnmappedChar(c) => {
                let mut text = "字符无 keycode: '".to_owned();
                text.push(*c);
                text.concat("'")
            },
        }
    }
}

/// The keyboard of a display: which key symbols each key has.
#[derive(Debug)]
pub struct InputEngine {
    min_keycode: u8,
    max_keycode: u8,
    keysyms_per_keycode: u8,
    keysyms: Vec<u32>,
}

/// What an [`InputEngine`] holds.
pub struct KeyboardView {
    pub min_keycode: u8,
    pub max_keycode: u8,
    pub per: nat,
    pub keysyms: Seq<u32>,
}

impl View for InputEngine {
    type V = KeyboardView;

    closed spec fn view(&self) -> KeyboardView {
        KeyboardView {
            min_keycode: self.min_keycode,
            max_keycode: self.max_keycode,
            per: self.keysyms_per_keycode as nat,
            keysyms: self.keysyms@,
        }
    }
}

/// The number of key symbols that a keyboard lists.
pub open spec fn symbol_count(keyboard: KeyboardView) -> int {
    (keyboard.max_keycode - keyboard.min_keycode + 1) * keyboard.per
}

/// Each key from the first to the last has its symbols.
pub open spec fn complete(keyboard: KeyboardView) -> bool {
    &&& keyboard.min_keycode <= keyboard.max_keycode
    &&& symbol_count(keyboard) <= keyboard.keysyms.len()
}

/// The place of a symbol among the first `n`, or `n` where it does not occur.
pub open spec fn symbol_place(keysyms: Seq<u32>, symbol: u32, n: int) -> int
    decreases n,
{
    if n <= 0 {
        0
    } else {
        let before = symbol_place(keysyms, symbol, n - 1);
        if before < n - 1 {
            before
        } else if keysyms[n - 1] == symbol {
            n - 1
        } else {
            n
        }
    }
}

/// The first key that has a symbol, and whether it takes the shift key.
pub open spec fn key_of(keyboard: KeyboardView, symbol: u32) -> Option<(u8, bool)> {
    let n = symbol_count(keyboard);
    let place = symbol_place(keyboard.keysyms, symbol, n);
    if place < n {
        Some(
            (
                (keyboard.min_keycode + place / (keyboard.per as int)) as u8,
                place % (keyboard.per as int) == 1,
            ),
        )
    } else {
        None
    }
}

/// The shift key, where a symbol takes it and the keyboard has one.
pub open spec fn shift_for(keyboard: KeyboardView, takes_shift: bool) -> Option<u8> {
    if takes_shift {
        match key_of(keyboard, XK_SHIFT_L) {
            Some(key) => Some(key.0),
            None => None,
        }
    } else {
        None
    }
}

/// A key goes down and up, within the shift key where there is one.
pub open spec fn key_steps(key: u8, shift: Option<u8>) -> Seq<Step> {
    match shift {
        Some(s) => seq![
            Step::Press(s),
            Step::Press(key),
            Step::Sleep(KEY_HOLD_MS),
            Step::Release(key),
            Step::Release(s),
        ],
        None => seq![Step::Press(key), Step::Sleep(KEY_HOLD_MS), Step::Release(key)],
    }
}

/// The keys go down one after the other.
pub open spec fn press_steps(keys: Seq<u8>) -> Seq<Step>
    decreases keys.len(),
{
    if keys.len() == 0 {
        seq![]
    } else {
        press_steps(keys.drop_last()).push(Step::Press(keys.last())).push(Step::Sleep(KEY_HOLD_MS))
    }
}

/// The keys go up, the last one first.
pub open spec fn release_steps(keys: Seq<u8>) -> Seq<Step>
    decreases keys.len(),
{
    if keys.len() == 0 {
        seq![]
    } else {
        seq![Step::Release(keys.last())] + release_steps(keys.drop_last())
    }
}

/// What a key combination means, from its first part on: the keys, or the part that is
/// none.
pub open spec fn combo_keys(keyboard: KeyboardView, parts: Seq<Seq<char>>) -> Option<Seq<u8>>
    decreases parts.len(),
{
    if parts.len() == 0 {
        Some(seq![])
    } else {
        match combo_keys(keyboard, parts.drop_last()) {
            Some(keys) => match part_key(keyboard, parts.last()) {
                Some(key) => Some(keys.push(key)),
                None => None,
            },
            None => None,
        }
    }
}

/// The first part of a combination that names no key of the keyboard.
pub open spec fn first_bad_part(keyboard: KeyboardView, parts: Seq<Seq<char>>) -> Option<Seq<char>>
    decreases parts.len(),
{
    if parts.len() == 0 {
        None
    } else if part_key(keyboard, parts[0]) is None {
        Some(parts[0])
    } else {
        first_bad_part(keyboard, parts.skip(1))
    }
}

/// The key of one part of a combination.
pub open spec fn part_key(keyboard: KeyboardView, part: Seq<char>) -> Option<u8> {
    match named_symbol(crate::text::trimmed(part)) {
        Some(symbol) => match key_of(keyboard, symbol) {
            Some(key) => Some(key.0),
            None => None,
        },
        None => None,
    }
}

/// Whether the steps are what a key takes, or the error is what is wrong with its name.
pub open spec fn takes_key(
    keyboard: KeyboardView,
    key_name: Seq<char>,
    steps: Result<Vec<Step>, InputError>,
) -> bool {
    let symbol = named_symbol(key_name);
    match steps {
        Ok(list) => {
            let key = key_of(keyboard, symbol->0);
            &&& symbol is Some
            &&& key is Some
            &&& list@ == key_steps(key.unwrap().0, shift_for(keyboard, key.unwrap().1))
        },
        Err(InputError::UnknownKey(name)) => symbol is None && name@ == key_name,
        Err(InputError::UnmappedKey(name)) => symbol is Some && key_of(keyboard, symbol->0) is None
            && name@ == key_name,
        Err(_) => false,
    }
}

/// Whether the steps are what a key combination of these parts takes, or the error is what
/// is wrong with the first part that has no key.
pub open spec fn takes_combo(
    keyboard: KeyboardView,
    parts: Seq<Seq<char>>,
    steps: Result<Vec<Step>, InputError>,
) -> bool {
    let keys = combo_keys(keyboard, parts);
    match steps {
        Ok(list) => keys is Some && list@ == press_steps(keys->0) + release_steps(keys->0),
        Err(InputError::UnknownKey(part)) => keys is None && first_bad_part(keyboard, parts)
            == Some(part@) && named_symbol(crate::text::trimmed(part@)) is None,
        Err(InputError::UnmappedKey(part)) => keys is None && first_bad_part(keyboard, parts)
            == Some(part@) && named_symbol(crate::text::trimmed(part@)) is Some,
        Err(_) => false,
    }
}

/// The steps are those of the paste keys, or there are none where the keyboard lacks one.
pub open spec fn is_paste(keyboard: KeyboardView, steps: Result<Vec<Step>, InputError>) -> bool {
    let keys = combo_keys(keyboard, crate::text::split_on("ctrl+v"@, '+'));
    match steps {
        Ok(list) => keys is Some && list@ == press_steps(keys->0) + release_steps(keys->0),
        Err(_) => keys is None,
    }
}

/// What typing one character takes.
pub open spec fn char_steps(keyboard: KeyboardView, c: char) -> Option<Seq<Step>> {
    match symbol_of_char(c) {
        Some(symbol) => match key_of(keyboard, symbol) {
            Some((key, takes_shift)) => Some(
                key_steps(key, shift_for(keyboard, takes_shift)).push(Step::Sleep(TYPING_DELAY_MS)),
            ),
            None => None,
        },
        None => None,
    }
}

/// How many characters of a text can be typed before the first that cannot.
pub open spec fn typable(keyboard: KeyboardView, text: Seq<char>) -> nat
    decreases text.len(),
{
    if text.len() == 0 || char_steps(keyboard, text[0]) is None {
        0
    } else {
        1 + typable(keyboard, text.skip(1))
    }
}

/// What typing a text takes, up to the first character that cannot be typed.
pub open spec fn text_steps(keyboard: KeyboardView, text: Seq<char>) -> Seq<Step>
    decreases text.len(),
{
    if text.len() == 0 {
        seq![]
    } else {
        match char_steps(keyboard, text[0]) {
            Some(steps) => steps + text_steps(keyboard, text.skip(1)),
            None => seq![],
        }
    }
}

/// The mouse goes to a place, and a button goes down and up.
pub open spec fn click_steps(x: i32, y: i32, button: u8) -> Seq<Step> {
    seq![
        Step::Move { x: x as i16, y: y as i16 },
        Step::Sleep(50),
        Step::ButtonPress(button),
        Step::Sleep(CLICK_HOLD_MS),
        Step::ButtonRelease(button),
    ]
}

/// How a text is pasted: it is offered at the clipboard, and after a pause the paste keys
/// are pressed; once it was taken there is another pause.
#[derive(Debug)]
pub struct PastePlan {
    pub pause_before_ms: u64,
    pub keys: Result<Vec<Step>, InputError>,
    pub pause_after_ms: u64,
}

/// A turn of the mouse wheel: where, by which button, and how often.
#[derive(Debug)]
pub struct ScrollPlan {
    pub start: Vec<Step>,
    pub each: Vec<Step>,
    pub clicks: u32,
}

/// Whether a plan turns the wheel at a place: up where `clicks` is above zero, down
/// otherwise.
pub open spec fn turns_wheel(plan: ScrollPlan, x: i32, y: i32, clicks: i32) -> bool {
    let button = if clicks > 0 {
        4u8
    } else {
        5u8
    };
    &&& plan.start@ == seq![Step::Move { x: x as i16, y: y as i16 }, Step::Sleep(50)]
    &&& plan.each@ == seq![Step::ButtonPress(button), Step::ButtonRelease(button), Step::Sleep(50)]
    &&& plan.clicks == if clicks < 0 {
        -clicks
    } else {
        clicks as int
    }
}

proof fn lemma_symbol_place_stays(keysyms: Seq<u32>, symbol: u32, k: int, n: int)
    requires
        0 <= k <= n,
        symbol_place(keysyms, symbol, k) < k,
    ensures
        symbol_place(keysyms, symbol, n) == symbol_place(keysyms, symbol, k),
    decreases n,
{
    if n > k {
        lemma_symbol_place_stays(keysyms, symbol, k, n - 1);
    }
}

impl InputEngine {
    /// Each key from the first to the last has its symbols.
    pub open spec fn wf(&self) -> bool {
        complete(self@)
    }

    /// The keyboard that a display describes.
    pub fn new(
        min_keycode: u8,
        max_keycode: u8,
        keysyms_per_keycode: u8,
        keysyms: Vec<u32>,
    ) -> (engine: InputEngine)
        requires
            complete(
                KeyboardView {
                    min_keycode,
                    max_keycode,
                    per: keysyms_per_keycode as nat,
                    keysyms: keysyms@,
                },
            ),
        ensures
            engine.wf(),
            engine@ == (KeyboardView {
                min_keycode,
                max_keycode,
                per: keysyms_per_keycode as nat,
                keysyms: keysyms@,
            }),
    {
        InputEngine { min_keycode, max_keycode, keysyms_per_keycode, keysyms }
    }

    /// The first key that has a symbol, and whether it takes the shift key.
    pub fn keysym_to_keycode(&self, symbol: u32) -> (key: Option<(u8, bool)>)
        requires
            self.wf(),
        ensures
            key == key_of(self@, symbol),
    {
        let per: usize = self.keysyms_per_keycode as usize;
        let keys: usize = self.max_keycode as usize - self.min_keycode as usize + 1;
        proof {
            assert(keys * per <= 256 * 255) by (nonlinear_arith)
                requires
                    keys <= 256,
                    per <= 255,
            ;
        }
        let total: usize = keys * per;
        let ghost n = symbol_count(self@);
        let mut k: usize = 0;
        while k < total
            invariant
                k <= total,
                self.wf(),
                per == self.keysyms_per_keycode,
                keys == self.max_keycode - self.min_keycode + 1,
                total == keys * per,
                n == total,
                n == symbol_count(self@),
                symbol_place(self.keysyms@, symbol, k as int) == k,
            decreases total - k,
        {
            if self.keysyms[k] == symbol {
                proof {
                    assert(symbol_place(self.keysyms@, symbol, k + 1) == k);
                    lemma_symbol_place_stays(self.keysyms@, symbol, k + 1, n);
                    assert(per > 0) by (nonlinear_arith)
                        requires
                            0 <= k < keys * per,
                            0 <= keys,
                    ;
                    assert(k / per < keys) by (nonlinear_arith)
                        requires
                            k < keys * per,
                            per > 0,
                    ;
                }
                let key: u8 = self.min_keycode + (k / per) as u8;
                return Some((key, k % per == 1));
            }
            k = k + 1;
        }
        None
    }

    fn shift_key(&self, takes_shift: bool) -> (shift: Option<u8>)
        requires
            self.wf(),
        ensures
            shift == shift_for(self@, takes_shift),
    {
        if takes_shift {
            match self.keysym_to_keycode(XK_SHIFT_L) {
                Some((key, _)) => Some(key),
                None => None,
            }
        } else {
            None
        }
    }

    /// What a key takes.
    pub fn press_key(&self, key_name: &str) -> (steps: Result<Vec<Step>, InputError>)
        requires
            self.wf(),
        ensures
            takes_key(self@, key_name@, steps),
    {
        let symbol: u32 = match key_name_to_keysym(key_name) {
            Some(symbol) => symbol,
            None => {
                return Err(InputError::UnknownKey(key_name.to_owned()));
            },
        };
        match self.keysym_to_keycode(symbol) {
            Some((key, takes_shift)) => Ok(steps_for_key(key, self.shift_key(takes_shift))),
            None => Err(InputError::UnmappedKey(key_name.to_owned())),
        }
    }

    /// What the return key takes.
    pub fn press_enter(&self) -> (steps: Result<Vec<Step>, InputError>)
        requires
            self.wf(),
        ensures
            ({
                let key = key_of(self@, XK_RETURN);
                match steps {
                    Ok(list) => key is Some && list@ == key_steps(
                        key.unwrap().0,
                        shift_for(self@, key.unwrap().1),
                    ),
                    Err(InputError::UnmappedKey(name)) => key is None && name@ == "Return"@,
                    Err(_) => false,
                }
            }),
    {
        proof {
            reveal_strlit("Return");
            reveal_strlit("return");
            assert(vstd::utf8::is_ascii_chars("Return"@));
            assert(crate::text::ascii_lowered("Return"@) =~= "return"@);
        }
        let symbol: Option<u32> = key_name_to_keysym("Return");
        assert(symbol == Some(XK_RETURN));
        self.press_key("Return")
    }

    /// What a key combination takes: all keys down in order, and up in reverse order.
    pub fn key_combo(&self, combo: &str) -> (steps: Result<Vec<Step>, InputError>)
        requires
            self.wf(),
        ensures
            takes_combo(self@, crate::text::split_on(combo@, '+'), steps),
    {
        let parts = split(combo, '+');
        let ghost all = crate::text::texts_of(parts@);
        let mut keys: Vec<u8> = Vec::new();
        let mut i: usize = 0;
        proof {
            assert(all.skip(0) =~= all);
        }
        while i < parts.len()
            invariant
                i <= parts@.len(),
                self.wf(),
                all == crate::text::texts_of(parts@),
                all == crate::text::split_on(combo@, '+'),
                combo_keys(self@, all.take(i as int)) == Some(keys@),
                first_bad_part(self@, all) == first_bad_part(self@, all.skip(i as int)),
            decreases parts@.len() - i,
        {
            proof {
                assert(all.take(i + 1).drop_last() =~= all.take(i as int));
                assert(all.take(i + 1).last() == parts@[i as int]@);
                assert(all.skip(i as int)[0] == parts@[i as int]@);
                assert(all.skip(i as int).skip(1) =~= all.skip(i + 1));
            }
            let part = parts[i].as_str();
            let symbol: u32 = match key_name_to_keysym(trim(part)) {
                Some(symbol) => symbol,
                None => {
                    proof {
                        lemma_bad_part(self@, all, i as int);
                    }
                    return Err(InputError::UnknownKey(part.to_owned()));
                },
            };
            match self.keysym_to_keycode(symbol) {
                Some((key, _)) => {
                    keys.push(key);
                },
                None => {
                    proof {
                        lemma_bad_part(self@, all, i as int);
                    }
                    return Err(InputError::UnmappedKey(part.to_owned()));
                },
            }
            i = i + 1;
        }
        proof {
            assert(all.take(all.len() as int) =~= all);
        }
        Ok(steps_for_combo(&keys))
    }

    /// What typing a text takes. Typing stops at the first character that cannot be typed,
    /// and the error names it.
    pub fn type_text(&self, text: &str) -> (typed: (Vec<Step>, Option<InputError>))
        requires
            self.wf(),
        ensures
            typed.0@ == text_steps(self@, text@),
            ({
                let n = typable(self@, text@);
                match typed.1 {
                    Some(InputError::UnknownChar(c)) => n < text@.len() && c == text@[n as int]
                        && symbol_of_char(c) is None,
                    Some(InputError::UnmappedChar(c)) => n < text@.len() && c == text@[n as int]
                        && symbol_of_char(c) is Some,
                    Some(_) => false,
                    None => n == text@.len(),
                }
            }),
    {
        let chars = to_chars(text);
        let mut steps: Vec<Step> = Vec::new();
        let mut i: usize = 0;
        proof {
            assert(chars@.skip(0) =~= chars@);
            assert(steps@ + text_steps(self@, text@) =~= text_steps(self@, text@));
        }
        while i < chars.len()
            invariant
                i <= chars@.len(),
                self.wf(),
                chars@ == text@,
                steps@ + text_steps(self@, chars@.skip(i as int)) == text_steps(self@, text@),
                i + typable(self@, chars@.skip(i as int)) == typable(self@, text@),
            decreases chars@.len() - i,
        {
            let c = chars[i];
            let ghost rest = chars@.skip(i as int);
            let ghost done = steps@;
            proof {
                assert(rest[0] == c);
                assert(rest.skip(1) =~= chars@.skip(i + 1));
            }
            let symbol: u32 = match char_to_keysym(c) {
                Some(symbol) => symbol,
                None => {
                    proof {
                        assert(done + Seq::<Step>::empty() =~= done);
                    }
                    return (steps, Some(InputError::UnknownChar(c)));
                },
            };
            match self.keysym_to_keycode(symbol) {
                Some((key, takes_shift)) => {
                    let mut each = steps_for_key(key, self.shift_key(takes_shift));
                    each.push(Step::Sleep(TYPING_DELAY_MS));
                    let ghost one = each@;
                    steps.append(&mut each);
                    proof {
                        assert(char_steps(self@, c) == Some(one));
                        assert(done + (one + text_steps(self@, rest.skip(1))) =~= steps@
                            + text_steps(self@, rest.skip(1)));
                    }
                },
                None => {
                    proof {
                        assert(done + Seq::<Step>::empty() =~= done);
                    }
                    return (steps, Some(InputError::UnmappedChar(c)));
                },
            }
            i = i + 1;
        }
        proof {
            assert(chars@.skip(chars@.len() as int) =~= Seq::<char>::empty());
            assert(steps@ + Seq::<Step>::empty() =~= steps@);
        }
        (steps, None)
    }

    fn paste_keys(&self) -> (steps: Result<Vec<Step>, InputError>)
        requires
            self.wf(),
        ensures
            is_paste(self@, steps),
    {
        self.key_combo("ctrl+v")
    }

    /// How a text that is offered at the clipboard is pasted.
    pub fn paste_text(&self) -> (plan: PastePlan)
        requires
            self.wf(),
        ensures
            plan.pause_before_ms == 30,
            is_paste(self@, plan.keys),
            plan.pause_after_ms == 50,
    {
        PastePlan { pause_before_ms: 30, keys: self.paste_keys(), pause_after_ms: 50 }
    }

    /// How an image that is offered at the clipboard is pasted, and its type.
    pub fn paste_image(&self, image_path: &str) -> (plan: (&'static str, PastePlan))
        requires
            self.wf(),
        ensures
            plan.0@ == crate::display::mime_of(image_path@),
            plan.1.pause_before_ms == 200,
            is_paste(self@, plan.1.keys),
            plan.1.pause_after_ms == 300,
    {
        (
            image_mime(image_path),
            PastePlan { pause_before_ms: 200, keys: self.paste_keys(), pause_after_ms: 300 },
        )
    }

    /// How a file is named in the file dialog: what is pasted there, and the pauses after it
    /// was pasted and after it was confirmed.
    pub fn select_file_from_dialog(&self, file: Option<DialogFile>) -> (plan: Result<
        DialogPlan,
        DialogError,
    >)
        ensures
            match plan {
                Ok(p) => {
                    &&& dialog_fault(file) is None
                    &&& p.path@ == file->0.path->0@
                    &&& p.pause_after_path_ms == 300
                    &&& p.pause_after_enter_ms == 700
                },
                Err(e) => dialog_fault(file) == Some(e),
            },
    {
        match file {
            None => Err(DialogError::Missing),
            Some(f) => {
                if !f.is_file {
                    return Err(DialogError::NotAFile);
                }
                match f.path {
                    None => Err(DialogError::NotUtf8),
                    Some(path) => Ok(
                        DialogPlan { path, pause_after_path_ms: 300, pause_after_enter_ms: 700 },
                    ),
                }
            },
        }
    }

    // -----------------------------------------------------------------------
    // Windows
    // -----------------------------------------------------------------------

    /// The windows whose titles match, in order.
    pub fn find_windows_by_title(&self, windows: &Vec<Window>, title: &str, exact: bool) -> (found: Vec<
        Window,
    >)
        ensures
            crate::display::windows_view(found@) == crate::display::windows_titled(
                crate::display::windows_view(windows@),
                title@,
                exact,
            ),
    {
        titled_windows(windows, title, exact)
    }

    /// The window that is activated for a title: the first that matches.
    pub fn activate_window_by_title(&self, windows: &Vec<Window>, title: &str, exact: bool) -> (id:
        Option<u32>)
        ensures
            ({
                let found = crate::display::windows_titled(
                    crate::display::windows_view(windows@),
                    title@,
                    exact,
                );
                match id {
                    Some(window) => found.len() > 0 && window == found[0].0,
                    None => found.len() == 0,
                }
            }),
    {
        window_for_title(windows, title, exact)
    }

    /// The window that is closed for a title: the first whose title contains it.
    pub fn close_window_by_title(&self, windows: &Vec<Window>, title: &str) -> (id: Option<u32>)
        ensures
            ({
                let found = crate::display::windows_titled(
                    crate::display::windows_view(windows@),
                    title@,
                    false,
                );
                match id {
                    Some(window) => found.len() > 0 && window == found[0].0,
                    None => found.len() == 0,
                }
            }),
    {
        window_for_title(windows, title, false)
    }

    // -----------------------------------------------------------------------
    // The mouse
    // -----------------------------------------------------------------------

    /// The mouse goes to a place.
    pub fn move_mouse(&self, x: i32, y: i32) -> (steps: Vec<Step>)
        ensures
            steps@ == seq![Step::Move { x: x as i16, y: y as i16 }],
    {
        let mut steps: Vec<Step> = Vec::new();
        steps.push(Step::Move { x: x as i16, y: y as i16 });
        steps
    }

    /// A click with the left button.
    pub fn click(&self, x: i32, y: i32) -> (steps: Vec<Step>)
        ensures
            steps@ == click_steps(x, y, 1),
    {
        steps_for_click(x, y, 1)
    }

    /// Two clicks with the left button.
    pub fn double_click(&self, x: i32, y: i32) -> (steps: Vec<Step>)
        ensures
            steps@ == click_steps(x, y, 1).push(Step::Sleep(100)) + click_steps(x, y, 1),
    {
        let mut steps = steps_for_click(x, y, 1);
        steps.push(Step::Sleep(100));
        let mut again = steps_for_click(x, y, 1);
        steps.append(&mut again);
        steps
    }

    /// A click with the right button.
    pub fn right_click(&self, x: i32, y: i32) -> (steps: Vec<Step>)
        ensures
            steps@ == click_steps(x, y, 3),
    {
        steps_for_click(x, y, 3)
    }

    /// A turn of the wheel at a place: up where `clicks` is above zero, down otherwise.
    pub fn scroll(&self, x: i32, y: i32, clicks: i32) -> (plan: ScrollPlan)
        ensures
            turns_wheel(plan, x, y, clicks),
    {
        let mut start: Vec<Step> = Vec::new();
        start.push(Step::Move { x: x as i16, y: y as i16 });
        start.push(Step::Sleep(50));
        let button: u8 = if clicks > 0 {
            4
        } else {
            5
        };
        let mut each: Vec<Step> = Vec::new();
        each.push(Step::ButtonPress(button));
        each.push(Step::ButtonRelease(button));
        each.push(Step::Sleep(50));
        let count: u32 = if clicks < 0 {
            (0 - (clicks as i64)) as u32
        } else {
            clicks as u32
        };
        proof {
            assert(start@ =~= seq![Step::Move { x: x as i16, y: y as i16 }, Step::Sleep(50)]);
            assert(each@ =~= seq![
                Step::ButtonPress(button),
                Step::ButtonRelease(button),
                Step::Sleep(50),
            ]);
        }
        ScrollPlan { start, each, clicks: count }
    }
}

proof fn lemma_bad_part(keyboard: KeyboardView, parts: Seq<Seq<char>>, i: int)
    requires
        0 <= i < parts.len(),
        part_key(keyboard, parts[i]) is None,
    ensures
        combo_keys(keyboard, parts) is None,
    decreases parts.len(),
{
    if i < parts.len() - 1 {
        assert(parts.drop_last()[i] == parts[i]);
        lemma_bad_part(keyboard, parts.drop_last(), i);
    }
}

fn steps_for_key(key: u8, shift: Option<u8>) -> (steps: Vec<Step>)
    ensures
        steps@ == key_steps(key, shift),
{
    let mut steps: Vec<Step> = Vec::new();
    if let Some(s) = shift {
        steps.push(Step::Press(s));
    }
    steps.push(Step::Press(key));
    steps.push(Step::Sleep(KEY_HOLD_MS));
    steps.push(Step::Release(key));
    if let Some(s) = shift {
        steps.push(Step::Release(s));
    }
    proof {
        assert(steps@ =~= key_steps(key, shift));
    }
    steps
}

fn steps_for_combo(keys: &Vec<u8>) -> (steps: Vec<Step>)
    ensures
        steps@ == press_steps(keys@) + release_steps(keys@),
{
    let mut steps: Vec<Step> = Vec::new();
    let mut i: usize = 0;
    while i < keys.len()
        invariant
            i <= keys@.len(),
            steps@ == press_steps(keys@.take(i as int)),
        decreases keys@.len() - i,
    {
        proof {
            assert(keys@.take(i + 1).drop_last() =~= keys@.take(i as int));
        }
        steps.push(Step::Press(keys[i]));
        steps.push(Step::Sleep(KEY_HOLD_MS));
        i = i + 1;
    }
    let ghost pressed = press_steps(keys@);
    let mut n: usize = keys.len();
    proof {
        assert(keys@.take(keys@.len() as int) =~= keys@);
        assert(steps@ + release_steps(keys@) =~= pressed + release_steps(keys@));
    }
    while n > 0
        invariant
            n <= keys@.len(),
            steps@ + release_steps(keys@.take(n as int)) == pressed + release_steps(keys@),
        decreases n,
    {
        let ghost done = steps@;
        proof {
            assert(keys@.take(n as int).drop_last() =~= keys@.take(n - 1));
            assert(keys@.take(n as int).last() == keys@[n - 1]);
        }
        steps.push(Step::Release(keys[n - 1]));
        proof {
            let tail = release_steps(keys@.take(n - 1));
            assert(done + (seq![Step::Release(keys@[n - 1])] + tail) =~= steps@ + tail);
        }
        n = n - 1;
    }
    proof {
        assert(keys@.take(0) =~= Seq::<u8>::empty());
        assert(steps@ + Seq::<Step>::empty() =~= steps@);
    }
    steps
}

fn steps_for_click(x: i32, y: i32, button: u8) -> (steps: Vec<Step>)
    ensures
        steps@ == click_steps(x, y, button),
{
    let mut steps: Vec<Step> = Vec::new();
    steps.push(Step::Move { x: x as i16, y: y as i16 });
    steps.push(Step::Sleep(50));
    steps.push(Step::ButtonPress(button));
    steps.push(Step::Sleep(CLICK_HOLD_MS));
    steps.push(Step::ButtonRelease(button));
    proof {
        assert(steps@ =~= click_steps(x, y, button));
    }
    steps
}

// ---------------------------------------------------------------------------
// Laws of the keyboard
// ---------------------------------------------------------------------------

/// Which keys are down after the steps, the last one on top; `None` where a key goes up
/// that is not the last one that went down.
pub open spec fn keys_down(steps: Seq<Step>, down: Seq<u8>) -> Option<Seq<u8>>
    decreases steps.len(),
{
    if steps.len() == 0 {
        Some(down)
    } else {
        match steps[0] {
            Step::Press(key) => keys_down(steps.skip(1), down.push(key)),
            Step::Release(key) => if down.len() > 0 && down.last() == key {
                keys_down(steps.skip(1), down.drop_last())
            } else {
                None
            },
            _ => keys_down(steps.skip(1), down),
        }
    }
}

proof fn lemma_keys_down_concat(a: Seq<Step>, b: Seq<Step>, down: Seq<u8>)
    ensures
        keys_down(a + b, down) == match keys_down(a, down) {
            Some(middle) => keys_down(b, middle),
            None => None,
        },
    decreases a.len(),
{
    if a.len() == 0 {
        assert(a + b =~= b);
    } else {
        assert((a + b).skip(1) =~= a.skip(1) + b);
        match a[0] {
            Step::Press(key) => lemma_keys_down_concat(a.skip(1), b, down.push(key)),
            Step::Release(key) => {
                if down.len() > 0 && down.last() == key {
                    lemma_keys_down_concat(a.skip(1), b, down.drop_last());
                }
            },
            _ => lemma_keys_down_concat(a.skip(1), b, down),
        }
    }
}

/// A key press leaves no key down.
pub proof fn key_presses_are_released(key: u8, shift: Option<u8>, down: Seq<u8>)
    ensures
        keys_down(key_steps(key, shift), down) == Some(down),
{
    reveal_with_fuel(keys_down, 6);
    let steps = key_steps(key, shift);
    match shift {
        Some(s) => {
            assert(steps.skip(1).skip(1) =~= steps.skip(2));
            assert(steps.skip(2).skip(1) =~= steps.skip(3));
            assert(steps.skip(3).skip(1) =~= steps.skip(4));
            assert(steps.skip(4).skip(1) =~= Seq::<Step>::empty());
            assert(down.push(s).push(key).drop_last() =~= down.push(s));
            assert(down.push(s).drop_last() =~= down);
        },
        None => {
            assert(steps.skip(1).skip(1) =~= steps.skip(2));
            assert(steps.skip(2).skip(1) =~= Seq::<Step>::empty());
            assert(down.push(key).drop_last() =~= down);
        },
    }
}

proof fn lemma_combo_presses(keys: Seq<u8>, down: Seq<u8>)
    ensures
        keys_down(press_steps(keys), down) == Some(down + keys),
    decreases keys.len(),
{
    if keys.len() == 0 {
        assert(down + keys =~= down);
    } else {
        let rest = keys.drop_last();
        lemma_combo_presses(rest, down);
        let two = seq![Step::Press(keys.last()), Step::Sleep(KEY_HOLD_MS)];
        assert(press_steps(keys) =~= press_steps(rest) + two);
        lemma_keys_down_concat(press_steps(rest), two, down);
        reveal_with_fuel(keys_down, 3);
        assert(two.skip(1).skip(1) =~= Seq::<Step>::empty());
        assert((down + rest).push(keys.last()) =~= down + keys);
    }
}

proof fn lemma_combo_releases(keys: Seq<u8>, down: Seq<u8>)
    ensures
        keys_down(release_steps(keys), down + keys) == Some(down),
    decreases keys.len(),
{
    if keys.len() == 0 {
        assert(down + keys =~= down);
    } else {
        let rest = keys.drop_last();
        lemma_combo_releases(rest, down);
        assert(release_steps(keys).skip(1) =~= release_steps(rest));
        assert((down + keys).drop_last() =~= down + rest);
        assert((down + keys).last() == keys.last());
    }
}

/// A key combination leaves no key down: the keys go up in the reverse order.
pub proof fn combinations_are_released(keys: Seq<u8>, down: Seq<u8>)
    ensures
        keys_down(press_steps(keys) + release_steps(keys), down) == Some(down),
{
    lemma_combo_presses(keys, down);
    lemma_combo_releases(keys, down);
    lemma_keys_down_concat(press_steps(keys), release_steps(keys), down);
}

/// Typing a text leaves no key down, also where it stops at a character that cannot be
/// typed.
pub proof fn typing_leaves_no_key_down(keyboard: KeyboardView, text: Seq<char>, down: Seq<u8>)
    ensures
        keys_down(text_steps(keyboard, text), down) == Some(down),
    decreases text.len(),
{
    if text.len() > 0 && char_steps(keyboard, text[0]) is Some {
        let key = key_of(keyboard, symbol_of_char(text[0])->0)->0;
        let shift = shift_for(keyboard, key.1);
        let one = char_steps(keyboard, text[0])->0;
        let pause = seq![Step::Sleep(TYPING_DELAY_MS)];
        key_presses_are_released(key.0, shift, down);
        assert(one =~= key_steps(key.0, shift) + pause);
        lemma_keys_down_concat(key_steps(key.0, shift), pause, down);
        reveal_with_fuel(keys_down, 2);
        assert(pause.skip(1) =~= Seq::<Step>::empty());
        typing_leaves_no_key_down(keyboard, text.skip(1), down);
        lemma_keys_down_concat(one, text_steps(keyboard, text.skip(1)), down);
    }
}

// ---------------------------------------------------------------------------
// Laws of input
// ---------------------------------------------------------------------------

/// The names of keys mean the symbols that a display knows them by.
#[verifier::rlimit(60)]
pub proof fn key_names_mean_their_keys(c: char)
    requires
        c <= '\u{7f}',
    ensures
        symbol_of_name("return"@) == Some(0xff0du32),
        symbol_of_name("enter"@) == Some(0xff0du32),
        symbol_of_name("escape"@) == Some(0xff1bu32),
        symbol_of_name("esc"@) == Some(0xff1bu32),
        symbol_of_name("tab"@) == Some(0xff09u32),
        symbol_of_name("backspace"@) == Some(0xff08u32),
        symbol_of_name("delete"@) == Some(0xffffu32),
        symbol_of_name("space"@) == Some(0x0020u32),
        symbol_of_name("home"@) == Some(0xff50u32),
        symbol_of_name("end"@) == Some(0xff57u32),
        symbol_of_name("left"@) == Some(0xff51u32),
        symbol_of_name("right"@) == Some(0xff53u32),
        symbol_of_name("up"@) == Some(0xff52u32),
        symbol_of_name("down"@) == Some(0xff54u32),
        symbol_of_name("shift"@) == Some(0xffe1u32),
        symbol_of_name("ctrl"@) == Some(0xffe3u32),
        symbol_of_name("control"@) == Some(0xffe3u32),
        symbol_of_name("alt"@) == Some(0xffe9u32),
        symbol_of_name("f1"@) == Some(0xffbeu32),
        symbol_of_name("f2"@) == Some(0xffbfu32),
        symbol_of_name("f3"@) == Some(0xffc0u32),
        symbol_of_name("f4"@) == Some(0xffc1u32),
        symbol_of_name("f5"@) == Some(0xffc2u32),
        symbol_of_name(seq![c]) == symbol_of_char(c),
{
    reveal_strlit("return");
    reveal_strlit("enter");
    reveal_strlit("escape");
    reveal_strlit("esc");
    reveal_strlit("tab");
    reveal_strlit("backspace");
    reveal_strlit("delete");
    reveal_strlit("space");
    reveal_strlit("home");
    reveal_strlit("end");
    reveal_strlit("left");
    reveal_strlit("right");
    reveal_strlit("up");
    reveal_strlit("down");
    reveal_strlit("shift");
    reveal_strlit("ctrl");
    reveal_strlit("control");
    reveal_strlit("alt");
    reveal_strlit("f1");
    reveal_strlit("f2");
    reveal_strlit("f3");
    reveal_strlit("f4");
    reveal_strlit("f5");
    assert("return"@.len() == 6 && "return"@[0] == 'r' && "return"@[1] == 'e');
    assert("enter"@.len() == 5 && "enter"@[0] == 'e' && "enter"@[1] == 'n');
    assert("escape"@.len() == 6 && "escape"@[0] == 'e' && "escape"@[1] == 's');
    assert("esc"@.len() == 3 && "esc"@[0] == 'e' && "esc"@[1] == 's');
    assert("tab"@.len() == 3 && "tab"@[0] == 't' && "tab"@[1] == 'a');
    assert("backspace"@.len() == 9 && "backspace"@[0] == 'b' && "backspace"@[1] == 'a');
    assert("delete"@.len() == 6 && "delete"@[0] == 'd' && "delete"@[1] == 'e');
    assert("space"@.len() == 5 && "space"@[0] == 's' && "space"@[1] == 'p');
    assert("home"@.len() == 4 && "home"@[0] == 'h' && "home"@[1] == 'o');
    assert("end"@.len() == 3 && "end"@[0] == 'e' && "end"@[1] == 'n');
    assert("left"@.len() == 4 && "left"@[0] == 'l' && "left"@[1] == 'e');
    assert("right"@.len() == 5 && "right"@[0] == 'r' && "right"@[1] == 'i');
    assert("up"@.len() == 2 && "up"@[0] == 'u' && "up"@[1] == 'p');
    assert("down"@.len() == 4 && "down"@[0] == 'd' && "down"@[1] == 'o');
    assert("shift"@.len() == 5 && "shift"@[0] == 's' && "shift"@[1] == 'h');
    assert("ctrl"@.len() == 4 && "ctrl"@[0] == 'c' && "ctrl"@[1] == 't');
    assert("control"@.len() == 7 && "control"@[0] == 'c' && "control"@[1] == 'o');
    assert("alt"@.len() == 3 && "alt"@[0] == 'a' && "alt"@[1] == 'l');
    assert("f1"@.len() == 2 && "f1"@[0] == 'f' && "f1"@[1] == '1');
    assert("f2"@.len() == 2 && "f2"@[0] == 'f' && "f2"@[1] == '2');
    assert("f3"@.len() == 2 && "f3"@[0] == 'f' && "f3"@[1] == '3');
    assert("f4"@.len() == 2 && "f4"@[0] == 'f' && "f4"@[1] == '4');
    assert("f5"@.len() == 2 && "f5"@[0] == 'f' && "f5"@[1] == '5');
    assert(seq![c].len() == 1);
}

/// A character of ASCII is typed by the key of its own code, a line break and a tab by the
/// keys for them; no other character can be typed.
pub proof fn characters_are_typed_by_their_codes(c: char)
    ensures
        ' ' <= c <= '~' ==> symbol_of_char(c) == Some(c as u32),
        symbol_of_char('\n') == Some(0xff0du32),
        symbol_of_char('\t') == Some(0xff09u32),
        c > '\u{7f}' ==> symbol_of_char(c) is None,
{
}

proof fn lemma_symbol_place(keysyms: Seq<u32>, symbol: u32, n: int)
    requires
        0 <= n <= keysyms.len(),
    ensures
        0 <= symbol_place(keysyms, symbol, n) <= n,
        symbol_place(keysyms, symbol, n) < n ==> keysyms[symbol_place(keysyms, symbol, n)]
            == symbol,
        forall|k: int|
            0 <= k < symbol_place(keysyms, symbol, n) ==> #[trigger] keysyms[k] != symbol,
    decreases n,
{
    if n > 0 {
        lemma_symbol_place(keysyms, symbol, n - 1);
    }
}

/// The key of a symbol is one that has it, in the first place at which any key has it, and
/// it takes the shift key exactly where the symbol is its second; a symbol has no key only
/// where none has it.
pub proof fn keys_have_their_symbols(keyboard: KeyboardView, symbol: u32)
    requires
        complete(keyboard),
        keyboard.per > 0,
    ensures
        ({
            let n = symbol_count(keyboard);
            match key_of(keyboard, symbol) {
                Some((key, takes_shift)) => exists|place: int|
                    0 <= place < n && #[trigger] keyboard.keysyms[place] == symbol && key
                        == keyboard.min_keycode + place / (keyboard.per as int) && takes_shift == (
                    place % (keyboard.per as int) == 1) && forall|k: int|
                        0 <= k < place ==> #[trigger] keyboard.keysyms[k] != symbol,
                None => forall|k: int| 0 <= k < n ==> #[trigger] keyboard.keysyms[k] != symbol,
            }
        }),
        key_of(keyboard, symbol) is Some ==> keyboard.min_keycode <= (key_of(
            keyboard,
            symbol,
        )->0).0 <= keyboard.max_keycode,
{
    let n = symbol_count(keyboard);
    let per = keyboard.per as int;
    let keys = keyboard.max_keycode - keyboard.min_keycode + 1;
    assert(0 <= n) by (nonlinear_arith)
        requires
            n == keys * per,
            keys >= 0,
            per >= 0,
    ;
    lemma_symbol_place(keyboard.keysyms, symbol, n);
    let place = symbol_place(keyboard.keysyms, symbol, n);
    if place < n {
        assert(0 <= place / per < keys) by (nonlinear_arith)
            requires
                0 <= place < keys * per,
                per > 0,
        ;
        assert(keyboard.keysyms[place] == symbol);
    }
}

/// The keys that go down, in order.
pub open spec fn pressed(steps: Seq<Step>) -> Seq<u8>
    decreases steps.len(),
{
    if steps.len() == 0 {
        seq![]
    } else {
        match steps.last() {
            Step::Press(key) => pressed(steps.drop_last()).push(key),
            _ => pressed(steps.drop_last()),
        }
    }
}

proof fn lemma_pressed_concat(a: Seq<Step>, b: Seq<Step>)
    ensures
        pressed(a + b) == pressed(a) + pressed(b),
    decreases b.len(),
{
    if b.len() == 0 {
        assert(a + b =~= a);
        assert(pressed(a) + pressed(b) =~= pressed(a));
    } else {
        lemma_pressed_concat(a, b.drop_last());
        assert((a + b).drop_last() =~= a + b.drop_last());
        assert((a + b).last() == b.last());
        assert(pressed(a + b) =~= pressed(a) + pressed(b));
    }
}

/// A key press presses that key alone, after the shift key where there is one; and a
/// combination presses its keys in order.
pub proof fn the_right_keys_go_down(key: u8, shift: Option<u8>, keys: Seq<u8>)
    ensures
        pressed(key_steps(key, shift)) == match shift {
            Some(s) => seq![s, key],
            None => seq![key],
        },
        pressed(press_steps(keys) + release_steps(keys)) == keys,
{
    reveal_with_fuel(pressed, 6);
    let steps = key_steps(key, shift);
    match shift {
        Some(s) => {
            assert(steps.drop_last().drop_last() =~= seq![
                Step::Press(s),
                Step::Press(key),
                Step::Sleep(KEY_HOLD_MS),
            ]);
            assert(steps.drop_last().drop_last().drop_last() =~= seq![
                Step::Press(s),
                Step::Press(key),
            ]);
            assert(steps.drop_last().drop_last().drop_last().drop_last() =~= seq![Step::Press(s)]);
            assert(steps.drop_last().drop_last().drop_last().drop_last().drop_last() =~= Seq::<
                Step,
            >::empty());
            assert(pressed(steps) =~= seq![s, key]);
        },
        None => {
            assert(steps.drop_last().drop_last() =~= seq![Step::Press(key)]);
            assert(steps.drop_last().drop_last().drop_last() =~= Seq::<Step>::empty());
            assert(pressed(steps) =~= seq![key]);
        },
    }
    lemma_combo_pressed(keys);
    lemma_releases_press_nothing(keys);
    lemma_pressed_concat(press_steps(keys), release_steps(keys));
    assert(keys + Seq::<u8>::empty() =~= keys);
}

proof fn lemma_combo_pressed(keys: Seq<u8>)
    ensures
        pressed(press_steps(keys)) == keys,
    decreases keys.len(),
{
    if keys.len() > 0 {
        let rest = keys.drop_last();
        lemma_combo_pressed(rest);
        let all = press_steps(keys);
        assert(all.drop_last() =~= press_steps(rest).push(Step::Press(keys.last())));
        assert(all.drop_last().drop_last() =~= press_steps(rest));
        reveal_with_fuel(pressed, 3);
        assert(pressed(all) =~= rest.push(keys.last()));
        assert(rest.push(keys.last()) =~= keys);
    } else {
        assert(pressed(press_steps(keys)) =~= keys);
    }
}

proof fn lemma_releases_press_nothing(keys: Seq<u8>)
    ensures
        pressed(release_steps(keys)) == Seq::<u8>::empty(),
    decreases keys.len(),
{
    if keys.len() > 0 {
        let rest = keys.drop_last();
        lemma_releases_press_nothing(rest);
        let one = seq![Step::Release(keys.last())];
        lemma_pressed_concat(one, release_steps(rest));
        reveal_with_fuel(pressed, 2);
        assert(one.drop_last() =~= Seq::<Step>::empty());
        assert(pressed(one) =~= Seq::<u8>::empty());
        assert(pressed(one) + pressed(release_steps(rest)) =~= Seq::<u8>::empty());
    }
}

/// A combination means the key of each of its parts, whatever white space stands around
/// them, and means nothing where one of the parts has none.
pub proof fn combinations_mean_their_parts(
    keyboard: KeyboardView,
    parts: Seq<Seq<char>>,
    k: int,
)
    requires
        0 <= k < parts.len(),
    ensures
        combo_keys(keyboard, parts) is Some ==> {
            let keys = combo_keys(keyboard, parts)->0;
            &&& keys.len() == parts.len()
            &&& named_symbol(crate::text::trimmed(parts[k])) is Some
            &&& key_of(keyboard, named_symbol(crate::text::trimmed(parts[k]))->0) is Some
            &&& keys[k] == (key_of(
                keyboard,
                named_symbol(crate::text::trimmed(parts[k]))->0,
            )->0).0
        },
        named_symbol(crate::text::trimmed(parts[k])) is None ==> combo_keys(keyboard, parts)
            is None,
    decreases parts.len(),
{
    if part_key(keyboard, parts[k]) is None {
        lemma_bad_part(keyboard, parts, k);
    }
    if combo_keys(keyboard, parts) is Some {
        let rest = parts.drop_last();
        if k < rest.len() {
            assert(rest[k] == parts[k]);
            combinations_mean_their_parts(keyboard, rest, k);
        } else {
            lemma_combo_len(keyboard, rest);
        }
    }
}

proof fn lemma_combo_len(keyboard: KeyboardView, parts: Seq<Seq<char>>)
    ensures
        combo_keys(keyboard, parts) is Some ==> combo_keys(keyboard, parts)->0.len()
            == parts.len(),
    decreases parts.len(),
{
    if parts.len() > 0 {
        lemma_combo_len(keyboard, parts.drop_last());
    }
}

/// Typing a text presses for each character the key of its symbol, with the shift key where
/// the symbol takes it, one character after the other.
pub proof fn texts_are_typed_in_order(keyboard: KeyboardView, c: char, rest: Seq<char>)
    requires
        symbol_of_char(c) is Some,
        key_of(keyboard, symbol_of_char(c)->0) is Some,
    ensures
        ({
            let key = key_of(keyboard, symbol_of_char(c)->0)->0;
            let shift = key_of(keyboard, XK_SHIFT_L);
            let typed = pressed(text_steps(keyboard, seq![c] + rest));
            &&& key.1 && shift is Some ==> typed == seq![(shift->0).0, key.0] + pressed(
                text_steps(keyboard, rest),
            )
            &&& !key.1 || shift is None ==> typed == seq![key.0] + pressed(
                text_steps(keyboard, rest),
            )
            &&& typable(keyboard, seq![c] + rest) == 1 + typable(keyboard, rest)
        }),
{
    let key = key_of(keyboard, symbol_of_char(c)->0)->0;
    let shift = shift_for(keyboard, key.1);
    let text = seq![c] + rest;
    assert(text.skip(1) =~= rest);
    let one = char_steps(keyboard, c)->0;
    the_right_keys_go_down(key.0, shift, seq![]);
    assert(one.drop_last() =~= key_steps(key.0, shift));
    reveal_with_fuel(pressed, 2);
    lemma_pressed_concat(one, text_steps(keyboard, rest));
}

/// A click happens where it is meant to: the mouse is moved there first, and the button
/// goes down and up behind that.
pub proof fn clicks_happen_where_they_are_meant(x: i32, y: i32, button: u8)
    requires
        -0x8000 <= x < 0x8000,
        -0x8000 <= y < 0x8000,
    ensures
        ({
            let steps = click_steps(x, y, button);
            &&& steps[0] matches Step::Move { x: a, y: b } && a == x && b == y
            &&& exists|d: int, u: int|
                0 < d < u < steps.len() && #[trigger] steps[d] == Step::ButtonPress(button)
                    && #[trigger] steps[u] == Step::ButtonRelease(button)
            &&& forall|k: int|
                0 <= k < steps.len() ==> !(#[trigger] steps[k] is Press) && !(steps[k] is Release)
                    && (k > 0 ==> !(steps[k] is Move))
        }),
{
    let steps = click_steps(x, y, button);
    assert(steps[2] == Step::ButtonPress(button));
    assert(steps[4] == Step::ButtonRelease(button));
}

/// A file can be named in the file dialog exactly where it is there, is a file, and has a
/// path that is a text.
pub proof fn only_files_are_named(file: Option<DialogFile>)
    ensures
        dialog_fault(file) is None <==> file is Some && file->0.is_file && file->0.path is Some,
        file is None ==> dialog_fault(file) == Some(DialogError::Missing),
        file is Some && !file->0.is_file ==> dialog_fault(file) == Some(DialogError::NotAFile),
{
}

/// The wheel is turned as often as it is asked for, up for a number above zero and down for
/// one below, at the place.
pub proof fn wheels_turn_as_often_as_asked(plan: ScrollPlan, x: i32, y: i32, clicks: i32)
    requires
        turns_wheel(plan, x, y, clicks),
        -0x8000 <= x < 0x8000,
        -0x8000 <= y < 0x8000,
    ensures
        clicks >= 0 ==> plan.clicks == clicks,
        clicks <= 0 ==> plan.clicks == -clicks,
        clicks > 0 ==> plan.each@[0] == Step::ButtonPress(4) && plan.each@[1]
            == Step::ButtonRelease(4),
        clicks < 0 ==> plan.each@[0] == Step::ButtonPress(5) && plan.each@[1]
            == Step::ButtonRelease(5),
        plan.start@[0] == (Step::Move { x: x as i16, y: y as i16 }),
        plan.each@.len() == 3 && plan.each@[2] is Sleep,
{
}

/// A key that can be pressed is pressed, with the shift key where its symbol takes it and
/// the keyboard has one; a name is refused exactly where it names no key.
pub proof fn keys_are_pressed_by_name(
    keyboard: KeyboardView,
    name: Seq<char>,
    steps: Result<Vec<Step>, InputError>,
)
    requires
        takes_key(keyboard, name, steps),
    ensures
        steps is Ok <==> named_symbol(name) is Some && key_of(keyboard, named_symbol(name)->0)
            is Some,
        steps matches Err(e) ==> (e is UnknownKey <==> named_symbol(name) is None) && (e
            is UnknownKey || e is UnmappedKey),
        steps is Ok ==> pressed(steps->Ok_0@).len() > 0 && pressed(steps->Ok_0@).last() == (key_of(
            keyboard,
            named_symbol(name)->0,
        )->0).0,
        steps is Ok && !(key_of(keyboard, named_symbol(name)->0)->0).1 ==> pressed(
            steps->Ok_0@,
        ).len() == 1,
{
    if steps is Ok {
        let key = key_of(keyboard, named_symbol(name)->0)->0;
        the_right_keys_go_down(key.0, shift_for(keyboard, key.1), seq![]);
    }
}

/// A combination presses the keys of its parts in order, or is refused for the first part
/// that has no key.
pub proof fn combinations_are_pressed_or_refused(
    keyboard: KeyboardView,
    parts: Seq<Seq<char>>,
    steps: Result<Vec<Step>, InputError>,
    k: int,
)
    requires
        takes_combo(keyboard, parts, steps),
        0 <= k < parts.len(),
    ensures
        steps is Ok ==> pressed(steps->Ok_0@).len() == parts.len() && pressed(steps->Ok_0@)[k]
            == (key_of(keyboard, named_symbol(crate::text::trimmed(parts[k]))->0)->0).0,
        named_symbol(crate::text::trimmed(parts[k])) is None ==> steps is Err,
        part_key(keyboard, parts[k]) is None && (forall|j: int|
            0 <= j < k ==> part_key(keyboard, #[trigger] parts[j]) is Some) ==> match steps {
            Err(InputError::UnknownKey(part)) => part@ == parts[k],
            Err(InputError::UnmappedKey(part)) => part@ == parts[k],
            _ => false,
        },
{
    combinations_mean_their_parts(keyboard, parts, k);
    if steps is Ok {
        the_right_keys_go_down(0, None, combo_keys(keyboard, parts)->0);
    }
    if part_key(keyboard, parts[k]) is None {
        lemma_bad_part(keyboard, parts, k);
        if forall|j: int| 0 <= j < k ==> part_key(keyboard, #[trigger] parts[j]) is Some {
            lemma_first_bad_part(keyboard, parts, k);
        }
    }
}

proof fn lemma_first_bad_part(keyboard: KeyboardView, parts: Seq<Seq<char>>, k: int)
    requires
        0 <= k < parts.len(),
        part_key(keyboard, parts[k]) is None,
        forall|j: int| 0 <= j < k ==> part_key(keyboard, #[trigger] parts[j]) is Some,
    ensures
        first_bad_part(keyboard, parts) == Some(parts[k]),
    decreases k,
{
    if k > 0 {
        let rest = parts.skip(1);
        assert(part_key(keyboard, parts[0]) is Some);
        assert(rest[k - 1] == parts[k]);
        assert forall|j: int| 0 <= j < k - 1 implies part_key(keyboard, #[trigger] rest[j])
            is Some by {
            assert(rest[j] == parts[j + 1]);
        }
        lemma_first_bad_part(keyboard, rest, k - 1);
    }
}

/// Pasting presses the control key and the letter, in this order, where the keyboard has
/// both, and cannot be done otherwise.
pub proof fn pasting_presses_the_paste_keys(
    keyboard: KeyboardView,
    steps: Result<Vec<Step>, InputError>,
)
    requires
        is_paste(keyboard, steps),
    ensures
        steps is Ok <==> part_key(keyboard, "ctrl"@) is Some && part_key(keyboard, "v"@) is Some,
        steps is Ok ==> pressed(steps->Ok_0@) == seq![
            part_key(keyboard, "ctrl"@)->0,
            part_key(keyboard, "v"@)->0,
        ],
{
    reveal_strlit("ctrl+v");
    reveal_strlit("ctrl");
    reveal_strlit("v");
    let parts = crate::text::split_on("ctrl+v"@, '+');
    assert("ctrl+v"@ =~= "ctrl"@ + seq!['+'] + "v"@);
    crate::text::parts_are_split_apart("ctrl"@, "v"@, '+');
    crate::text::parts_are_split_apart("v"@, seq![], '+');
    assert(parts =~= seq!["ctrl"@, "v"@]);
    reveal_with_fuel(combo_keys, 3);
    assert(parts.drop_last() =~= seq!["ctrl"@]);
    assert(parts.drop_last().drop_last() =~= Seq::<Seq<char>>::empty());
    if steps is Ok {
        let keys = combo_keys(keyboard, parts)->0;
        the_right_keys_go_down(0, None, keys);
        assert(keys =~= seq![part_key(keyboard, "ctrl"@)->0, part_key(keyboard, "v"@)->0]);
    }
}

} // verus!
