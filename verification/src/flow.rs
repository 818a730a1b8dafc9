//! What is done in the client, step by step: switching to a chat, opening a chat window,
//! sending a text, an image or a file. After each action the outcome is handed back, and
//! the next action follows from it.

use vstd::prelude::*;
use vstd::string::*;

use crate::search::{list_sessions, EditBoxSearch, SessionItem, SessionSearch};
use crate::send::Payload;
use crate::text::text_contains;
use crate::wechat::{SessionInfo, WeChat};

verus! {

/// What came of an action.
#[derive(Clone, Copy, Debug, PartialEq, Eq)]
pub struct Outcome {
    /// Whether it succeeded: something was found, a wait ended in time, keys were sent.
    pub done: bool,
    /// Whether a chat that was switched to exists.
    pub opened: bool,
    /// Where something stands that was looked for.
    pub place: Option<(i32, i32)>,
}

/// Why an action cannot be carried out.
#[derive(Clone, Copy, Debug, PartialEq, Eq, Structural)]
pub enum FlowError {
    /// The client is not found.
    NoApp,
    /// Neither the main window nor the input box is found.
    NoButton,
    /// What was done failed: keys or clicks could not be sent, or the chat could not be
    /// switched to. Its own error is passed on.
    Passed,
}

/// The words of an error; one that is passed on brings its own.
pub open spec fn flow_words(error: FlowError) -> Seq<char> {
    match error {
        FlowError::NoApp => "找不到微信应用"@,
        FlowError::NoButton => "找不到可用的微信主窗口或消息输入框"@,
        FlowError::Passed => ""@,
    }
}

impl FlowError {
    /// The words of the error; one that is passed on brings its own.
    pub fn message(&self) -> (words: &'static str)
        ensures
            words@ == flow_words(*self),
    {
        match self {
            FlowError::NoApp => "找不到微信应用",
            FlowError::NoButton => "找不到可用的微信主窗口或消息输入框",
            FlowError::Passed => "",
        }
    }
}

// ---------------------------------------------------------------------------
// Switching to a chat
// ---------------------------------------------------------------------------

/// How far switching to a chat has come.
#[derive(Clone, Copy, Debug, PartialEq, Eq, Structural)]
pub enum ChatStage {
    Begin,
    Focusing,
    FindingApp,
    FindingItem,
    Clicking,
    WaitingAfterClick,
    OpeningSearch,
    WaitingSearchBox,
    SelectingAll,
    Pausing,
    Pasting,
    WaitingResults,
    Choosing,
    WaitingMessages,
    ClosingSearch,
    WaitingRestored,
    Checking,
    Finished,
}

/// What is done to switch to a chat. Waits name the longest time and the time between two
/// looks, in milliseconds.
#[derive(Clone, Copy, Debug, PartialEq, Eq, Structural)]
pub enum ChatAction {
    FocusMain,
    FindApp,
    /// Looks for the chat in the list of sessions.
    FindItem,
    Click(i32, i32),
    WaitMessages(u64, u64),
    /// Opens the search.
    OpenSearch,
    WaitSearchBox(u64, u64),
    /// Selects what stands in the search box.
    SelectAll,
    Sleep(u64),
    /// Pastes the name of the chat.
    PasteName,
    WaitResults(u64, u64),
    Enter,
    Escape,
    /// Looks whether the list of messages is there.
    CheckMessages,
    /// The chat is open.
    Opened,
    /// There is no such chat.
    NotFound,
    Fail(FlowError),
}

/// How switching to `who` goes on, and which chat is open then. The list of sessions is
/// tried first; a chat that is not on it is searched for by its name. The identifier of a
/// group is not remembered as an open chat: the client shows another name.
pub open spec fn chat_next(
    stage: ChatStage,
    outcome: Outcome,
    who: Seq<char>,
    current: Option<Seq<char>>,
) -> (ChatStage, ChatAction, Option<Seq<char>>) {
    let failed = (ChatStage::Finished, ChatAction::Fail(FlowError::Passed), current);
    match stage {
        ChatStage::Begin => if current == Some(who) {
            (ChatStage::Finished, ChatAction::Opened, current)
        } else {
            (ChatStage::Focusing, ChatAction::FocusMain, current)
        },
        ChatStage::Focusing => (ChatStage::FindingApp, ChatAction::FindApp, current),
        ChatStage::FindingApp => if outcome.done {
            (ChatStage::FindingItem, ChatAction::FindItem, current)
        } else {
            (ChatStage::Finished, ChatAction::Fail(FlowError::NoApp), current)
        },
        ChatStage::FindingItem => match outcome.place {
            Some((x, y)) => (ChatStage::Clicking, ChatAction::Click(x, y), current),
            None => (ChatStage::OpeningSearch, ChatAction::OpenSearch, current),
        },
        ChatStage::Clicking => if outcome.done {
            (ChatStage::WaitingAfterClick, ChatAction::WaitMessages(1500, 50), current)
        } else {
            failed
        },
        ChatStage::WaitingAfterClick => (ChatStage::Finished, ChatAction::Opened, Some(who)),
        ChatStage::OpeningSearch => if outcome.done {
            (ChatStage::WaitingSearchBox, ChatAction::WaitSearchBox(800, 50), current)
        } else {
            failed
        },
        ChatStage::WaitingSearchBox => (ChatStage::SelectingAll, ChatAction::SelectAll, current),
        ChatStage::SelectingAll => if outcome.done {
            (ChatStage::Pausing, ChatAction::Sleep(100), current)
        } else {
            failed
        },
        ChatStage::Pausing => (ChatStage::Pasting, ChatAction::PasteName, current),
        ChatStage::Pasting => if outcome.done {
            (ChatStage::WaitingResults, ChatAction::WaitResults(2000, 100), current)
        } else {
            failed
        },
        ChatStage::WaitingResults => (ChatStage::Choosing, ChatAction::Enter, current),
        ChatStage::Choosing => if outcome.done {
            (ChatStage::WaitingMessages, ChatAction::WaitMessages(2000, 50), current)
        } else {
            failed
        },
        ChatStage::WaitingMessages => (ChatStage::ClosingSearch, ChatAction::Escape, current),
        ChatStage::ClosingSearch => if outcome.done {
            (ChatStage::WaitingRestored, ChatAction::WaitMessages(800, 50), current)
        } else {
            failed
        },
        ChatStage::WaitingRestored => (ChatStage::Checking, ChatAction::CheckMessages, current),
        ChatStage::Checking => if outcome.done {
            (
                ChatStage::Finished,
                ChatAction::Opened,
                if crate::message::is_group_chat(who) {
                    current
                } else {
                    Some(who)
                },
            )
        } else {
            (ChatStage::Finished, ChatAction::NotFound, None)
        },
        ChatStage::Finished => failed,
    }
}

/// How many stages lie before a stage.
pub open spec fn chat_rank(stage: ChatStage) -> nat {
    match stage {
        ChatStage::Begin => 0,
        ChatStage::Focusing => 1,
        ChatStage::FindingApp => 2,
        ChatStage::FindingItem => 3,
        ChatStage::Clicking => 4,
        ChatStage::WaitingAfterClick => 5,
        ChatStage::OpeningSearch => 6,
        ChatStage::WaitingSearchBox => 7,
        ChatStage::SelectingAll => 8,
        ChatStage::Pausing => 9,
        ChatStage::Pasting => 10,
        ChatStage::WaitingResults => 11,
        ChatStage::Choosing => 12,
        ChatStage::WaitingMessages => 13,
        ChatStage::ClosingSearch => 14,
        ChatStage::WaitingRestored => 15,
        ChatStage::Checking => 16,
        ChatStage::Finished => 17,
    }
}

/// Switching to a chat comes to an end whatever the outcomes are: every step leads to a
/// later stage. It ends exactly where the chat is open, there is none, or something fails;
/// and the chat that is known to be open changes at the end alone.
pub proof fn switching_ends(
    stage: ChatStage,
    outcome: Outcome,
    who: Seq<char>,
    current: Option<Seq<char>>,
)
    requires
        stage != ChatStage::Finished,
    ensures
        ({
            let next = chat_next(stage, outcome, who, current);
            &&& chat_rank(next.0) > chat_rank(stage)
            &&& next.0 == ChatStage::Finished <==> next.1 is Opened || next.1 is NotFound
                || next.1 is Fail
            &&& next.0 != ChatStage::Finished ==> next.2 == current
            &&& next.1 is NotFound ==> next.2 is None
            &&& next.1 is Fail ==> next.2 == current
            &&& next.1 is Opened ==> next.2 == Some(who) || (next.2 == current
                && crate::message::is_group_chat(who))
        }),
{
}

/// A chat that is open is not switched to again.
pub proof fn open_chats_are_not_switched_to(outcome: Outcome, who: Seq<char>)
    ensures
        chat_next(ChatStage::Begin, outcome, who, Some(who)) == (
            ChatStage::Finished,
            ChatAction::Opened,
            Some(who),
        ),
{
}

// ---------------------------------------------------------------------------
// Chat windows
// ---------------------------------------------------------------------------

/// How often it is tried again to open a chat window, after the first attempt.
pub const LISTEN_RETRIES: u64 = 3;

/// The pause before the first retry, in milliseconds.
pub const FIRST_PAUSE_MS: u64 = 1000;

/// How much longer each further pause is, in milliseconds.
pub const LONGER_PAUSE_MS: u64 = 500;

/// How far opening a chat window has come; the number is that of the attempt, from zero.
#[derive(Clone, Copy, Debug, PartialEq, Eq, Structural)]
pub enum ListenStage {
    Begin,
    FindingApp,
    CheckingAlive,
    FindingWindow,
    Pausing(u64),
    Focusing(u64),
    Switching(u64),
    FindingItem(u64),
    DoubleClicking(u64),
    Appearing(u64),
    Awaiting(u64),
    Finished,
}

/// What is done to open a chat window.
#[derive(Clone, Copy, Debug, PartialEq, Eq, Structural)]
pub enum ListenAction {
    FindApp,
    /// Looks whether the known window is still there.
    CheckAlive,
    /// Looks for a window that is not known yet.
    FindWindow,
    Sleep(u64),
    FocusMain,
    SwitchChat,
    FindItem,
    DoubleClick(i32, i32),
    /// Waits until a window shows up.
    WaitWindow(u64, u64),
    /// Waits until the window can be taken.
    AwaitWindow(u64, u64),
    /// There is a window.
    Listening,
    /// There is none.
    NotListening,
    Fail(FlowError),
}

/// What follows on an attempt that failed: a longer pause and another one, or the end.
pub open spec fn after_attempt(attempt: u64) -> (ListenStage, ListenAction) {
    if attempt < LISTEN_RETRIES {
        (
            ListenStage::Pausing((attempt + 1) as u64),
            ListenAction::Sleep((FIRST_PAUSE_MS + attempt * LONGER_PAUSE_MS) as u64),
        )
    } else {
        (ListenStage::Finished, ListenAction::NotListening)
    }
}

/// How opening a chat window goes on.
pub open spec fn listen_next(
    stage: ListenStage,
    outcome: Outcome,
    who: Seq<char>,
    windows: Seq<Seq<char>>,
) -> (ListenStage, ListenAction) {
    match stage {
        ListenStage::Begin => (ListenStage::FindingApp, ListenAction::FindApp),
        ListenStage::FindingApp => if !outcome.done {
            (ListenStage::Finished, ListenAction::Fail(FlowError::NoApp))
        } else if windows.contains(who) {
            (ListenStage::CheckingAlive, ListenAction::CheckAlive)
        } else {
            (ListenStage::FindingWindow, ListenAction::FindWindow)
        },
        ListenStage::CheckingAlive => if outcome.done {
            (ListenStage::Finished, ListenAction::Listening)
        } else {
            (ListenStage::FindingWindow, ListenAction::FindWindow)
        },
        ListenStage::FindingWindow => if outcome.done {
            (ListenStage::Finished, ListenAction::Listening)
        } else {
            (ListenStage::Focusing(0), ListenAction::FocusMain)
        },
        ListenStage::Pausing(n) => (ListenStage::Focusing(n), ListenAction::FocusMain),
        ListenStage::Focusing(n) => (ListenStage::Switching(n), ListenAction::SwitchChat),
        ListenStage::Switching(n) => if outcome.done {
            (ListenStage::FindingItem(n), ListenAction::FindItem)
        } else {
            after_attempt(n)
        },
        ListenStage::FindingItem(n) => match outcome.place {
            Some((x, y)) => (ListenStage::DoubleClicking(n), ListenAction::DoubleClick(x, y)),
            None => after_attempt(n),
        },
        ListenStage::DoubleClicking(n) => if outcome.done {
            (ListenStage::Appearing(n), ListenAction::WaitWindow(3000, 100))
        } else {
            (ListenStage::Finished, ListenAction::Fail(FlowError::Passed))
        },
        ListenStage::Appearing(n) => (
            ListenStage::Awaiting(n),
            ListenAction::AwaitWindow(6000, 200),
        ),
        ListenStage::Awaiting(n) => if outcome.done {
            (ListenStage::Finished, ListenAction::Listening)
        } else {
            after_attempt(n)
        },
        ListenStage::Finished => (ListenStage::Finished, ListenAction::NotListening),
    }
}

/// What is known of the client after a step of opening a chat window: from the beginning
/// on that somebody is to be listened to; that a window that is gone is gone, and one that
/// is found is there; and that after a double click it is not known which chat is open.
pub open spec fn listen_state(
    stage: ListenStage,
    outcome: Outcome,
    who: Seq<char>,
    state: crate::wechat::WeChatView,
) -> crate::wechat::WeChatView {
    match stage {
        ListenStage::Begin => crate::wechat::WeChatView {
            targets: crate::wechat::with_name_in_order(state.targets, who),
            ..state
        },
        ListenStage::CheckingAlive => if outcome.done {
            state
        } else {
            crate::wechat::WeChatView {
                windows: crate::command::without_name(state.windows, who),
                ..state
            }
        },
        ListenStage::FindingWindow => if outcome.done {
            crate::wechat::WeChatView {
                windows: crate::command::with_name(state.windows, who),
                ..state
            }
        } else {
            state
        },
        ListenStage::Appearing(n) => crate::wechat::WeChatView { current_chat: None, ..state },
        ListenStage::Awaiting(n) => if outcome.done {
            crate::wechat::WeChatView {
                windows: crate::command::with_name(state.windows, who),
                ..state
            }
        } else {
            state
        },
        _ => state,
    }
}

/// A stage of one of the attempts.
pub open spec fn valid_listen_stage(stage: ListenStage) -> bool {
    match stage {
        ListenStage::Pausing(n) => n <= LISTEN_RETRIES,
        ListenStage::Focusing(n) => n <= LISTEN_RETRIES,
        ListenStage::Switching(n) => n <= LISTEN_RETRIES,
        ListenStage::FindingItem(n) => n <= LISTEN_RETRIES,
        ListenStage::DoubleClicking(n) => n <= LISTEN_RETRIES,
        ListenStage::Appearing(n) => n <= LISTEN_RETRIES,
        ListenStage::Awaiting(n) => n <= LISTEN_RETRIES,
        _ => true,
    }
}

/// How many stages lie before a stage.
pub open spec fn listen_rank(stage: ListenStage) -> nat {
    match stage {
        ListenStage::Begin => 0,
        ListenStage::FindingApp => 1,
        ListenStage::CheckingAlive => 2,
        ListenStage::FindingWindow => 3,
        ListenStage::Pausing(n) => 4 + 7 * n as nat,
        ListenStage::Focusing(n) => 5 + 7 * n as nat,
        ListenStage::Switching(n) => 6 + 7 * n as nat,
        ListenStage::FindingItem(n) => 7 + 7 * n as nat,
        ListenStage::DoubleClicking(n) => 8 + 7 * n as nat,
        ListenStage::Appearing(n) => 9 + 7 * n as nat,
        ListenStage::Awaiting(n) => 10 + 7 * n as nat,
        ListenStage::Finished => 11 + 7 * LISTEN_RETRIES as nat,
    }
}

/// Opening a chat window comes to an end whatever the outcomes are, after three retries at
/// most.
pub proof fn listening_ends(
    stage: ListenStage,
    outcome: Outcome,
    who: Seq<char>,
    windows: Seq<Seq<char>>,
)
    requires
        stage != ListenStage::Finished,
        valid_listen_stage(stage),
    ensures
        ({
            let next = listen_next(stage, outcome, who, windows);
            &&& valid_listen_stage(next.0)
            &&& listen_rank(next.0) > listen_rank(stage)
            &&& next.0 == ListenStage::Finished <==> next.1 is Listening || next.1 is NotListening
                || next.1 is Fail
        }),
{
}

/// Where the end is that there is a window, the window is known, provided that a known one
/// was looked after only where there was one.
pub proof fn listeners_have_windows(
    stage: ListenStage,
    outcome: Outcome,
    who: Seq<char>,
    state: crate::wechat::WeChatView,
)
    requires
        stage == ListenStage::CheckingAlive ==> state.windows.contains(who),
        listen_next(stage, outcome, who, state.windows).1 is Listening,
    ensures
        listen_state(stage, outcome, who, state).windows.contains(who),
{
    let with = crate::command::with_name(state.windows, who);
    if !state.windows.contains(who) {
        assert(with[state.windows.len() as int] == who);
    }
}

// ---------------------------------------------------------------------------
// Sending
// ---------------------------------------------------------------------------

/// How far sending has come.
#[derive(Clone, Copy, Debug, PartialEq, Eq, Structural)]
pub enum SendStage {
    Begin,
    CheckingWindow,
    Activating,
    MentioningInWindow,
    SendingInWindow,
    Switching,
    PausingAfterSwitch,
    FindingApp,
    Mentioning,
    Locating,
    ClickingButton,
    PausingAfterClick,
    Pasting,
    PausingAfterPaste,
    Entering,
    PausingAfterEnter,
    Verifying,
    Finished,
}

/// What is done to send something.
#[derive(Clone, Copy, Debug, PartialEq, Eq, Structural)]
pub enum SendAction {
    /// Looks whether the chat window is still there.
    CheckAlive,
    /// Brings the chat window to the front, with the cursor in its input box.
    ActivateWindow,
    TypeMentions,
    /// Lets the chat window send.
    SendInWindow,
    SwitchChat,
    Sleep(u64),
    FindApp,
    /// Looks for the button for files.
    FindButton,
    Click(i32, i32),
    /// Pastes the text or the image, or picks the file.
    Paste,
    Enter,
    /// Looks for the text among the last messages on the screen.
    Verify,
    /// What the chat window answered.
    Relay,
    /// There is no such chat.
    ChatNotFound,
    /// It was sent; whether it was seen on the screen.
    Sent(bool),
    Fail(FlowError),
}

/// Whether something is sent by the chat window where there is one: a file never is.
pub open spec fn uses_window(payload: Payload) -> bool {
    payload != Payload::File
}

/// The pause after pasting, in milliseconds.
pub open spec fn paste_pause(payload: Payload) -> u64 {
    match payload {
        Payload::Text => 300,
        Payload::Image => 500,
        Payload::File => 0,
    }
}

/// The pause after the return key, in milliseconds.
pub open spec fn enter_pause(payload: Payload) -> u64 {
    match payload {
        Payload::Text => 500,
        Payload::Image => 0,
        Payload::File => 700,
    }
}

/// How sending goes on. Texts and images go by the chat window where there is one that is
/// alive; everything else goes by the main window, after switching to the chat.
pub open spec fn send_next(
    payload: Payload,
    skip_verify: bool,
    stage: SendStage,
    outcome: Outcome,
    to: Seq<char>,
    windows: Seq<Seq<char>>,
) -> (SendStage, SendAction) {
    let failed = (SendStage::Finished, SendAction::Fail(FlowError::Passed));
    match stage {
        SendStage::Begin => if uses_window(payload) && windows.contains(to) {
            (SendStage::CheckingWindow, SendAction::CheckAlive)
        } else {
            (SendStage::Switching, SendAction::SwitchChat)
        },
        SendStage::CheckingWindow => if !outcome.done {
            (SendStage::Switching, SendAction::SwitchChat)
        } else if payload == Payload::Text {
            (SendStage::Activating, SendAction::ActivateWindow)
        } else {
            (SendStage::SendingInWindow, SendAction::SendInWindow)
        },
        SendStage::Activating => if outcome.done {
            (SendStage::MentioningInWindow, SendAction::TypeMentions)
        } else {
            failed
        },
        SendStage::MentioningInWindow => if outcome.done {
            (SendStage::SendingInWindow, SendAction::SendInWindow)
        } else {
            failed
        },
        SendStage::SendingInWindow => (SendStage::Finished, SendAction::Relay),
        SendStage::Switching => if !outcome.done {
            failed
        } else if !outcome.opened {
            (SendStage::Finished, SendAction::ChatNotFound)
        } else {
            (SendStage::PausingAfterSwitch, SendAction::Sleep(300))
        },
        SendStage::PausingAfterSwitch => if payload == Payload::Image {
            (SendStage::Pasting, SendAction::Paste)
        } else {
            (SendStage::FindingApp, SendAction::FindApp)
        },
        SendStage::FindingApp => if !outcome.done {
            (SendStage::Finished, SendAction::Fail(FlowError::NoApp))
        } else if payload == Payload::File {
            (SendStage::Locating, SendAction::FindButton)
        } else {
            (SendStage::Mentioning, SendAction::TypeMentions)
        },
        SendStage::Mentioning => if outcome.done {
            (SendStage::Pasting, SendAction::Paste)
        } else {
            failed
        },
        SendStage::Locating => match outcome.place {
            Some((x, y)) => (SendStage::ClickingButton, SendAction::Click(x, y)),
            None => (SendStage::Finished, SendAction::Fail(FlowError::NoButton)),
        },
        SendStage::ClickingButton => if outcome.done {
            (SendStage::PausingAfterClick, SendAction::Sleep(500))
        } else {
            failed
        },
        SendStage::PausingAfterClick => (SendStage::Pasting, SendAction::Paste),
        SendStage::Pasting => if !outcome.done {
            failed
        } else if payload == Payload::File {
            (SendStage::Entering, SendAction::Enter)
        } else {
            (SendStage::PausingAfterPaste, SendAction::Sleep(paste_pause(payload)))
        },
        SendStage::PausingAfterPaste => (SendStage::Entering, SendAction::Enter),
        SendStage::Entering => if !outcome.done {
            failed
        } else if payload == Payload::Image {
            (SendStage::Finished, SendAction::Sent(false))
        } else {
            (SendStage::PausingAfterEnter, SendAction::Sleep(enter_pause(payload)))
        },
        SendStage::PausingAfterEnter => if payload == Payload::Text && !skip_verify {
            (SendStage::Verifying, SendAction::Verify)
        } else {
            (SendStage::Finished, SendAction::Sent(false))
        },
        SendStage::Verifying => (SendStage::Finished, SendAction::Sent(outcome.done)),
        SendStage::Finished => failed,
    }
}

/// What is known of the client after a step of sending: a chat window that is gone is
/// forgotten, and so is which chat is open; before an image is sent by the main window it
/// is forgotten too, so that the main window comes to the front.
pub open spec fn send_state(
    payload: Payload,
    stage: SendStage,
    outcome: Outcome,
    to: Seq<char>,
    state: crate::wechat::WeChatView,
) -> crate::wechat::WeChatView {
    match stage {
        SendStage::Begin => if payload == Payload::Image && !state.windows.contains(to) {
            crate::wechat::WeChatView { current_chat: None, ..state }
        } else {
            state
        },
        SendStage::CheckingWindow => if outcome.done {
            state
        } else {
            crate::wechat::WeChatView {
                windows: crate::command::without_name(state.windows, to),
                current_chat: None,
                ..state
            }
        },
        _ => state,
    }
}

/// How many stages lie before a stage.
pub open spec fn send_rank(stage: SendStage) -> nat {
    match stage {
        SendStage::Begin => 0,
        SendStage::CheckingWindow => 1,
        SendStage::Activating => 2,
        SendStage::MentioningInWindow => 3,
        SendStage::SendingInWindow => 4,
        SendStage::Switching => 5,
        SendStage::PausingAfterSwitch => 6,
        SendStage::FindingApp => 7,
        SendStage::Mentioning => 8,
        SendStage::Locating => 9,
        SendStage::ClickingButton => 10,
        SendStage::PausingAfterClick => 11,
        SendStage::Pasting => 12,
        SendStage::PausingAfterPaste => 13,
        SendStage::Entering => 14,
        SendStage::PausingAfterEnter => 15,
        SendStage::Verifying => 16,
        SendStage::Finished => 17,
    }
}

/// Sending comes to an end whatever the outcomes are, and says that something was sent
/// only where the return key was pressed; a file is never sent by a chat window, and a
/// message that was not looked for on the screen was not seen there.
pub proof fn sending_ends(
    payload: Payload,
    skip_verify: bool,
    stage: SendStage,
    outcome: Outcome,
    to: Seq<char>,
    windows: Seq<Seq<char>>,
)
    requires
        stage != SendStage::Finished,
    ensures
        ({
            let next = send_next(payload, skip_verify, stage, outcome, to, windows);
            &&& send_rank(next.0) > send_rank(stage)
            &&& next.0 == SendStage::Finished <==> next.1 is Relay || next.1 is ChatNotFound
                || next.1 is Sent || next.1 is Fail
            &&& next.1 is Sent ==> stage == SendStage::Entering || stage
                == SendStage::PausingAfterEnter || stage == SendStage::Verifying
            &&& next.1 == SendAction::Sent(true) ==> stage == SendStage::Verifying && outcome.done
            &&& payload == Payload::File ==> next.0 != SendStage::CheckingWindow
        }),
{
}

/// The words for something that was sent.
pub open spec fn sent_words(payload: Payload, verified: bool) -> Seq<char> {
    match payload {
        Payload::Text => if verified {
            "消息已发送"@
        } else {
            "消息已发送 (未验证)"@
        },
        Payload::Image => "图片已发送"@,
        Payload::File => "文件已发送"@,
    }
}

/// The words for something that was sent.
pub fn sent_message(payload: Payload, verified: bool) -> (words: &'static str)
    ensures
        words@ == sent_words(payload, verified),
{
    match payload {
        Payload::Text => if verified {
            "消息已发送"
        } else {
            "消息已发送 (未验证)"
        },
        Payload::Image => "图片已发送",
        Payload::File => "文件已发送",
    }
}

/// The words for a chat that does not exist.
pub fn chat_not_found_message(to: &str) -> (words: String)
    ensures
        words@ == "未找到聊天: "@ + to@,
{
    "未找到聊天: ".to_owned().concat(to)
}

// ---------------------------------------------------------------------------
// Mentions
// ---------------------------------------------------------------------------

/// A step of mentioning somebody.
#[derive(Debug)]
pub enum MentionStep {
    /// Types the sign that opens the choice of names; pasting it would not open it.
    TypeAt,
    PasteName(String),
    /// Takes the first name of the choice.
    Enter,
    Sleep(u64),
}

/// What a [`MentionStep`] says.
pub enum MentionView {
    TypeAt,
    PasteName(Seq<char>),
    Enter,
    Sleep(u64),
}

impl View for MentionStep {
    type V = MentionView;

    open spec fn view(&self) -> MentionView {
        match self {
            MentionStep::TypeAt => MentionView::TypeAt,
            MentionStep::PasteName(name) => MentionView::PasteName(name@),
            MentionStep::Enter => MentionView::Enter,
            MentionStep::Sleep(n) => MentionView::Sleep(*n),
        }
    }
}

pub open spec fn mentions_view(steps: Seq<MentionStep>) -> Seq<MentionView> {
    steps.map_values(|s: MentionStep| s@)
}

/// The steps of mentioning one person.
pub open spec fn mention_of(name: Seq<char>, delay_ms: u64) -> Seq<MentionView> {
    seq![
        MentionView::TypeAt,
        MentionView::Sleep(delay_ms),
        MentionView::PasteName(name),
        MentionView::Sleep(delay_ms),
        MentionView::Enter,
        MentionView::Sleep((delay_ms * 2 / 3) as u64),
    ]
}

/// The steps of mentioning everybody, one after the other; an empty name is left out.
pub open spec fn mentions_of(names: Seq<Seq<char>>, delay_ms: u64) -> Seq<MentionView>
    decreases names.len(),
{
    if names.len() == 0 {
        seq![]
    } else {
        let before = mentions_of(names.drop_last(), delay_ms);
        if names.last().len() == 0 {
            before
        } else {
            before + mention_of(names.last(), delay_ms)
        }
    }
}

/// The steps of mentioning everybody, one after the other; an empty name is left out.
pub fn type_at_mentions(at: &Vec<String>, delay_ms: u64) -> (steps: Vec<MentionStep>)
    requires
        delay_ms <= u64::MAX / 2,
    ensures
        mentions_view(steps@) == mentions_of(crate::text::texts_of(at@), delay_ms),
{
    let mut steps: Vec<MentionStep> = Vec::new();
    let ghost all = crate::text::texts_of(at@);
    let mut i: usize = 0;
    while i < at.len()
        invariant
            i <= at@.len(),
            delay_ms <= u64::MAX / 2,
            all == crate::text::texts_of(at@),
            mentions_view(steps@) =~= mentions_of(all.take(i as int), delay_ms),
        decreases at@.len() - i,
    {
        let ghost before = mentions_view(steps@);
        proof {
            assert(all.take(i + 1).drop_last() =~= all.take(i as int));
            assert(all.take(i + 1).last() == at@[i as int]@);
        }
        if !at[i].as_str().is_empty() {
            steps.push(MentionStep::TypeAt);
            steps.push(MentionStep::Sleep(delay_ms));
            steps.push(MentionStep::PasteName(at[i].clone()));
            steps.push(MentionStep::Sleep(delay_ms));
            steps.push(MentionStep::Enter);
            steps.push(MentionStep::Sleep(delay_ms * 2 / 3));
            proof {
                assert(mentions_view(steps@) =~= before + mention_of(at@[i as int]@, delay_ms));
            }
        }
        i = i + 1;
    }
    proof {
        assert(all.take(all.len() as int) =~= all);
    }
    steps
}

// ---------------------------------------------------------------------------
// Waiting
// ---------------------------------------------------------------------------

/// What is done next while something is waited for.
#[derive(Clone, Copy, Debug, PartialEq, Eq, Structural)]
pub enum WaitStep {
    Look,
    Sleep(u64),
    Ready,
    TimedOut,
}

/// What is done next while something is waited for.
pub open spec fn wait_next(
    looked: Option<bool>,
    elapsed_ms: u64,
    max_ms: u64,
    interval_ms: u64,
) -> WaitStep {
    match looked {
        Some(true) => WaitStep::Ready,
        Some(false) => WaitStep::Sleep(interval_ms),
        None => if elapsed_ms < max_ms {
            WaitStep::Look
        } else {
            WaitStep::TimedOut
        },
    }
}

/// What is done next while something is waited for: a look, as long as the time is not up;
/// and a pause after a look at which it was not there.
pub fn wait_for(looked: Option<bool>, elapsed_ms: u64, max_ms: u64, interval_ms: u64) -> (step:
    WaitStep)
    ensures
        step == wait_next(looked, elapsed_ms, max_ms, interval_ms),
{
    match looked {
        Some(there) => if there {
            WaitStep::Ready
        } else {
            WaitStep::Sleep(interval_ms)
        },
        None => if elapsed_ms < max_ms {
            WaitStep::Look
        } else {
            WaitStep::TimedOut
        },
    }
}

/// How long the button for files is looked for, in milliseconds.
pub const BUTTON_WAIT_MS: u64 = 3000;

/// What is done after the button for files was looked for.
pub open spec fn button_wait(found: bool, elapsed_ms: u64) -> WaitStep {
    if found {
        WaitStep::Ready
    } else if elapsed_ms >= BUTTON_WAIT_MS {
        WaitStep::TimedOut
    } else {
        WaitStep::Sleep(100)
    }
}

/// What is done after the button for files was looked for: at least one look is made,
/// however long it takes.
pub fn wait_for_button(found: bool, elapsed_ms: u64) -> (step: WaitStep)
    ensures
        step == button_wait(found, elapsed_ms),
{
    if found {
        WaitStep::Ready
    } else if elapsed_ms >= BUTTON_WAIT_MS {
        WaitStep::TimedOut
    } else {
        WaitStep::Sleep(100)
    }
}

/// How often a message that was sent is looked for on the screen.
pub const SCREEN_LOOKS: u64 = 3;

/// What is done after a message was looked for on the screen for the `looks`-th time.
pub open spec fn screen_wait(looks: u64, seen: bool) -> WaitStep {
    if looks == 0 {
        WaitStep::Look
    } else if seen {
        WaitStep::Ready
    } else if looks < SCREEN_LOOKS {
        WaitStep::Sleep(500)
    } else {
        WaitStep::TimedOut
    }
}

/// What is done after a message was looked for on the screen for the `looks`-th time.
pub fn verify_sent(looks: u64, seen: bool) -> (step: WaitStep)
    ensures
        step == screen_wait(looks, seen),
{
    if looks == 0 {
        WaitStep::Look
    } else if seen {
        WaitStep::Ready
    } else if looks < SCREEN_LOOKS {
        WaitStep::Sleep(500)
    } else {
        WaitStep::TimedOut
    }
}

// ---------------------------------------------------------------------------
// The main window
// ---------------------------------------------------------------------------

/// How far bringing the main window to the front has come; the number is that of the title.
#[derive(Clone, Copy, Debug, PartialEq, Eq, Structural)]
pub enum FocusStage {
    Begin,
    Activating(u64),
    FindingFrame,
    Clicking,
    Pausing,
    Finished,
}

/// What is done to bring the main window to the front.
#[derive(Clone, Copy, Debug, PartialEq, Eq, Structural)]
pub enum FocusAction {
    /// Activates the window that has exactly this title.
    Activate(u64),
    /// Looks where the main window stands.
    FindFrame,
    Click(i32, i32),
    Sleep(u64),
    Ended,
}

/// The titles under which the main window is looked for, in order.
pub open spec fn main_title(n: u64) -> Seq<char> {
    if n == 0 {
        "微信"@
    } else if n == 1 {
        "WeChat"@
    } else {
        "Weixin"@
    }
}

/// The title of a number.
pub fn main_window_title(n: u64) -> (title: &'static str)
    ensures
        title@ == main_title(n),
{
    if n == 0 {
        "微信"
    } else if n == 1 {
        "WeChat"
    } else {
        "Weixin"
    }
}

/// How many titles there are.
pub const MAIN_TITLES: u64 = 3;

/// How bringing the main window to the front goes on. Where no title helps, the title bar
/// is clicked; where the window is not found either, nothing is done.
pub open spec fn focus_next(stage: FocusStage, outcome: Outcome) -> (FocusStage, FocusAction) {
    match stage {
        FocusStage::Begin => (FocusStage::Activating(0), FocusAction::Activate(0)),
        FocusStage::Activating(n) => if outcome.done {
            (FocusStage::Pausing, FocusAction::Sleep(300))
        } else if n + 1 < MAIN_TITLES {
            (
                FocusStage::Activating((n + 1) as u64),
                FocusAction::Activate((n + 1) as u64),
            )
        } else {
            (FocusStage::FindingFrame, FocusAction::FindFrame)
        },
        FocusStage::FindingFrame => match outcome.place {
            Some((x, y)) => (FocusStage::Clicking, FocusAction::Click(x, y)),
            None => (FocusStage::Finished, FocusAction::Ended),
        },
        FocusStage::Clicking => (FocusStage::Pausing, FocusAction::Sleep(300)),
        FocusStage::Pausing => (FocusStage::Finished, FocusAction::Ended),
        FocusStage::Finished => (FocusStage::Finished, FocusAction::Ended),
    }
}

/// How bringing the main window to the front goes on.
pub fn focus_main_window(stage: FocusStage, outcome: Outcome) -> (next: (FocusStage, FocusAction))
    ensures
        next == focus_next(stage, outcome),
{
    match stage {
        FocusStage::Begin => (FocusStage::Activating(0), FocusAction::Activate(0)),
        FocusStage::Activating(n) => if outcome.done {
            (FocusStage::Pausing, FocusAction::Sleep(300))
        } else if n < MAIN_TITLES - 1 {
            (FocusStage::Activating(n + 1), FocusAction::Activate(n + 1))
        } else {
            (FocusStage::FindingFrame, FocusAction::FindFrame)
        },
        FocusStage::FindingFrame => match outcome.place {
            Some((x, y)) => (FocusStage::Clicking, FocusAction::Click(x, y)),
            None => (FocusStage::Finished, FocusAction::Ended),
        },
        FocusStage::Clicking => (FocusStage::Pausing, FocusAction::Sleep(300)),
        FocusStage::Pausing => (FocusStage::Finished, FocusAction::Ended),
        FocusStage::Finished => (FocusStage::Finished, FocusAction::Ended),
    }
}

/// How many stages lie before a stage.
pub open spec fn focus_rank(stage: FocusStage) -> nat {
    match stage {
        FocusStage::Begin => 0,
        FocusStage::Activating(n) => 1 + n as nat,
        FocusStage::FindingFrame => 4,
        FocusStage::Clicking => 5,
        FocusStage::Pausing => 6,
        FocusStage::Finished => 7,
    }
}

/// Bringing the main window to the front comes to an end whatever the outcomes are.
pub proof fn focusing_ends(stage: FocusStage, outcome: Outcome)
    requires
        stage != FocusStage::Finished,
        stage matches FocusStage::Activating(n) ==> n < MAIN_TITLES,
    ensures
        ({
            let next = focus_next(stage, outcome);
            &&& focus_rank(next.0) > focus_rank(stage)
            &&& next.0 matches FocusStage::Activating(n) ==> n < MAIN_TITLES
            &&& next.0 == FocusStage::Finished <==> next.1 == FocusAction::Ended
        }),
{
}

// ---------------------------------------------------------------------------
// What is asked of the client
// ---------------------------------------------------------------------------

/// What is asked of whoever sends keys and clicks; one thing is done after the other.
#[derive(Debug)]
pub enum InputCommand {
    SendMessage { to: String, text: String, at: Vec<String>, skip_verify: bool },
    SendImage { to: String, image_path: String },
    SendFile { to: String, file_path: String },
    ChatWith { who: String },
    AddListen { who: String },
    RemoveListen { who: String },
}

impl InputCommand {
    /// Whose chat window is looked after before the command: a text or an image goes by it,
    /// and a window that is gone is opened again for those who are listened to.
    pub fn recovers(&self) -> (to: Option<&String>)
        ensures
            match (to, self) {
                (Some(name), InputCommand::SendMessage { to: target, .. }) => name@ == target@,
                (Some(name), InputCommand::SendImage { to: target, .. }) => name@ == target@,
                (Some(name), _) => false,
                (None, _) => !(self is SendMessage) && !(self is SendImage),
            },
    {
        match self {
            InputCommand::SendMessage { to, .. } => Some(to),
            InputCommand::SendImage { to, .. } => Some(to),
            _ => None,
        }
    }
}

// ---------------------------------------------------------------------------
// Steps
// ---------------------------------------------------------------------------

impl WeChat {
    /// Begins the search for the input box.
    pub fn find_edit_box(&self, app: usize) -> (search: EditBoxSearch)
        ensures
            search@ == (crate::search::EditSearchView {
                frontier: seq![app],
                next: seq![],
                best: None,
                visited: 0,
                depth: 0,
            }),
    {
        EditBoxSearch::new(app)
    }

    /// Begins the search for a session.
    pub fn find_session(&self, name: &str) -> (search: SessionSearch)
        ensures
            search@ == (crate::search::SessionSearchView {
                name: name@,
                begins: None,
                contains: None,
            }),
    {
        SessionSearch::new(name)
    }

    /// The sessions of the list.
    pub fn list_sessions(&self, items: &Vec<SessionItem>) -> (sessions: Vec<SessionInfo>)
        ensures
            crate::search::infos_view(sessions@) == crate::search::listed(
                crate::search::top_of(items@),
            ),
    {
        list_sessions(items)
    }

    /// How switching to a chat goes on.
    pub fn chat_with(&mut self, who: &str, stage: ChatStage, outcome: Outcome) -> (next: (
        ChatStage,
        ChatAction,
    ))
        requires
            old(self).wf(),
        ensures
            final(self).wf(),
            ({
                let after = chat_next(stage, outcome, who@, old(self)@.current_chat);
                &&& next == (after.0, after.1)
                &&& final(self)@ == (crate::wechat::WeChatView {
                    current_chat: after.2,
                    ..old(self)@
                })
            }),
    {
        let failed = (ChatStage::Finished, ChatAction::Fail(FlowError::Passed));
        match stage {
            ChatStage::Begin => if self.is_current(who) {
                (ChatStage::Finished, ChatAction::Opened)
            } else {
                (ChatStage::Focusing, ChatAction::FocusMain)
            },
            ChatStage::Focusing => (ChatStage::FindingApp, ChatAction::FindApp),
            ChatStage::FindingApp => if outcome.done {
                (ChatStage::FindingItem, ChatAction::FindItem)
            } else {
                (ChatStage::Finished, ChatAction::Fail(FlowError::NoApp))
            },
            ChatStage::FindingItem => match outcome.place {
                Some((x, y)) => (ChatStage::Clicking, ChatAction::Click(x, y)),
                None => (ChatStage::OpeningSearch, ChatAction::OpenSearch),
            },
            ChatStage::Clicking => if outcome.done {
                (ChatStage::WaitingAfterClick, ChatAction::WaitMessages(1500, 50))
            } else {
                failed
            },
            ChatStage::WaitingAfterClick => {
                self.set_current(Some(who));
                (ChatStage::Finished, ChatAction::Opened)
            },
            ChatStage::OpeningSearch => if outcome.done {
                (ChatStage::WaitingSearchBox, ChatAction::WaitSearchBox(800, 50))
            } else {
                failed
            },
            ChatStage::WaitingSearchBox => (ChatStage::SelectingAll, ChatAction::SelectAll),
            ChatStage::SelectingAll => if outcome.done {
                (ChatStage::Pausing, ChatAction::Sleep(100))
            } else {
                failed
            },
            ChatStage::Pausing => (ChatStage::Pasting, ChatAction::PasteName),
            ChatStage::Pasting => if outcome.done {
                (ChatStage::WaitingResults, ChatAction::WaitResults(2000, 100))
            } else {
                failed
            },
            ChatStage::WaitingResults => (ChatStage::Choosing, ChatAction::Enter),
            ChatStage::Choosing => if outcome.done {
                (ChatStage::WaitingMessages, ChatAction::WaitMessages(2000, 50))
            } else {
                failed
            },
            ChatStage::WaitingMessages => (ChatStage::ClosingSearch, ChatAction::Escape),
            ChatStage::ClosingSearch => if outcome.done {
                (ChatStage::WaitingRestored, ChatAction::WaitMessages(800, 50))
            } else {
                failed
            },
            ChatStage::WaitingRestored => (ChatStage::Checking, ChatAction::CheckMessages),
            ChatStage::Checking => if outcome.done {
                if !text_contains(who, "@chatroom") {
                    self.set_current(Some(who));
                }
                (ChatStage::Finished, ChatAction::Opened)
            } else {
                self.set_current(None);
                (ChatStage::Finished, ChatAction::NotFound)
            },
            ChatStage::Finished => failed,
        }
    }

    /// How opening a chat window goes on.
    pub fn add_listen(&mut self, who: &str, stage: ListenStage, outcome: Outcome) -> (next: (
        ListenStage,
        ListenAction,
    ))
        requires
            old(self).wf(),
            valid_listen_stage(stage),
        ensures
            final(self).wf(),
            valid_listen_stage(next.0),
            next == listen_next(stage, outcome, who@, old(self)@.windows),
            final(self)@ == listen_state(stage, outcome, who@, old(self)@),
    {
        match stage {
            ListenStage::Begin => {
                self.add_target(who);
                (ListenStage::FindingApp, ListenAction::FindApp)
            },
            ListenStage::FindingApp => if !outcome.done {
                (ListenStage::Finished, ListenAction::Fail(FlowError::NoApp))
            } else if self.has_window(who) {
                (ListenStage::CheckingAlive, ListenAction::CheckAlive)
            } else {
                (ListenStage::FindingWindow, ListenAction::FindWindow)
            },
            ListenStage::CheckingAlive => if outcome.done {
                (ListenStage::Finished, ListenAction::Listening)
            } else {
                self.drop_window(who);
                (ListenStage::FindingWindow, ListenAction::FindWindow)
            },
            ListenStage::FindingWindow => if outcome.done {
                self.add_window(who);
                (ListenStage::Finished, ListenAction::Listening)
            } else {
                (ListenStage::Focusing(0), ListenAction::FocusMain)
            },
            ListenStage::Pausing(n) => (ListenStage::Focusing(n), ListenAction::FocusMain),
            ListenStage::Focusing(n) => (ListenStage::Switching(n), ListenAction::SwitchChat),
            ListenStage::Switching(n) => if outcome.done {
                (ListenStage::FindingItem(n), ListenAction::FindItem)
            } else {
                next_attempt(n)
            },
            ListenStage::FindingItem(n) => match outcome.place {
                Some((x, y)) => (
                    ListenStage::DoubleClicking(n),
                    ListenAction::DoubleClick(x, y),
                ),
                None => next_attempt(n),
            },
            ListenStage::DoubleClicking(n) => if outcome.done {
                (ListenStage::Appearing(n), ListenAction::WaitWindow(3000, 100))
            } else {
                (ListenStage::Finished, ListenAction::Fail(FlowError::Passed))
            },
            ListenStage::Appearing(n) => {
                self.set_current(None);
                (ListenStage::Awaiting(n), ListenAction::AwaitWindow(6000, 200))
            },
            ListenStage::Awaiting(n) => if outcome.done {
                self.add_window(who);
                (ListenStage::Finished, ListenAction::Listening)
            } else {
                next_attempt(n)
            },
            ListenStage::Finished => (ListenStage::Finished, ListenAction::NotListening),
        }
    }

    /// How sending goes on.
    pub fn send_step(
        &mut self,
        payload: Payload,
        skip_verify: bool,
        to: &str,
        stage: SendStage,
        outcome: Outcome,
    ) -> (next: (SendStage, SendAction))
        requires
            old(self).wf(),
        ensures
            final(self).wf(),
            next == send_next(payload, skip_verify, stage, outcome, to@, old(self)@.windows),
            final(self)@ == send_state(payload, stage, outcome, to@, old(self)@),
    {
        let failed = (SendStage::Finished, SendAction::Fail(FlowError::Passed));
        match stage {
            SendStage::Begin => {
                let windowed = self.has_window(to);
                match payload {
                    Payload::File => (SendStage::Switching, SendAction::SwitchChat),
                    _ => if windowed {
                        (SendStage::CheckingWindow, SendAction::CheckAlive)
                    } else {
                        if let Payload::Image = payload {
                            self.set_current(None);
                        }
                        (SendStage::Switching, SendAction::SwitchChat)
                    },
                }
            },
            SendStage::CheckingWindow => if !outcome.done {
                self.drop_window(to);
                self.set_current(None);
                (SendStage::Switching, SendAction::SwitchChat)
            } else {
                match payload {
                    Payload::Text => (SendStage::Activating, SendAction::ActivateWindow),
                    _ => (SendStage::SendingInWindow, SendAction::SendInWindow),
                }
            },
            SendStage::Activating => if outcome.done {
                (SendStage::MentioningInWindow, SendAction::TypeMentions)
            } else {
                failed
            },
            SendStage::MentioningInWindow => if outcome.done {
                (SendStage::SendingInWindow, SendAction::SendInWindow)
            } else {
                failed
            },
            SendStage::SendingInWindow => (SendStage::Finished, SendAction::Relay),
            SendStage::Switching => if !outcome.done {
                failed
            } else if !outcome.opened {
                (SendStage::Finished, SendAction::ChatNotFound)
            } else {
                (SendStage::PausingAfterSwitch, SendAction::Sleep(300))
            },
            SendStage::PausingAfterSwitch => match payload {
                Payload::Image => (SendStage::Pasting, SendAction::Paste),
                _ => (SendStage::FindingApp, SendAction::FindApp),
            },
            SendStage::FindingApp => if !outcome.done {
                (SendStage::Finished, SendAction::Fail(FlowError::NoApp))
            } else {
                match payload {
                    Payload::File => (SendStage::Locating, SendAction::FindButton),
                    _ => (SendStage::Mentioning, SendAction::TypeMentions),
                }
            },
            SendStage::Mentioning => if outcome.done {
                (SendStage::Pasting, SendAction::Paste)
            } else {
                failed
            },
            SendStage::Locating => match outcome.place {
                Some((x, y)) => (SendStage::ClickingButton, SendAction::Click(x, y)),
                None => (SendStage::Finished, SendAction::Fail(FlowError::NoButton)),
            },
            SendStage::ClickingButton => if outcome.done {
                (SendStage::PausingAfterClick, SendAction::Sleep(500))
            } else {
                failed
            },
            SendStage::PausingAfterClick => (SendStage::Pasting, SendAction::Paste),
            SendStage::Pasting => if !outcome.done {
                failed
            } else {
                match payload {
                    Payload::File => (SendStage::Entering, SendAction::Enter),
                    Payload::Text => (SendStage::PausingAfterPaste, SendAction::Sleep(300)),
                    Payload::Image => (SendStage::PausingAfterPaste, SendAction::Sleep(500)),
                }
            },
            SendStage::PausingAfterPaste => (SendStage::Entering, SendAction::Enter),
            SendStage::Entering => if !outcome.done {
                failed
            } else {
                match payload {
                    Payload::Image => (SendStage::Finished, SendAction::Sent(false)),
                    Payload::Text => (SendStage::PausingAfterEnter, SendAction::Sleep(500)),
                    Payload::File => (SendStage::PausingAfterEnter, SendAction::Sleep(700)),
                }
            },
            SendStage::PausingAfterEnter => match payload {
                Payload::Text => if skip_verify {
                    (SendStage::Finished, SendAction::Sent(false))
                } else {
                    (SendStage::Verifying, SendAction::Verify)
                },
                _ => (SendStage::Finished, SendAction::Sent(false)),
            },
            SendStage::Verifying => (SendStage::Finished, SendAction::Sent(outcome.done)),
            SendStage::Finished => failed,
        }
    }

    /// How sending a text goes on.
    pub fn send_message(
        &mut self,
        to: &str,
        skip_verify: bool,
        stage: SendStage,
        outcome: Outcome,
    ) -> (next: (SendStage, SendAction))
        requires
            old(self).wf(),
        ensures
            final(self).wf(),
            next == send_next(
                Payload::Text,
                skip_verify,
                stage,
                outcome,
                to@,
                old(self)@.windows,
            ),
            final(self)@ == send_state(Payload::Text, stage, outcome, to@, old(self)@),
    {
        self.send_step(Payload::Text, skip_verify, to, stage, outcome)
    }

    /// How sending an image goes on.
    pub fn send_image(&mut self, to: &str, stage: SendStage, outcome: Outcome) -> (next: (
        SendStage,
        SendAction,
    ))
        requires
            old(self).wf(),
        ensures
            final(self).wf(),
            next == send_next(Payload::Image, true, stage, outcome, to@, old(self)@.windows),
            final(self)@ == send_state(Payload::Image, stage, outcome, to@, old(self)@),
    {
        self.send_step(Payload::Image, true, to, stage, outcome)
    }

    /// How sending a file goes on.
    pub fn send_file(&mut self, to: &str, stage: SendStage, outcome: Outcome) -> (next: (
        SendStage,
        SendAction,
    ))
        requires
            old(self).wf(),
        ensures
            final(self).wf(),
            next == send_next(Payload::File, true, stage, outcome, to@, old(self)@.windows),
            final(self)@ == send_state(Payload::File, stage, outcome, to@, old(self)@),
    {
        self.send_step(Payload::File, true, to, stage, outcome)
    }
}

fn next_attempt(attempt: u64) -> (next: (ListenStage, ListenAction))
    requires
        attempt <= LISTEN_RETRIES,
    ensures
        next == after_attempt(attempt),
{
    if attempt < LISTEN_RETRIES {
        (
            ListenStage::Pausing(attempt + 1),
            ListenAction::Sleep(FIRST_PAUSE_MS + attempt * LONGER_PAUSE_MS),
        )
    } else {
        (ListenStage::Finished, ListenAction::NotListening)
    }
}

// ---------------------------------------------------------------------------
// Laws of waiting and of the main window
// ---------------------------------------------------------------------------

/// What is waited for is there exactly where the last look showed it, and is given up
/// exactly where the time is up without a look that showed it; a look that was in vain is
/// followed by a pause of the given length.
pub proof fn waits_end_for_a_reason(
    looked: Option<bool>,
    elapsed_ms: u64,
    max_ms: u64,
    interval_ms: u64,
)
    ensures
        ({
            let step = wait_next(looked, elapsed_ms, max_ms, interval_ms);
            &&& step == WaitStep::Ready <==> looked == Some(true)
            &&& step == WaitStep::TimedOut <==> looked is None && elapsed_ms >= max_ms
            &&& step == WaitStep::Look <==> looked is None && elapsed_ms < max_ms
            &&& looked == Some(false) ==> step == WaitStep::Sleep(interval_ms)
        }),
{
}

/// A button that was found is used however late it was; one that was not is looked for
/// again until three seconds are over.
pub proof fn buttons_are_waited_for(found: bool, elapsed_ms: u64)
    ensures
        button_wait(found, elapsed_ms) == WaitStep::Ready <==> found,
        button_wait(found, elapsed_ms) == WaitStep::TimedOut <==> !found && elapsed_ms >= 3000,
        button_wait(found, elapsed_ms) != WaitStep::Look,
{
}

/// A message is looked for on the screen at least once and at most three times, and counts
/// as seen exactly where one of the looks showed it.
pub proof fn the_screen_is_looked_at_three_times(looks: u64, seen: bool)
    ensures
        screen_wait(looks, seen) == WaitStep::Ready <==> looks > 0 && seen,
        screen_wait(looks, seen) == WaitStep::TimedOut <==> looks >= 3 && !seen,
        screen_wait(looks, seen) == WaitStep::Look <==> looks == 0,
{
}

/// The words for what was sent tell the three kinds apart, and of a text whether it was
/// seen in the databases.
pub proof fn words_tell_what_was_sent(a: Payload, b: Payload, verified: bool, other: bool)
    ensures
        a != b ==> sent_words(a, verified) != sent_words(b, other),
        sent_words(Payload::Text, true) != sent_words(Payload::Text, false),
        a != Payload::Text ==> sent_words(a, verified) == sent_words(a, other),
        crate::text::has_prefix(sent_words(Payload::Text, false), sent_words(Payload::Text, true)),
{
    reveal_strlit("消息已发送");
    reveal_strlit("消息已发送 (未验证)");
    reveal_strlit("图片已发送");
    reveal_strlit("文件已发送");
    let text = "消息已发送"@;
    let unsure = "消息已发送 (未验证)"@;
    assert(text[0] == '消' && unsure[0] == '消');
    assert("图片已发送"@[0] == '图');
    assert("文件已发送"@[0] == '文');
    assert(text.len() != unsure.len());
    assert(unsure.subrange(0, text.len() as int) =~= text);
    assert(unsure.take(text.len() as int) =~= text);
}

/// What bringing the main window to the front has come to after the outcomes.
pub open spec fn focused(outcomes: Seq<Outcome>) -> (FocusStage, FocusAction)
    decreases outcomes.len(),
{
    if outcomes.len() == 0 {
        focus_next(
            FocusStage::Begin,
            arbitrary(),
        )
    } else {
        focus_next(focused(outcomes.drop_last()).0, outcomes.last())
    }
}

/// The titles are tried one after the other until one helps, and the title bar is clicked
/// only where none did, at the place that was found; where it was not found nothing is
/// clicked. One pause follows what helped.
pub proof fn titles_are_tried_in_order(outcomes: Seq<Outcome>)
    ensures
        outcomes.len() < 3 && (forall|k: int|
            0 <= k < outcomes.len() ==> !(#[trigger] outcomes[k]).done) ==> focused(outcomes)
            == (
            FocusStage::Activating(outcomes.len() as u64),
            FocusAction::Activate(outcomes.len() as u64),
        ),
        0 < outcomes.len() <= 3 && (forall|k: int|
            0 <= k < outcomes.len() - 1 ==> !(#[trigger] outcomes[k]).done)
            && outcomes.last().done ==> focused(outcomes) == (
            FocusStage::Pausing,
            FocusAction::Sleep(300),
        ),
        outcomes.len() == 3 && (forall|k: int|
            0 <= k < outcomes.len() ==> !(#[trigger] outcomes[k]).done) ==> focused(outcomes) == (
            FocusStage::FindingFrame,
            FocusAction::FindFrame,
        ),
        outcomes.len() == 4 && (forall|k: int|
            0 <= k < 3 ==> !(#[trigger] outcomes[k]).done) ==> match outcomes[3].place {
            Some((x, y)) => focused(outcomes).1 == FocusAction::Click(x, y),
            None => focused(outcomes).1 == FocusAction::Ended,
        },
        focused(outcomes).1 is Click ==> outcomes.len() == 4 && forall|k: int|
            0 <= k < 3 ==> !(#[trigger] outcomes[k]).done,
    decreases outcomes.len(),
{
    if outcomes.len() > 0 {
        let rest = outcomes.drop_last();
        titles_are_tried_in_order(rest);
        assert forall|k: int| 0 <= k < rest.len() implies #[trigger] rest[k] == outcomes[k] by {}
        lemma_focused(rest);
        lemma_focused(outcomes);
        if focused(outcomes).1 is Click {
            assert forall|k: int| 0 <= k < 3 implies !(#[trigger] outcomes[k]).done by {
                assert(rest[k] == outcomes[k]);
            }
        }
    }
}

proof fn lemma_focused(outcomes: Seq<Outcome>)
    ensures
        match focused(outcomes).0 {
            FocusStage::Begin => false,
            FocusStage::Activating(n) => n == outcomes.len() && n < 3 && forall|k: int|
                0 <= k < outcomes.len() ==> !(#[trigger] outcomes[k]).done,
            FocusStage::FindingFrame => outcomes.len() == 3 && forall|k: int|
                0 <= k < outcomes.len() ==> !(#[trigger] outcomes[k]).done,
            FocusStage::Clicking => outcomes.len() == 4,
            _ => !(focused(outcomes).1 is Click),
        },
    decreases outcomes.len(),
{
    if outcomes.len() > 0 {
        let rest = outcomes.drop_last();
        lemma_focused(rest);
        assert forall|k: int| 0 <= k < rest.len() implies #[trigger] rest[k] == outcomes[k] by {}
        if focused(outcomes).0 is Activating || focused(outcomes).0 is FindingFrame {
            assert(!outcomes.last().done);
            assert forall|k: int| 0 <= k < outcomes.len() implies !(#[trigger] outcomes[k]).done by {
                if k < rest.len() {
                    assert(rest[k] == outcomes[k]);
                }
            }
        }
    }
}

/// The main window has three titles, no two of them alike.
pub proof fn main_titles_differ(m: u64, n: u64)
    requires
        m < n < 3,
    ensures
        main_title(m) != main_title(n),
        main_title(0) == "微信"@,
        main_title(1) == "WeChat"@,
        main_title(2) == "Weixin"@,
{
    reveal_strlit("微信");
    reveal_strlit("WeChat");
    reveal_strlit("Weixin");
    assert("微信"@[0] == '微');
    assert("WeChat"@[0] == 'W' && "WeChat"@[2] == 'C');
    assert("Weixin"@[0] == 'W' && "Weixin"@[2] == 'i');
}

} // verus!
