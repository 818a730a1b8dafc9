//! The client's side of the bridge: who is listened to, which chat windows are known, what
//! the controls of the client mean, and how long what was found stays good.

use vstd::prelude::*;
use vstd::string::*;

use crate::outside::to_lowercase;
use crate::text::{clone_texts, list_contains, text_contains, text_eq, text_less};

verus! {

/// What state the client is in.
#[derive(Clone, Copy, Debug, PartialEq, Eq, Structural)]
pub enum WeChatStatus {
    NotRunning,
    /// It runs and waits for the account to log in.
    WaitingForLogin,
    LoggedIn,
}

/// The words for a state.
pub open spec fn status_words(status: WeChatStatus) -> Seq<char> {
    match status {
        WeChatStatus::NotRunning => "未运行"@,
        WeChatStatus::WaitingForLogin => "等待扫码登录"@,
        WeChatStatus::LoggedIn => "已登录"@,
    }
}

impl WeChatStatus {
    /// The words for the state.
    pub fn text(&self) -> (words: &'static str)
        ensures
            words@ == status_words(*self),
    {
        match self {
            WeChatStatus::NotRunning => "未运行",
            WeChatStatus::WaitingForLogin => "等待扫码登录",
            WeChatStatus::LoggedIn => "已登录",
        }
    }
}

/// A session in the client's list.
#[derive(Debug)]
pub struct SessionInfo {
    pub name: String,
    pub has_new: bool,
}

/// A pause, in seconds and nanoseconds.
#[derive(Clone, Copy, Debug, PartialEq, Eq, Structural)]
pub struct Pause {
    pub secs: u64,
    pub nanos: u32,
}

/// A pause of `n` milliseconds.
pub fn ms(n: u64) -> (pause: Pause)
    ensures
        pause.secs == n / 1000,
        pause.nanos == (n % 1000) * 1_000_000,
        pause.nanos < 1_000_000_000,
        pause.secs * 1000 + pause.nanos / 1_000_000 == n,
{
    let rest: u32 = (n % 1000) as u32;
    Pause { secs: n / 1000, nanos: rest * 1_000_000 }
}

// ---------------------------------------------------------------------------
// Names of the client
// ---------------------------------------------------------------------------

/// Whether a name is that of the client, `lower` being the name in small letters.
pub open spec fn names_client(name: Seq<char>, lower: Seq<char>) -> bool {
    crate::text::contains_text(lower, "wechat"@) || crate::text::contains_text(lower, "weixin"@)
        || crate::text::contains_text(name, "微信"@)
}

/// Whether a title is that of the client's main window, `lower` being the title in small
/// letters.
pub open spec fn names_main_window(name: Seq<char>, lower: Seq<char>) -> bool {
    lower == "wechat"@ || lower == "weixin"@ || name == "微信"@
}

/// Whether a name is that of the client, `lower` being the name in small letters.
pub fn is_client_name(name: &str, lower: &str) -> (found: bool)
    ensures
        found == names_client(name@, lower@),
{
    text_contains(lower, "wechat") || text_contains(lower, "weixin") || text_contains(name, "微信")
}

/// Whether a title is that of the client's main window, `lower` being the title in small
/// letters.
pub fn is_main_title(name: &str, lower: &str) -> (found: bool)
    ensures
        found == names_main_window(name@, lower@),
{
    text_eq(lower, "wechat") || text_eq(lower, "weixin") || text_eq(name, "微信")
}

/// Whether a name is that of the client.
pub fn is_wechat(name: &str) -> (found: bool)
    ensures
        found == names_client(name@, crate::outside::unicode_lowercase(name@)),
        vstd::utf8::is_ascii_chars(name@) ==> found == names_client(
            name@,
            crate::text::ascii_lowered(name@),
        ),
{
    is_client_name(name, to_lowercase(name).as_str())
}

/// Whether a title is that of the client's main window, and not of a chat window.
pub fn is_wechat_main(name: &str) -> (found: bool)
    ensures
        found == names_main_window(name@, crate::outside::unicode_lowercase(name@)),
        vstd::utf8::is_ascii_chars(name@) ==> found == names_main_window(
            name@,
            crate::text::ascii_lowered(name@),
        ),
{
    is_main_title(name, to_lowercase(name).as_str())
}

/// The main window is named like the client.
pub proof fn main_windows_name_the_client(name: Seq<char>, lower: Seq<char>)
    ensures
        names_main_window(name, lower) ==> names_client(name, lower),
{
    if lower == "wechat"@ {
        assert(lower.subrange(0, lower.len() as int) =~= "wechat"@);
        assert(crate::text::occurs_at(lower, "wechat"@, 0));
    }
    if lower == "weixin"@ {
        assert(lower.subrange(0, lower.len() as int) =~= "weixin"@);
        assert(crate::text::occurs_at(lower, "weixin"@, 0));
    }
    if name == "微信"@ {
        assert(name.subrange(0, name.len() as int) =~= "微信"@);
        assert(crate::text::occurs_at(name, "微信"@, 0));
    }
}

// ---------------------------------------------------------------------------
// Controls
// ---------------------------------------------------------------------------

pub open spec fn nav_toolbar(role: Seq<char>, name: Seq<char>) -> bool {
    role == "tool bar"@ && (crate::text::contains_text(name, "导航"@) || crate::text::contains_text(
        name,
        "Navigation"@,
    ))
}

pub open spec fn session_list(role: Seq<char>, name: Seq<char>) -> bool {
    role == "list"@ && (crate::text::contains_text(name, "Chats"@) || crate::text::contains_text(
        name,
        "会话"@,
    ))
}

pub open spec fn message_list(role: Seq<char>, name: Seq<char>) -> bool {
    role == "list"@ && (crate::text::contains_text(name, "Messages"@) || crate::text::contains_text(
        name,
        "消息"@,
    ))
}

pub open spec fn result_list(role: Seq<char>, name: Seq<char>) -> bool {
    role == "list"@ && !crate::text::contains_text(name, "Chats"@) && !crate::text::contains_text(
        name,
        "会话"@,
    ) && name.len() > 0
}

/// Whether a control takes text.
pub open spec fn text_field(role: Seq<char>) -> bool {
    role == "entry"@ || role == "text"@
}

/// Whether a control takes text.
pub fn is_text_field(role: &str) -> (found: bool)
    ensures
        found == text_field(role@),
{
    text_eq(role, "entry") || text_eq(role, "text")
}

/// Whether a control is a list that shows search results.
pub fn is_result_list(role: &str, name: &str) -> (found: bool)
    ensures
        found == result_list(role@, name@),
{
    text_eq(role, "list") && !text_contains(name, "Chats") && !text_contains(name, "会话")
        && !name.is_empty()
}

/// Whether a control is the window of a chat with `who`, `lower` being its name in small
/// letters.
pub open spec fn chat_frame(
    role: Seq<char>,
    name: Seq<char>,
    lower: Seq<char>,
    who: Seq<char>,
) -> bool {
    role == "frame"@ && crate::text::contains_text(name, who) && !names_main_window(name, lower)
}

/// Whether a control is the window of a chat with `who`.
pub fn is_chat_frame(role: &str, name: &str, who: &str) -> (found: bool)
    ensures
        found == chat_frame(role@, name@, crate::outside::unicode_lowercase(name@), who@),
{
    text_eq(role, "frame") && text_contains(name, who) && !is_wechat_main(name)
}

/// Whether a control is the client's main window.
pub fn is_main_frame(role: &str, name: &str) -> (found: bool)
    ensures
        found == (role@ == "frame"@ && names_main_window(
            name@,
            crate::outside::unicode_lowercase(name@),
        )),
{
    text_eq(role, "frame") && is_wechat_main(name)
}

/// Whether a control is the mark of unread messages: a label of digits.
pub open spec fn unread_mark(role: Seq<char>, name: Seq<char>) -> bool {
    (role == "label"@ || role == "static"@) && name.len() > 0 && crate::number::only_digits(name)
}

/// Whether a control is the mark of unread messages.
pub fn is_unread_mark(role: &str, name: &str) -> (found: bool)
    ensures
        found == unread_mark(role@, name@),
{
    (text_eq(role, "label") || text_eq(role, "static")) && !name.is_empty()
        && crate::text::all_digits(name)
}

// ---------------------------------------------------------------------------
// The state
// ---------------------------------------------------------------------------

/// The client as the bridge knows it.
#[derive(Debug)]
pub struct WeChat {
    targets: Vec<String>,
    windows: Vec<String>,
    current_chat: Option<String>,
    at_delay_ms: u64,
    app_seen_ns: Option<u64>,
    list_seen_ns: Option<u64>,
}

/// What a [`WeChat`] holds: who is listened to, in order; whose chat windows are known;
/// which chat is open; the pause in mentions; and when the client and its list of sessions
/// were last found.
pub struct WeChatView {
    pub targets: Seq<Seq<char>>,
    pub windows: Seq<Seq<char>>,
    pub current_chat: Option<Seq<char>>,
    pub at_delay_ms: u64,
    pub app_seen_ns: Option<u64>,
    pub list_seen_ns: Option<u64>,
}

impl View for WeChat {
    type V = WeChatView;

    closed spec fn view(&self) -> WeChatView {
        WeChatView {
            targets: crate::text::texts_of(self.targets@),
            windows: crate::text::texts_of(self.windows@),
            current_chat: crate::text::text_of(self.current_chat),
            at_delay_ms: self.at_delay_ms,
            app_seen_ns: self.app_seen_ns,
            list_seen_ns: self.list_seen_ns,
        }
    }
}

/// The names stand in order, none of them twice.
pub open spec fn in_name_order(names: Seq<Seq<char>>) -> bool {
    forall|i: int, j: int|
        #![trigger names[i], names[j]]
        0 <= i < j < names.len() ==> crate::text::text_before(names[i], names[j])
}

/// The names with one more, where it belongs.
pub open spec fn with_name_in_order(names: Seq<Seq<char>>, name: Seq<char>) -> Seq<Seq<char>>
    decreases names.len(),
{
    if names.len() == 0 || crate::text::text_before(names.last(), name) {
        names.push(name)
    } else if names.last() == name {
        names
    } else {
        with_name_in_order(names.drop_last(), name).push(names.last())
    }
}

/// How long the client stays found, in seconds.
pub const APP_TTL_SECS: u64 = 30;

/// How long its list of sessions stays found, in seconds.
pub const LIST_TTL_SECS: u64 = 10;

/// Whether what was found at a time is still good.
pub open spec fn still_good(seen_ns: Option<u64>, now_ns: u64, ttl_secs: u64) -> bool {
    seen_ns is Some && now_ns - seen_ns->0 < ttl_secs * 1_000_000_000
}

fn is_still_good(seen_ns: Option<u64>, now_ns: u64, ttl_secs: u64) -> (good: bool)
    ensures
        good == still_good(seen_ns, now_ns, ttl_secs),
{
    match seen_ns {
        Some(seen) => {
            let elapsed: i128 = now_ns as i128 - seen as i128;
            elapsed < ttl_secs as i128 * 1_000_000_000
        },
        None => false,
    }
}

proof fn lemma_with_name(names: Seq<Seq<char>>, name: Seq<char>)
    requires
        in_name_order(names),
    ensures
        in_name_order(with_name_in_order(names, name)),
        forall|other: Seq<char>| #[trigger]
            with_name_in_order(names, name).contains(other) <==> names.contains(other) || other
                == name,
    decreases names.len(),
{
    let result = with_name_in_order(names, name);
    if names.len() == 0 || crate::text::text_before(names.last(), name) {
        assert forall|i: int, j: int|
            #![trigger result[i], result[j]]
            0 <= i < j < result.len() implies crate::text::text_before(result[i], result[j]) by {
            if j == names.len() {
                if i < names.len() - 1 {
                    assert(crate::text::text_before(names[i], names[names.len() - 1]));
                    crate::text::lemma_text_order_transitive(names[i], names.last(), name);
                }
            }
        }
        assert forall|other: Seq<char>| #[trigger]
            result.contains(other) <==> names.contains(other) || other == name by {
            if names.contains(other) {
                let k = choose|k: int| 0 <= k < names.len() && names[k] == other;
                assert(result[k] == other);
            }
            if other == name {
                assert(result[names.len() as int] == other);
            }
            if result.contains(other) {
                let k = choose|k: int| 0 <= k < result.len() && result[k] == other;
                if k < names.len() {
                    assert(names[k] == other);
                }
            }
        }
    } else if names.last() == name {
        assert(names[names.len() - 1] == name);
        assert(names.contains(name));
    } else {
        let rest = names.drop_last();
        let last = names.last();
        assert forall|i: int, j: int|
            #![trigger rest[i], rest[j]]
            0 <= i < j < rest.len() implies crate::text::text_before(rest[i], rest[j]) by {
            assert(crate::text::text_before(names[i], names[j]));
        }
        lemma_with_name(rest, name);
        let inner = with_name_in_order(rest, name);
        crate::text::lemma_text_order_total(name, last);
        assert forall|i: int, j: int|
            #![trigger result[i], result[j]]
            0 <= i < j < result.len() implies crate::text::text_before(result[i], result[j]) by {
            if j == inner.len() {
                assert(inner.contains(inner[i]));
                if inner[i] != name {
                    assert(rest.contains(inner[i]));
                    let k = choose|k: int| 0 <= k < rest.len() && rest[k] == inner[i];
                    assert(crate::text::text_before(names[k], names[names.len() - 1]));
                }
            } else {
                assert(crate::text::text_before(inner[i], inner[j]));
            }
        }
        assert forall|other: Seq<char>| #[trigger]
            result.contains(other) <==> names.contains(other) || other == name by {
            if result.contains(other) {
                let k = choose|k: int| 0 <= k < result.len() && result[k] == other;
                if k < inner.len() {
                    assert(inner.contains(inner[k]));
                    if other != name {
                        assert(rest.contains(other));
                        let n = choose|n: int| 0 <= n < rest.len() && rest[n] == other;
                        assert(names[n] == other);
                    }
                } else {
                    assert(names[names.len() - 1] == other);
                }
            }
            if names.contains(other) || other == name {
                if other == last {
                    assert(result[inner.len() as int] == other);
                } else {
                    if names.contains(other) {
                        let k = choose|k: int| 0 <= k < names.len() && names[k] == other;
                        assert(rest[k] == other);
                        assert(rest.contains(other));
                    }
                    assert(inner.contains(other));
                    let n = choose|n: int| 0 <= n < inner.len() && inner[n] == other;
                    assert(result[n] == other);
                }
            }
        }
    }
}

proof fn lemma_without_name_in_order(names: Seq<Seq<char>>, name: Seq<char>)
    requires
        in_name_order(names),
    ensures
        in_name_order(crate::command::without_name(names, name)),
        forall|k: int|
            0 <= k < crate::command::without_name(names, name).len() ==> names.contains(
                #[trigger] crate::command::without_name(names, name)[k],
            ),
    decreases names.len(),
{
    if names.len() > 0 {
        let rest = names.drop_last();
        assert forall|i: int, j: int|
            #![trigger rest[i], rest[j]]
            0 <= i < j < rest.len() implies crate::text::text_before(rest[i], rest[j]) by {
            assert(crate::text::text_before(names[i], names[j]));
        }
        lemma_without_name_in_order(rest, name);
        let short = crate::command::without_name(rest, name);
        let result = crate::command::without_name(names, name);
        assert forall|k: int| 0 <= k < result.len() implies names.contains(#[trigger] result[k]) by {
            if k < short.len() {
                assert(rest.contains(short[k]));
                let n = choose|n: int| 0 <= n < rest.len() && rest[n] == short[k];
                assert(names[n] == result[k]);
            } else {
                assert(names[names.len() - 1] == result[k]);
            }
        }
        assert forall|i: int, j: int|
            #![trigger result[i], result[j]]
            0 <= i < j < result.len() implies crate::text::text_before(result[i], result[j]) by {
            if j < short.len() {
                assert(crate::text::text_before(short[i], short[j]));
            } else {
                assert(rest.contains(short[i]));
                let n = choose|n: int| 0 <= n < rest.len() && rest[n] == short[i];
                assert(crate::text::text_before(names[n], names[names.len() - 1]));
            }
        }
    }
}

fn insert_in_order(names: &Vec<String>, name: &str) -> (result: Vec<String>)
    ensures
        crate::text::texts_of(result@) == with_name_in_order(
            crate::text::texts_of(names@),
            name@,
        ),
{
    let ghost all = crate::text::texts_of(names@);
    let mut at: usize = names.len();
    proof {
        assert(all.take(all.len() as int) =~= all);
        assert(all.skip(all.len() as int) =~= Seq::<Seq<char>>::empty());
        assert(with_name_in_order(all, name@) + Seq::<Seq<char>>::empty() =~= with_name_in_order(
            all,
            name@,
        ));
    }
    while at > 0
        invariant
            at <= names@.len(),
            all == crate::text::texts_of(names@),
            with_name_in_order(all.take(at as int), name@) + all.skip(at as int)
                == with_name_in_order(all, name@),
        decreases at,
    {
        let last = names[at - 1].as_str();
        proof {
            assert(all.take(at as int).last() == names@[at - 1]@);
            assert(all.take(at as int).drop_last() =~= all.take(at - 1));
        }
        if text_less(last, name) {
            proof {
                assert(all.take(at as int).push(name@) + all.skip(at as int) =~= with_name_in_order(
                    all,
                    name@,
                ));
            }
            return place_name(names, name, at);
        }
        if text_eq(last, name) {
            proof {
                assert(all.take(at as int) + all.skip(at as int) =~= all);
            }
            return clone_texts(names);
        }
        proof {
            let inner = with_name_in_order(all.take(at - 1), name@);
            assert(inner.push(all[at - 1]) + all.skip(at as int) =~= inner + all.skip(at - 1));
        }
        at = at - 1;
    }
    proof {
        assert(all.take(0).push(name@) + all.skip(0) =~= with_name_in_order(all, name@));
    }
    place_name(names, name, 0)
}

fn place_name(names: &Vec<String>, name: &str, at: usize) -> (result: Vec<String>)
    requires
        at <= names@.len(),
    ensures
        crate::text::texts_of(result@) == crate::text::texts_of(names@).take(at as int).push(name@)
            + crate::text::texts_of(names@).skip(at as int),
{
    let mut result = clone_texts(names);
    result.insert(at, name.to_owned());
    proof {
        let all = crate::text::texts_of(names@);
        assert(crate::text::texts_of(result@) =~= all.take(at as int).push(name@) + all.skip(
            at as int,
        ));
    }
    result
}

/// What becomes of a message for somebody whose chat window is gone.
#[derive(Clone, Copy, Debug, PartialEq, Eq, Structural)]
pub enum Recovery {
    /// It goes by the main window.
    MainWindow,
    /// The window is there.
    Present,
    /// The window is opened again.
    Rebuild,
}

/// What ceasing to listen to somebody comes to, and what is known afterwards.
pub open spec fn unlistened(state: WeChatView, who: Seq<char>) -> (bool, WeChatView) {
    if state.targets.contains(who) || state.windows.contains(who) {
        (
            true,
            WeChatView {
                targets: crate::command::without_name(state.targets, who),
                windows: crate::command::without_name(state.windows, who),
                current_chat: None,
                ..state
            },
        )
    } else {
        (false, state)
    }
}

/// Whether a message goes by the chat window of somebody, and what is known afterwards.
pub open spec fn window_checked(state: WeChatView, to: Seq<char>, alive: bool) -> (
    bool,
    WeChatView,
) {
    if state.windows.contains(to) && !alive {
        (
            false,
            WeChatView {
                windows: crate::command::without_name(state.windows, to),
                current_chat: None,
                ..state
            },
        )
    } else {
        (state.windows.contains(to) && alive, state)
    }
}

/// What becomes of a message for somebody whose window cannot be used.
pub open spec fn recovery_for(state: WeChatView, to: Seq<char>) -> Recovery {
    if !state.targets.contains(to) {
        Recovery::MainWindow
    } else if state.windows.contains(to) {
        Recovery::Present
    } else {
        Recovery::Rebuild
    }
}

/// The state of the client.
pub open spec fn status_of(app_found: bool, toolbar_found: bool) -> WeChatStatus {
    if !app_found {
        WeChatStatus::NotRunning
    } else if toolbar_found {
        WeChatStatus::LoggedIn
    } else {
        WeChatStatus::WaitingForLogin
    }
}

/// What was found of the client.
#[derive(Clone, Copy, Debug, PartialEq, Eq, Structural)]
pub enum AppStage {
    Begin,
    FirstScan,
    Reconnecting,
    SecondScan,
    Finished,
}

/// What is done to find the client.
#[derive(Clone, Copy, Debug, PartialEq, Eq, Structural)]
pub enum AppAction {
    /// What was found before is still good.
    UseKnown,
    Scan,
    Reconnect,
    Found,
    NotFound,
}

/// How the search for the client goes on, and when the client was last found. `done` tells
/// whether the last action succeeded.
pub open spec fn app_search(
    stage: AppStage,
    done: bool,
    seen_ns: Option<u64>,
    now_ns: u64,
) -> (AppStage, AppAction, Option<u64>) {
    match stage {
        AppStage::Begin => if still_good(seen_ns, now_ns, APP_TTL_SECS) {
            (AppStage::Finished, AppAction::UseKnown, seen_ns)
        } else {
            (AppStage::FirstScan, AppAction::Scan, seen_ns)
        },
        AppStage::FirstScan => if done {
            (AppStage::Finished, AppAction::Found, Some(now_ns))
        } else {
            (AppStage::Reconnecting, AppAction::Reconnect, seen_ns)
        },
        AppStage::Reconnecting => if done {
            (AppStage::SecondScan, AppAction::Scan, seen_ns)
        } else {
            (AppStage::Finished, AppAction::NotFound, None)
        },
        AppStage::SecondScan => if done {
            (AppStage::Finished, AppAction::Found, Some(now_ns))
        } else {
            (AppStage::Finished, AppAction::NotFound, None)
        },
        AppStage::Finished => (AppStage::Finished, AppAction::NotFound, seen_ns),
    }
}

impl WeChat {
    /// Those who are listened to stand in order, none of them twice.
    pub open spec fn wf(&self) -> bool {
        in_name_order(self@.targets)
    }

    /// A client of which nothing is known yet.
    pub fn new(at_delay_ms: u64) -> (wechat: WeChat)
        ensures
            wechat.wf(),
            wechat@ == (WeChatView {
                targets: seq![],
                windows: seq![],
                current_chat: None,
                at_delay_ms,
                app_seen_ns: None,
                list_seen_ns: None,
            }),
    {
        let wechat = WeChat {
            targets: Vec::new(),
            windows: Vec::new(),
            current_chat: None,
            at_delay_ms,
            app_seen_ns: None,
            list_seen_ns: None,
        };
        proof {
            assert(wechat@.targets =~= Seq::<Seq<char>>::empty());
            assert(wechat@.windows =~= Seq::<Seq<char>>::empty());
        }
        wechat
    }

    /// The pause in mentions, in milliseconds.
    pub fn get_at_delay_ms(&self) -> (ms: u64)
        ensures
            ms == self@.at_delay_ms,
    {
        self.at_delay_ms
    }

    /// Changes the pause in mentions.
    pub fn set_at_delay_ms(&mut self, ms: u64)
        requires
            old(self).wf(),
        ensures
            final(self).wf(),
            final(self)@ == delaying(old(self)@, ms),
    {
        self.at_delay_ms = ms;
    }

    // -----------------------------------------------------------------------
    // What is found
    // -----------------------------------------------------------------------

    /// The state of the client: it runs where it is found, and is logged in where its
    /// navigation bar is found too.
    pub fn check_status(&self, app_found: bool, toolbar_found: bool) -> (status: WeChatStatus)
        ensures
            status == status_of(app_found, toolbar_found),
    {
        if !app_found {
            WeChatStatus::NotRunning
        } else if toolbar_found {
            WeChatStatus::LoggedIn
        } else {
            WeChatStatus::WaitingForLogin
        }
    }

    /// Forgets what was found: it is no longer valid after a reconnection.
    pub fn try_reconnect(&mut self)
        requires
            old(self).wf(),
        ensures
            final(self).wf(),
            final(self)@ == connected_anew(old(self)@),
    {
        self.app_seen_ns = None;
        self.list_seen_ns = None;
    }

    /// How the search for the client goes on: what was found lately is used, then the
    /// registry is scanned, and once more after a reconnection. `done` tells whether the
    /// last action succeeded.
    pub fn find_app(&mut self, stage: AppStage, done: bool, now_ns: u64) -> (next: (
        AppStage,
        AppAction,
    ))
        requires
            old(self).wf(),
        ensures
            final(self).wf(),
            ({
                let after = app_search(stage, done, old(self)@.app_seen_ns, now_ns);
                &&& next == (after.0, after.1)
                &&& final(self)@ == (WeChatView { app_seen_ns: after.2, ..old(self)@ })
            }),
    {
        match stage {
            AppStage::Begin => if is_still_good(self.app_seen_ns, now_ns, APP_TTL_SECS) {
                (AppStage::Finished, AppAction::UseKnown)
            } else {
                (AppStage::FirstScan, AppAction::Scan)
            },
            AppStage::FirstScan => if done {
                self.app_seen_ns = Some(now_ns);
                (AppStage::Finished, AppAction::Found)
            } else {
                (AppStage::Reconnecting, AppAction::Reconnect)
            },
            AppStage::Reconnecting => if done {
                (AppStage::SecondScan, AppAction::Scan)
            } else {
                self.app_seen_ns = None;
                (AppStage::Finished, AppAction::NotFound)
            },
            AppStage::SecondScan => if done {
                self.app_seen_ns = Some(now_ns);
                (AppStage::Finished, AppAction::Found)
            } else {
                self.app_seen_ns = None;
                (AppStage::Finished, AppAction::NotFound)
            },
            AppStage::Finished => (AppStage::Finished, AppAction::NotFound),
        }
    }

    /// Whether a control is the navigation bar, which is there once the account is logged in.
    pub fn find_nav_toolbar(&self, role: &str, name: &str) -> (found: bool)
        ensures
            found == nav_toolbar(role@, name@),
    {
        text_eq(role, "tool bar") && (text_contains(name, "导航") || text_contains(
            name,
            "Navigation",
        ))
    }

    /// Whether a control holds the list of sessions and the chat beside each other.
    pub fn find_split_pane(&self, role: &str) -> (found: bool)
        ensures
            found == (role@ == "splitter"@ || role@ == "split pane"@),
    {
        text_eq(role, "splitter") || text_eq(role, "split pane")
    }

    /// Whether the list of sessions that was found before is still good.
    pub fn knows_session_list(&self, now_ns: u64) -> (good: bool)
        ensures
            good == still_good(self@.list_seen_ns, now_ns, LIST_TTL_SECS),
    {
        is_still_good(self.list_seen_ns, now_ns, LIST_TTL_SECS)
    }

    /// Whether a control is the list of sessions; where it is, that is remembered.
    pub fn find_session_list(&mut self, role: &str, name: &str, now_ns: u64) -> (found: bool)
        requires
            old(self).wf(),
        ensures
            final(self).wf(),
            found == session_list(role@, name@),
            final(self)@ == (WeChatView {
                list_seen_ns: if found {
                    Some(now_ns)
                } else {
                    old(self)@.list_seen_ns
                },
                ..old(self)@
            }),
    {
        let found = text_eq(role, "list") && (text_contains(name, "Chats") || text_contains(
            name,
            "会话",
        ));
        if found {
            self.list_seen_ns = Some(now_ns);
        }
        found
    }

    /// Whether a control is the list of messages.
    pub fn find_message_list(&self, role: &str, name: &str) -> (found: bool)
        ensures
            found == message_list(role@, name@),
    {
        text_eq(role, "list") && (text_contains(name, "Messages") || text_contains(name, "消息"))
    }

    // -----------------------------------------------------------------------
    // Listening
    // -----------------------------------------------------------------------

    /// Those who are listened to, in order.
    pub fn get_listen_list(&self) -> (list: Vec<String>)
        requires
            self.wf(),
        ensures
            crate::text::texts_of(list@) == self@.targets,
            in_name_order(crate::text::texts_of(list@)),
    {
        clone_texts(&self.targets)
    }

    /// Whether somebody is listened to.
    pub fn is_target(&self, who: &str) -> (found: bool)
        ensures
            found == self@.targets.contains(who@),
    {
        list_contains(&self.targets, who)
    }

    /// Whether a chat window of somebody is known.
    pub fn has_window(&self, who: &str) -> (found: bool)
        ensures
            found == self@.windows.contains(who@),
    {
        list_contains(&self.windows, who)
    }

    /// Which chat is open, as far as that is known.
    pub fn is_current(&self, who: &str) -> (current: bool)
        ensures
            current == (self@.current_chat == Some(who@)),
    {
        match &self.current_chat {
            Some(name) => text_eq(name.as_str(), who),
            None => false,
        }
    }

    /// Remembers which chat is open, or that none is known to be.
    pub fn set_current(&mut self, who: Option<&str>)
        requires
            old(self).wf(),
        ensures
            final(self).wf(),
            final(self)@ == showing(
                old(self)@,
                match who {
                    Some(name) => Some(name@),
                    None => None,
                },
            ),
    {
        self.current_chat = match who {
            Some(name) => Some(name.to_owned()),
            None => None,
        };
    }

    /// Remembers that somebody is to be listened to.
    pub fn add_target(&mut self, who: &str)
        requires
            old(self).wf(),
        ensures
            final(self).wf(),
            final(self)@ == (WeChatView {
                targets: with_name_in_order(old(self)@.targets, who@),
                ..old(self)@
            }),
            final(self)@.targets.contains(who@),
    {
        proof {
            lemma_with_name(self@.targets, who@);
        }
        self.targets = insert_in_order(&self.targets, who);
    }

    /// Remembers that somebody has a chat window.
    pub fn add_window(&mut self, who: &str)
        requires
            old(self).wf(),
        ensures
            final(self).wf(),
            final(self)@ == (WeChatView {
                windows: crate::command::with_name(old(self)@.windows, who@),
                ..old(self)@
            }),
            final(self)@.windows.contains(who@),
    {
        let ghost before = self@.windows;
        self.windows = crate::command::list_with(&self.windows, who);
        proof {
            if !before.contains(who@) {
                assert(before.push(who@)[before.len() as int] == who@);
            }
        }
    }

    /// Forgets the chat window of somebody.
    pub fn drop_window(&mut self, who: &str)
        requires
            old(self).wf(),
        ensures
            final(self).wf(),
            final(self)@ == (WeChatView {
                windows: crate::command::without_name(old(self)@.windows, who@),
                ..old(self)@
            }),
    {
        self.windows = crate::command::list_without(&self.windows, who);
    }

    /// Ceases to listen to somebody: the window is to be closed, and which chat is open is no
    /// longer known. Returns whether somebody was listened to or had a window.
    pub fn remove_listen(&mut self, who: &str) -> (removed: bool)
        requires
            old(self).wf(),
        ensures
            final(self).wf(),
            (removed, final(self)@) == unlistened(old(self)@, who@),
    {
        if !self.is_target(who) && !self.has_window(who) {
            return false;
        }
        proof {
            lemma_without_name_in_order(self@.targets, who@);
        }
        self.targets = crate::command::list_without(&self.targets, who);
        self.windows = crate::command::list_without(&self.windows, who);
        self.current_chat = None;
        true
    }

    /// Whether a message goes by the chat window of somebody: there is one, and it is alive.
    /// A window that is not is forgotten, and so is which chat is open.
    pub fn check_listen_window(&mut self, to: &str, alive: bool) -> (usable: bool)
        requires
            old(self).wf(),
        ensures
            final(self).wf(),
            (usable, final(self)@) == window_checked(old(self)@, to@, alive),
    {
        if !self.has_window(to) {
            return false;
        }
        if alive {
            return true;
        }
        self.windows = crate::command::list_without(&self.windows, to);
        self.current_chat = None;
        false
    }

    /// What becomes of a message for somebody whose window cannot be used. A window is only
    /// opened again for those who are listened to.
    pub fn try_recover_listen_window(&self, to: &str) -> (recovery: Recovery)
        ensures
            recovery == recovery_for(self@, to@),
    {
        if !self.is_target(to) {
            Recovery::MainWindow
        } else if self.has_window(to) {
            Recovery::Present
        } else {
            Recovery::Rebuild
        }
    }
}

/// Who begins to be listened to is on the list, once, and nobody else is affected.
pub proof fn listening_adds_one(targets: Seq<Seq<char>>, who: Seq<char>, other: Seq<char>)
    requires
        in_name_order(targets),
    ensures
        in_name_order(with_name_in_order(targets, who)),
        with_name_in_order(targets, who).contains(who),
        other != who ==> (with_name_in_order(targets, who).contains(other) <==> targets.contains(
            other,
        )),
{
    lemma_with_name(targets, who);
}

/// Who ceases to be listened to is not on the list, the list stays in order, and nobody
/// else is affected.
pub proof fn unlistening_removes_one(targets: Seq<Seq<char>>, who: Seq<char>, other: Seq<char>)
    requires
        in_name_order(targets),
    ensures
        in_name_order(crate::command::without_name(targets, who)),
        !crate::command::without_name(targets, who).contains(who),
        other != who ==> (crate::command::without_name(targets, who).contains(other)
            <==> targets.contains(other)),
{
    lemma_without_name_in_order(targets, who);
    crate::command::removal_removes(targets, who, other);
}

/// The search for the client ends after at most four actions, and what it remembers is the
/// time at which the client was found.
pub proof fn app_search_ends(
    first: bool,
    reconnected: bool,
    second: bool,
    seen_ns: Option<u64>,
    now_ns: u64,
)
    ensures
        ({
            let a = app_search(AppStage::Begin, true, seen_ns, now_ns);
            let b = app_search(a.0, first, a.2, now_ns);
            let c = app_search(b.0, reconnected, b.2, now_ns);
            let d = app_search(c.0, second, c.2, now_ns);
            &&& d.0 == AppStage::Finished
            &&& a.1 == AppAction::UseKnown <==> still_good(seen_ns, now_ns, APP_TTL_SECS)
            &&& a.1 != AppAction::UseKnown ==> (d.2 == Some(now_ns) <==> first || (reconnected
                && second))
            &&& a.1 != AppAction::UseKnown ==> d.2 == Some(now_ns) || d.2 is None
        }),
{
}

/// Ceasing to listen to somebody takes that one off both lists, says whether there was
/// anything to take off, and touches nobody else; whom nobody listened to changes nothing.
pub proof fn unlistening_forgets_one(state: WeChatView, who: Seq<char>, other: Seq<char>)
    requires
        other != who,
    ensures
        ({
            let (removed, after) = unlistened(state, who);
            &&& removed <==> state.targets.contains(who) || state.windows.contains(who)
            &&& !removed ==> after == state
            &&& !after.targets.contains(who)
            &&& !after.windows.contains(who)
            &&& after.targets.contains(other) <==> state.targets.contains(other)
            &&& after.windows.contains(other) <==> state.windows.contains(other)
            &&& removed ==> after.current_chat is None
            &&& after.at_delay_ms == state.at_delay_ms
        }),
{
    crate::command::removal_removes(state.targets, who, other);
    crate::command::removal_removes(state.windows, who, other);
}

/// A chat window is used only where it is known and alive; one that is known and dead is
/// forgotten, with the open chat, and nothing else is.
pub proof fn dead_windows_are_forgotten(
    state: WeChatView,
    to: Seq<char>,
    alive: bool,
    other: Seq<char>,
)
    requires
        other != to,
    ensures
        ({
            let (usable, after) = window_checked(state, to, alive);
            &&& usable <==> state.windows.contains(to) && alive
            &&& alive || !state.windows.contains(to) ==> after == state
            &&& !alive ==> !after.windows.contains(to)
            &&& !alive && state.windows.contains(to) ==> after.current_chat is None
            &&& after.windows.contains(other) <==> state.windows.contains(other)
            &&& after.targets == state.targets
        }),
{
    crate::command::removal_removes(state.windows, to, other);
}

/// A chat window is opened again only for somebody who is listened to and has none.
pub proof fn windows_are_rebuilt_for_listeners(state: WeChatView, to: Seq<char>)
    ensures
        recovery_for(state, to) == Recovery::Rebuild <==> state.targets.contains(to)
            && !state.windows.contains(to),
        recovery_for(state, to) == Recovery::MainWindow <==> !state.targets.contains(to),
        recovery_for(state, to) == Recovery::Present ==> state.windows.contains(to),
{
}

/// Only who is found runs, and only with its navigation bar it is logged in.
pub proof fn the_toolbar_shows_the_login(app_found: bool, toolbar_found: bool)
    ensures
        status_of(app_found, toolbar_found) == WeChatStatus::LoggedIn <==> app_found
            && toolbar_found,
        status_of(app_found, toolbar_found) == WeChatStatus::NotRunning <==> !app_found,
{
}

/// What was found stays good for the time that it is kept, from the moment it was found,
/// and not a nanosecond longer; what was never found is not good.
pub proof fn findings_grow_old(seen_ns: u64, now_ns: u64, ttl_secs: u64)
    ensures
        !still_good(None, now_ns, ttl_secs),
        ttl_secs > 0 ==> still_good(Some(seen_ns), seen_ns, ttl_secs),
        now_ns >= seen_ns + ttl_secs * 1_000_000_000 ==> !still_good(
            Some(seen_ns),
            now_ns,
            ttl_secs,
        ),
        now_ns < seen_ns + ttl_secs * 1_000_000_000 ==> still_good(Some(seen_ns), now_ns, ttl_secs),
{
}

/// What the controls are: the list of sessions is no list of results, a chat window is
/// never the main window and has the name in its title, and a mark of unread messages is a
/// label with a number.
pub proof fn controls_are_told_apart(
    role: Seq<char>,
    name: Seq<char>,
    lower: Seq<char>,
    who: Seq<char>,
)
    ensures
        !(session_list(role, name) && result_list(role, name)),
        chat_frame(role, name, lower, who) ==> !names_main_window(name, lower)
            && crate::text::contains_text(name, who) && role == "frame"@,
        role == "frame"@ && crate::text::contains_text(name, who) ==> chat_frame(
            role,
            name,
            lower,
            who,
        ) || names_main_window(name, lower),
        unread_mark(role, name) ==> name.len() > 0 && forall|k: int|
            0 <= k < name.len() ==> '0' <= #[trigger] name[k] <= '9',
        session_list(role, name) || message_list(role, name) || result_list(role, name) ==> role
            == "list"@,
        nav_toolbar(role, name) ==> role == "tool bar"@,
        role == "list"@ && name.len() > 0 && !session_list(role, name) ==> result_list(role, name),
{
    if unread_mark(role, name) {
        assert forall|k: int| 0 <= k < name.len() implies '0' <= #[trigger] name[k] <= '9' by {
            assert(crate::text::ascii_digit(name[k]));
        }
    }
}

/// A window is the main window only under one of its exact names, whatever else a title
/// that holds such a name may be.
pub proof fn longer_titles_are_chats(front: Seq<char>, back: Seq<char>, lower: Seq<char>)
    requires
        front.len() + back.len() > 0,
        lower.len() != 6,
    ensures
        !names_main_window(front + "微信"@ + back, lower),
        names_client(front + "微信"@ + back, lower),
        names_main_window("微信"@, lower),
{
    reveal_strlit("微信");
    reveal_strlit("wechat");
    reveal_strlit("weixin");
    let name = front + "微信"@ + back;
    let at = front.len() as int;
    assert(name.subrange(at, at + 2) =~= "微信"@);
    assert(crate::text::occurs_at(name, "微信"@, at));
}

/// The client after the connection was made anew: nothing was seen yet.
pub open spec fn connected_anew(client: WeChatView) -> WeChatView {
    WeChatView { app_seen_ns: None, list_seen_ns: None, ..client }
}

/// The client with another chat shown, or none.
pub open spec fn showing(client: WeChatView, who: Option<Seq<char>>) -> WeChatView {
    WeChatView { current_chat: who, ..client }
}

/// The client with another delay for mentions.
pub open spec fn delaying(client: WeChatView, ms: u64) -> WeChatView {
    WeChatView { at_delay_ms: ms, ..client }
}

/// What is set is what is known afterwards, and nothing else changes: who is listened to,
/// which windows there are, which chat is shown, and how long a mention takes do not depend
/// on each other.
pub proof fn settings_do_not_interfere(client: WeChatView, who: Option<Seq<char>>, ms: u64)
    ensures
        showing(client, who).current_chat == who,
        showing(client, who).targets == client.targets,
        showing(client, who).windows == client.windows,
        showing(client, who).at_delay_ms == client.at_delay_ms,
        delaying(client, ms).at_delay_ms == ms,
        delaying(client, ms).targets == client.targets,
        delaying(client, ms).windows == client.windows,
        delaying(client, ms).current_chat == client.current_chat,
        connected_anew(client).app_seen_ns is None,
        connected_anew(client).list_seen_ns is None,
        connected_anew(client).targets == client.targets,
        connected_anew(client).windows == client.windows,
        connected_anew(client).current_chat == client.current_chat,
        connected_anew(client).at_delay_ms == client.at_delay_ms,
        delaying(showing(client, who), ms) == showing(delaying(client, ms), who),
        connected_anew(connected_anew(client)) == connected_anew(client),
{
}

} // verus!
