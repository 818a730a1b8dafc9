//! The client: what is found, what is done in it, and how the program starts.

use mimicwx::flow::{
    chat_not_found_message, focus_main_window, main_window_title, sent_message, type_at_mentions,
    verify_sent, wait_for, wait_for_button, ChatAction, ChatStage, FlowError, FocusAction,
    FocusStage, InputCommand, ListenAction, ListenStage, MentionStep, Outcome, SendAction,
    SendStage, WaitStep,
};
use mimicwx::search::{
    check_session_has_new, file_button, find_chat_window, first_checked, list_sessions,
    main_window_bbox, scan_registry, title_bar_place, verify_sent_in_list, AppChild, BBox,
    ChatWindowPlace, EditBoxSearch, LevelWalk, RegistryApp, SessionItem, SessionSearch,
};
use mimicwx::send::Payload;
use mimicwx::startup::{
    dirs_or_home, effective_token, find_db_dir, key_path, mark_read_pause, reads_after,
    renewed_key, search_dirs, usable_key, AccountDir, Heartbeat, LoginStep, LoginWait, WatchEvent,
};
use mimicwx::wechat::{
    is_chat_frame, is_client_name, is_main_frame, is_main_title, is_result_list, is_text_field,
    is_unread_mark, is_wechat, is_wechat_main, ms, AppAction, AppStage, Recovery, WeChat,
    WeChatStatus,
};

const DONE: Outcome = Outcome {
    done: true,
    opened: true,
    place: None,
};

const FAILED: Outcome = Outcome {
    done: false,
    opened: false,
    place: None,
};

fn found_at(x: i32, y: i32) -> Outcome {
    Outcome {
        done: true,
        opened: true,
        place: Some((x, y)),
    }
}

fn bbox(x: i32, y: i32, w: i32, h: i32) -> BBox {
    BBox { x, y, w, h }
}

fn child(role: &str, name: &str, bbox: Option<BBox>) -> AppChild {
    AppChild {
        role: role.to_string(),
        name: name.to_string(),
        bbox,
    }
}

fn item(name: &str, parts: &[(&str, &str)]) -> SessionItem {
    SessionItem {
        name: name.to_string(),
        parts: parts
            .iter()
            .map(|(role, name)| (role.to_string(), name.to_string()))
            .collect(),
    }
}

fn texts(list: &[&str]) -> Vec<String> {
    list.iter().map(|s| s.to_string()).collect()
}

/// Runs a switch to a chat, with the given outcome for each action, and tells the actions.
fn switch(wechat: &mut WeChat, who: &str, outcome: fn(ChatAction) -> Outcome) -> Vec<ChatAction> {
    let mut actions = Vec::new();
    let mut stage = ChatStage::Begin;
    let mut last = DONE;
    while stage != ChatStage::Finished {
        let (next, action) = wechat.chat_with(who, stage, last);
        actions.push(action);
        last = outcome(action);
        stage = next;
    }
    actions
}

/// Runs a listen request in the same way.
fn listen(wechat: &mut WeChat, who: &str, outcome: fn(ListenAction) -> Outcome) -> Vec<ListenAction> {
    let mut actions = Vec::new();
    let mut stage = ListenStage::Begin;
    let mut last = DONE;
    while stage != ListenStage::Finished {
        let (next, action) = wechat.add_listen(who, stage, last);
        actions.push(action);
        last = outcome(action);
        stage = next;
    }
    actions
}

/// Runs a send request in the same way.
fn send(
    wechat: &mut WeChat,
    payload: Payload,
    skip: bool,
    outcome: fn(SendAction) -> Outcome,
) -> Vec<SendAction> {
    let mut actions = Vec::new();
    let mut stage = SendStage::Begin;
    let mut last = DONE;
    while stage != SendStage::Finished {
        let (next, action) = match payload {
            Payload::Text => wechat.send_message("A", skip, stage, last),
            Payload::Image => wechat.send_image("A", stage, last),
            Payload::File => wechat.send_file("A", stage, last),
        };
        actions.push(action);
        last = outcome(action);
        stage = next;
    }
    actions
}

#[test]
fn the_state_has_words() {
    assert_eq!(WeChatStatus::NotRunning.text(), "未运行");
    assert_eq!(WeChatStatus::WaitingForLogin.text(), "等待扫码登录");
    assert_eq!(WeChatStatus::LoggedIn.text(), "已登录");
    let wechat = WeChat::new(300);
    assert_eq!(wechat.check_status(false, true), WeChatStatus::NotRunning);
    assert_eq!(wechat.check_status(true, false), WeChatStatus::WaitingForLogin);
    assert_eq!(wechat.check_status(true, true), WeChatStatus::LoggedIn);
    assert_eq!((ms(1500).secs, ms(1500).nanos), (1, 500_000_000));
}

#[test]
fn names_of_the_client_are_recognised() {
    assert!(is_wechat("WeChat for Linux"));
    assert!(is_wechat("WEIXIN"));
    assert!(is_wechat("我的微信"));
    assert!(!is_wechat("chat"));
    assert!(is_wechat_main("WECHAT"));
    assert!(is_wechat_main("微信"));
    assert!(!is_wechat_main("微信 2"));
    assert!(is_client_name("x", "a wechat"));
    assert!(is_main_title("微信", "x"));
    assert!(is_text_field("entry") && is_text_field("text") && !is_text_field("label"));
    assert!(is_result_list("list", "搜索"));
    assert!(!is_result_list("list", "") && !is_result_list("list", "Chats") && !is_result_list("list", "会话"));
    assert!(is_chat_frame("frame", "Anna (2)", "Anna"));
    assert!(!is_chat_frame("frame", "WeChat", "WeChat"));
    assert!(is_main_frame("frame", "weixin") && !is_main_frame("panel", "weixin"));
    assert!(is_unread_mark("label", "12") && is_unread_mark("static", "0"));
    assert!(!is_unread_mark("label", "") && !is_unread_mark("label", "1a") && !is_unread_mark("text", "1"));
    let wechat = WeChat::new(0);
    assert!(wechat.find_nav_toolbar("tool bar", "导航") && wechat.find_nav_toolbar("tool bar", "Navigation"));
    assert!(!wechat.find_nav_toolbar("panel", "导航"));
    assert!(wechat.find_split_pane("splitter") && wechat.find_split_pane("split pane"));
    assert!(wechat.find_message_list("list", "消息") && wechat.find_message_list("list", "Messages"));
}

#[test]
fn what_was_found_stays_good_for_a_while() {
    let second = 1_000_000_000u64;
    let mut wechat = WeChat::new(0);
    let (stage, action) = wechat.find_app(AppStage::Begin, false, 0);
    assert_eq!((stage, action), (AppStage::FirstScan, AppAction::Scan));
    assert_eq!(wechat.find_app(stage, true, second), (AppStage::Finished, AppAction::Found));
    assert_eq!(
        wechat.find_app(AppStage::Begin, false, 30 * second),
        (AppStage::Finished, AppAction::UseKnown)
    );
    assert_eq!(wechat.find_app(AppStage::Begin, false, 31 * second).1, AppAction::Scan);
    assert_eq!(
        wechat.find_app(AppStage::FirstScan, false, 0),
        (AppStage::Reconnecting, AppAction::Reconnect)
    );
    assert_eq!(
        wechat.find_app(AppStage::Reconnecting, false, 0),
        (AppStage::Finished, AppAction::NotFound)
    );
    assert_eq!(wechat.find_app(AppStage::Reconnecting, true, 0).1, AppAction::Scan);
    assert!(wechat.find_session_list("list", "Chats", 5 * second));
    assert!(wechat.knows_session_list(14 * second));
    assert!(!wechat.knows_session_list(15 * second));
    wechat.try_reconnect();
    assert!(!wechat.knows_session_list(6 * second));
}

#[test]
fn listeners_are_kept_in_order() {
    let mut wechat = WeChat::new(300);
    assert_eq!(wechat.get_at_delay_ms(), 300);
    wechat.set_at_delay_ms(5);
    assert_eq!(wechat.get_at_delay_ms(), 5);
    for who in ["b", "a", "c", "a"] {
        wechat.add_target(who);
    }
    assert_eq!(wechat.get_listen_list(), texts(&["a", "b", "c"]));
    wechat.add_window("b");
    assert!(wechat.check_listen_window("b", true));
    assert!(!wechat.check_listen_window("a", true));
    assert!(!wechat.check_listen_window("b", false));
    assert!(!wechat.has_window("b"));
    assert_eq!(wechat.try_recover_listen_window("b"), Recovery::Rebuild);
    assert_eq!(wechat.try_recover_listen_window("x"), Recovery::MainWindow);
    wechat.add_window("a");
    assert_eq!(wechat.try_recover_listen_window("a"), Recovery::Present);
    assert!(wechat.remove_listen("a"));
    assert!(!wechat.remove_listen("a"));
    assert_eq!(wechat.get_listen_list(), texts(&["b", "c"]));
    assert!(!wechat.has_window("a") && !wechat.is_target("a"));
}

#[test]
fn a_chat_on_the_list_is_clicked() {
    let mut wechat = WeChat::new(0);
    let actions = switch(&mut wechat, "A", |action| match action {
        ChatAction::FindItem => found_at(3, 4),
        _ => DONE,
    });
    assert_eq!(
        actions,
        vec![
            ChatAction::FocusMain,
            ChatAction::FindApp,
            ChatAction::FindItem,
            ChatAction::Click(3, 4),
            ChatAction::WaitMessages(1500, 50),
            ChatAction::Opened,
        ]
    );
    assert!(wechat.is_current("A"));
    assert_eq!(switch(&mut wechat, "A", |_| FAILED), vec![ChatAction::Opened]);
}

#[test]
fn a_chat_that_is_not_on_the_list_is_searched_for() {
    let mut wechat = WeChat::new(0);
    let actions = switch(&mut wechat, "A", |_| DONE);
    assert_eq!(
        actions,
        vec![
            ChatAction::FocusMain,
            ChatAction::FindApp,
            ChatAction::FindItem,
            ChatAction::OpenSearch,
            ChatAction::WaitSearchBox(800, 50),
            ChatAction::SelectAll,
            ChatAction::Sleep(100),
            ChatAction::PasteName,
            ChatAction::WaitResults(2000, 100),
            ChatAction::Enter,
            ChatAction::WaitMessages(2000, 50),
            ChatAction::Escape,
            ChatAction::WaitMessages(800, 50),
            ChatAction::CheckMessages,
            ChatAction::Opened,
        ]
    );
    assert!(wechat.is_current("A"));
    switch(&mut wechat, "1@chatroom", |_| DONE);
    assert!(wechat.is_current("A"));
    let actions = switch(&mut wechat, "B", |action| match action {
        ChatAction::CheckMessages => FAILED,
        _ => DONE,
    });
    assert_eq!(actions.last(), Some(&ChatAction::NotFound));
    assert!(!wechat.is_current("A") && !wechat.is_current("B"));
}

#[test]
fn switching_fails_with_a_reason() {
    let mut wechat = WeChat::new(0);
    let actions = switch(&mut wechat, "A", |_| FAILED);
    assert_eq!(actions.last(), Some(&ChatAction::Fail(FlowError::NoApp)));
    let actions = switch(&mut wechat, "A", |action| match action {
        ChatAction::OpenSearch => FAILED,
        _ => DONE,
    });
    assert_eq!(actions.last(), Some(&ChatAction::Fail(FlowError::Passed)));
    assert_eq!(FlowError::NoApp.message(), "找不到微信应用");
    assert_eq!(FlowError::NoButton.message(), "找不到可用的微信主窗口或消息输入框");
    assert_eq!(FlowError::Passed.message(), "");
}

#[test]
fn a_chat_window_is_opened() {
    let mut wechat = WeChat::new(0);
    wechat.set_current(Some("A"));
    let actions = listen(&mut wechat, "A", |action| match action {
        ListenAction::FindWindow => FAILED,
        ListenAction::FindItem => found_at(1, 2),
        _ => DONE,
    });
    assert_eq!(
        actions,
        vec![
            ListenAction::FindApp,
            ListenAction::FindWindow,
            ListenAction::FocusMain,
            ListenAction::SwitchChat,
            ListenAction::FindItem,
            ListenAction::DoubleClick(1, 2),
            ListenAction::WaitWindow(3000, 100),
            ListenAction::AwaitWindow(6000, 200),
            ListenAction::Listening,
        ]
    );
    assert!(wechat.is_target("A") && wechat.has_window("A") && !wechat.is_current("A"));
    let again = listen(&mut wechat, "A", |_| DONE);
    assert_eq!(again, vec![ListenAction::FindApp, ListenAction::CheckAlive, ListenAction::Listening]);
}

#[test]
fn a_chat_window_is_retried_three_times() {
    let mut wechat = WeChat::new(0);
    wechat.add_window("A");
    let actions = listen(&mut wechat, "A", |action| match action {
        ListenAction::FindApp => DONE,
        ListenAction::SwitchChat => DONE,
        _ => FAILED,
    });
    assert_eq!(
        actions,
        vec![
            ListenAction::FindApp,
            ListenAction::CheckAlive,
            ListenAction::FindWindow,
            ListenAction::FocusMain,
            ListenAction::SwitchChat,
            ListenAction::FindItem,
            ListenAction::Sleep(1000),
            ListenAction::FocusMain,
            ListenAction::SwitchChat,
            ListenAction::FindItem,
            ListenAction::Sleep(1500),
            ListenAction::FocusMain,
            ListenAction::SwitchChat,
            ListenAction::FindItem,
            ListenAction::Sleep(2000),
            ListenAction::FocusMain,
            ListenAction::SwitchChat,
            ListenAction::FindItem,
            ListenAction::NotListening,
        ]
    );
    assert!(wechat.is_target("A") && !wechat.has_window("A"));
    let actions = listen(&mut wechat, "A", |_| FAILED);
    assert_eq!(actions, vec![ListenAction::FindApp, ListenAction::Fail(FlowError::NoApp)]);
}

#[test]
fn texts_go_by_the_main_window_or_by_their_own() {
    let mut wechat = WeChat::new(0);
    assert_eq!(
        send(&mut wechat, Payload::Text, false, |_| DONE),
        vec![
            SendAction::SwitchChat,
            SendAction::Sleep(300),
            SendAction::FindApp,
            SendAction::TypeMentions,
            SendAction::Paste,
            SendAction::Sleep(300),
            SendAction::Enter,
            SendAction::Sleep(500),
            SendAction::Verify,
            SendAction::Sent(true),
        ]
    );
    assert_eq!(
        send(&mut wechat, Payload::Text, true, |_| DONE).last(),
        Some(&SendAction::Sent(false))
    );
    wechat.add_window("A");
    assert_eq!(
        send(&mut wechat, Payload::Text, false, |_| DONE),
        vec![
            SendAction::CheckAlive,
            SendAction::ActivateWindow,
            SendAction::TypeMentions,
            SendAction::SendInWindow,
            SendAction::Relay,
        ]
    );
    wechat.set_current(Some("A"));
    let actions = send(&mut wechat, Payload::Text, false, |action| match action {
        SendAction::CheckAlive => FAILED,
        _ => DONE,
    });
    assert_eq!(actions[1], SendAction::SwitchChat);
    assert!(!wechat.has_window("A") && !wechat.is_current("A"));
}

#[test]
fn images_and_files_are_sent() {
    let mut wechat = WeChat::new(0);
    wechat.set_current(Some("A"));
    assert_eq!(
        send(&mut wechat, Payload::Image, true, |_| DONE),
        vec![
            SendAction::SwitchChat,
            SendAction::Sleep(300),
            SendAction::Paste,
            SendAction::Sleep(500),
            SendAction::Enter,
            SendAction::Sent(false),
        ]
    );
    assert!(!wechat.is_current("A"));
    wechat.add_window("A");
    assert_eq!(
        send(&mut wechat, Payload::Image, true, |_| DONE),
        vec![SendAction::CheckAlive, SendAction::SendInWindow, SendAction::Relay]
    );
    assert_eq!(
        send(&mut wechat, Payload::File, true, |action| match action {
            SendAction::FindButton => found_at(7, 8),
            _ => DONE,
        }),
        vec![
            SendAction::SwitchChat,
            SendAction::Sleep(300),
            SendAction::FindApp,
            SendAction::FindButton,
            SendAction::Click(7, 8),
            SendAction::Sleep(500),
            SendAction::Paste,
            SendAction::Enter,
            SendAction::Sleep(700),
            SendAction::Sent(false),
        ]
    );
    assert_eq!(
        send(&mut wechat, Payload::File, true, |_| DONE).last(),
        Some(&SendAction::Fail(FlowError::NoButton))
    );
    let missing = send(&mut wechat, Payload::File, true, |_| Outcome {
        done: true,
        opened: false,
        place: None,
    });
    assert_eq!(missing, vec![SendAction::SwitchChat, SendAction::ChatNotFound]);
    assert_eq!(chat_not_found_message("A"), "未找到聊天: A");
    assert_eq!(sent_message(Payload::Text, true), "消息已发送");
    assert_eq!(sent_message(Payload::Text, false), "消息已发送 (未验证)");
    assert_eq!(sent_message(Payload::Image, false), "图片已发送");
    assert_eq!(sent_message(Payload::File, false), "文件已发送");
}

#[test]
fn mentions_are_typed_one_by_one() {
    let steps = type_at_mentions(&texts(&["A", "", "B"]), 300);
    assert_eq!(steps.len(), 12);
    assert!(matches!(&steps[0], MentionStep::TypeAt));
    assert!(matches!(&steps[1], MentionStep::Sleep(300)));
    assert!(matches!(&steps[2], MentionStep::PasteName(n) if n == "A"));
    assert!(matches!(&steps[4], MentionStep::Enter));
    assert!(matches!(&steps[5], MentionStep::Sleep(200)));
    assert!(matches!(&steps[8], MentionStep::PasteName(n) if n == "B"));
}

#[test]
fn waits_come_to_an_end() {
    assert_eq!(wait_for(None, 799, 800, 50), WaitStep::Look);
    assert_eq!(wait_for(None, 800, 800, 50), WaitStep::TimedOut);
    assert_eq!(wait_for(Some(false), 0, 800, 50), WaitStep::Sleep(50));
    assert_eq!(wait_for(Some(true), 900, 800, 50), WaitStep::Ready);
    assert_eq!(wait_for_button(false, 2999), WaitStep::Sleep(100));
    assert_eq!(wait_for_button(false, 3000), WaitStep::TimedOut);
    assert_eq!(wait_for_button(true, 9000), WaitStep::Ready);
    assert_eq!(verify_sent(0, true), WaitStep::Look);
    assert_eq!(verify_sent(1, false), WaitStep::Sleep(500));
    assert_eq!(verify_sent(2, true), WaitStep::Ready);
    assert_eq!(verify_sent(3, false), WaitStep::TimedOut);
}

#[test]
fn the_main_window_comes_to_the_front() {
    let mut actions = Vec::new();
    let mut stage = FocusStage::Begin;
    let mut last = FAILED;
    while stage != FocusStage::Finished {
        let (next, action) = focus_main_window(stage, last);
        actions.push(action);
        last = match action {
            FocusAction::FindFrame => found_at(9, 15),
            _ => FAILED,
        };
        stage = next;
    }
    assert_eq!(
        actions,
        vec![
            FocusAction::Activate(0),
            FocusAction::Activate(1),
            FocusAction::Activate(2),
            FocusAction::FindFrame,
            FocusAction::Click(9, 15),
            FocusAction::Sleep(300),
            FocusAction::Ended,
        ]
    );
    assert_eq!(
        focus_main_window(FocusStage::Activating(1), DONE),
        (FocusStage::Pausing, FocusAction::Sleep(300))
    );
    assert_eq!(
        (main_window_title(0), main_window_title(1), main_window_title(2)),
        ("微信", "WeChat", "Weixin")
    );
}

#[test]
fn texts_and_images_look_after_their_window() {
    let message = InputCommand::SendMessage {
        to: "A".to_string(),
        text: "x".to_string(),
        at: Vec::new(),
        skip_verify: true,
    };
    assert_eq!(message.recovers().unwrap(), "A");
    let image = InputCommand::SendImage {
        to: "B".to_string(),
        image_path: "/x".to_string(),
    };
    assert_eq!(image.recovers().unwrap(), "B");
    let file = InputCommand::SendFile {
        to: "C".to_string(),
        file_path: "/x".to_string(),
    };
    assert!(file.recovers().is_none());
    for command in [
        InputCommand::ChatWith { who: "A".to_string() },
        InputCommand::AddListen { who: "A".to_string() },
        InputCommand::RemoveListen { who: "A".to_string() },
    ] {
        assert!(command.recovers().is_none());
    }
}

#[test]
fn the_lowest_text_field_is_the_input_box() {
    let wechat = WeChat::new(0);
    let mut search = wechat.find_edit_box(0);
    assert!(search.goes_on());
    assert_eq!(search.level(), &vec![0]);
    assert!(search.offer(1, "entry", Some(bbox(0, 0, 300, 50)), false));
    assert!(search.offer(2, "text", Some(bbox(0, 600, 300, 100)), true));
    assert!(search.offer(3, "text", Some(bbox(0, 900, 100, 100)), false));
    assert!(search.offer(4, "label", Some(bbox(0, 900, 300, 100)), true));
    assert!(search.offer(5, "text", None, false));
    assert_eq!(search.found(), Some(2));
    search.descend();
    assert_eq!(search.level(), &vec![2, 4]);
    assert!(EditBoxSearch::new(0).found().is_none());
    let mut long = EditBoxSearch::new(0);
    for n in 0..499 {
        assert!(long.offer(n, "panel", None, true));
    }
    assert!(!long.offer(499, "panel", None, true));
    long.descend();
    assert!(!long.goes_on());
}

#[test]
fn the_file_button_has_its_place() {
    let wide = Some(bbox(10, 20, 700, 500));
    assert_eq!(file_button(wide, None), Some((413, 488)));
    let narrow = Some(bbox(10, 20, 699, 500));
    assert_eq!(file_button(narrow, None), None);
    assert_eq!(file_button(narrow, Some(bbox(5, 6, 120, 40))), Some((87, 28)));
    assert_eq!(file_button(None, Some(bbox(5, 6, 119, 40))), None);
    assert_eq!(title_bar_place(bbox(-100, -50, 50, 9)), (0, 0));
    assert_eq!(title_bar_place(bbox(10, 20, 101, 9)), (60, 35));
    assert_eq!(title_bar_place(bbox(10, 20, -3, 9)), (9, 35));
}

#[test]
fn sessions_are_found_by_name() {
    let wechat = WeChat::new(0);
    let mut search = wechat.find_session("Anna");
    assert!(!search.offer(1, "My Anna"));
    assert_eq!(search.found(), Some(1));
    assert!(!search.offer(2, " Anna 12:30 "));
    assert_eq!(search.found(), Some(2));
    assert!(!search.offer(3, "Annabel"));
    assert!(!search.offer(4, "  "));
    assert_eq!(search.found(), Some(2));
    assert!(search.offer(5, " Anna "));
    assert!(SessionSearch::new("x").found().is_none());
}

#[test]
fn sessions_show_what_is_unread() {
    let items = vec![
        item(" Anna ", &[("label", "3")]),
        item("x", &[]),
        item("微", &[("text", "3")]),
        item("", &[]),
    ];
    let sessions = WeChat::new(0).list_sessions(&items);
    assert_eq!(sessions.len(), 2);
    assert_eq!((sessions[0].name.as_str(), sessions[0].has_new), ("Anna", true));
    assert_eq!((sessions[1].name.as_str(), sessions[1].has_new), ("微", false));
    let mut parts: Vec<(String, String)> = vec![("text".to_string(), "a".to_string()); 10];
    parts.push(("label".to_string(), "1".to_string()));
    assert!(!check_session_has_new(&parts));
    parts.remove(0);
    assert!(check_session_has_new(&parts));
    let many: Vec<SessionItem> = (0..60).map(|n| item(&format!("chat {n}"), &[])).collect();
    assert_eq!(list_sessions(&many).len(), 50);
}

#[test]
fn sent_messages_are_seen_on_the_screen() {
    assert_eq!(first_checked(2), 0);
    assert_eq!(first_checked(10), 7);
    assert!(verify_sent_in_list(&texts(&["x", " hello "]), "hello"));
    assert!(verify_sent_in_list(&texts(&["hell"]), "hello"));
    assert!(!verify_sent_in_list(&texts(&["", "bye"]), "hello"));
    assert!(!verify_sent_in_list(&texts(&[&format!("hello{}", "x".repeat(16))]), "hello"));
    assert!(verify_sent_in_list(&texts(&[&format!("hello{}", "x".repeat(15))]), "hello"));
    assert!(!verify_sent_in_list(&Vec::new(), "hello"));
}

#[test]
fn windows_of_chats_are_found() {
    let children = vec![
        child("frame", "微信", Some(bbox(1, 2, 3, 4))),
        child("frame", "Anna", None),
    ];
    assert_eq!(find_chat_window(&children, &Vec::new(), "Anna"), ChatWindowPlace::Child(1));
    let main = || Some(child("frame", "微信", Some(bbox(1, 2, 3, 4))));
    let other = || Some(child("frame", "Anna", None));
    assert_eq!(main_window_bbox(&vec![other(), main()]), Some(bbox(1, 2, 3, 4)));
    assert_eq!(main_window_bbox(&vec![main(), None]), Some(bbox(1, 2, 3, 4)));
    assert_eq!(main_window_bbox(&vec![None, main()]), None);
    assert_eq!(main_window_bbox(&vec![Some(child("frame", "微信", None))]), None);
    let mut many: Vec<Option<AppChild>> = (0..10).map(|_| other()).collect();
    many.push(main());
    assert_eq!(main_window_bbox(&many), None);
    let apps = vec![
        RegistryApp {
            name: "Bob".to_string(),
            children: vec![("panel".to_string(), "Bob".to_string()), ("frame".to_string(), "Bob!".to_string())],
        },
        RegistryApp {
            name: "WeChat".to_string(),
            children: vec![("frame".to_string(), "WeChat".to_string())],
        },
    ];
    assert_eq!(find_chat_window(&children, &apps, "Bob"), ChatWindowPlace::Registered(0, 1));
    assert_eq!(find_chat_window(&children, &apps, "WeChat"), ChatWindowPlace::NotThere);
    assert_eq!(scan_registry(&texts(&["a", "Weixin", "WeChat"])), Some(1));
    assert_eq!(scan_registry(&texts(&["a"])), None);
}

#[test]
fn the_login_is_waited_for() {
    let mut wait = LoginWait::new();
    for n in 0..30 {
        assert_eq!(
            wait.step(WeChatStatus::NotRunning),
            LoginStep::Wait {
                prompt: false,
                reconnect: n % 5 == 4,
                seconds: 2
            }
        );
    }
    assert_eq!(wait.step(WeChatStatus::NotRunning), LoginStep::Proceed);
    let mut wait = LoginWait::new();
    assert_eq!(
        wait.step(WeChatStatus::WaitingForLogin),
        LoginStep::Wait {
            prompt: true,
            reconnect: false,
            seconds: 3
        }
    );
    for n in 2..8 {
        assert_eq!(
            wait.step(WeChatStatus::WaitingForLogin),
            LoginStep::Wait {
                prompt: false,
                reconnect: n % 5 == 4,
                seconds: 3
            }
        );
    }
    assert_eq!(wait.step(WeChatStatus::LoggedIn), LoginStep::Proceed);
}

#[test]
fn keys_and_tokens_are_taken() {
    assert_eq!(key_path(true, true), "/home/wechat/.xwechat/wechat_key.txt");
    assert_eq!(key_path(false, true), "/tmp/wechat_key.txt");
    assert_eq!(key_path(false, false), "/home/wechat/.xwechat/wechat_key.txt");
    assert_eq!(usable_key(&format!(" {}\n", "a".repeat(64))).unwrap(), "a".repeat(64));
    assert!(usable_key(&"a".repeat(96)).is_some());
    assert!(usable_key(&"a".repeat(65)).is_none());
    assert_eq!(renewed_key(" x ").unwrap(), "x");
    assert!(renewed_key(" \n").is_none());
    assert_eq!(mark_read_pause(0), Some(5));
    assert_eq!(mark_read_pause(9), Some(3));
    assert_eq!(mark_read_pause(10), None);
    assert_eq!(effective_token(Some("t".to_string())).unwrap(), "t");
    assert!(effective_token(Some(String::new())).is_none());
    assert!(effective_token(None).is_none());
}

#[test]
fn the_newest_account_is_the_active_one() {
    let account = |path: &str, changed_ns| AccountDir {
        path: path.as_bytes().to_vec(),
        changed_ns,
    };
    let accounts = vec![account("/a", 1), account("/b", 3), account("/c", 3), account("/d", -2)];
    assert_eq!(find_db_dir(&accounts, false).unwrap(), "/b".as_bytes());
    assert!(find_db_dir(&Vec::new(), false).is_none());
    assert_eq!(
        find_db_dir(&Vec::new(), true).unwrap(),
        "/home/wechat/.local/share/weixin/data/db_storage".as_bytes()
    );
    assert_eq!(dirs_or_home(None), "/root".as_bytes());
    let home = dirs_or_home(Some("/home/wechat"));
    let homes = vec!["/home/wechat".as_bytes().to_vec(), "/home/x".as_bytes().to_vec()];
    assert_eq!(
        search_dirs(&home, &homes),
        vec![
            "/home/wechat/Documents/xwechat_files".as_bytes().to_vec(),
            "/home/x/Documents/xwechat_files".as_bytes().to_vec(),
        ]
    );
}

#[test]
fn three_failures_in_a_row_reconnect() {
    let mut heart = Heartbeat::new();
    assert!(!heart.beat(0));
    assert!(!heart.beat(-1));
    assert!(!heart.beat(4));
    assert!(!heart.beat(0));
    assert!(!heart.beat(0));
    assert!(heart.beat(0));
    heart.reconnected(false);
    assert!(heart.beat(0));
    heart.reconnected(true);
    assert!(!heart.beat(0));
    assert!(reads_after(WatchEvent::Changed) && reads_after(WatchEvent::Lagged));
    assert!(reads_after(WatchEvent::TimedOut) && !reads_after(WatchEvent::Closed));
}

#[test]
fn controls_are_walked_level_by_level() {
    let mut walk = LevelWalk::new(0, 2);
    assert!(walk.goes_on());
    assert_eq!(walk.level(), &vec![0]);
    walk.offer(1, true);
    walk.offer(2, false);
    walk.offer(3, true);
    walk.descend();
    assert!(walk.goes_on());
    assert_eq!(walk.level(), &vec![1, 3]);
    walk.offer(4, true);
    walk.descend();
    assert!(!walk.goes_on());
    let mut short = LevelWalk::new(0, 6);
    short.descend();
    assert!(!short.goes_on());
}

#[test]
fn the_lowest_text_field_is_taken_whatever_its_size() {
    let mut search = EditBoxSearch::new(0);
    let large = BBox { x: 0, y: 0, w: 2000, h: 900 };
    let low = BBox { x: 0, y: 861, w: 120, h: 40 };
    assert!(search.offer(1, "text", Some(large), false));
    assert!(search.offer(2, "entry", Some(low), false));
    assert_eq!(search.found(), Some(2));
}
