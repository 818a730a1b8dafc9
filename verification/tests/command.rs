//! Commands and their replies.

use mimicwx::command::{
    at_mode_reply, list_with, list_without, listen_reply, parse_command, plan_reload, reload_reply, send_reply,
    status_reply, unknown_reply, unlisten_reply, AddOutcome, Command,
};
use mimicwx::send::{ActorReply, ListenReply};

fn names(list: &[&str]) -> Vec<String> {
    list.iter().map(|s| s.to_string()).collect()
}

#[test]
fn commands_are_read() {
    assert!(matches!(parse_command(" status\n"), Command::Status));
    assert!(matches!(parse_command("atmode"), Command::AtMode));
    assert!(matches!(parse_command("reload"), Command::Reload));
    assert!(matches!(parse_command("listen  A B "), Command::Listen(w) if w == "A B"));
    assert!(matches!(parse_command("unlisten A"), Command::Unlisten(w) if w == "A"));
    assert!(
        matches!(parse_command("send A  hi there "), Command::Send { to, text } if to == "A" && text == "hi there")
    );
    assert!(matches!(parse_command("send A"), Command::Usage("[err] 用法: send <收件人> <内容>")));
    assert!(matches!(parse_command("listen"), Command::Unknown(w) if w == "listen"));
    assert!(matches!(parse_command("Status"), Command::Unknown(_)));
    assert_eq!(unknown_reply("x"), "❓ 未知命令: x");
}

#[test]
fn the_status_is_told() {
    assert_eq!(
        status_reply("已登录", true, 3, &names(&["A", "B\"c"]), 7325, "0.6.0"),
        "📊 微信: 已登录\n📊 数据库: 可用 | 联系人: 3\n📊 监听: 2 个 [\"A\", \"B\\\"c\"]\n📊 运行: 2h2m | v0.6.0"
    );
    assert_eq!(
        status_reply("未运行", false, 0, &Vec::new(), 59, "1"),
        "📊 微信: 未运行\n📊 数据库: 不可用 | 联系人: 0\n📊 监听: 0 个 []\n📊 运行: 0h0m | v1"
    );
}

#[test]
fn listening_commands_are_answered() {
    assert_eq!(listen_reply("A", &ListenReply::Done(true)), "[ok] 监听已添加: A");
    assert_eq!(listen_reply("A", &ListenReply::Done(false)), "[warn] 添加失败: A");
    assert_eq!(listen_reply("A", &ListenReply::Failed("x".to_string())), "[warn] 错误: x");
    assert_eq!(listen_reply("A", &ListenReply::Closed), "[warn] actor 响应通道已关闭");
    assert_eq!(listen_reply("A", &ListenReply::Stopped), "[warn] InputEngine 不可用");
    assert_eq!(unlisten_reply("A", &ListenReply::Done(true)), "[ok] 监听已移除: A");
    assert_eq!(unlisten_reply("A", &ListenReply::Done(false)), "[warn] 未找到监听: A");
    assert_eq!(unlisten_reply("A", &ListenReply::Closed), "[warn] actor 响应通道已关闭");
    assert_eq!(unlisten_reply("A", &ListenReply::Stopped), "[warn] InputEngine 不可用");
}

#[test]
fn sending_commands_are_answered() {
    let done = |sent| ActorReply::Done {
        sent,
        verified: false,
        message: "m".to_string(),
    };
    assert_eq!(send_reply(&done(true)), "[ok] m");
    assert_eq!(send_reply(&done(false)), "[warn] m");
    assert_eq!(send_reply(&ActorReply::Failed("x".to_string())), "[warn] 发送失败: x");
    assert_eq!(send_reply(&ActorReply::Closed), "[warn] actor 响应通道已关闭");
    assert_eq!(send_reply(&ActorReply::Stopped), "[warn] InputEngine 不可用");
}

#[test]
fn saved_lists_hold_a_name_once() {
    assert_eq!(list_with(&names(&["A"]), "B"), names(&["A", "B"]));
    assert_eq!(list_with(&names(&["A", "B"]), "A"), names(&["A", "B"]));
    assert_eq!(list_without(&names(&["A", "B", "A"]), "A"), names(&["B"]));
    assert_eq!(list_without(&names(&["B"]), "A"), names(&["B"]));
}

#[test]
fn a_reload_changes_what_differs() {
    let plan = plan_reload(300, 500, &names(&["A", "B"]), &names(&["B", "C", "D"]));
    assert_eq!(plan.to_remove, names(&["A"]));
    assert_eq!(plan.to_add, names(&["C", "D"]));
    assert_eq!(
        reload_reply(&plan, &vec![AddOutcome::Added, AddOutcome::NotAdded]),
        "[config] at_delay_ms: 300 → 500\n[listen] 移除监听: A\n[ok] 添加监听: C\n[warn] 添加失败: D\n[config] 配置已重载"
    );
    assert_eq!(
        reload_reply(&plan, &vec![AddOutcome::NotSent, AddOutcome::Added]),
        "[config] at_delay_ms: 300 → 500\n[listen] 移除监听: A\n[ok] 添加监听: D\n[config] 配置已重载"
    );
    let same = plan_reload(300, 300, &names(&["A"]), &names(&["A"]));
    assert_eq!(reload_reply(&same, &Vec::new()), "[config] 配置已重载 (无变化)");
}

#[test]
fn the_mode_of_mentions_is_passed_on() {
    assert_eq!(at_mode_reply(), "📢 已发送仅@模式切换指令");
}
