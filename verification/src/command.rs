//! Commands that come as a line of text, and how they are answered.

use vstd::prelude::*;
use vstd::string::*;

use crate::number::push_u64;
use crate::outside::list_debug_text;
use crate::send::{ActorReply, ListenReply};
use crate::text::{clone_texts, list_contains, split_once, strip_prefix, text_eq, trim};

verus! {

/// A command.
#[derive(Debug)]
pub enum Command {
    Status,
    /// Switches whether only mentions are answered.
    AtMode,
    Reload,
    Listen(String),
    Unlisten(String),
    Send { to: String, text: String },
    /// A command without what it needs: how it is used.
    Usage(&'static str),
    /// Something else.
    Unknown(String),
}

/// What a [`Command`] says.
pub enum CommandView {
    Status,
    AtMode,
    Reload,
    Listen(Seq<char>),
    Unlisten(Seq<char>),
    Send { to: Seq<char>, text: Seq<char> },
    Usage(Seq<char>),
    Unknown(Seq<char>),
}

impl View for Command {
    type V = CommandView;

    open spec fn view(&self) -> CommandView {
        match self {
            Command::Status => CommandView::Status,
            Command::AtMode => CommandView::AtMode,
            Command::Reload => CommandView::Reload,
            Command::Listen(who) => CommandView::Listen(who@),
            Command::Unlisten(who) => CommandView::Unlisten(who@),
            Command::Send { to, text } => CommandView::Send { to: to@, text: text@ },
            Command::Usage(words) => CommandView::Usage(words@),
            Command::Unknown(line) => CommandView::Unknown(line@),
        }
    }
}

/// The command in a line without white space around it.
pub open spec fn command_of(line: Seq<char>) -> CommandView {
    if line == "status"@ {
        CommandView::Status
    } else if line == "atmode"@ {
        CommandView::AtMode
    } else if line == "reload"@ {
        CommandView::Reload
    } else if crate::text::has_prefix(line, "listen "@) {
        let who = crate::text::trimmed(crate::text::after_prefix(line, "listen "@)->0);
        if who.len() == 0 {
            CommandView::Usage("[err] 用法: listen <联系人/群名>"@)
        } else {
            CommandView::Listen(who)
        }
    } else if crate::text::has_prefix(line, "unlisten "@) {
        let who = crate::text::trimmed(crate::text::after_prefix(line, "unlisten "@)->0);
        if who.len() == 0 {
            CommandView::Usage("[err] 用法: unlisten <联系人/群名>"@)
        } else {
            CommandView::Unlisten(who)
        }
    } else if crate::text::has_prefix(line, "send "@) {
        let rest = crate::text::trimmed(crate::text::after_prefix(line, "send "@)->0);
        match crate::text::split_pair(rest, ' ') {
            Some((to, text)) => CommandView::Send {
                to: crate::text::trimmed(to),
                text: crate::text::trimmed(text),
            },
            None => CommandView::Usage("[err] 用法: send <收件人> <内容>"@),
        }
    } else {
        CommandView::Unknown(line)
    }
}

/// Reads a command. White space around the line does not matter.
pub fn parse_command(line: &str) -> (command: Command)
    ensures
        command@ == command_of(crate::text::trimmed(line@)),
{
    let cmd = trim(line);
    if text_eq(cmd, "status") {
        return Command::Status;
    }
    if text_eq(cmd, "atmode") {
        return Command::AtMode;
    }
    if text_eq(cmd, "reload") {
        return Command::Reload;
    }
    if let Some(rest) = strip_prefix(cmd, "listen ") {
        let who = trim(rest);
        if who.is_empty() {
            return Command::Usage("[err] 用法: listen <联系人/群名>");
        }
        return Command::Listen(who.to_owned());
    }
    if let Some(rest) = strip_prefix(cmd, "unlisten ") {
        let who = trim(rest);
        if who.is_empty() {
            return Command::Usage("[err] 用法: unlisten <联系人/群名>");
        }
        return Command::Unlisten(who.to_owned());
    }
    if let Some(rest) = strip_prefix(cmd, "send ") {
        return match split_once(trim(rest), ' ') {
            Some((to, text)) => Command::Send {
                to: trim(to).to_owned(),
                text: trim(text).to_owned(),
            },
            None => Command::Usage("[err] 用法: send <收件人> <内容>"),
        };
    }
    Command::Unknown(cmd.to_owned())
}

/// Switching between all messages and mentions alone is left to the clients of the live
/// stream; the command only says that they were told.
pub fn at_mode_reply() -> (reply: &'static str)
    ensures
        reply@ == "📢 已发送仅@模式切换指令"@,
{
    "📢 已发送仅@模式切换指令"
}

/// A line that is no command is answered with itself.
pub fn unknown_reply(line: &str) -> (reply: String)
    ensures
        reply@ == "❓ 未知命令: "@ + line@,
{
    "❓ 未知命令: ".to_owned().concat(line)
}

/// The white space around a command does not matter.
pub proof fn commands_ignore_white_space(line: Seq<char>)
    ensures
        command_of(crate::text::trimmed(crate::text::trimmed(line))) == command_of(
            crate::text::trimmed(line),
        ),
{
    crate::text::lemma_trim_idempotent(line);
}

// ---------------------------------------------------------------------------
// Status
// ---------------------------------------------------------------------------

/// What the status command tells.
pub open spec fn status_text(
    status: Seq<char>,
    db_available: bool,
    contacts: nat,
    listening: Seq<Seq<char>>,
    uptime_secs: nat,
    version: Seq<char>,
) -> Seq<char> {
    "📊 微信: "@ + status + "\n📊 数据库: "@ + (if db_available {
        "可用"@
    } else {
        "不可用"@
    }) + " | 联系人: "@ + crate::number::digits(contacts) + "\n📊 监听: "@ + crate::number::digits(
        listening.len(),
    ) + " 个 "@ + crate::outside::debug_list(listening) + "\n📊 运行: "@ + crate::number::digits(
        uptime_secs / 3600,
    ) + "h"@ + crate::number::digits((uptime_secs % 3600) / 60) + "m | v"@ + version
}

/// What the status command tells: the client, the database, who is listened to, and for
/// how many hours and minutes the bridge has been running.
pub fn status_reply(
    status: &str,
    db_available: bool,
    contacts: usize,
    listening: &Vec<String>,
    uptime_secs: u64,
    version: &str,
) -> (reply: String)
    ensures
        reply@ == status_text(
            status@,
            db_available,
            contacts as nat,
            crate::text::texts_of(listening@),
            uptime_secs as nat,
            version@,
        ),
{
    let db_words = if db_available {
        "可用"
    } else {
        "不可用"
    };
    let mut text = "📊 微信: ".to_owned().concat(status).concat("\n📊 数据库: ").concat(
        db_words,
    ).concat(" | 联系人: ");
    push_u64(&mut text, contacts as u64);
    text.append("\n📊 监听: ");
    push_u64(&mut text, listening.len() as u64);
    text.append(" 个 ");
    text.append(list_debug_text(listening).as_str());
    text.append("\n📊 运行: ");
    push_u64(&mut text, uptime_secs / 3600);
    text.append("h");
    push_u64(&mut text, (uptime_secs % 3600) / 60);
    text.append("m | v");
    proof {
        assert(listening@.len() == crate::text::texts_of(listening@).len());
    }
    text.concat(version)
}

// ---------------------------------------------------------------------------
// Listening
// ---------------------------------------------------------------------------

/// How the command to listen is answered.
pub fn listen_reply(who: &str, reply: &ListenReply) -> (text: String)
    ensures
        text@ == match reply {
            ListenReply::Done(true) => "[ok] 监听已添加: "@ + who@,
            ListenReply::Done(false) => "[warn] 添加失败: "@ + who@,
            ListenReply::Failed(reason) => "[warn] 错误: "@ + reason@,
            ListenReply::Closed => "[warn] actor 响应通道已关闭"@,
            ListenReply::Stopped => "[warn] InputEngine 不可用"@,
        },
{
    match reply {
        ListenReply::Done(added) => if *added {
            "[ok] 监听已添加: ".to_owned().concat(who)
        } else {
            "[warn] 添加失败: ".to_owned().concat(who)
        },
        ListenReply::Failed(reason) => "[warn] 错误: ".to_owned().concat(reason.as_str()),
        ListenReply::Closed => "[warn] actor 响应通道已关闭".to_owned(),
        ListenReply::Stopped => "[warn] InputEngine 不可用".to_owned(),
    }
}

/// How the command to cease listening is answered. The client is only asked whether
/// somebody was listened to, so that it never names a reason.
pub fn unlisten_reply(who: &str, reply: &ListenReply) -> (text: String)
    ensures
        text@ == match reply {
            ListenReply::Done(true) => "[ok] 监听已移除: "@ + who@,
            ListenReply::Done(false) => "[warn] 未找到监听: "@ + who@,
            ListenReply::Failed(_) => "[warn] actor 响应通道已关闭"@,
            ListenReply::Closed => "[warn] actor 响应通道已关闭"@,
            ListenReply::Stopped => "[warn] InputEngine 不可用"@,
        },
{
    match reply {
        ListenReply::Done(removed) => if *removed {
            "[ok] 监听已移除: ".to_owned().concat(who)
        } else {
            "[warn] 未找到监听: ".to_owned().concat(who)
        },
        ListenReply::Failed(_) => "[warn] actor 响应通道已关闭".to_owned(),
        ListenReply::Closed => "[warn] actor 响应通道已关闭".to_owned(),
        ListenReply::Stopped => "[warn] InputEngine 不可用".to_owned(),
    }
}

/// The list with `who` at its end, unless `who` is on it.
pub open spec fn with_name(list: Seq<Seq<char>>, who: Seq<char>) -> Seq<Seq<char>> {
    if list.contains(who) {
        list
    } else {
        list.push(who)
    }
}

/// The list without `who`.
pub open spec fn without_name(list: Seq<Seq<char>>, who: Seq<char>) -> Seq<Seq<char>>
    decreases list.len(),
{
    if list.len() == 0 {
        seq![]
    } else {
        let before = without_name(list.drop_last(), who);
        if list.last() == who {
            before
        } else {
            before.push(list.last())
        }
    }
}

/// The list to be saved once `who` is listened to.
pub fn list_with(list: &Vec<String>, who: &str) -> (saved: Vec<String>)
    ensures
        crate::text::texts_of(saved@) == with_name(crate::text::texts_of(list@), who@),
{
    let mut saved = clone_texts(list);
    if !list_contains(list, who) {
        saved.push(who.to_owned());
        proof {
            assert(crate::text::texts_of(saved@) =~= crate::text::texts_of(list@).push(who@));
        }
    }
    saved
}

/// The list to be saved once `who` is no longer listened to.
pub fn list_without(list: &Vec<String>, who: &str) -> (saved: Vec<String>)
    ensures
        crate::text::texts_of(saved@) == without_name(crate::text::texts_of(list@), who@),
{
    let mut saved: Vec<String> = Vec::new();
    let ghost all = crate::text::texts_of(list@);
    let mut i: usize = 0;
    while i < list.len()
        invariant
            i <= list@.len(),
            all == crate::text::texts_of(list@),
            crate::text::texts_of(saved@) =~= without_name(all.take(i as int), who@),
        decreases list@.len() - i,
    {
        let ghost before = crate::text::texts_of(saved@);
        proof {
            assert(all.take(i + 1).drop_last() =~= all.take(i as int));
            assert(all.take(i + 1).last() == list@[i as int]@);
        }
        if !text_eq(list[i].as_str(), who) {
            saved.push(list[i].clone());
            proof {
                assert(crate::text::texts_of(saved@) =~= before.push(list@[i as int]@));
            }
        }
        i = i + 1;
    }
    proof {
        assert(all.take(all.len() as int) =~= all);
    }
    saved
}

/// What is taken off a list is not on it, and nothing else is missing.
pub proof fn removal_removes(list: Seq<Seq<char>>, who: Seq<char>, other: Seq<char>)
    ensures
        !without_name(list, who).contains(who),
        other != who ==> (without_name(list, who).contains(other) <==> list.contains(other)),
    decreases list.len(),
{
    if list.len() > 0 {
        let rest = list.drop_last();
        removal_removes(rest, who, other);
        let short = without_name(rest, who);
        let result = without_name(list, who);
        assert forall|k: int| 0 <= k < result.len() implies result[k] != who by {
            if k < short.len() {
                assert(short.contains(short[k]));
            }
        }
        if other != who {
            if list.contains(other) {
                let k = choose|k: int| 0 <= k < list.len() && list[k] == other;
                if k < rest.len() {
                    assert(rest[k] == other);
                    assert(rest.contains(other));
                    let n = choose|n: int| 0 <= n < short.len() && short[n] == other;
                    assert(result[n] == other);
                } else {
                    assert(result[result.len() - 1] == other);
                }
            }
            if result.contains(other) {
                let k = choose|k: int| 0 <= k < result.len() && result[k] == other;
                if k < short.len() {
                    assert(short.contains(short[k]));
                    let n = choose|n: int| 0 <= n < rest.len() && rest[n] == other;
                    assert(list[n] == other);
                } else {
                    assert(list[list.len() - 1] == other);
                }
            }
        }
    }
}

/// How the command to send is answered.
pub fn send_reply(reply: &ActorReply) -> (text: String)
    ensures
        text@ == match reply {
            ActorReply::Done { sent: true, verified, message } => "[ok] "@ + message@,
            ActorReply::Done { sent: false, verified, message } => "[warn] "@ + message@,
            ActorReply::Failed(reason) => "[warn] 发送失败: "@ + reason@,
            ActorReply::Stopped => "[warn] InputEngine 不可用"@,
            _ => "[warn] actor 响应通道已关闭"@,
        },
{
    match reply {
        ActorReply::Done { sent, verified: _, message } => if *sent {
            "[ok] ".to_owned().concat(message.as_str())
        } else {
            "[warn] ".to_owned().concat(message.as_str())
        },
        ActorReply::Failed(reason) => "[warn] 发送失败: ".to_owned().concat(reason.as_str()),
        ActorReply::Stopped => "[warn] InputEngine 不可用".to_owned(),
        ActorReply::Closed => "[warn] actor 响应通道已关闭".to_owned(),
        ActorReply::TimedOut => "[warn] actor 响应通道已关闭".to_owned(),
    }
}

// ---------------------------------------------------------------------------
// Reloading the configuration
// ---------------------------------------------------------------------------

/// The names of `list` that are not in `other`, in order.
pub open spec fn names_missing_in(list: Seq<Seq<char>>, other: Seq<Seq<char>>) -> Seq<Seq<char>>
    decreases list.len(),
{
    if list.len() == 0 {
        seq![]
    } else {
        let before = names_missing_in(list.drop_last(), other);
        if other.contains(list.last()) {
            before
        } else {
            before.push(list.last())
        }
    }
}

fn missing_in(list: &Vec<String>, other: &Vec<String>) -> (missing: Vec<String>)
    ensures
        crate::text::texts_of(missing@) == names_missing_in(
            crate::text::texts_of(list@),
            crate::text::texts_of(other@),
        ),
{
    let mut missing: Vec<String> = Vec::new();
    let ghost all = crate::text::texts_of(list@);
    let ghost known = crate::text::texts_of(other@);
    let mut i: usize = 0;
    while i < list.len()
        invariant
            i <= list@.len(),
            all == crate::text::texts_of(list@),
            known == crate::text::texts_of(other@),
            crate::text::texts_of(missing@) =~= names_missing_in(all.take(i as int), known),
        decreases list@.len() - i,
    {
        let ghost before = crate::text::texts_of(missing@);
        proof {
            assert(all.take(i + 1).drop_last() =~= all.take(i as int));
            assert(all.take(i + 1).last() == list@[i as int]@);
        }
        if !list_contains(other, list[i].as_str()) {
            missing.push(list[i].clone());
            proof {
                assert(crate::text::texts_of(missing@) =~= before.push(list@[i as int]@));
            }
        }
        i = i + 1;
    }
    proof {
        assert(all.take(all.len() as int) =~= all);
    }
    missing
}

/// What has to change for a new configuration: the delay, where it is another one, who is
/// no longer listened to, and who is from now on.
#[derive(Debug)]
pub struct ReloadPlan {
    pub old_delay_ms: u64,
    pub new_delay_ms: u64,
    pub to_remove: Vec<String>,
    pub to_add: Vec<String>,
}

/// What has to change for a new configuration.
pub fn plan_reload(
    old_delay_ms: u64,
    new_delay_ms: u64,
    current: &Vec<String>,
    wanted: &Vec<String>,
) -> (plan: ReloadPlan)
    ensures
        plan.old_delay_ms == old_delay_ms,
        plan.new_delay_ms == new_delay_ms,
        crate::text::texts_of(plan.to_remove@) == names_missing_in(
            crate::text::texts_of(current@),
            crate::text::texts_of(wanted@),
        ),
        crate::text::texts_of(plan.to_add@) == names_missing_in(
            crate::text::texts_of(wanted@),
            crate::text::texts_of(current@),
        ),
{
    ReloadPlan {
        old_delay_ms,
        new_delay_ms,
        to_remove: missing_in(current, wanted),
        to_add: missing_in(wanted, current),
    }
}

proof fn lemma_missing(list: Seq<Seq<char>>, other: Seq<Seq<char>>, name: Seq<char>)
    ensures
        names_missing_in(list, other).contains(name) <==> list.contains(name) && !other.contains(
            name,
        ),
    decreases list.len(),
{
    if list.len() > 0 {
        let rest = list.drop_last();
        lemma_missing(rest, other, name);
        let short = names_missing_in(rest, other);
        let result = names_missing_in(list, other);
        if result.contains(name) {
            let k = choose|k: int| 0 <= k < result.len() && result[k] == name;
            if k < short.len() {
                assert(short.contains(short[k]));
                let n = choose|n: int| 0 <= n < rest.len() && rest[n] == name;
                assert(list[n] == name);
            } else {
                assert(list[list.len() - 1] == name);
            }
        }
        if list.contains(name) && !other.contains(name) {
            let k = choose|k: int| 0 <= k < list.len() && list[k] == name;
            if k < rest.len() {
                assert(rest[k] == name);
                assert(short.contains(name));
                let n = choose|n: int| 0 <= n < short.len() && short[n] == name;
                assert(result[n] == name);
            } else {
                assert(result[result.len() - 1] == name);
            }
        }
    }
}

/// Taking away what a plan removes and adding what it adds leads from the current list to
/// the wanted one, and nobody is both removed and added.
pub proof fn reload_reaches_the_wanted_list(
    current: Seq<Seq<char>>,
    wanted: Seq<Seq<char>>,
    name: Seq<char>,
)
    ensures
        ({
            let removed = names_missing_in(current, wanted).contains(name);
            let added = names_missing_in(wanted, current).contains(name);
            &&& wanted.contains(name) <==> (current.contains(name) && !removed) || added
            &&& !(removed && added)
        }),
{
    lemma_missing(current, wanted, name);
    lemma_missing(wanted, current, name);
}

/// What came of beginning to listen to somebody while the configuration was reloaded.
#[derive(Clone, Copy, Debug, PartialEq, Eq, Structural)]
pub enum AddOutcome {
    Added,
    NotAdded,
    /// Nobody took the command.
    NotSent,
}

/// The lines for those who are no longer listened to.
pub open spec fn removal_lines(names: Seq<Seq<char>>) -> Seq<Seq<char>> {
    names.map_values(|who: Seq<char>| "[listen] 移除监听: "@ + who)
}

/// The lines for those who are listened to from now on; there is none where nobody took
/// the command.
pub open spec fn addition_lines(names: Seq<Seq<char>>, outcomes: Seq<AddOutcome>) -> Seq<Seq<char>>
    decreases names.len(),
{
    if names.len() == 0 {
        seq![]
    } else {
        let before = addition_lines(names.drop_last(), outcomes);
        match outcomes[names.len() - 1] {
            AddOutcome::Added => before.push("[ok] 添加监听: "@ + names.last()),
            AddOutcome::NotAdded => before.push("[warn] 添加失败: "@ + names.last()),
            AddOutcome::NotSent => before,
        }
    }
}

/// The line for a new delay.
pub open spec fn delay_lines(old_delay_ms: u64, new_delay_ms: u64) -> Seq<Seq<char>> {
    if old_delay_ms == new_delay_ms {
        seq![]
    } else {
        seq![
            "[config] at_delay_ms: "@ + crate::number::digits(old_delay_ms as nat) + " → "@
                + crate::number::digits(new_delay_ms as nat),
        ]
    }
}

/// The lines, with a line break between each two.
pub open spec fn joined_lines(lines: Seq<Seq<char>>) -> Seq<char>
    decreases lines.len(),
{
    if lines.len() == 0 {
        seq![]
    } else if lines.len() == 1 {
        lines[0]
    } else {
        joined_lines(lines.drop_last()) + "\n"@ + lines.last()
    }
}

fn join_lines(lines: &Vec<String>) -> (text: String)
    ensures
        text@ == joined_lines(crate::text::texts_of(lines@)),
{
    let ghost all = crate::text::texts_of(lines@);
    let mut text = String::new();
    let mut i: usize = 0;
    proof {
        assert(text@ =~= Seq::<char>::empty());
    }
    while i < lines.len()
        invariant
            i <= lines@.len(),
            all == crate::text::texts_of(lines@),
            text@ == joined_lines(all.take(i as int)),
        decreases lines@.len() - i,
    {
        proof {
            assert(all.take(i + 1).drop_last() =~= all.take(i as int));
            assert(all.take(i + 1).last() == lines@[i as int]@);
        }
        if i > 0 {
            text.append("\n");
        }
        let ghost before = text@;
        text.append(lines[i].as_str());
        proof {
            if i == 0 {
                assert(text@ =~= lines@[0]@);
                assert(all.take(1)[0] == lines@[0]@);
            }
        }
        i = i + 1;
    }
    proof {
        assert(all.take(all.len() as int) =~= all);
    }
    text
}

/// What the reload command tells once it is through: what was changed, or that nothing was.
pub open spec fn reload_text(lines: Seq<Seq<char>>) -> Seq<char> {
    if lines.len() == 0 {
        "[config] 配置已重载 (无变化)"@
    } else {
        joined_lines(lines.push("[config] 配置已重载"@))
    }
}

fn push_removals(lines: &mut Vec<String>, names: &Vec<String>)
    ensures
        crate::text::texts_of(final(lines)@) == crate::text::texts_of(old(lines)@) + removal_lines(
            crate::text::texts_of(names@),
        ),
{
    let ghost start = crate::text::texts_of(lines@);
    let ghost all = crate::text::texts_of(names@);
    let mut i: usize = 0;
    proof {
        assert(start + removal_lines(all.take(0)) =~= start);
    }
    while i < names.len()
        invariant
            i <= names@.len(),
            all == crate::text::texts_of(names@),
            crate::text::texts_of(lines@) =~= start + removal_lines(all.take(i as int)),
        decreases names@.len() - i,
    {
        let ghost before = crate::text::texts_of(lines@);
        let line = "[listen] 移除监听: ".to_owned().concat(names[i].as_str());
        let ghost view = line@;
        lines.push(line);
        proof {
            assert(crate::text::texts_of(lines@) =~= before.push(view));
            assert(removal_lines(all.take(i + 1)) =~= removal_lines(all.take(i as int)).push(view));
        }
        i = i + 1;
    }
    proof {
        assert(all.take(all.len() as int) =~= all);
    }
}

fn push_additions(lines: &mut Vec<String>, names: &Vec<String>, outcomes: &Vec<AddOutcome>)
    requires
        names@.len() == outcomes@.len(),
    ensures
        crate::text::texts_of(final(lines)@) == crate::text::texts_of(old(lines)@) + addition_lines(
            crate::text::texts_of(names@),
            outcomes@,
        ),
{
    let ghost start = crate::text::texts_of(lines@);
    let ghost all = crate::text::texts_of(names@);
    let mut i: usize = 0;
    proof {
        assert(start + addition_lines(all.take(0), outcomes@) =~= start);
    }
    while i < names.len()
        invariant
            i <= names@.len(),
            names@.len() == outcomes@.len(),
            all == crate::text::texts_of(names@),
            crate::text::texts_of(lines@) =~= start + addition_lines(all.take(i as int), outcomes@),
        decreases names@.len() - i,
    {
        let ghost before = crate::text::texts_of(lines@);
        proof {
            assert(all.take(i + 1).drop_last() =~= all.take(i as int));
            assert(all.take(i + 1).last() == names@[i as int]@);
        }
        match outcomes[i] {
            AddOutcome::Added => {
                let line = "[ok] 添加监听: ".to_owned().concat(names[i].as_str());
                let ghost view = line@;
                lines.push(line);
                proof {
                    assert(crate::text::texts_of(lines@) =~= before.push(view));
                }
            },
            AddOutcome::NotAdded => {
                let line = "[warn] 添加失败: ".to_owned().concat(names[i].as_str());
                let ghost view = line@;
                lines.push(line);
                proof {
                    assert(crate::text::texts_of(lines@) =~= before.push(view));
                }
            },
            AddOutcome::NotSent => {},
        }
        i = i + 1;
    }
    proof {
        assert(all.take(all.len() as int) =~= all);
    }
}

/// What the reload command tells once it is through; `outcomes` says for each name that
/// was to be added what came of it.
pub fn reload_reply(plan: &ReloadPlan, outcomes: &Vec<AddOutcome>) -> (text: String)
    requires
        outcomes@.len() == plan.to_add@.len(),
    ensures
        text@ == reload_text(
            delay_lines(plan.old_delay_ms, plan.new_delay_ms) + removal_lines(
                crate::text::texts_of(plan.to_remove@),
            ) + addition_lines(crate::text::texts_of(plan.to_add@), outcomes@),
        ),
{
    let mut lines: Vec<String> = Vec::new();
    if plan.old_delay_ms != plan.new_delay_ms {
        let mut line = "[config] at_delay_ms: ".to_owned();
        push_u64(&mut line, plan.old_delay_ms);
        line.append(" → ");
        push_u64(&mut line, plan.new_delay_ms);
        lines.push(line);
    }
    proof {
        assert(crate::text::texts_of(lines@) =~= delay_lines(plan.old_delay_ms, plan.new_delay_ms));
    }
    push_removals(&mut lines, &plan.to_remove);
    push_additions(&mut lines, &plan.to_add, outcomes);
    let ghost all = crate::text::texts_of(lines@);
    if lines.len() == 0 {
        return "[config] 配置已重载 (无变化)".to_owned();
    }
    lines.push("[config] 配置已重载".to_owned());
    proof {
        assert(crate::text::texts_of(lines@) =~= all.push("[config] 配置已重载"@));
    }
    join_lines(&lines)
}

// ---------------------------------------------------------------------------
// Laws of commands
// ---------------------------------------------------------------------------

proof fn lemma_other_words(line: Seq<char>)
    requires
        line.len() > 0,
        line[0] == 'l' || line[0] == 'u' || (line.len() > 2 && line[0] == 's' && line[1] == 'e'),
    ensures
        line != "status"@,
        line != "atmode"@,
        line != "reload"@,
        line[0] != 'l' ==> !crate::text::has_prefix(line, "listen "@),
        line[0] != 'u' ==> !crate::text::has_prefix(line, "unlisten "@),
{
    reveal_strlit("status");
    reveal_strlit("atmode");
    reveal_strlit("reload");
    reveal_strlit("listen ");
    reveal_strlit("unlisten ");
    if line == "status"@ {
        assert(line[1] == 't');
    }
    if crate::text::has_prefix(line, "listen "@) {
        assert(line.subrange(0, 7)[0] == 'l');
    }
    if crate::text::has_prefix(line, "unlisten "@) {
        assert(line.subrange(0, 9)[0] == 'u');
    }
}

/// The commands mean what they say: to listen or to cease listening to whoever is named,
/// with spaces in the name or not; to send to the first word whatever follows on it. A
/// command without what it needs is told how it is used.
pub proof fn commands_mean_what_they_say(who: Seq<char>, to: Seq<char>, text: Seq<char>)
    requires
        who.len() > 0,
        !crate::text::white_space(who[0]),
        !crate::text::white_space(who.last()),
        to.len() > 0,
        !crate::text::white_space(to[0]),
        !crate::text::white_space(to.last()),
        !to.contains(' '),
        text.len() > 0,
        !crate::text::white_space(text[0]),
        !crate::text::white_space(text.last()),
    ensures
        command_of("listen "@ + who) == CommandView::Listen(who),
        command_of("unlisten "@ + who) == CommandView::Unlisten(who),
        command_of("send "@ + to + seq![' '] + text) == (CommandView::Send { to, text }),
        command_of("send "@ + to) is Usage,
        command_of("status"@) is Status,
        command_of("atmode"@) is AtMode,
        command_of("reload"@) is Reload,
{
    reveal_strlit("listen ");
    reveal_strlit("unlisten ");
    reveal_strlit("send ");
    reveal_strlit("status");
    reveal_strlit("atmode");
    reveal_strlit("reload");
    lemma_trimmed_stays(who);
    lemma_trimmed_stays(to);
    lemma_trimmed_stays(text);
    let a = "listen "@ + who;
    assert(a[0] == 'l');
    lemma_other_words(a);
    assert(a.subrange(0, 7) =~= "listen "@);
    assert(a.skip(7) =~= who);
    let b = "unlisten "@ + who;
    assert(b[0] == 'u');
    lemma_other_words(b);
    assert(b.subrange(0, 9) =~= "unlisten "@);
    assert(b.skip(9) =~= who);
    let rest = to + seq![' '] + text;
    assert(rest[0] == to[0]);
    assert(rest.last() == text.last());
    lemma_trimmed_stays(rest);
    crate::text::parts_are_split_apart(to, text, ' ');
    let c = "send "@ + to + seq![' '] + text;
    assert(c[0] == 's' && c[1] == 'e');
    lemma_other_words(c);
    assert(c.subrange(0, 5) =~= "send "@);
    assert(c.skip(5) =~= rest);
    let d = "send "@ + to;
    assert(d[0] == 's' && d[1] == 'e');
    lemma_other_words(d);
    assert(d.subrange(0, 5) =~= "send "@);
    assert(d.skip(5) =~= to);
    assert("status"@[0] == 's');
    assert("atmode"@[0] == 'a');
    assert("reload"@[0] == 'r');
}

proof fn lemma_trimmed_stays(text: Seq<char>)
    requires
        text.len() > 0,
        !crate::text::white_space(text[0]),
        !crate::text::white_space(text.last()),
    ensures
        crate::text::trimmed(text) == text,
{
    assert(crate::text::trim_front(text) == text);
    assert(crate::text::trim_back(text) == text);
}

/// A line that is none of the commands is handed back as it is.
pub proof fn other_lines_are_no_commands(line: Seq<char>)
    ensures
        command_of(line) is Unknown ==> command_of(line) == CommandView::Unknown(line),
        !crate::text::has_prefix(line, "listen "@) && !crate::text::has_prefix(line, "unlisten "@)
            && !crate::text::has_prefix(line, "send "@) && line != "status"@ && line != "atmode"@
            && line != "reload"@ ==> command_of(line) == CommandView::Unknown(line),
        command_of(line) is Listen ==> crate::text::has_prefix(line, "listen "@)
            && command_of(line)->Listen_0.len() > 0,
        command_of(line) is Unlisten ==> crate::text::has_prefix(line, "unlisten "@)
            && command_of(line)->Unlisten_0.len() > 0,
        command_of(line) is Send ==> crate::text::has_prefix(line, "send "@),
{
}

/// Who is put on a list is on it: the list stays as it is where the
/// name is on it, and gets it at its end where it is not; nobody else is affected.
pub proof fn additions_add(list: Seq<Seq<char>>, who: Seq<char>, other: Seq<char>)
    ensures
        with_name(list, who).contains(who),
        list.contains(who) ==> with_name(list, who) == list,
        !list.contains(who) ==> with_name(list, who).len() == list.len() + 1 && with_name(
            list,
            who,
        ).last() == who && with_name(list, who).drop_last() == list,
        other != who ==> (with_name(list, who).contains(other) <==> list.contains(other)),
{
    let with = with_name(list, who);
    if !list.contains(who) {
        assert(with[list.len() as int] == who);
        assert(with.drop_last() =~= list);
    }
    if list.contains(other) {
        let k = choose|k: int| 0 <= k < list.len() && list[k] == other;
        assert(with[k] == other);
    }
    if with.contains(other) && other != who {
        let k = choose|k: int| 0 <= k < with.len() && with[k] == other;
        assert(list[k] == other);
    }
}

/// A list on which a name does not stand is not changed by taking the name off, and what
/// was put at the end is taken off again.
pub proof fn removals_undo_additions(list: Seq<Seq<char>>, who: Seq<char>)
    requires
        !list.contains(who),
    ensures
        without_name(list, who) == list,
        without_name(with_name(list, who), who) == list,
    decreases list.len(),
{
    if list.len() > 0 {
        let rest = list.drop_last();
        assert(!rest.contains(who)) by {
            if rest.contains(who) {
                let k = choose|k: int| 0 <= k < rest.len() && rest[k] == who;
                assert(list[k] == who);
            }
        }
        removals_undo_additions(rest, who);
        assert(list[list.len() - 1] != who);
        assert(without_name(list, who) =~= list);
    }
    assert(list.push(who).drop_last() =~= list);
}

/// A reload tells of each name that was added, or could not be, in order, and of each that
/// was removed; an addition that was not asked for is not told. Where nothing changed it
/// says so.
pub proof fn reloads_tell_what_changed(
    names: Seq<Seq<char>>,
    who: Seq<char>,
    outcomes: Seq<AddOutcome>,
    outcome: AddOutcome,
    old_delay_ms: u64,
    new_delay_ms: u64,
)
    requires
        outcomes.len() == names.len(),
    ensures
        ({
            let before = addition_lines(names, outcomes);
            let after = addition_lines(names.push(who), outcomes.push(outcome));
            &&& outcome == AddOutcome::Added ==> after == before.push("[ok] 添加监听: "@ + who)
            &&& outcome == AddOutcome::NotAdded ==> after == before.push(
                "[warn] 添加失败: "@ + who,
            )
            &&& outcome == AddOutcome::NotSent ==> after == before
        }),
        removal_lines(names).len() == names.len(),
        forall|k: int|
            0 <= k < names.len() ==> #[trigger] removal_lines(names)[k] == "[listen] 移除监听: "@
                + names[k],
        delay_lines(old_delay_ms, new_delay_ms).len() == 0 <==> old_delay_ms == new_delay_ms,
{
    lemma_outcomes_behind(names, outcomes, outcome);
    assert(names.push(who).drop_last() =~= names);
}

proof fn lemma_outcomes_behind(
    names: Seq<Seq<char>>,
    outcomes: Seq<AddOutcome>,
    outcome: AddOutcome,
)
    requires
        names.len() <= outcomes.len(),
    ensures
        addition_lines(names, outcomes.push(outcome)) == addition_lines(names, outcomes),
    decreases names.len(),
{
    if names.len() > 0 {
        lemma_outcomes_behind(names.drop_last(), outcomes, outcome);
    }
}

/// Lines are put together with one line break between each two, and none at the ends.
pub proof fn lines_are_put_together(lines: Seq<Seq<char>>, line: Seq<char>)
    ensures
        joined_lines(seq![line]) == line,
        lines.len() > 0 ==> joined_lines(lines.push(line)) == joined_lines(lines) + seq!['\n']
            + line,
        lines.len() > 0 ==> reload_text(lines) == joined_lines(lines) + seq!['\n']
            + "[config] 配置已重载"@,
        reload_text(seq![]) == "[config] 配置已重载 (无变化)"@,
{
    reveal_strlit("\n");
    assert("\n"@ =~= seq!['\n']);
    assert(lines.push(line).drop_last() =~= lines);
    let done = "[config] 配置已重载"@;
    assert(lines.push(done).drop_last() =~= lines);
}

/// The status line begins with the client's status and ends with how long the program has
/// been running, in whole hours and the minutes that are left over, and the version.
pub proof fn the_status_tells_the_time(
    status: Seq<char>,
    db_available: bool,
    contacts: nat,
    listening: Seq<Seq<char>>,
    hours: nat,
    minutes: nat,
    seconds: nat,
    version: Seq<char>,
)
    requires
        minutes < 60,
        seconds < 60,
    ensures
        ({
            let uptime = hours * 3600 + minutes * 60 + seconds;
            let text = status_text(status, db_available, contacts, listening, uptime, version);
            &&& crate::text::has_suffix(
                text,
                crate::number::digits(hours) + "h"@ + crate::number::digits(minutes) + "m | v"@
                    + version,
            )
            &&& crate::text::has_prefix(text, "📊 微信: "@ + status)
        }),
{
    let uptime = hours * 3600 + minutes * 60 + seconds;
    assert(uptime / 3600 == hours);
    assert((uptime % 3600) / 60 == minutes);
    let text = status_text(status, db_available, contacts, listening, uptime, version);
    let head = "📊 微信: "@ + status;
    let tail = crate::number::digits(hours) + "h"@ + crate::number::digits(minutes) + "m | v"@
        + version;
    assert(text.subrange(text.len() - tail.len(), text.len() as int) =~= tail);
    assert(text.subrange(0, head.len() as int) =~= head);
    assert(text.take(head.len() as int) =~= head);
}

} // verus!
