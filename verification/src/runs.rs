//! Whole runs of what is done in the client: what has to have happened before something is
//! done, and how a run ends. A run is given by the outcomes of its actions, the first of
//! which is what is known at the beginning.

use vstd::prelude::*;

use crate::flow::{
    ChatAction, ChatStage, FlowError, ListenAction, ListenStage, Outcome, SendAction, SendStage,
};
use crate::send::Payload;

verus! {

// ---------------------------------------------------------------------------
// Sending
// ---------------------------------------------------------------------------

/// What is sent, to whom, and what is known of the client at the beginning.
pub struct SendJob {
    pub payload: Payload,
    pub skip_verify: bool,
    pub to: Seq<char>,
    pub start: crate::wechat::WeChatView,
}

/// Where a run of sending is: the action that was chosen last, and what is known then.
pub struct SendPoint {
    pub stage: SendStage,
    pub action: SendAction,
    pub state: crate::wechat::WeChatView,
}

/// Where a run of sending is after the outcomes.
pub open spec fn send_run(job: SendJob, outs: Seq<Outcome>) -> SendPoint
    decreases outs.len(),
{
    if outs.len() <= 1 {
        let next = crate::flow::send_next(
            job.payload,
            job.skip_verify,
            SendStage::Begin,
            outs[0],
            job.to,
            job.start.windows,
        );
        SendPoint {
            stage: next.0,
            action: next.1,
            state: crate::flow::send_state(
                job.payload,
                SendStage::Begin,
                outs[0],
                job.to,
                job.start,
            ),
        }
    } else {
        let before = send_run(job, outs.drop_last());
        let next = crate::flow::send_next(
            job.payload,
            job.skip_verify,
            before.stage,
            outs.last(),
            job.to,
            before.state.windows,
        );
        SendPoint {
            stage: next.0,
            action: next.1,
            state: crate::flow::send_state(
                job.payload,
                before.stage,
                outs.last(),
                job.to,
                before.state,
            ),
        }
    }
}

/// Whether the action before outcome `k` was `action`, and succeeded.
pub open spec fn did_at(job: SendJob, outs: Seq<Outcome>, k: int, action: SendAction) -> bool {
    1 <= k < outs.len() && send_run(job, outs.take(k)).action == action && outs[k].done
}

/// Whether an action was carried out with success.
pub open spec fn did(job: SendJob, outs: Seq<Outcome>, action: SendAction) -> bool {
    exists|k: int| #[trigger] did_at(job, outs, k, action)
}

/// Whether outcome `k` tells that the chat was switched to and exists.
pub open spec fn opened_at(job: SendJob, outs: Seq<Outcome>, k: int) -> bool {
    did_at(job, outs, k, SendAction::SwitchChat) && outs[k].opened
}

/// Whether the chat was switched to and exists.
pub open spec fn chat_opened(job: SendJob, outs: Seq<Outcome>) -> bool {
    exists|k: int| #[trigger] opened_at(job, outs, k)
}

/// Whether outcome `k` tells where the button for files stands.
pub open spec fn button_at(job: SendJob, outs: Seq<Outcome>, k: int) -> bool {
    &&& 1 <= k < outs.len()
    &&& send_run(job, outs.take(k)).action == SendAction::FindButton
    &&& outs[k].place is Some
}

/// Whether the button for files was found and clicked.
pub open spec fn button_clicked(job: SendJob, outs: Seq<Outcome>) -> bool {
    exists|k: int| #[trigger]
        button_at(job, outs, k) && did(
            job,
            outs,
            SendAction::Click((outs[k].place->0).0, (outs[k].place->0).1),
        )
}

proof fn lemma_did_before(job: SendJob, outs: Seq<Outcome>, action: SendAction)
    requires
        outs.len() > 1,
        did(job, outs.drop_last(), action),
    ensures
        did(job, outs, action),
{
    let k = choose|k: int| #[trigger] did_at(job, outs.drop_last(), k, action);
    assert(outs.drop_last().take(k) =~= outs.take(k));
    assert(did_at(job, outs, k, action));
}

proof fn lemma_did_now(job: SendJob, outs: Seq<Outcome>)
    requires
        outs.len() > 1,
        outs.last().done,
    ensures
        did(job, outs, send_run(job, outs.drop_last()).action),
{
    let k = outs.len() - 1;
    assert(outs.take(k) =~= outs.drop_last());
    assert(did_at(job, outs, k, send_run(job, outs.drop_last()).action));
}

proof fn lemma_opened_before(job: SendJob, outs: Seq<Outcome>)
    requires
        outs.len() > 1,
        chat_opened(job, outs.drop_last()),
    ensures
        chat_opened(job, outs),
{
    let k = choose|k: int| #[trigger] opened_at(job, outs.drop_last(), k);
    assert(outs.drop_last().take(k) =~= outs.take(k));
    assert(opened_at(job, outs, k));
}

/// What a run has done so far.
pub struct SendFacts {
    pub alive: bool,
    pub activated: bool,
    pub mentioned: bool,
    pub app: bool,
    pub opened: bool,
    pub aimed: bool,
    pub clicked: bool,
    pub pasted: bool,
    pub entered: bool,
    pub verified: bool,
}

/// Whether the action is a click on a button that was found.
pub open spec fn aimed(job: SendJob, outs: Seq<Outcome>, action: SendAction) -> bool {
    exists|k: int| #[trigger]
        button_at(job, outs, k) && action == SendAction::Click(
            (outs[k].place->0).0,
            (outs[k].place->0).1,
        )
}

spec fn send_facts(job: SendJob, outs: Seq<Outcome>) -> SendFacts {
    SendFacts {
        alive: did(job, outs, SendAction::CheckAlive),
        activated: did(job, outs, SendAction::ActivateWindow),
        mentioned: did(job, outs, SendAction::TypeMentions),
        app: did(job, outs, SendAction::FindApp),
        opened: chat_opened(job, outs),
        aimed: aimed(job, outs, send_run(job, outs).action),
        clicked: button_clicked(job, outs),
        pasted: did(job, outs, SendAction::Paste),
        entered: did(job, outs, SendAction::Enter),
        verified: did(job, outs, SendAction::Verify),
    }
}

/// What holds at each stage of a run.
spec fn reached(job: SendJob, at: SendPoint, facts: SendFacts) -> bool {
    let text = job.payload == Payload::Text;
    let by_window = job.payload != Payload::File && job.start.windows.contains(job.to);
    match at.stage {
        SendStage::Begin => false,
        SendStage::CheckingWindow => at.action == SendAction::CheckAlive && by_window,
        SendStage::Activating => at.action == SendAction::ActivateWindow && text && by_window
            && facts.alive,
        SendStage::MentioningInWindow => at.action == SendAction::TypeMentions && text && by_window
            && facts.alive && facts.activated,
        SendStage::SendingInWindow => at.action == SendAction::SendInWindow && by_window
            && facts.alive && (text ==> facts.activated && facts.mentioned),
        SendStage::Switching => at.action == SendAction::SwitchChat,
        SendStage::PausingAfterSwitch => at.action is Sleep && facts.opened,
        SendStage::FindingApp => at.action == SendAction::FindApp && job.payload != Payload::Image
            && facts.opened,
        SendStage::Mentioning => at.action == SendAction::TypeMentions && text && facts.opened
            && facts.app,
        SendStage::Locating => at.action == SendAction::FindButton && job.payload == Payload::File
            && facts.opened && facts.app,
        SendStage::ClickingButton => at.action is Click && job.payload == Payload::File
            && facts.opened && facts.aimed,
        SendStage::PausingAfterClick => at.action is Sleep && job.payload == Payload::File
            && facts.opened && facts.clicked,
        SendStage::Pasting => at.action == SendAction::Paste && facts.opened && (text
            ==> facts.mentioned) && (job.payload == Payload::File ==> facts.clicked),
        SendStage::PausingAfterPaste => at.action is Sleep && facts.opened && facts.pasted,
        SendStage::Entering => at.action == SendAction::Enter && facts.opened && facts.pasted,
        SendStage::PausingAfterEnter => at.action is Sleep && facts.opened && facts.entered
            && job.payload != Payload::Image,
        SendStage::Verifying => at.action == SendAction::Verify && text && !job.skip_verify
            && facts.opened && facts.entered,
        SendStage::Finished => match at.action {
            SendAction::Relay => facts.alive && job.payload != Payload::File,
            SendAction::ChatNotFound => true,
            SendAction::Sent(seen) => facts.opened && facts.entered && (seen ==> text
                && !job.skip_verify && facts.verified),
            SendAction::Fail(_) => true,
            _ => false,
        },
    }
}

proof fn lemma_reached_next(
    job: SendJob,
    before: SendPoint,
    last: Outcome,
    now: SendPoint,
    f: SendFacts,
    g: SendFacts,
)
    requires
        before.stage != SendStage::Finished,
        reached(job, before, f),
        f.alive ==> g.alive,
        f.activated ==> g.activated,
        f.mentioned ==> g.mentioned,
        f.app ==> g.app,
        f.opened ==> g.opened,
        f.clicked ==> g.clicked,
        f.pasted ==> g.pasted,
        f.entered ==> g.entered,
        before.action == SendAction::CheckAlive && last.done ==> g.alive,
        before.action == SendAction::ActivateWindow && last.done ==> g.activated,
        before.action == SendAction::TypeMentions && last.done ==> g.mentioned,
        before.action == SendAction::FindApp && last.done ==> g.app,
        before.action == SendAction::SwitchChat && last.done && last.opened ==> g.opened,
        before.action is Click && f.aimed && last.done ==> g.clicked,
        before.action == SendAction::Paste && last.done ==> g.pasted,
        before.action == SendAction::Enter && last.done ==> g.entered,
        before.action == SendAction::Verify && last.done ==> g.verified,
        before.action == SendAction::FindButton && last.place is Some && now.action
            == SendAction::Click((last.place->0).0, (last.place->0).1) ==> g.aimed,
        (now.stage, now.action) == crate::flow::send_next(
            job.payload,
            job.skip_verify,
            before.stage,
            last,
            job.to,
            before.state.windows,
        ),
    ensures
        reached(job, now, g),
{
}

proof fn lemma_button_before(job: SendJob, outs: Seq<Outcome>)
    requires
        outs.len() > 1,
    ensures
        button_clicked(job, outs.drop_last()) ==> button_clicked(job, outs),
{
    if button_clicked(job, outs.drop_last()) {
        let rest = outs.drop_last();
        let k = choose|k: int| #[trigger]
            button_at(job, rest, k) && did(
                job,
                rest,
                SendAction::Click((rest[k].place->0).0, (rest[k].place->0).1),
            );
        assert(rest.take(k) =~= outs.take(k));
        lemma_did_before(
            job,
            outs,
            SendAction::Click((outs[k].place->0).0, (outs[k].place->0).1),
        );
        assert(button_at(job, outs, k));
    }
}

proof fn lemma_did_stays(job: SendJob, outs: Seq<Outcome>, action: SendAction)
    requires
        outs.len() > 1,
    ensures
        did(job, outs.drop_last(), action) ==> did(job, outs, action),
        send_run(job, outs.drop_last()).action == action && outs.last().done ==> did(
            job,
            outs,
            action,
        ),
{
    if did(job, outs.drop_last(), action) {
        lemma_did_before(job, outs, action);
    }
    if outs.last().done {
        lemma_did_now(job, outs);
    }
}

proof fn lemma_opened_stays(job: SendJob, outs: Seq<Outcome>)
    requires
        outs.len() > 1,
    ensures
        chat_opened(job, outs.drop_last()) ==> chat_opened(job, outs),
        send_run(job, outs.drop_last()).action == SendAction::SwitchChat && outs.last().done
            && outs.last().opened ==> chat_opened(job, outs),
{
    if chat_opened(job, outs.drop_last()) {
        lemma_opened_before(job, outs);
    }
    let k = outs.len() - 1;
    assert(outs.take(k) =~= outs.drop_last());
    if send_run(job, outs.drop_last()).action == SendAction::SwitchChat && outs.last().done
        && outs.last().opened {
        assert(opened_at(job, outs, k));
    }
}

proof fn lemma_button_stays(job: SendJob, outs: Seq<Outcome>)
    requires
        outs.len() > 1,
    ensures
        ({
            let before = send_run(job, outs.drop_last()).action;
            let last = outs.last();
            &&& button_clicked(job, outs.drop_last()) ==> button_clicked(job, outs)
            &&& before is Click && aimed(job, outs.drop_last(), before) && last.done
                ==> button_clicked(job, outs)
            &&& before == SendAction::FindButton && last.place is Some ==> aimed(
                job,
                outs,
                SendAction::Click((last.place->0).0, (last.place->0).1),
            )
        }),
{
    let rest = outs.drop_last();
    let before = send_run(job, rest).action;
    let last = outs.last();
    let k = outs.len() - 1;
    lemma_button_before(job, outs);
    assert(outs.take(k) =~= rest);
    if before is Click && aimed(job, rest, before) && last.done {
        let j = choose|j: int| #[trigger]
            button_at(job, rest, j) && before == SendAction::Click(
                (rest[j].place->0).0,
                (rest[j].place->0).1,
            );
        assert(rest.take(j) =~= outs.take(j));
        assert(button_at(job, outs, j));
        lemma_did_now(job, outs);
    }
    if before == SendAction::FindButton && last.place is Some {
        assert(button_at(job, outs, k));
    }
}

proof fn lemma_reached(job: SendJob, outs: Seq<Outcome>)
    requires
        is_send_run(job, outs),
    ensures
        reached(job, send_run(job, outs), send_facts(job, outs)),
        outs.len() > 1 ==> {
            &&& is_send_run(job, outs.drop_last())
            &&& send_run(job, outs.drop_last()).stage != SendStage::Finished
            &&& reached(
                job,
                send_run(job, outs.drop_last()),
                send_facts(job, outs.drop_last()),
            )
        },
    decreases outs.len(),
{
    if outs.len() > 1 {
        let rest = outs.drop_last();
        assert(rest =~= outs.take(outs.len() - 1));
        assert forall|k: int| 1 <= k < rest.len() implies send_run(
            job,
            #[trigger] rest.take(k),
        ).stage != SendStage::Finished by {
            assert(rest.take(k) =~= outs.take(k));
        }
        lemma_reached(job, rest);
        lemma_did_stays(job, outs, SendAction::CheckAlive);
        lemma_did_stays(job, outs, SendAction::ActivateWindow);
        lemma_did_stays(job, outs, SendAction::TypeMentions);
        lemma_did_stays(job, outs, SendAction::FindApp);
        lemma_did_stays(job, outs, SendAction::Paste);
        lemma_did_stays(job, outs, SendAction::Enter);
        lemma_did_stays(job, outs, SendAction::Verify);
        lemma_opened_stays(job, outs);
        lemma_button_stays(job, outs);
        lemma_reached_next(
            job,
            send_run(job, rest),
            outs.last(),
            send_run(job, outs),
            send_facts(job, rest),
            send_facts(job, outs),
        );
    }
}

/// A run whose actions were carried out one after the other, none after its end.
pub open spec fn is_send_run(job: SendJob, outs: Seq<Outcome>) -> bool {
    &&& outs.len() >= 1
    &&& forall|k: int|
        1 <= k < outs.len() ==> send_run(job, #[trigger] outs.take(k)).stage != SendStage::Finished
}

/// Nothing is pasted, entered or told to be sent in the main window before the client said
/// that the chat was switched to and exists. A text is pasted after its mentions were
/// typed, a file after the button for files was found and clicked; the return key comes
/// after pasting, and only after the return key something counts as sent. It counts as seen
/// only where it is a text that was to be looked for and was found. A chat window sends
/// only what is no file, where it was known and found alive, and a text after its mentions.
pub proof fn sending_keeps_its_order(job: SendJob, outs: Seq<Outcome>)
    requires
        is_send_run(job, outs),
    ensures
        ({
            let action = send_run(job, outs).action;
            &&& action == SendAction::Paste ==> chat_opened(job, outs) && (job.payload
                == Payload::Text ==> did(job, outs, SendAction::TypeMentions)) && (job.payload
                == Payload::File ==> button_clicked(job, outs))
            &&& action == SendAction::Enter ==> chat_opened(job, outs) && did(
                job,
                outs,
                SendAction::Paste,
            )
            &&& action is Sent ==> chat_opened(job, outs) && did(job, outs, SendAction::Enter)
            &&& action == SendAction::Sent(true) ==> job.payload == Payload::Text
                && !job.skip_verify && did(job, outs, SendAction::Verify)
            &&& action == SendAction::SendInWindow ==> job.payload != Payload::File
                && job.start.windows.contains(job.to) && did(job, outs, SendAction::CheckAlive) && (
            job.payload == Payload::Text ==> did(job, outs, SendAction::ActivateWindow) && did(
                job,
                outs,
                SendAction::TypeMentions,
            ))
            &&& action == SendAction::Relay ==> did(job, outs, SendAction::CheckAlive)
            &&& action == SendAction::ChatNotFound ==> outs.len() > 1 && outs.last().done
                && !outs.last().opened && send_run(job, outs.drop_last()).action
                == SendAction::SwitchChat
        }),
{
    lemma_reached(job, outs);
}

/// How sending answers to what came of an action: a chat that does not exist ends it with
/// that answer, whatever is sent; keys, clicks or a switch that could not be carried out
/// end it with their own error; a client or a button that is not found with theirs; a chat
/// window that is gone is forgotten, and the main window is used; a look at the screen
/// decides what is told; and anything that succeeded goes on.
pub proof fn sending_answers_to_outcomes(job: SendJob, outs: Seq<Outcome>)
    requires
        is_send_run(job, outs),
        outs.len() > 1,
    ensures
        ({
            let before = send_run(job, outs.drop_last());
            let now = send_run(job, outs);
            let last = outs.last();
            let passed = SendAction::Fail(FlowError::Passed);
            &&& before.action == SendAction::SwitchChat ==> if !last.done {
                now.action == passed
            } else if !last.opened {
                now.action == SendAction::ChatNotFound && now.stage == SendStage::Finished
            } else {
                now.action is Sleep && now.stage != SendStage::Finished
            }
            &&& (before.action is ActivateWindow || before.action is TypeMentions
                || before.action is Click || before.action is Paste || before.action is Enter)
                && !last.done ==> now.action == passed
            &&& before.action == SendAction::FindApp && !last.done ==> now.action
                == SendAction::Fail(FlowError::NoApp)
            &&& before.action == SendAction::FindButton ==> match last.place {
                Some(place) => now.action == SendAction::Click(place.0, place.1),
                None => now.action == SendAction::Fail(FlowError::NoButton),
            }
            &&& before.action == SendAction::CheckAlive && !last.done ==> now.action
                == SendAction::SwitchChat && !now.state.windows.contains(job.to)
                && now.state.current_chat is None
            &&& before.action == SendAction::Verify ==> now.action == SendAction::Sent(last.done)
            &&& before.action == SendAction::SendInWindow ==> now.action == SendAction::Relay
            &&& (now.action is Fail || now.action is ChatNotFound) ==> !(last.done && last.opened
                && last.place is Some)
        }),
{
    let rest = outs.drop_last();
    lemma_reached(job, outs);
    if send_run(job, rest).action == SendAction::CheckAlive {
        crate::command::removal_removes(send_run(job, rest).state.windows, job.to, job.to);
    }
}

/// Where everything succeeds, what is sent is told to be sent: by the chat window where one
/// is known and it is no file, else by the main window; and a text that is to be looked for
/// counts as seen, and nothing else does.
pub proof fn sending_succeeds(job: SendJob, outs: Seq<Outcome>)
    requires
        is_send_run(job, outs),
        forall|k: int|
            0 <= k < outs.len() ==> (#[trigger] outs[k]).done && outs[k].opened && outs[k].place
                is Some,
        send_run(job, outs).stage == SendStage::Finished,
    ensures
        send_run(job, outs).action == if job.payload != Payload::File && job.start.windows.contains(
            job.to,
        ) {
            SendAction::Relay
        } else {
            SendAction::Sent(job.payload == Payload::Text && !job.skip_verify)
        },
{
    lemma_all_good(job, outs);
}

proof fn lemma_all_good(job: SendJob, outs: Seq<Outcome>)
    requires
        is_send_run(job, outs),
        forall|k: int|
            0 <= k < outs.len() ==> (#[trigger] outs[k]).done && outs[k].opened && outs[k].place
                is Some,
    ensures
        ({
            let at = send_run(job, outs);
            let by_window = job.payload != Payload::File && job.start.windows.contains(job.to);
            &&& at.stage == SendStage::CheckingWindow || at.stage == SendStage::Activating
                || at.stage == SendStage::MentioningInWindow || at.stage
                == SendStage::SendingInWindow ==> by_window
            &&& at.stage != SendStage::Finished && !(at.stage == SendStage::CheckingWindow
                || at.stage == SendStage::Activating || at.stage == SendStage::MentioningInWindow
                || at.stage == SendStage::SendingInWindow) ==> !by_window
            &&& at.stage == SendStage::PausingAfterEnter ==> job.payload != Payload::Image
            &&& at.stage == SendStage::Verifying ==> job.payload == Payload::Text
                && !job.skip_verify
            &&& at.stage == SendStage::Finished ==> at.action == if by_window {
                SendAction::Relay
            } else {
                SendAction::Sent(job.payload == Payload::Text && !job.skip_verify)
            }
        }),
    decreases outs.len(),
{
    if outs.len() > 1 {
        let rest = outs.drop_last();
        assert(rest =~= outs.take(outs.len() - 1));
        assert forall|k: int| 1 <= k < rest.len() implies send_run(
            job,
            #[trigger] rest.take(k),
        ).stage != SendStage::Finished by {
            assert(rest.take(k) =~= outs.take(k));
        }
        assert forall|k: int| 0 <= k < rest.len() implies (#[trigger] rest[k]).done
            && rest[k].opened && rest[k].place is Some by {
            assert(outs[k].done);
        }
        lemma_all_good(job, rest);
        assert(outs[outs.len() - 1].done);
    }
}

// ---------------------------------------------------------------------------
// Switching to a chat
// ---------------------------------------------------------------------------

/// Where a run of switching to a chat is.
pub struct ChatPoint {
    pub stage: ChatStage,
    pub action: ChatAction,
    pub current: Option<Seq<char>>,
}

/// Where a run of switching to a chat is after the outcomes; `start` is the chat that is
/// known to be open at the beginning.
pub open spec fn chat_run(
    who: Seq<char>,
    start: Option<Seq<char>>,
    outs: Seq<Outcome>,
) -> ChatPoint
    decreases outs.len(),
{
    if outs.len() <= 1 {
        let next = crate::flow::chat_next(ChatStage::Begin, outs[0], who, start);
        ChatPoint { stage: next.0, action: next.1, current: next.2 }
    } else {
        let before = chat_run(who, start, outs.drop_last());
        let next = crate::flow::chat_next(before.stage, outs.last(), who, before.current);
        ChatPoint { stage: next.0, action: next.1, current: next.2 }
    }
}

/// A run whose actions were carried out one after the other, none after its end.
pub open spec fn is_chat_run(
    who: Seq<char>,
    start: Option<Seq<char>>,
    outs: Seq<Outcome>,
) -> bool {
    &&& outs.len() >= 1
    &&& forall|k: int|
        1 <= k < outs.len() ==> chat_run(who, start, #[trigger] outs.take(k)).stage
            != ChatStage::Finished
}

/// Whether an action was carried out with success.
pub open spec fn switch_did(
    who: Seq<char>,
    start: Option<Seq<char>>,
    outs: Seq<Outcome>,
    action: ChatAction,
) -> bool {
    exists|k: int| #[trigger] switch_did_at(who, start, outs, k, action)
}

/// Whether the action before outcome `k` was `action`, and succeeded.
pub open spec fn switch_did_at(
    who: Seq<char>,
    start: Option<Seq<char>>,
    outs: Seq<Outcome>,
    k: int,
    action: ChatAction,
) -> bool {
    1 <= k < outs.len() && chat_run(who, start, outs.take(k)).action == action && outs[k].done
}

/// Whether an item of the list of sessions was found and clicked.
pub open spec fn item_clicked(
    who: Seq<char>,
    start: Option<Seq<char>>,
    outs: Seq<Outcome>,
) -> bool {
    exists|x: i32, y: i32| #[trigger] switch_did(who, start, outs, ChatAction::Click(x, y))
}

/// The action that belongs to a stage, and what was done before it.
spec fn chat_reached(at: ChatPoint, clicked: bool, pasted: bool, entered: bool) -> bool {
    match at.stage {
        ChatStage::Begin => false,
        ChatStage::Focusing => at.action == ChatAction::FocusMain,
        ChatStage::FindingApp => at.action == ChatAction::FindApp,
        ChatStage::FindingItem => at.action == ChatAction::FindItem,
        ChatStage::Clicking => at.action is Click,
        ChatStage::WaitingAfterClick => at.action == ChatAction::WaitMessages(1500, 50) && clicked,
        ChatStage::OpeningSearch => at.action == ChatAction::OpenSearch,
        ChatStage::WaitingSearchBox => at.action is WaitSearchBox,
        ChatStage::SelectingAll => at.action == ChatAction::SelectAll,
        ChatStage::Pausing => at.action is Sleep,
        ChatStage::Pasting => at.action == ChatAction::PasteName,
        ChatStage::WaitingResults => at.action is WaitResults && pasted,
        ChatStage::Choosing => at.action == ChatAction::Enter && pasted,
        ChatStage::WaitingMessages => at.action == ChatAction::WaitMessages(2000, 50) && pasted
            && entered,
        ChatStage::ClosingSearch => at.action == ChatAction::Escape && pasted && entered,
        ChatStage::WaitingRestored => at.action == ChatAction::WaitMessages(800, 50) && pasted
            && entered,
        ChatStage::Checking => at.action == ChatAction::CheckMessages && pasted && entered,
        ChatStage::Finished => at.action is Opened || at.action is NotFound || at.action is Fail,
    }
}

proof fn lemma_switch_did(
    who: Seq<char>,
    start: Option<Seq<char>>,
    outs: Seq<Outcome>,
    action: ChatAction,
)
    requires
        outs.len() > 1,
    ensures
        switch_did(who, start, outs.drop_last(), action) ==> switch_did(who, start, outs, action),
        chat_run(who, start, outs.drop_last()).action == action && outs.last().done ==> switch_did(
            who,
            start,
            outs,
            action,
        ),
{
    let rest = outs.drop_last();
    if switch_did(who, start, rest, action) {
        let k = choose|k: int| #[trigger] switch_did_at(who, start, rest, k, action);
        assert(rest.take(k) =~= outs.take(k));
        assert(switch_did_at(who, start, outs, k, action));
    }
    let k = outs.len() - 1;
    assert(outs.take(k) =~= rest);
    if chat_run(who, start, rest).action == action && outs.last().done {
        assert(switch_did_at(who, start, outs, k, action));
    }
}

proof fn lemma_item_clicked(who: Seq<char>, start: Option<Seq<char>>, outs: Seq<Outcome>)
    requires
        outs.len() > 1,
    ensures
        item_clicked(who, start, outs.drop_last()) ==> item_clicked(who, start, outs),
        chat_run(who, start, outs.drop_last()).action is Click && outs.last().done ==> item_clicked(
            who,
            start,
            outs,
        ),
{
    let rest = outs.drop_last();
    if item_clicked(who, start, rest) {
        let (x, y) = choose|x: i32, y: i32| #[trigger]
            switch_did(who, start, rest, ChatAction::Click(x, y));
        lemma_switch_did(who, start, outs, ChatAction::Click(x, y));
    }
    let before = chat_run(who, start, rest).action;
    if before is Click && outs.last().done {
        match before {
            ChatAction::Click(x, y) => {
                lemma_switch_did(who, start, outs, ChatAction::Click(x, y));
                assert(switch_did(who, start, outs, ChatAction::Click(x, y)));
            },
            _ => {},
        }
    }
}

proof fn lemma_chat_reached(who: Seq<char>, start: Option<Seq<char>>, outs: Seq<Outcome>)
    requires
        is_chat_run(who, start, outs),
    ensures
        chat_reached(
            chat_run(who, start, outs),
            item_clicked(who, start, outs),
            switch_did(who, start, outs, ChatAction::PasteName),
            switch_did(who, start, outs, ChatAction::Enter),
        ),
        chat_run(who, start, outs).stage != ChatStage::Finished ==> chat_run(
            who,
            start,
            outs,
        ).current == start && start != Some(who),
        outs.len() > 1 ==> {
            let rest = outs.drop_last();
            &&& is_chat_run(who, start, rest)
            &&& chat_run(who, start, rest).stage != ChatStage::Finished
            &&& chat_run(who, start, rest).current == start
            &&& chat_reached(
                chat_run(who, start, rest),
                item_clicked(who, start, rest),
                switch_did(who, start, rest, ChatAction::PasteName),
                switch_did(who, start, rest, ChatAction::Enter),
            )
        },
    decreases outs.len(),
{
    if outs.len() > 1 {
        let rest = outs.drop_last();
        assert(rest =~= outs.take(outs.len() - 1));
        assert forall|k: int| 1 <= k < rest.len() implies chat_run(
            who,
            start,
            #[trigger] rest.take(k),
        ).stage != ChatStage::Finished by {
            assert(rest.take(k) =~= outs.take(k));
        }
        lemma_chat_reached(who, start, rest);
        lemma_switch_did(who, start, outs, ChatAction::PasteName);
        lemma_switch_did(who, start, outs, ChatAction::Enter);
        lemma_item_clicked(who, start, outs);
    }
}

/// A chat counts as open only where it was known to be, where its item in the list of
/// sessions was found and clicked, or where its name was pasted into the search, the
/// result was taken, and the list of messages was seen; and a chat counts as missing only
/// where that list was not seen after searching for it.
pub proof fn chats_open_for_a_reason(who: Seq<char>, start: Option<Seq<char>>, outs: Seq<Outcome>)
    requires
        is_chat_run(who, start, outs),
    ensures
        ({
            let now = chat_run(who, start, outs);
            let checked = outs.len() > 1 && chat_run(who, start, outs.drop_last()).action
                == ChatAction::CheckMessages && switch_did(who, start, outs, ChatAction::PasteName)
                && switch_did(who, start, outs, ChatAction::Enter);
            &&& now.action == ChatAction::Opened ==> start == Some(who) || item_clicked(
                who,
                start,
                outs,
            ) || (checked && outs.last().done)
            &&& now.action == ChatAction::NotFound ==> checked && !outs.last().done
                && now.current is None
            &&& now.action == ChatAction::Opened ==> now.current == Some(who) || (now.current
                == start && crate::message::is_group_chat(who) && checked)
            &&& !(now.action is Opened || now.action is NotFound) ==> now.current == start
        }),
{
    lemma_chat_reached(who, start, outs);
    if outs.len() > 1 {
        lemma_switch_did(who, start, outs, ChatAction::PasteName);
        lemma_switch_did(who, start, outs, ChatAction::Enter);
        lemma_item_clicked(who, start, outs);
    }
}

/// How switching to a chat answers to what came of an action: where the chat is known to
/// be open nothing is done; keys and clicks that could not be carried out end it with their
/// own error, a client that is not found with its error; the item is clicked where it was
/// found, and only where there is none the chat is searched for.
pub proof fn switching_answers_to_outcomes(
    who: Seq<char>,
    start: Option<Seq<char>>,
    outs: Seq<Outcome>,
)
    requires
        is_chat_run(who, start, outs),
    ensures
        ({
            let before = chat_run(who, start, outs.drop_last()).action;
            let now = chat_run(who, start, outs).action;
            let last = outs.last();
            let passed = ChatAction::Fail(FlowError::Passed);
            &&& outs.len() == 1 ==> now == if start == Some(who) {
                ChatAction::Opened
            } else {
                ChatAction::FocusMain
            }
            &&& outs.len() > 1 ==> {
                &&& before == ChatAction::FocusMain ==> now == ChatAction::FindApp
                &&& before == ChatAction::FindApp ==> now == if last.done {
                    ChatAction::FindItem
                } else {
                    ChatAction::Fail(FlowError::NoApp)
                }
                &&& before == ChatAction::FindItem ==> match last.place {
                    Some(place) => now == ChatAction::Click(place.0, place.1),
                    None => now == ChatAction::OpenSearch,
                }
                &&& (before is Click || before is OpenSearch || before is SelectAll
                    || before is PasteName || before is Enter || before is Escape) ==> (now
                    == passed <==> !last.done)
                &&& now == passed ==> !last.done
                &&& before is OpenSearch && last.done ==> now is WaitSearchBox
                &&& before is WaitSearchBox ==> now == ChatAction::SelectAll
                &&& before is SelectAll && last.done ==> now is Sleep
                &&& before is Sleep ==> now == ChatAction::PasteName
                &&& before is PasteName && last.done ==> now is WaitResults
                &&& before is WaitResults ==> now == ChatAction::Enter
                &&& (before is Click || before is Enter || before is Escape) && last.done ==> now
                    is WaitMessages
                &&& before is WaitMessages ==> now is Opened || now is Escape || now
                    is CheckMessages
                &&& before is CheckMessages ==> now == if last.done {
                    ChatAction::Opened
                } else {
                    ChatAction::NotFound
                }
            }
        }),
{
    lemma_chat_reached(who, start, outs);
}

// ---------------------------------------------------------------------------
// Chat windows
// ---------------------------------------------------------------------------

/// Where a run of opening a chat window is.
pub struct ListenPoint {
    pub stage: ListenStage,
    pub action: ListenAction,
    pub state: crate::wechat::WeChatView,
}

/// Where a run of opening a chat window is after the outcomes.
pub open spec fn listen_run(
    who: Seq<char>,
    start: crate::wechat::WeChatView,
    outs: Seq<Outcome>,
) -> ListenPoint
    decreases outs.len(),
{
    if outs.len() <= 1 {
        let next = crate::flow::listen_next(ListenStage::Begin, outs[0], who, start.windows);
        ListenPoint {
            stage: next.0,
            action: next.1,
            state: crate::flow::listen_state(ListenStage::Begin, outs[0], who, start),
        }
    } else {
        let before = listen_run(who, start, outs.drop_last());
        let next = crate::flow::listen_next(before.stage, outs.last(), who, before.state.windows);
        ListenPoint {
            stage: next.0,
            action: next.1,
            state: crate::flow::listen_state(before.stage, outs.last(), who, before.state),
        }
    }
}

/// A run whose actions were carried out one after the other, none after its end.
pub open spec fn is_listen_run(
    who: Seq<char>,
    start: crate::wechat::WeChatView,
    outs: Seq<Outcome>,
) -> bool {
    &&& outs.len() >= 1
    &&& forall|k: int|
        1 <= k < outs.len() ==> listen_run(who, start, #[trigger] outs.take(k)).stage
            != ListenStage::Finished
}

/// How many attempts of a run have failed.
pub open spec fn failed_attempts(
    who: Seq<char>,
    start: crate::wechat::WeChatView,
    outs: Seq<Outcome>,
) -> nat
    decreases outs.len(),
{
    if outs.len() <= 1 {
        0
    } else {
        let action = listen_run(who, start, outs.drop_last()).action;
        let failed = ((action is SwitchChat || action is AwaitWindow) && !outs.last().done) || (
        action is FindItem && outs.last().place is None);
        failed_attempts(who, start, outs.drop_last()) + if failed {
            1nat
        } else {
            0
        }
    }
}

spec fn listen_reached(at: ListenPoint, who: Seq<char>, failures: nat) -> bool {
    match at.stage {
        ListenStage::Begin => false,
        ListenStage::FindingApp => at.action == ListenAction::FindApp && failures == 0,
        ListenStage::CheckingAlive => at.action == ListenAction::CheckAlive && failures == 0
            && at.state.windows.contains(who),
        ListenStage::FindingWindow => at.action == ListenAction::FindWindow && failures == 0,
        ListenStage::Pausing(n) => at.action is Sleep && n == failures && 1 <= n <= 3,
        ListenStage::Focusing(n) => at.action == ListenAction::FocusMain && n == failures && n <= 3,
        ListenStage::Switching(n) => at.action == ListenAction::SwitchChat && n == failures && n
            <= 3,
        ListenStage::FindingItem(n) => at.action == ListenAction::FindItem && n == failures && n
            <= 3,
        ListenStage::DoubleClicking(n) => at.action is DoubleClick && n == failures && n <= 3,
        ListenStage::Appearing(n) => at.action is WaitWindow && n == failures && n <= 3,
        ListenStage::Awaiting(n) => at.action is AwaitWindow && n == failures && n <= 3
            && at.state.current_chat is None,
        ListenStage::Finished => at.action is Listening || at.action is NotListening || at.action
            is Fail,
    }
}

proof fn lemma_listen_reached(
    who: Seq<char>,
    start: crate::wechat::WeChatView,
    outs: Seq<Outcome>,
)
    requires
        is_listen_run(who, start, outs),
    ensures
        listen_reached(
            listen_run(who, start, outs),
            who,
            failed_attempts(who, start, outs),
        ),
        failed_attempts(who, start, outs) <= 4,
        outs.len() > 1 ==> {
            let rest = outs.drop_last();
            &&& is_listen_run(who, start, rest)
            &&& listen_run(who, start, rest).stage != ListenStage::Finished
            &&& listen_reached(
                listen_run(who, start, rest),
                who,
                failed_attempts(who, start, rest),
            )
        },
    decreases outs.len(),
{
    if outs.len() > 1 {
        let rest = outs.drop_last();
        assert(rest =~= outs.take(outs.len() - 1));
        assert forall|k: int| 1 <= k < rest.len() implies listen_run(
            who,
            start,
            #[trigger] rest.take(k),
        ).stage != ListenStage::Finished by {
            assert(rest.take(k) =~= outs.take(k));
        }
        lemma_listen_reached(who, start, rest);
    }
}

/// How opening a chat window answers to what came of an action. A known window is looked
/// after first, and forgotten where it is gone; a window that is there is taken; else the
/// chat is switched to, its item is double clicked where it stands, and the window is
/// awaited. A failed attempt is followed by another after a pause, which is longer each
/// time, and the fourth failure is the end.
pub proof fn listening_answers_to_outcomes(
    who: Seq<char>,
    start: crate::wechat::WeChatView,
    outs: Seq<Outcome>,
)
    requires
        is_listen_run(who, start, outs),
        outs.len() > 1,
    ensures
        ({
            let before = listen_run(who, start, outs.drop_last());
            let now = listen_run(who, start, outs);
            let last = outs.last();
            let failures = failed_attempts(who, start, outs);
            &&& before.action == ListenAction::FindApp ==> now.action == if !last.done {
                ListenAction::Fail(FlowError::NoApp)
            } else if before.state.windows.contains(who) {
                ListenAction::CheckAlive
            } else {
                ListenAction::FindWindow
            }
            &&& before.action == ListenAction::CheckAlive ==> if last.done {
                now.action == ListenAction::Listening && now.state.windows.contains(who)
            } else {
                now.action == ListenAction::FindWindow && !now.state.windows.contains(who)
            }
            &&& before.action == ListenAction::FindWindow ==> if last.done {
                now.action == ListenAction::Listening && now.state.windows.contains(who)
            } else {
                now.action == ListenAction::FocusMain
            }
            &&& before.action is Sleep ==> now.action == ListenAction::FocusMain
            &&& before.action == ListenAction::FocusMain ==> now.action == ListenAction::SwitchChat
            &&& before.action == ListenAction::SwitchChat && last.done ==> now.action
                == ListenAction::FindItem
            &&& before.action == ListenAction::FindItem ==> match last.place {
                Some(place) => now.action == ListenAction::DoubleClick(place.0, place.1),
                None => now.action is Sleep || now.action is NotListening,
            }
            &&& before.action is DoubleClick ==> if last.done {
                now.action is WaitWindow
            } else {
                now.action == ListenAction::Fail(FlowError::Passed)
            }
            &&& before.action is WaitWindow ==> now.action is AwaitWindow
                && now.state.current_chat is None
            &&& before.action is AwaitWindow && last.done ==> now.action == ListenAction::Listening
                && now.state.windows.contains(who) && now.state.current_chat is None
            &&& failures > failed_attempts(who, start, outs.drop_last()) ==> if failures < 4 {
                now.action == ListenAction::Sleep((500 + 500 * failures) as u64)
            } else {
                now.action == ListenAction::NotListening
            }
            &&& now.action is Sleep || now.action is NotListening ==> failures > failed_attempts(
                who,
                start,
                outs.drop_last(),
            )
            &&& now.action is Listening ==> last.done && now.state.windows.contains(who)
            &&& now.action is Fail ==> !last.done
        }),
{
    lemma_listen_reached(who, start, outs);
    let before = listen_run(who, start, outs.drop_last());
    if before.action == ListenAction::CheckAlive {
        crate::command::removal_removes(before.state.windows, who, who);
    }
    let with = crate::command::with_name(before.state.windows, who);
    if !before.state.windows.contains(who) {
        assert(with[before.state.windows.len() as int] == who);
    }
}

/// From the first step on somebody is known to be listened to, and nothing but the windows,
/// the listeners and the open chat changes while a chat window is opened; the windows of
/// others stay as they are.
pub proof fn listening_touches_one_window(
    who: Seq<char>,
    start: crate::wechat::WeChatView,
    outs: Seq<Outcome>,
    other: Seq<char>,
)
    requires
        is_listen_run(who, start, outs),
        other != who,
    ensures
        ({
            let now = listen_run(who, start, outs).state;
            &&& now.targets == crate::wechat::with_name_in_order(start.targets, who)
            &&& now.windows.contains(other) <==> start.windows.contains(other)
            &&& now.at_delay_ms == start.at_delay_ms
            &&& now.current_chat == start.current_chat || now.current_chat is None
        }),
    decreases outs.len(),
{
    lemma_listen_reached(who, start, outs);
    if outs.len() > 1 {
        let rest = outs.drop_last();
        listening_touches_one_window(who, start, rest, other);
        let before = listen_run(who, start, rest).state;
        crate::command::removal_removes(before.windows, who, other);
        let with = crate::command::with_name(before.windows, who);
        if before.windows.contains(other) {
            let k = choose|k: int| 0 <= k < before.windows.len() && before.windows[k] == other;
            assert(with[k] == other);
        }
        if with.contains(other) {
            let k = choose|k: int| 0 <= k < with.len() && with[k] == other;
            assert(before.windows[k] == other);
        }
    }
}

/// Sending touches no window but that of its chat, which may be forgotten but never taken,
/// and it names no chat as the open one.
pub proof fn sending_touches_one_window(job: SendJob, outs: Seq<Outcome>, other: Seq<char>)
    requires
        is_send_run(job, outs),
        other != job.to,
    ensures
        ({
            let now = send_run(job, outs).state;
            &&& now.targets == job.start.targets
            &&& now.windows.contains(other) <==> job.start.windows.contains(other)
            &&& now.windows.contains(job.to) ==> job.start.windows.contains(job.to)
            &&& now.at_delay_ms == job.start.at_delay_ms
            &&& now.current_chat == job.start.current_chat || now.current_chat is None
        }),
    decreases outs.len(),
{
    lemma_reached(job, outs);
    if outs.len() > 1 {
        let rest = outs.drop_last();
        sending_touches_one_window(job, rest, other);
        let before = send_run(job, rest).state;
        crate::command::removal_removes(before.windows, job.to, other);
    }
}

// ---------------------------------------------------------------------------
// Mentions
// ---------------------------------------------------------------------------

/// The names that are pasted, in order.
pub open spec fn pasted_names(steps: Seq<crate::flow::MentionView>) -> Seq<Seq<char>>
    decreases steps.len(),
{
    if steps.len() == 0 {
        seq![]
    } else {
        let before = pasted_names(steps.drop_last());
        match steps.last() {
            crate::flow::MentionView::PasteName(name) => before.push(name),
            _ => before,
        }
    }
}

/// The names that are not empty, in order.
pub open spec fn named(names: Seq<Seq<char>>) -> Seq<Seq<char>>
    decreases names.len(),
{
    if names.len() == 0 {
        seq![]
    } else if names.last().len() == 0 {
        named(names.drop_last())
    } else {
        named(names.drop_last()).push(names.last())
    }
}

proof fn lemma_pasted_names(
    steps: Seq<crate::flow::MentionView>,
    name: Seq<char>,
    delay_ms: u64,
)
    ensures
        pasted_names(steps + crate::flow::mention_of(name, delay_ms)) == pasted_names(steps).push(
            name,
        ),
{
    let more = crate::flow::mention_of(name, delay_ms);
    let all = steps + more;
    assert(all.drop_last().drop_last().drop_last().drop_last().drop_last().drop_last() =~= steps);
    reveal_with_fuel(pasted_names, 7);
}

/// The steps of a mention, wherever it stands.
pub open spec fn mention_at(
    steps: Seq<crate::flow::MentionView>,
    k: int,
    name: Seq<char>,
    delay_ms: u64,
) -> bool {
    &&& 2 <= k < steps.len() - 3
    &&& steps[k] == crate::flow::MentionView::PasteName(name)
    &&& steps[k - 2] == crate::flow::MentionView::TypeAt
    &&& steps[k - 1] == crate::flow::MentionView::Sleep(delay_ms)
    &&& steps[k + 1] == crate::flow::MentionView::Sleep(delay_ms)
    &&& steps[k + 2] == crate::flow::MentionView::Enter
}

/// Exactly the names that are not empty are pasted, in their order; and before each the
/// sign is typed, and after it the return key takes the choice, each after the delay.
pub proof fn mentions_name_everybody(names: Seq<Seq<char>>, delay_ms: u64)
    requires
        delay_ms <= u64::MAX / 2,
    ensures
        pasted_names(crate::flow::mentions_of(names, delay_ms)) == named(names),
        crate::flow::mentions_of(names, delay_ms).len() == 6 * named(names).len(),
        forall|k: int|
            0 <= k < named(names).len() ==> mention_at(
                crate::flow::mentions_of(names, delay_ms),
                6 * k + 2,
                #[trigger] named(names)[k],
                delay_ms,
            ),
    decreases names.len(),
{
    if names.len() > 0 {
        let rest = names.drop_last();
        mentions_name_everybody(rest, delay_ms);
        let before = crate::flow::mentions_of(rest, delay_ms);
        let all = crate::flow::mentions_of(names, delay_ms);
        if names.last().len() > 0 {
            lemma_pasted_names(before, names.last(), delay_ms);
            assert forall|k: int| 0 <= k < named(names).len() implies mention_at(
                all,
                6 * k + 2,
                #[trigger] named(names)[k],
                delay_ms,
            ) by {
                if k < named(rest).len() {
                    assert(mention_at(before, 6 * k + 2, named(rest)[k], delay_ms));
                }
            }
        }
    }
}

/// Whoever is mentioned is mentioned at the given pace: a pause of the delay after each of
/// the sign and the name, and two thirds of it after the choice.
pub proof fn mentions_keep_their_pace(name: Seq<char>, delay_ms: u64)
    ensures
        ({
            let steps = crate::flow::mention_of(name, delay_ms);
            &&& steps.len() == 6
            &&& steps[1] == crate::flow::MentionView::Sleep(delay_ms)
            &&& steps[3] == crate::flow::MentionView::Sleep(delay_ms)
            &&& steps[5] matches crate::flow::MentionView::Sleep(last) && 3 * last <= 2 * delay_ms
                && 2 * delay_ms < 3 * last + 3
        }),
{
}

} // verus!
