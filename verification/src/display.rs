//! The clipboard and the windows of the display.

use vstd::prelude::*;
use vstd::string::*;

use crate::outside::utf8_text_lossy;
use crate::text::{ends_with, text_contains, text_eq};

verus! {

// ---------------------------------------------------------------------------
// The clipboard
// ---------------------------------------------------------------------------

/// The names under which the clipboard can be asked for: the list of the names, and the
/// text under two names.
#[derive(Clone, Copy, Debug, PartialEq, Eq, Structural)]
pub struct ClipboardAtoms {
    pub targets: u32,
    pub utf8_string: u32,
    pub string: u32,
}

/// How a request for the clipboard is answered.
#[derive(Clone, Copy, Debug, PartialEq, Eq, Structural)]
pub enum SelectionAnswer {
    /// With the names under which the text can be had.
    Targets,
    /// With the text.
    Text,
    /// Not at all.
    Refuse,
}

/// How a request for the clipboard is answered.
pub open spec fn answer_to(atoms: ClipboardAtoms, target: u32) -> SelectionAnswer {
    if target == atoms.targets {
        SelectionAnswer::Targets
    } else if target == atoms.utf8_string || target == atoms.string {
        SelectionAnswer::Text
    } else {
        SelectionAnswer::Refuse
    }
}

/// How a request for the clipboard is answered.
pub fn answer_selection(atoms: ClipboardAtoms, target: u32) -> (answer: SelectionAnswer)
    ensures
        answer == answer_to(atoms, target),
{
    if target == atoms.targets {
        SelectionAnswer::Targets
    } else if target == atoms.utf8_string || target == atoms.string {
        SelectionAnswer::Text
    } else {
        SelectionAnswer::Refuse
    }
}

/// The property that the answer names: the one that was asked for, or none where the
/// request is refused.
pub fn answer_property(answer: SelectionAnswer, property: u32) -> (named: u32)
    ensures
        named == if answer == SelectionAnswer::Refuse {
            0
        } else {
            property
        },
{
    match answer {
        SelectionAnswer::Refuse => 0,
        _ => property,
    }
}

/// The names under which the text can be had.
pub fn target_list(atoms: ClipboardAtoms) -> (targets: Vec<u32>)
    ensures
        targets@ == seq![atoms.targets, atoms.utf8_string, atoms.string],
{
    let mut targets: Vec<u32> = Vec::new();
    targets.push(atoms.targets);
    targets.push(atoms.utf8_string);
    targets.push(atoms.string);
    proof {
        assert(targets@ =~= seq![atoms.targets, atoms.utf8_string, atoms.string]);
    }
    targets
}

/// How far the clipboard has been served.
#[derive(Clone, Copy, Debug, PartialEq, Eq, Structural)]
pub enum ClipboardPhase {
    /// Nobody has taken the text yet.
    Serving,
    /// The text was taken; whoever took it may ask for more.
    Lingering,
    Finished,
}

/// What happened at the clipboard.
#[derive(Clone, Copy, Debug, PartialEq, Eq, Structural)]
pub enum ClipboardEvent {
    /// Somebody asks for it under that name.
    Request(u32),
    /// Somebody else owns it now.
    Cleared,
    /// Something else.
    Other,
    /// Nothing.
    Idle,
    /// The time is over.
    TimedOut,
}

/// What is done at the clipboard.
#[derive(Clone, Copy, Debug, PartialEq, Eq, Structural)]
pub enum ClipboardAction {
    Answer(SelectionAnswer),
    /// A pause, in milliseconds.
    Sleep(u64),
    Nothing,
}

/// How long the clipboard is served before anybody takes the text, in milliseconds.
pub const SERVING_MS: u64 = 3000;

/// How long it is served after the text was taken, in milliseconds.
pub const LINGERING_MS: u64 = 200;

/// What is done at an event, and how far the clipboard is served then. Once the text was
/// taken the clipboard is served a little longer, also to its new owner.
pub open spec fn served(
    atoms: ClipboardAtoms,
    phase: ClipboardPhase,
    event: ClipboardEvent,
) -> (ClipboardPhase, ClipboardAction) {
    match phase {
        ClipboardPhase::Serving => match event {
            ClipboardEvent::Request(target) => (
                if target == atoms.utf8_string || target == atoms.string {
                    ClipboardPhase::Lingering
                } else {
                    ClipboardPhase::Serving
                },
                ClipboardAction::Answer(answer_to(atoms, target)),
            ),
            ClipboardEvent::Cleared => (ClipboardPhase::Finished, ClipboardAction::Nothing),
            ClipboardEvent::Other => (ClipboardPhase::Serving, ClipboardAction::Nothing),
            ClipboardEvent::Idle => (ClipboardPhase::Serving, ClipboardAction::Sleep(5)),
            ClipboardEvent::TimedOut => (ClipboardPhase::Finished, ClipboardAction::Nothing),
        },
        ClipboardPhase::Lingering => match event {
            ClipboardEvent::Request(target) => (
                ClipboardPhase::Lingering,
                ClipboardAction::Answer(answer_to(atoms, target)),
            ),
            ClipboardEvent::TimedOut => (ClipboardPhase::Finished, ClipboardAction::Nothing),
            _ => (ClipboardPhase::Lingering, ClipboardAction::Sleep(10)),
        },
        ClipboardPhase::Finished => (ClipboardPhase::Finished, ClipboardAction::Nothing),
    }
}

/// What is done at an event, and how far the clipboard is served then.
pub fn serve_clipboard(
    atoms: ClipboardAtoms,
    phase: ClipboardPhase,
    event: ClipboardEvent,
) -> (next: (ClipboardPhase, ClipboardAction))
    ensures
        next == served(atoms, phase, event),
{
    match phase {
        ClipboardPhase::Serving => match event {
            ClipboardEvent::Request(target) => {
                let answer = answer_selection(atoms, target);
                let next = if target == atoms.utf8_string || target == atoms.string {
                    ClipboardPhase::Lingering
                } else {
                    ClipboardPhase::Serving
                };
                (next, ClipboardAction::Answer(answer))
            },
            ClipboardEvent::Cleared => (ClipboardPhase::Finished, ClipboardAction::Nothing),
            ClipboardEvent::Other => (ClipboardPhase::Serving, ClipboardAction::Nothing),
            ClipboardEvent::Idle => (ClipboardPhase::Serving, ClipboardAction::Sleep(5)),
            ClipboardEvent::TimedOut => (ClipboardPhase::Finished, ClipboardAction::Nothing),
        },
        ClipboardPhase::Lingering => match event {
            ClipboardEvent::Request(target) => (
                ClipboardPhase::Lingering,
                ClipboardAction::Answer(answer_selection(atoms, target)),
            ),
            ClipboardEvent::TimedOut => (ClipboardPhase::Finished, ClipboardAction::Nothing),
            _ => (ClipboardPhase::Lingering, ClipboardAction::Sleep(10)),
        },
        ClipboardPhase::Finished => (ClipboardPhase::Finished, ClipboardAction::Nothing),
    }
}

/// How long a phase lasts at most, in milliseconds.
pub fn phase_limit(phase: ClipboardPhase) -> (limit: u64)
    ensures
        limit == match phase {
            ClipboardPhase::Serving => SERVING_MS,
            ClipboardPhase::Lingering => LINGERING_MS,
            ClipboardPhase::Finished => 0,
        },
{
    match phase {
        ClipboardPhase::Serving => SERVING_MS,
        ClipboardPhase::Lingering => LINGERING_MS,
        ClipboardPhase::Finished => 0,
    }
}

/// Every request is answered as long as the clipboard is served; the text is handed out
/// under its two names and the list of names under its own, and a clipboard that timed out
/// or is finished stays finished.
pub proof fn clipboard_answers_requests(atoms: ClipboardAtoms, phase: ClipboardPhase, target: u32)
    requires
        atoms.targets != atoms.utf8_string,
        atoms.targets != atoms.string,
    ensures
        phase != ClipboardPhase::Finished ==> served(atoms, phase, ClipboardEvent::Request(target)).1
            == ClipboardAction::Answer(answer_to(atoms, target)),
        answer_to(atoms, atoms.utf8_string) == SelectionAnswer::Text,
        answer_to(atoms, atoms.string) == SelectionAnswer::Text,
        answer_to(atoms, atoms.targets) == SelectionAnswer::Targets,
        served(atoms, phase, ClipboardEvent::TimedOut).0 == ClipboardPhase::Finished,
        phase == ClipboardPhase::Finished ==> served(
            atoms,
            phase,
            ClipboardEvent::Request(target),
        ).0 == ClipboardPhase::Finished,
{
}

/// How far pasting a text has come.
#[derive(Clone, Copy, Debug, PartialEq, Eq, Structural)]
pub enum PasteStage {
    /// The text is offered; it is not known yet whether the clipboard is owned.
    Offering,
    /// The keys are being pressed.
    Pressing,
    /// The clipboard is served until it is over.
    Serving,
    Finished,
}

/// What happens while a text is pasted.
#[derive(Clone, Copy, Debug, PartialEq, Eq, Structural)]
pub enum PasteEvent {
    /// The clipboard is owned.
    Owned,
    /// What was under way is done.
    Done,
    /// It failed.
    Failed,
}

/// What is done next while a text is pasted.
#[derive(Clone, Copy, Debug, PartialEq, Eq, Structural)]
pub enum PasteAction {
    /// The keys are pressed.
    Press,
    /// The end of the clipboard's service is waited for.
    Await,
    /// The pause after pasting.
    Rest,
    /// What failed is told.
    GiveUp,
}

/// What is done while a text is pasted: the keys are pressed once the clipboard is owned,
/// and not at all where it cannot be.
pub open spec fn pasted(stage: PasteStage, event: PasteEvent) -> (PasteStage, PasteAction) {
    match (stage, event) {
        (PasteStage::Offering, PasteEvent::Owned) => (PasteStage::Pressing, PasteAction::Press),
        (PasteStage::Pressing, PasteEvent::Done) => (PasteStage::Serving, PasteAction::Await),
        (PasteStage::Serving, PasteEvent::Done) => (PasteStage::Finished, PasteAction::Rest),
        _ => (PasteStage::Finished, PasteAction::GiveUp),
    }
}

/// What is done while a text is pasted.
pub fn paste_step(stage: PasteStage, event: PasteEvent) -> (next: (PasteStage, PasteAction))
    ensures
        next == pasted(stage, event),
{
    match (stage, event) {
        (PasteStage::Offering, PasteEvent::Owned) => (PasteStage::Pressing, PasteAction::Press),
        (PasteStage::Pressing, PasteEvent::Done) => (PasteStage::Serving, PasteAction::Await),
        (PasteStage::Serving, PasteEvent::Done) => (PasteStage::Finished, PasteAction::Rest),
        _ => (PasteStage::Finished, PasteAction::GiveUp),
    }
}

/// How often the keys are pressed in the course of events.
pub open spec fn presses(stage: PasteStage, events: Seq<PasteEvent>) -> nat
    decreases events.len(),
{
    if events.len() == 0 {
        0
    } else {
        let (next, action) = pasted(stage, events[0]);
        (if action == PasteAction::Press {
            1nat
        } else {
            0
        }) + presses(next, events.skip(1))
    }
}

/// The keys are pressed only after the clipboard was owned, and only once.
pub proof fn pasting_presses_once_owned(events: Seq<PasteEvent>)
    ensures
        presses(PasteStage::Offering, events) == if events.len() > 0 && events[0]
            == PasteEvent::Owned {
            1nat
        } else {
            0
        },
{
    if events.len() > 0 {
        lemma_pressed_no_more(pasted(PasteStage::Offering, events[0]).0, events.skip(1));
    }
}

proof fn lemma_pressed_no_more(stage: PasteStage, events: Seq<PasteEvent>)
    requires
        stage != PasteStage::Offering,
    ensures
        presses(stage, events) == 0,
    decreases events.len(),
{
    if events.len() > 0 {
        lemma_pressed_no_more(pasted(stage, events[0]).0, events.skip(1));
    }
}

/// The type of an image, by the ending of its name; PNG where the ending says nothing.
pub open spec fn mime_of(path: Seq<char>) -> Seq<char> {
    if crate::text::has_suffix(path, ".png"@) {
        "image/png"@
    } else if crate::text::has_suffix(path, ".jpg"@) || crate::text::has_suffix(path, ".jpeg"@) {
        "image/jpeg"@
    } else if crate::text::has_suffix(path, ".gif"@) {
        "image/gif"@
    } else if crate::text::has_suffix(path, ".bmp"@) {
        "image/bmp"@
    } else {
        "image/png"@
    }
}

/// The type of an image, by the ending of its name.
pub fn image_mime(path: &str) -> (mime: &'static str)
    ensures
        mime@ == mime_of(path@),
{
    if ends_with(path, ".png") {
        "image/png"
    } else if ends_with(path, ".jpg") || ends_with(path, ".jpeg") {
        "image/jpeg"
    } else if ends_with(path, ".gif") {
        "image/gif"
    } else if ends_with(path, ".bmp") {
        "image/bmp"
    } else {
        "image/png"
    }
}

// ---------------------------------------------------------------------------
// Windows
// ---------------------------------------------------------------------------

/// Whether the window manager's list of windows can be used: numbers of thirty-two bits,
/// and not empty. Otherwise the tree of windows is asked for.
pub fn has_client_list(format: u8, value_len: usize) -> (usable: bool)
    ensures
        usable == (format == 32 && value_len > 0),
{
    format == 32 && value_len > 0
}

/// The number that four bytes stand for, the least significant first unless `big`.
pub open spec fn word_of(a: u8, b: u8, c: u8, d: u8, big: bool) -> u32 {
    if big {
        (a * 0x100_0000 + b * 0x1_0000 + c * 0x100 + d) as u32
    } else {
        (d * 0x100_0000 + c * 0x1_0000 + b * 0x100 + a) as u32
    }
}

/// The numbers of the windows in the window manager's list, in the byte order of the
/// display; up to three bytes that are left over are dropped.
pub fn client_ids(value: &[u8], big: bool) -> (ids: Vec<u32>)
    ensures
        ids@ == Seq::new(
            value@.len() / 4,
            |k: int|
                word_of(value@[4 * k], value@[4 * k + 1], value@[4 * k + 2], value@[4 * k + 3], big),
        ),
{
    let mut ids: Vec<u32> = Vec::new();
    let length: usize = value.len();
    let count: usize = length / 4;
    let mut i: usize = 0;
    while i < count
        invariant
            i <= count,
            length == value@.len(),
            count == length / 4,
            ids@.len() == i,
            forall|k: int|
                0 <= k < i ==> #[trigger] ids@[k] == word_of(
                    value@[4 * k],
                    value@[4 * k + 1],
                    value@[4 * k + 2],
                    value@[4 * k + 3],
                    big,
                ),
        decreases count - i,
    {
        let a: u32 = value[4 * i] as u32;
        let b: u32 = value[4 * i + 1] as u32;
        let c: u32 = value[4 * i + 2] as u32;
        let d: u32 = value[4 * i + 3] as u32;
        ids.push(
            if big {
                a * 0x100_0000 + b * 0x1_0000 + c * 0x100 + d
            } else {
                d * 0x100_0000 + c * 0x1_0000 + b * 0x100 + a
            },
        );
        i = i + 1;
    }
    proof {
        assert(ids@ =~= Seq::new(
            value@.len() / 4,
            |k: int|
                word_of(value@[4 * k], value@[4 * k + 1], value@[4 * k + 2], value@[4 * k + 3], big),
        ));
    }
    ids
}

/// The title of a window: the newer property, or the older one where that is empty; `None`
/// where the display does not tell.
pub open spec fn title_of(net_name: Option<Vec<u8>>, wm_name: Option<Vec<u8>>) -> Option<Seq<char>> {
    match net_name {
        Some(bytes) => if bytes@.len() > 0 {
            Some(crate::outside::utf8_lossy(bytes@))
        } else {
            match wm_name {
                Some(older) => Some(crate::outside::utf8_lossy(older@)),
                None => None,
            }
        },
        None => None,
    }
}

/// The title of a window.
pub fn window_title(net_name: &Option<Vec<u8>>, wm_name: &Option<Vec<u8>>) -> (title: Option<String>)
    ensures
        crate::text::text_of(title) == title_of(*net_name, *wm_name),
        net_name is Some && net_name->0@.len() > 0 && vstd::utf8::valid_utf8(net_name->0@)
            ==> crate::text::text_of(title) == Some(vstd::utf8::decode_utf8(net_name->0@)),
{
    match net_name {
        Some(bytes) => if bytes.len() > 0 {
            Some(utf8_text_lossy(bytes.as_slice()))
        } else {
            match wm_name {
                Some(older) => Some(utf8_text_lossy(older.as_slice())),
                None => None,
            }
        },
        None => None,
    }
}

/// A window and its title.
#[derive(Debug)]
pub struct Window {
    pub id: u32,
    pub title: String,
}

pub open spec fn windows_view(windows: Seq<Window>) -> Seq<(u32, Seq<char>)> {
    windows.map_values(|w: Window| (w.id, w.title@))
}

/// Whether a title is the wanted one, or contains it where it need not be exact.
pub open spec fn title_matches(title: Seq<char>, wanted: Seq<char>, exact: bool) -> bool {
    if exact {
        title == wanted
    } else {
        crate::text::contains_text(title, wanted)
    }
}

/// The windows whose titles match, in order.
pub open spec fn windows_titled(
    windows: Seq<(u32, Seq<char>)>,
    wanted: Seq<char>,
    exact: bool,
) -> Seq<(u32, Seq<char>)>
    decreases windows.len(),
{
    if windows.len() == 0 {
        seq![]
    } else {
        let before = windows_titled(windows.drop_last(), wanted, exact);
        if title_matches(windows.last().1, wanted, exact) {
            before.push(windows.last())
        } else {
            before
        }
    }
}

/// The windows whose titles match, in order.
pub fn titled_windows(windows: &Vec<Window>, title: &str, exact: bool) -> (found: Vec<Window>)
    ensures
        windows_view(found@) == windows_titled(windows_view(windows@), title@, exact),
{
    let mut found: Vec<Window> = Vec::new();
    let ghost all = windows_view(windows@);
    let mut i: usize = 0;
    while i < windows.len()
        invariant
            i <= windows@.len(),
            all == windows_view(windows@),
            windows_view(found@) =~= windows_titled(all.take(i as int), title@, exact),
        decreases windows@.len() - i,
    {
        let ghost before = windows_view(found@);
        proof {
            assert(all.take(i + 1).drop_last() =~= all.take(i as int));
            assert(all.take(i + 1).last() == (windows@[i as int].id, windows@[i as int].title@));
        }
        let name = windows[i].title.as_str();
        let matched = if exact {
            text_eq(name, title)
        } else {
            text_contains(name, title)
        };
        if matched {
            found.push(Window { id: windows[i].id, title: windows[i].title.clone() });
            proof {
                assert(windows_view(found@) =~= before.push(
                    (windows@[i as int].id, windows@[i as int].title@),
                ));
            }
        }
        i = i + 1;
    }
    proof {
        assert(all.take(all.len() as int) =~= all);
    }
    found
}

/// The window that is activated or closed for a title: the first that matches.
pub fn window_for_title(windows: &Vec<Window>, title: &str, exact: bool) -> (id: Option<u32>)
    ensures
        ({
            let found = windows_titled(windows_view(windows@), title@, exact);
            match id {
                Some(window) => found.len() > 0 && window == found[0].0,
                None => found.len() == 0,
            }
        }),
{
    let found = titled_windows(windows, title, exact);
    proof {
        assert(windows_view(found@).len() == found@.len());
    }
    if found.len() > 0 {
        proof {
            assert(windows_view(found@)[0] == (found@[0].id, found@[0].title@));
        }
        Some(found[0].id)
    } else {
        None
    }
}

// ---------------------------------------------------------------------------
// Laws of the display
// ---------------------------------------------------------------------------

/// What is asked for under a name that nobody offered is refused, and nothing else is.
pub proof fn unknown_names_are_refused(atoms: ClipboardAtoms, target: u32)
    ensures
        answer_to(atoms, target) == SelectionAnswer::Refuse <==> target != atoms.targets && target
            != atoms.utf8_string && target != atoms.string,
{
}

/// The clipboard is served until somebody took the text, and a little longer: only the time
/// or a new owner ends it, and a new owner only before the text was taken. Every request
/// until the end is answered, and nothing is answered without one.
pub proof fn clipboards_are_served_to_the_end(
    atoms: ClipboardAtoms,
    phase: ClipboardPhase,
    event: ClipboardEvent,
)
    requires
        phase != ClipboardPhase::Finished,
    ensures
        ({
            let (next, action) = served(atoms, phase, event);
            &&& next == ClipboardPhase::Finished <==> event == ClipboardEvent::TimedOut || (event
                == ClipboardEvent::Cleared && phase == ClipboardPhase::Serving)
            &&& phase == ClipboardPhase::Serving ==> (next == ClipboardPhase::Lingering
                <==> action == ClipboardAction::Answer(SelectionAnswer::Text) || (exists|t: u32|
                event == ClipboardEvent::Request(t) && t == atoms.targets && (t
                    == atoms.utf8_string || t == atoms.string)))
            &&& phase == ClipboardPhase::Lingering ==> next != ClipboardPhase::Serving
            &&& action is Answer <==> event is Request
            &&& event == ClipboardEvent::Idle ==> action is Sleep
        }),
{
}

/// What was begun is gone through in order: a text is offered, the keys are pressed, the
/// clipboard is served, and nothing more happens; a failure ends it at once.
pub proof fn pasting_goes_in_order(stage: PasteStage, event: PasteEvent)
    ensures
        event == PasteEvent::Failed ==> pasted(stage, event) == (
            PasteStage::Finished,
            PasteAction::GiveUp,
        ),
        pasted(stage, event).1 == PasteAction::Press <==> stage == PasteStage::Offering && event
            == PasteEvent::Owned,
        pasted(stage, event).1 == PasteAction::Await <==> stage == PasteStage::Pressing && event
            == PasteEvent::Done,
        pasted(stage, event).1 == PasteAction::Rest <==> stage == PasteStage::Serving && event
            == PasteEvent::Done,
        pasted(stage, event).0 == PasteStage::Finished <==> pasted(stage, event).1
            == PasteAction::Rest || pasted(stage, event).1 == PasteAction::GiveUp,
{
}

/// The type of an image is the one that its ending names.
pub proof fn images_are_what_their_ending_says(name: Seq<char>)
    ensures
        mime_of(name + ".png"@) == "image/png"@,
        mime_of(name + ".jpg"@) == "image/jpeg"@,
        mime_of(name + ".jpeg"@) == "image/jpeg"@,
        mime_of(name + ".gif"@) == "image/gif"@,
        mime_of(name + ".bmp"@) == "image/bmp"@,
        mime_of(name) == "image/png"@ || mime_of(name) == "image/jpeg"@ || mime_of(name)
            == "image/gif"@ || mime_of(name) == "image/bmp"@,
        mime_of(name) != "image/png"@ ==> crate::text::has_suffix(name, ".jpg"@)
            || crate::text::has_suffix(name, ".jpeg"@) || crate::text::has_suffix(name, ".gif"@)
            || crate::text::has_suffix(name, ".bmp"@),
{
    reveal_strlit(".png");
    reveal_strlit(".jpg");
    reveal_strlit(".jpeg");
    reveal_strlit(".gif");
    reveal_strlit(".bmp");
    lemma_ending(name, ".png"@);
    lemma_ending(name, ".jpg"@);
    lemma_ending(name, ".jpeg"@);
    lemma_ending(name, ".gif"@);
    lemma_ending(name, ".bmp"@);
    assert(".png"@.last() == 'g' && ".png"@[2] == 'n');
    assert(".jpg"@.last() == 'g' && ".jpg"@[2] == 'p');
    assert(".jpeg"@.last() == 'g' && ".jpeg"@[3] == 'e');
    assert(".gif"@.last() == 'f');
    assert(".bmp"@.last() == 'p');
    assert forall|s: Seq<char>, e: Seq<char>|
        #[trigger] crate::text::has_suffix(s, e) && e.len() >= 2 implies s.len() >= 2 && s[s.len()
        - 1] == e[e.len() - 1] && s[s.len() - 2] == e[e.len() - 2] by {
        let tail = s.subrange(s.len() - e.len(), s.len() as int);
        assert(tail[e.len() - 1] == s[s.len() - 1]);
        assert(tail[e.len() - 2] == s[s.len() - 2]);
    }
}

proof fn lemma_ending(name: Seq<char>, ending: Seq<char>)
    ensures
        crate::text::has_suffix(name + ending, ending),
{
    let all = name + ending;
    assert(all.subrange(all.len() - ending.len(), all.len() as int) =~= ending);
}

/// The two byte orders read the same bytes in opposite directions, each byte has its place,
/// and no two lists of four bytes are one number.
pub proof fn numbers_are_read_in_their_byte_order(a: u8, b: u8, c: u8, d: u8, big: bool)
    ensures
        word_of(a, b, c, d, big) == word_of(d, c, b, a, !big),
        word_of(a, 0, 0, 0, false) == a,
        word_of(a, b, c, d, false) % 0x100 == a,
        word_of(a, b, c, d, false) / 0x100 % 0x100 == b,
        word_of(a, b, c, d, false) / 0x1_0000 % 0x100 == c,
        word_of(a, b, c, d, false) / 0x100_0000 == d,
{
}

/// The newer title counts, and the older one only where the newer is empty.
pub proof fn newer_titles_go_first(net_name: Option<Vec<u8>>, wm_name: Option<Vec<u8>>)
    ensures
        net_name is None ==> title_of(net_name, wm_name) is None,
        net_name is Some && net_name->0@.len() > 0 ==> title_of(net_name, wm_name) == Some(
            crate::outside::utf8_lossy(net_name->0@),
        ),
        net_name is Some && net_name->0@.len() == 0 && wm_name is Some ==> title_of(
            net_name,
            wm_name,
        ) == Some(crate::outside::utf8_lossy(wm_name->0@)),
        net_name is Some && net_name->0@.len() == 0 && wm_name is None ==> title_of(
            net_name,
            wm_name,
        ) is None,
{
}

/// The windows with a title are looked for one by one: each that has it is found, in order,
/// and no other. A title that need not be exact is found wherever the exact one is.
pub proof fn windows_are_looked_for_one_by_one(
    windows: Seq<(u32, Seq<char>)>,
    window: (u32, Seq<char>),
    wanted: Seq<char>,
    exact: bool,
)
    ensures
        windows_titled(seq![], wanted, exact).len() == 0,
        window.1 == wanted ==> windows_titled(windows.push(window), wanted, exact)
            == windows_titled(windows, wanted, exact).push(window),
        crate::text::contains_text(window.1, wanted) ==> windows_titled(
            windows.push(window),
            wanted,
            false,
        ) == windows_titled(windows, wanted, false).push(window),
        window.1 != wanted ==> windows_titled(windows.push(window), wanted, true)
            == windows_titled(windows, wanted, true),
        !crate::text::contains_text(window.1, wanted) ==> windows_titled(
            windows.push(window),
            wanted,
            exact,
        ) == windows_titled(windows, wanted, exact),
{
    assert(windows.push(window).drop_last() =~= windows);
    assert(wanted.subrange(0, wanted.len() as int) =~= wanted);
    assert(crate::text::occurs_at(wanted, wanted, 0));
}

} // verus!
